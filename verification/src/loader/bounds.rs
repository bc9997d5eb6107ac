//! Every range that a load reports lies in the source that it names.

use vstd::prelude::*;
use vstd::utf8::encode_utf8;

use super::constraints::{
    constraint_read, implication_read, lexical_ref_errors, list_read, one_or_more,
    ordered_refs_read, spelled_refs, spoken_by, value_read, IdentitySpec, RefContext,
};
use super::external::PreparedSpec;
use super::frontmatter::{frontmatter_build, linked_build, linked_errors, whole_source};
use super::load::{
    all_declared, all_lexical_errors, constraint_range, constraints_build, document_build,
    document_outline_build, document_range_of, load_of, outline_places, provenance_of,
    scope_constraints, scope_lexical_errors, source_build,
};
use super::places::{known_range, range_for, source_key, PlacesSpec};
use super::ranges::{
    constraint_ranges, declared_constraint_ranges, document_fields, document_ranges, entries_of,
    entry_index, entry_value, expansion_of, field_key, field_ranges, frontmatter_fields,
    items_of, lookup, offsets_of, one_rule_ranges, option_fields, range_of_chars, range_of_node,
    ranges_stay_in_the_source, rule_fields, rule_key, rule_owner, rule_ranges, KeySpec,
    OwnerSpec,
};
use super::rules::{
    declared_options, duplicate_id_errors, id_range_of, list_build, list_field, own_findings,
    rule_build, scope_build,
};
use super::shape::{
    consequence_field, constraint_list_errors, constraint_shape_errors,
    declared_constraint_errors, document_shape_errors, exclusivity_errors, field_type_errors,
    frontmatter_errors, implication_errors, member_at, one_rule_errors, options_errors,
    ref_list_errors, ref_sequence_errors, rule_field_errors, rule_list_errors,
    rules_shape_errors, top_field_errors, top_list_errors, unknown_field_errors, FieldType,
    Members,
};
use crate::json::{member, members_of, JsonSpec};
use crate::load_result::{
    node_ranges, ranges_come_from_entries, ErrorSpec, InvalidSpec, LoadedSpec, NodeAddress,
    RuleIndex, SourceId, SourceRange, SourceSpec,
};
use crate::schema::{addressed_rules, RuleSpec};
use crate::yaml::convert::json_of;
use crate::yaml::reader::parsed_tree;
use crate::yaml::tree::{Tree, TreeKind};

verus! {

/// Whether a range starts and ends, in this order, in the source that it
/// names.
pub open spec fn is_within(range: SourceRange, sources: Seq<SourceSpec>) -> bool {
    &&& range.source.0 < sources.len()
    &&& range.range.start.0 <= range.range.end.0 <= encode_utf8(
        sources[range.source.0 as int].text,
    ).len()
}

/// Whether the ranges of an error are.
pub open spec fn error_is_within(error: ErrorSpec, sources: Seq<SourceSpec>) -> bool {
    &&& is_within(error.range, sources)
    &&& forall|at: int|
        0 <= at < error.related.len() ==> is_within((#[trigger] error.related[at]).range, sources)
}

/// Whether the ranges of all errors are.
pub open spec fn errors_are_within(errors: Seq<ErrorSpec>, sources: Seq<SourceSpec>) -> bool {
    forall|at: int| 0 <= at < errors.len() ==> error_is_within(#[trigger] errors[at], sources)
}

/// Whether the range of every node is.
pub open spec fn all_are_within(
    nodes: Map<NodeAddress, SourceRange>,
    sources: Seq<SourceSpec>,
) -> bool {
    forall|node: NodeAddress| #[trigger]
        nodes.contains_key(node) ==> is_within(nodes[node], sources)
}

proof fn kept_ranges_are_within(
    nodes: Seq<(NodeAddress, SourceRange)>,
    sources: Seq<SourceSpec>,
)
    requires
        nodes_are_within(nodes, sources),
    ensures
        all_are_within(node_ranges(nodes), sources),
{
    ranges_come_from_entries(nodes);
}

/// Whether the ranges of all nodes are.
pub open spec fn nodes_are_within(
    nodes: Seq<(NodeAddress, SourceRange)>,
    sources: Seq<SourceSpec>,
) -> bool {
    forall|at: int| 0 <= at < nodes.len() ==> is_within((#[trigger] nodes[at]).1, sources)
}

/// Whether the ranges that a load reports are.
pub open spec fn ranges_are_within(load: Result<LoadedSpec, InvalidSpec>) -> bool {
    match load {
        Ok(loaded) => is_within(loaded.document, loaded.sources) && all_are_within(
            loaded.nodes,
            loaded.sources,
        ),
        Err(invalid) => errors_are_within(invalid.errors, invalid.sources),
    }
}

/// The sources of a load: the first is the one that was loaded, and all of
/// them fit the memory.
pub open spec fn are_sources_of(sources: Seq<SourceSpec>, source: Seq<char>) -> bool {
    &&& sources.len() > 0
    &&& sources[0].text == source
    &&& forall|at: int|
        0 <= at < sources.len() ==> encode_utf8((#[trigger] sources[at]).text).len() <= usize::MAX
}

spec fn collected_within(ranges: Seq<(KeySpec, SourceRange)>, sources: Seq<SourceSpec>) -> bool {
    forall|at: int| 0 <= at < ranges.len() ==> is_within((#[trigger] ranges[at]).1, sources)
}

spec fn places_within(places: PlacesSpec, sources: Seq<SourceSpec>) -> bool {
    is_within(places.document, sources) && collected_within(places.ranges, sources)
}

proof fn chars_within(start: usize, end: usize, source: Seq<char>, sources: Seq<SourceSpec>)
    requires
        are_sources_of(sources, source),
    ensures
        is_within(range_of_chars(start, end, offsets_of(source)), sources),
{
    assert(encode_utf8(sources[0].text).len() <= usize::MAX);
    ranges_stay_in_the_source(start, end, source);
}

proof fn node_within(
    tree: Tree,
    expansion: Option<(usize, usize)>,
    source: Seq<char>,
    sources: Seq<SourceSpec>,
)
    requires
        are_sources_of(sources, source),
    ensures
        is_within(range_of_node(tree, expansion, offsets_of(source)), sources),
{
    match expansion {
        Some((start, end)) => {
            chars_within(start, end, source, sources);
        },
        None => {
            chars_within(tree.start, tree.end, source, sources);
        },
    }
}

proof fn fields_within(
    entries: Seq<(Tree, Tree)>,
    fields: Seq<Seq<char>>,
    owner: OwnerSpec,
    expansion: Option<(usize, usize)>,
    source: Seq<char>,
    sources: Seq<SourceSpec>,
)
    requires
        are_sources_of(sources, source),
    ensures
        collected_within(
            field_ranges(entries, fields, owner, expansion, offsets_of(source)),
            sources,
        ),
    decreases fields.len(),
{
    if fields.len() > 0 {
        fields_within(entries, fields.drop_last(), owner, expansion, source, sources);
        if let Some(value) = entry_value(entries, fields.last()) {
            node_within(value, expansion, source, sources);
        }
    }
}

proof fn constraints_within(
    entries: Seq<(Tree, Tree)>,
    scope: Seq<RuleIndex>,
    expansion: Option<(usize, usize)>,
    source: Seq<char>,
    sources: Seq<SourceSpec>,
)
    requires
        are_sources_of(sources, source),
    ensures
        collected_within(
            declared_constraint_ranges(entries, scope, expansion, offsets_of(source)),
            sources,
        ),
{
    if let Some(node) = entry_value(entries, "constraints"@) {
        let inner = expansion_of(node, expansion);
        let ranges = constraint_ranges(items_of(node), scope, inner, offsets_of(source));
        assert forall|at: int| 0 <= at < ranges.len() implies is_within(
            (#[trigger] ranges[at]).1,
            sources,
        ) by {
            node_within(items_of(node)[at], inner, source, sources);
        }
    }
}

proof fn one_rule_within(
    node: Tree,
    owner: OwnerSpec,
    child_scope: Seq<RuleIndex>,
    expansion: Option<(usize, usize)>,
    source: Seq<char>,
    sources: Seq<SourceSpec>,
)
    requires
        are_sources_of(sources, source),
    ensures
        collected_within(
            one_rule_ranges(node, owner, child_scope, expansion, offsets_of(source)),
            sources,
        ),
    decreases node, 0int,
{
    let inner = expansion_of(node, expansion);
    node_within(node, expansion, source, sources);
    if let TreeKind::Mapping(entries) = node.kind {
        fields_within(entries, rule_fields(), owner, inner, source, sources);
        constraints_within(entries, child_scope, inner, source, sources);
        if let Some(at) = entry_index(entries, "sections"@, 0) {
            if 0 <= at < entries.len() {
                if let TreeKind::Sequence(items) = entries[at].1.kind {
                    rules_within(
                        items,
                        items.len() as int,
                        false,
                        child_scope,
                        expansion_of(entries[at].1, inner),
                        source,
                        sources,
                    );
                }
            }
        }
    }
}

proof fn rules_within(
    rules: Seq<Tree>,
    count: int,
    outline: bool,
    scope: Seq<RuleIndex>,
    expansion: Option<(usize, usize)>,
    source: Seq<char>,
    sources: Seq<SourceSpec>,
)
    requires
        are_sources_of(sources, source),
    ensures
        collected_within(
            rule_ranges(rules, count, outline, scope, expansion, offsets_of(source)),
            sources,
        ),
    decreases rules, count,
{
    if 0 < count <= rules.len() {
        let index = (count - 1) as usize;
        rules_within(rules, count - 1, outline, scope, expansion, source, sources);
        one_rule_within(
            rules[count - 1],
            rule_owner(outline, scope, index),
            scope.push(RuleIndex(index)),
            expansion,
            source,
            sources,
        );
    }
}

proof fn document_within(root: Tree, source: Seq<char>, sources: Seq<SourceSpec>)
    requires
        are_sources_of(sources, source),
    ensures
        collected_within(document_ranges(root, offsets_of(source)), sources),
{
    let entries = entries_of(root);
    let expansion = expansion_of(root, None);
    fields_within(entries, document_fields(), OwnerSpec::Document, expansion, source, sources);
    if let Some(node) = entry_value(entries, "options"@) {
        fields_within(
            entries_of(node),
            option_fields(),
            OwnerSpec::Options,
            expansion_of(node, expansion),
            source,
            sources,
        );
    }
    if let Some(node) = entry_value(entries, "frontmatter"@) {
        fields_within(
            entries_of(node),
            frontmatter_fields(),
            OwnerSpec::Frontmatter,
            expansion_of(node, expansion),
            source,
            sources,
        );
    }
    if let Some(node) = entry_value(entries, "sections"@) {
        rules_within(
            items_of(node),
            items_of(node).len() as int,
            false,
            Seq::empty(),
            expansion_of(node, expansion),
            source,
            sources,
        );
    } else if let Some(node) = entry_value(entries, "outline"@) {
        rules_within(
            items_of(node),
            items_of(node).len() as int,
            true,
            Seq::empty(),
            expansion_of(node, expansion),
            source,
            sources,
        );
    }
    constraints_within(entries, Seq::empty(), expansion, source, sources);
}

proof fn lookup_within(
    ranges: Seq<(KeySpec, SourceRange)>,
    key: KeySpec,
    from: int,
    sources: Seq<SourceSpec>,
)
    requires
        collected_within(ranges, sources),
    ensures
        lookup(ranges, key, from) matches Some(range) ==> is_within(range, sources),
    decreases ranges.len() - from,
{
    if 0 <= from < ranges.len() {
        lookup_within(ranges, key, from + 1, sources);
        assert(is_within(ranges[from].1, sources));
    }
}

proof fn range_within(places: PlacesSpec, sources: Seq<SourceSpec>)
    requires
        places_within(places, sources),
    ensures
        forall|key: KeySpec| is_within(#[trigger] range_for(places, key), sources),
        forall|key: KeySpec|
            #[trigger] known_range(places, key) matches Some(range) ==> is_within(range, sources),
{
    assert forall|key: KeySpec|
        #[trigger] known_range(places, key) matches Some(range) implies is_within(
        known_range(places, key)->0,
        sources,
    ) by {
        lookup_within(places.ranges, source_key(places.outline_general, key), 0, sources);
    }
    assert forall|key: KeySpec| is_within(#[trigger] range_for(places, key), sources) by {
        lookup_within(places.ranges, source_key(places.outline_general, key), 0, sources);
    }
}

proof fn unknown_fields_within(
    members: Members,
    allowed: Seq<Seq<char>>,
    range: SourceRange,
    sources: Seq<SourceSpec>,
)
    requires
        is_within(range, sources),
    ensures
        errors_are_within(unknown_field_errors(members, allowed, range), sources),
    decreases members.len(),
{
    if members.len() > 0 {
        unknown_fields_within(members.drop_last(), allowed, range, sources);
    }
}

proof fn field_types_within(
    places: PlacesSpec,
    members: Members,
    fields: Seq<Seq<char>>,
    owner: OwnerSpec,
    expected: FieldType,
    prefix: Seq<char>,
    suffix: Seq<char>,
    sources: Seq<SourceSpec>,
)
    requires
        places_within(places, sources),
    ensures
        errors_are_within(
            field_type_errors(places, members, fields, owner, expected, prefix, suffix),
            sources,
        ),
    decreases fields.len(),
{
    if fields.len() > 0 {
        field_types_within(
            places,
            members,
            fields.drop_last(),
            owner,
            expected,
            prefix,
            suffix,
            sources,
        );
        range_within(places, sources);
    }
}

proof fn ref_list_within(values: Seq<JsonSpec>, range: SourceRange, sources: Seq<SourceSpec>)
    requires
        is_within(range, sources),
    ensures
        errors_are_within(ref_list_errors(values, range), sources),
    decreases values.len(),
{
    if values.len() > 0 {
        ref_list_within(values.drop_last(), range, sources);
    }
}

proof fn ref_sequence_within(
    name: Seq<char>,
    value: JsonSpec,
    require_two: bool,
    range: SourceRange,
    sources: Seq<SourceSpec>,
)
    requires
        is_within(range, sources),
    ensures
        errors_are_within(ref_sequence_errors(name, value, require_two, range), sources),
{
    if let JsonSpec::Array(values) = value {
        ref_list_within(values, range, sources);
    }
}

proof fn constraint_shape_within(value: JsonSpec, range: SourceRange, sources: Seq<SourceSpec>)
    requires
        is_within(range, sources),
    ensures
        errors_are_within(constraint_shape_errors(value, range), sources),
{
    if let JsonSpec::Object(members) = value {
        if members.len() == 1 {
            let keyword = members[0].0;
            let operand = members[0].1;
            ref_sequence_within(keyword, operand, true, range, sources);
            implication_within(keyword, operand, range, sources);
        }
    }
}

proof fn implication_within(
    keyword: Seq<char>,
    operand: JsonSpec,
    range: SourceRange,
    sources: Seq<SourceSpec>,
)
    requires
        is_within(range, sources),
    ensures
        errors_are_within(implication_errors(keyword, operand, range), sources),
{
    if let JsonSpec::Object(members) = operand {
        let consequence = consequence_field(keyword == "requires"@);
        unknown_fields_within(members, seq!["if"@, consequence], range, sources);
        if let Some(value) = member(members, consequence) {
            ref_sequence_within(consequence, value, false, range, sources);
        }
    }
}

proof fn constraint_list_within(
    places: PlacesSpec,
    constraints: Seq<JsonSpec>,
    scope: Seq<RuleIndex>,
    count: int,
    sources: Seq<SourceSpec>,
)
    requires
        places_within(places, sources),
    ensures
        errors_are_within(constraint_list_errors(places, constraints, scope, count), sources),
    decreases count,
{
    if 0 < count <= constraints.len() {
        constraint_list_within(places, constraints, scope, count - 1, sources);
        range_within(places, sources);
        constraint_shape_within(
            constraints[count - 1],
            constraint_range(places, scope, count - 1),
            sources,
        );
    }
}

proof fn declared_constraints_within(
    places: PlacesSpec,
    members: Members,
    owner: OwnerSpec,
    scope: Seq<RuleIndex>,
    sources: Seq<SourceSpec>,
)
    requires
        places_within(places, sources),
    ensures
        errors_are_within(declared_constraint_errors(places, members, owner, scope), sources),
{
    range_within(places, sources);
    if let Some(JsonSpec::Array(constraints)) = member(members, "constraints"@) {
        constraint_list_within(places, constraints, scope, constraints.len() as int, sources);
    }
}

proof fn rule_fields_within(
    places: PlacesSpec,
    members: Members,
    owner: OwnerSpec,
    sources: Seq<SourceSpec>,
)
    requires
        places_within(places, sources),
    ensures
        errors_are_within(rule_field_errors(places, members, owner), sources),
{
    range_within(places, sources);
    unknown_fields_within(members, rule_fields(), range_for(places, rule_key(owner)), sources);
    field_types_within(
        places,
        members,
        seq!["id"@, "match"@, "repeat"@],
        owner,
        FieldType::Text,
        "rule `"@,
        "` must be a string and cannot be null"@,
        sources,
    );
    field_types_within(
        places,
        members,
        seq!["allow"@, "required"@, "strict"@],
        owner,
        FieldType::Bool,
        "rule `"@,
        "` must be a bool and cannot be null"@,
        sources,
    );
}

proof fn one_rule_shape_within(
    places: PlacesSpec,
    value: JsonSpec,
    owner: OwnerSpec,
    child_scope: Seq<RuleIndex>,
    outline: bool,
    sources: Seq<SourceSpec>,
)
    requires
        places_within(places, sources),
    ensures
        errors_are_within(one_rule_errors(places, value, owner, child_scope, outline), sources),
    decreases value, 0int,
{
    range_within(places, sources);
    if let JsonSpec::Object(members) = value {
        rule_fields_within(places, members, owner, sources);
        declared_constraints_within(places, members, owner, child_scope, sources);
        if let Some(at) = member_at(members, "sections"@) {
            if 0 <= at < members.len() {
                rules_shape_within(
                    places,
                    members[at].1,
                    child_scope,
                    false,
                    range_for(places, field_key(owner, "sections"@)),
                    sources,
                );
            }
        }
    }
}

proof fn rule_list_shape_within(
    places: PlacesSpec,
    rules: Seq<JsonSpec>,
    scope: Seq<RuleIndex>,
    outline: bool,
    count: int,
    sources: Seq<SourceSpec>,
)
    requires
        places_within(places, sources),
    ensures
        errors_are_within(rule_list_errors(places, rules, scope, outline, count), sources),
    decreases rules, count,
{
    if 0 < count <= rules.len() {
        let index = (count - 1) as usize;
        rule_list_shape_within(places, rules, scope, outline, count - 1, sources);
        one_rule_shape_within(
            places,
            rules[count - 1],
            rule_owner(outline, scope, index),
            scope.push(RuleIndex(index)),
            outline,
            sources,
        );
    }
}

proof fn rules_shape_within(
    places: PlacesSpec,
    value: JsonSpec,
    scope: Seq<RuleIndex>,
    outline: bool,
    range: SourceRange,
    sources: Seq<SourceSpec>,
)
    requires
        places_within(places, sources),
        is_within(range, sources),
    ensures
        errors_are_within(rules_shape_errors(places, value, scope, outline, range), sources),
    decreases value, 1int,
{
    if let JsonSpec::Array(rules) = value {
        rule_list_shape_within(places, rules, scope, outline, rules.len() as int, sources);
    }
}

proof fn options_within(places: PlacesSpec, value: JsonSpec, sources: Seq<SourceSpec>)
    requires
        places_within(places, sources),
    ensures
        errors_are_within(options_errors(places, value), sources),
{
    range_within(places, sources);
    if let JsonSpec::Object(members) = value {
        let range = range_for(places, KeySpec::DocumentField("options"@));
        unknown_fields_within(members, option_fields(), range, sources);
        field_types_within(
            places,
            members,
            option_fields(),
            OwnerSpec::Options,
            FieldType::Bool,
            "options."@,
            " must be a bool and cannot be null"@,
            sources,
        );
    }
}

proof fn frontmatter_shape_within(places: PlacesSpec, value: JsonSpec, sources: Seq<SourceSpec>)
    requires
        places_within(places, sources),
    ensures
        errors_are_within(frontmatter_errors(places, value), sources),
{
    range_within(places, sources);
    if let JsonSpec::Object(members) = value {
        let range = range_for(places, KeySpec::DocumentField("frontmatter"@));
        unknown_fields_within(members, frontmatter_fields(), range, sources);
        field_types_within(
            places,
            members,
            seq!["required"@, "allow"@],
            OwnerSpec::Frontmatter,
            FieldType::Bool,
            "frontmatter."@,
            " must be a bool and cannot be null"@,
            sources,
        );
    }
}

proof fn top_fields_within(places: PlacesSpec, members: Members, sources: Seq<SourceSpec>)
    requires
        places_within(places, sources),
    ensures
        errors_are_within(top_field_errors(places, members), sources),
{
    range_within(places, sources);
    unknown_fields_within(members, document_fields(), places.document, sources);
    assert(errors_are_within(exclusivity_errors(places, members), sources));
}

proof fn top_list_within(
    places: PlacesSpec,
    members: Members,
    field: Seq<char>,
    outline: bool,
    sources: Seq<SourceSpec>,
)
    requires
        places_within(places, sources),
    ensures
        errors_are_within(top_list_errors(places, members, field, outline), sources),
{
    range_within(places, sources);
    if let Some(value) = member(members, field) {
        rules_shape_within(
            places,
            value,
            Seq::empty(),
            outline,
            range_for(places, KeySpec::DocumentField(field)),
            sources,
        );
    }
}

proof fn shape_within(places: PlacesSpec, value: JsonSpec, sources: Seq<SourceSpec>)
    requires
        places_within(places, sources),
    ensures
        errors_are_within(document_shape_errors(places, value), sources),
{
    if let JsonSpec::Object(members) = value {
        top_fields_within(places, members, sources);
        top_list_within(places, members, "outline"@, true, sources);
        top_list_within(places, members, "sections"@, false, sources);
        if let Some(value) = member(members, "options"@) {
            options_within(places, value, sources);
        }
        if let Some(value) = member(members, "frontmatter"@) {
            frontmatter_shape_within(places, value, sources);
        }
        declared_constraints_within(
            places,
            members,
            OwnerSpec::Document,
            Seq::empty(),
            sources,
        );
    }
}

proof fn duplicates_within(
    places: PlacesSpec,
    scope: Seq<RuleIndex>,
    built: Seq<(usize, RuleSpec)>,
    sources: Seq<SourceSpec>,
)
    requires
        places_within(places, sources),
    ensures
        errors_are_within(duplicate_id_errors(places, scope, built), sources),
    decreases built.len(),
{
    if built.len() > 0 {
        duplicates_within(places, scope, built.drop_last(), sources);
        range_within(places, sources);
        assert forall|index: usize| is_within(
            #[trigger] id_range_of(places, scope, index),
            sources,
        ) by {}
    }
}

proof fn own_findings_within(
    places: PlacesSpec,
    members: Members,
    scope: Seq<RuleIndex>,
    index: usize,
    match_case: bool,
    sources: Seq<SourceSpec>,
)
    requires
        places_within(places, sources),
    ensures
        errors_are_within(
            own_findings(places, members, scope, index, match_case).errors,
            sources,
        ),
        nodes_are_within(own_findings(places, members, scope, index, match_case).nodes, sources),
{
    range_within(places, sources);
}

proof fn rule_build_within(
    places: PlacesSpec,
    value: JsonSpec,
    scope: Seq<RuleIndex>,
    index: usize,
    match_case: bool,
    sources: Seq<SourceSpec>,
)
    requires
        places_within(places, sources),
    ensures
        errors_are_within(
            rule_build(places, value, scope, index, match_case).findings.errors,
            sources,
        ),
        nodes_are_within(
            rule_build(places, value, scope, index, match_case).findings.nodes,
            sources,
        ),
    decreases value, 0int,
{
    if let JsonSpec::Object(members) = value {
        own_findings_within(places, members, scope, index, match_case, sources);
        if let Some(at) = member_at(members, "sections"@) {
            if 0 <= at < members.len() {
                if let JsonSpec::Array(rules) = members[at].1 {
                    scope_build_within(
                        places,
                        rules,
                        scope.push(RuleIndex(index)),
                        match_case,
                        sources,
                    );
                }
            }
        }
    }
}

proof fn list_build_within(
    places: PlacesSpec,
    rules: Seq<JsonSpec>,
    scope: Seq<RuleIndex>,
    match_case: bool,
    count: int,
    sources: Seq<SourceSpec>,
)
    requires
        places_within(places, sources),
    ensures
        errors_are_within(
            list_build(places, rules, scope, match_case, count).findings.errors,
            sources,
        ),
        nodes_are_within(
            list_build(places, rules, scope, match_case, count).findings.nodes,
            sources,
        ),
    decreases rules, count,
{
    if 0 < count <= rules.len() {
        list_build_within(places, rules, scope, match_case, count - 1, sources);
        rule_build_within(
            places,
            rules[count - 1],
            scope,
            (count - 1) as usize,
            match_case,
            sources,
        );
    }
}

proof fn scope_build_within(
    places: PlacesSpec,
    rules: Seq<JsonSpec>,
    scope: Seq<RuleIndex>,
    match_case: bool,
    sources: Seq<SourceSpec>,
)
    requires
        places_within(places, sources),
    ensures
        errors_are_within(scope_build(places, rules, scope, match_case).findings.errors, sources),
        nodes_are_within(scope_build(places, rules, scope, match_case).findings.nodes, sources),
    decreases rules, rules.len() + 1,
{
    list_build_within(places, rules, scope, match_case, rules.len() as int, sources);
    duplicates_within(
        places,
        scope,
        list_build(places, rules, scope, match_case, rules.len() as int).built,
        sources,
    );
}

proof fn outline_within(
    places: PlacesSpec,
    members: Members,
    match_case: bool,
    sources: Seq<SourceSpec>,
)
    requires
        places_within(places, sources),
    ensures
        errors_are_within(
            document_outline_build(places, members, match_case).findings.errors,
            sources,
        ),
        nodes_are_within(
            document_outline_build(places, members, match_case).findings.nodes,
            sources,
        ),
{
    range_within(places, sources);
    range_within(outline_places(places, members), sources);
    if member(members, "outline"@) is Some {
        scope_build_within(
            outline_places(places, members),
            list_field(members, "outline"@),
            Seq::empty(),
            match_case,
            sources,
        );
    } else {
        scope_build_within(
            places,
            list_field(members, "sections"@),
            Seq::empty(),
            match_case,
            sources,
        );
    }
}

proof fn list_read_within(
    context: RefContext,
    values: Seq<JsonSpec>,
    spoken: Seq<IdentitySpec>,
    duplicate: Seq<char>,
    sources: Seq<SourceSpec>,
)
    requires
        is_within(context.range, sources),
    ensures
        errors_are_within(list_read(context, values, spoken, duplicate).errors, sources),
    decreases values.len(),
{
    if values.len() > 0 {
        list_read_within(context, values.drop_last(), spoken, duplicate, sources);
        value_read_within(context, values.last(), false, sources);
    }
}

proof fn value_read_within(
    context: RefContext,
    value: JsonSpec,
    ordered: bool,
    sources: Seq<SourceSpec>,
)
    requires
        is_within(context.range, sources),
    ensures
        errors_are_within(value_read(context, value, ordered).errors, sources),
{
}

proof fn ordered_refs_within(
    context: RefContext,
    values: Seq<JsonSpec>,
    sources: Seq<SourceSpec>,
)
    requires
        is_within(context.range, sources),
    ensures
        errors_are_within(ordered_refs_read(context, values).errors, sources),
    decreases values.len(),
{
    if values.len() > 0 {
        ordered_refs_within(context, values.drop_last(), sources);
        value_read_within(context, values.last(), true, sources);
    }
}

proof fn implication_read_within(
    context: RefContext,
    operand: JsonSpec,
    requires_keyword: bool,
    sources: Seq<SourceSpec>,
)
    requires
        is_within(context.range, sources),
    ensures
        errors_are_within(implication_read(context, operand, requires_keyword).errors, sources),
{
    let field = consequence_field(requires_keyword);
    if let JsonSpec::Object(members) = operand {
        if let (Some(condition), Some(consequence)) = (
            member(members, "if"@),
            member(members, field),
        ) {
            value_read_within(context, condition, false, sources);
            list_read_within(
                context,
                one_or_more(consequence),
                spoken_by(value_read(context, condition, false)),
                "duplicate ref in `"@ + field + "`"@,
                sources,
            );
        }
    }
}

proof fn constraint_read_within(
    context: RefContext,
    value: JsonSpec,
    sources: Seq<SourceSpec>,
)
    requires
        is_within(context.range, sources),
    ensures
        errors_are_within(constraint_read(context, value).errors, sources),
{
    if let JsonSpec::Object(members) = value {
        if members.len() == 1 {
            let operand = members[0].1;
            implication_read_within(context, operand, true, sources);
            implication_read_within(context, operand, false, sources);
            if let JsonSpec::Array(values) = operand {
                list_read_within(
                    context,
                    values,
                    Seq::empty(),
                    "constraint contains a duplicate ref"@,
                    sources,
                );
                ordered_refs_within(context, values, sources);
            }
        }
    }
}

proof fn scope_constraints_within(
    places: PlacesSpec,
    root: Seq<RuleSpec>,
    match_case: bool,
    scope: Seq<RuleIndex>,
    values: Seq<JsonSpec>,
    count: int,
    sources: Seq<SourceSpec>,
)
    requires
        places_within(places, sources),
    ensures
        errors_are_within(
            scope_constraints(places, root, match_case, scope, values, count).errors,
            sources,
        ),
        nodes_are_within(
            scope_constraints(places, root, match_case, scope, values, count).nodes,
            sources,
        ),
    decreases count,
{
    if 0 < count <= values.len() {
        scope_constraints_within(places, root, match_case, scope, values, count - 1, sources);
        range_within(places, sources);
        let range = constraint_range(places, scope, count - 1);
        constraint_read_within(
            RefContext { root, match_case, scope, range },
            values[count - 1],
            sources,
        );
    }
}

proof fn all_constraints_within(
    places: PlacesSpec,
    root: Seq<RuleSpec>,
    match_case: bool,
    declared: Seq<(Seq<RuleIndex>, Seq<JsonSpec>)>,
    count: int,
    sources: Seq<SourceSpec>,
)
    requires
        places_within(places, sources),
    ensures
        errors_are_within(
            constraints_build(places, root, match_case, declared, count).errors,
            sources,
        ),
        nodes_are_within(
            constraints_build(places, root, match_case, declared, count).nodes,
            sources,
        ),
    decreases count,
{
    if 0 < count <= declared.len() {
        all_constraints_within(places, root, match_case, declared, count - 1, sources);
        let (scope, values) = declared[count - 1];
        scope_constraints_within(
            places,
            root,
            match_case,
            scope,
            values,
            values.len() as int,
            sources,
        );
    }
}

proof fn lexical_refs_within(refs: Seq<Seq<char>>, range: SourceRange, sources: Seq<SourceSpec>)
    requires
        is_within(range, sources),
    ensures
        errors_are_within(lexical_ref_errors(refs, range), sources),
    decreases refs.len(),
{
    if refs.len() > 0 {
        lexical_refs_within(refs.drop_last(), range, sources);
    }
}

proof fn scope_lexical_within(
    places: PlacesSpec,
    scope: Seq<RuleIndex>,
    values: Seq<JsonSpec>,
    count: int,
    sources: Seq<SourceSpec>,
)
    requires
        places_within(places, sources),
    ensures
        errors_are_within(scope_lexical_errors(places, scope, values, count), sources),
    decreases count,
{
    if 0 < count <= values.len() {
        scope_lexical_within(places, scope, values, count - 1, sources);
        range_within(places, sources);
        lexical_refs_within(
            spelled_refs(values[count - 1]),
            constraint_range(places, scope, count - 1),
            sources,
        );
    }
}

proof fn all_lexical_within(
    places: PlacesSpec,
    declared: Seq<(Seq<RuleIndex>, Seq<JsonSpec>)>,
    count: int,
    sources: Seq<SourceSpec>,
)
    requires
        places_within(places, sources),
    ensures
        errors_are_within(all_lexical_errors(places, declared, count), sources),
    decreases count,
{
    if 0 < count <= declared.len() {
        all_lexical_within(places, declared, count - 1, sources);
        let (scope, values) = declared[count - 1];
        scope_lexical_within(places, scope, values, values.len() as int, sources);
    }
}

proof fn whole_within(sources: Seq<SourceSpec>, id: SourceId, otherwise: SourceRange)
    requires
        forall|at: int|
            0 <= at < sources.len() ==> encode_utf8((#[trigger] sources[at]).text).len()
                <= usize::MAX,
        is_within(otherwise, sources),
    ensures
        is_within(whole_source(sources, id, otherwise), sources),
{
    if id.0 < sources.len() {
        assert(encode_utf8(sources[id.0 as int].text).len() <= usize::MAX);
    }
}

proof fn policy_within(
    places: PlacesSpec,
    members: Members,
    prepared: Option<PreparedSpec>,
    sources: Seq<SourceSpec>,
)
    requires
        places_within(places, sources),
        forall|at: int|
            0 <= at < sources.len() ==> encode_utf8((#[trigger] sources[at]).text).len()
                <= usize::MAX,
    ensures
        errors_are_within(frontmatter_build(places, members, sources, prepared).errors, sources),
        nodes_are_within(frontmatter_build(places, members, sources, prepared).nodes, sources),
{
    range_within(places, sources);
    let range = range_for(places, KeySpec::FrontmatterField("schema"@));
    if let Some(prepared) = prepared {
        match prepared.result {
            Err(errors) => {
                assert forall|at: int| 0 <= at < errors.len() implies error_is_within(
                    #[trigger] linked_errors(sources, errors, range)[at],
                    sources,
                ) by {
                    whole_within(sources, errors[at].0, range);
                }
            },
            Ok(_) => {
                whole_within(sources, prepared.root_source, range);
            },
        }
    }
    assert forall|required: bool, allow: bool| {
        &&& errors_are_within(
            (#[trigger] linked_build(places, sources, prepared, required, allow)).errors,
            sources,
        )
        &&& nodes_are_within(
            linked_build(places, sources, prepared, required, allow).nodes,
            sources,
        )
    } by {}
}

proof fn build_within(
    places: PlacesSpec,
    members: Members,
    prepared: Option<PreparedSpec>,
    sources: Seq<SourceSpec>,
)
    requires
        places_within(places, sources),
        forall|at: int|
            0 <= at < sources.len() ==> encode_utf8((#[trigger] sources[at]).text).len()
                <= usize::MAX,
    ensures
        match document_build(places, members, sources, prepared) {
            Ok((_, nodes)) => nodes_are_within(nodes, sources),
            Err(errors) => errors_are_within(errors, sources),
        },
{
    reveal(document_build);
    range_within(places, sources);
    policy_within(places, members, prepared, sources);
    let options = declared_options(members);
    outline_within(places, members, options.match_case, sources);
    let outline = document_outline_build(places, members, options.match_case);
    let declared = all_declared(members, outline);
    let inner = outline_places(places, members);
    all_lexical_within(inner, declared, declared.len() as int, sources);
    if outline.rules is Some {
        all_constraints_within(
            inner,
            addressed_rules(outline.rules->0, provenance_of(members)),
            options.match_case,
            declared,
            declared.len() as int,
            sources,
        );
    }
}

/// Every range that a load reports, of the document, of a node, of an error or
/// of a place related to it, starts and ends, in this order, in the source
/// that it names.
pub proof fn reported_ranges_lie_in_their_sources(
    source: Seq<char>,
    sources: Seq<SourceSpec>,
    prepared: Option<PreparedSpec>,
)
    requires
        are_sources_of(sources, source),
    ensures
        ranges_are_within(load_of(source, sources, prepared)),
{
    let document = document_range_of(source);
    assert(is_within(document, sources)) by {
        assert(encode_utf8(sources[0].text).len() <= usize::MAX);
    }
    match parsed_tree(source) {
        Err(fault) => {
            if let Some((start, end)) = fault.span {
                chars_within(start, end, source, sources);
            }
        },
        Ok(tree) => {
            let places = PlacesSpec {
                ranges: document_ranges(tree, offsets_of(source)),
                document,
                outline_general: false,
            };
            document_within(tree, source, sources);
            match json_of(tree) {
                Err(fault) => {
                    if let Some((start, end)) = fault.span {
                        chars_within(start, end, source, sources);
                    }
                },
                Ok(value) => {
                    shape_within(places, value, sources);
                    build_within(places, members_of(value), prepared, sources);
                    if let Ok((_, nodes)) = source_build(source, sources, prepared) {
                        kept_ranges_are_within(nodes, sources);
                    }
                },
            }
        },
    }
}

} // verus!
