//! What a loaded schema holds of the document that it was loaded from.

use vstd::prelude::*;

use super::external::PreparedSpec;
use super::frontmatter::frontmatter_build;
use super::load::{
    all_placed, document_build, document_outline_build, linked_path_of, load_of, outline_places,
    provenance_of,
};
use super::patterns::{
    matchers_are_built_from_their_spelling, repeats_are_read_as_they_are_spelled,
    spells_cardinality, spells_matcher,
};
use super::placement::placed_in_rules;
use super::places::{range_for, PlacesSpec};
use super::ranges::KeySpec;
use super::rules::{
    children_are_built, declared_id_errors, declared_matcher, declared_options, declared_outcome, list_build,
    own_findings, rule_build, scope_build, value_of,
};
use super::shape::Members;
use super::sugar::{bare_schema, built_constraints, documents_are_built, reads_as, source_places};
use crate::document_path::slug::slug_of;
use crate::json::{member, JsonSpec};
use crate::load_result::{
    ErrorSpec, InvalidSpec, LoadedSchema, LoadedSpec, RuleIndex, SourceSpec,
};
use crate::schema::{
    rule_spec, rule_specs, Cardinality, ConstraintSpec, FrontmatterPolicy, Matcher, MatcherSpec,
    OutlineProvenance, RuleId, RuleOutcome, RuleSpec, SchemaSpec, SectionRule, UpperBound,
};
use crate::yaml::convert::json_of;
use crate::yaml::reader::parsed_tree;

verus! {

/// The value of a field that an object under a member called `name` holds.
pub open spec fn field_of(members: Members, name: Seq<char>, field: Seq<char>) -> Option<
    JsonSpec,
> {
    match member(members, name) {
        Some(JsonSpec::Object(fields)) => member(fields, field),
        _ => None,
    }
}

/// The same rule, but for the constraints in it.
spec fn same_rule(one: RuleSpec, two: RuleSpec) -> bool
    decreases one,
{
    &&& one.id == two.id
    &&& one.matcher == two.matcher
    &&& one.outcome == two.outcome
    &&& one.strict == two.strict
    &&& same_rules(one.sections, two.sections)
}

/// The same rules, but for the constraints in them.
spec fn same_rules(one: Seq<RuleSpec>, two: Seq<RuleSpec>) -> bool
    decreases one,
{
    &&& one.len() == two.len()
    &&& forall|at: int| 0 <= at < one.len() ==> same_rule(#[trigger] one[at], two[at])
}

proof fn rules_stay(rules: Seq<RuleSpec>)
    ensures
        same_rules(rules, rules),
    decreases rules,
{
    assert forall|at: int| 0 <= at < rules.len() implies same_rule(
        #[trigger] rules[at],
        rules[at],
    ) by {
        rules_stay(rules[at].sections);
    }
}

proof fn placing_keeps_rules(
    rules: Seq<RuleSpec>,
    built: Seq<RuleSpec>,
    path: Seq<RuleIndex>,
    constraints: Seq<ConstraintSpec>,
)
    requires
        same_rules(rules, built),
    ensures
        same_rules(placed_in_rules(rules, path, constraints), built),
    decreases path.len(),
{
    let after = placed_in_rules(rules, path, constraints);
    assert forall|at: int| 0 <= at < after.len() implies same_rule(
        #[trigger] after[at],
        built[at],
    ) by {
        assert(same_rule(rules[at], built[at]));
        if path.len() > 1 && path[0].0 as int == at {
            placing_keeps_rules(rules[at].sections, built[at].sections, path.skip(1), constraints);
        }
    }
}

proof fn all_placing_keeps_rules(
    schema: SchemaSpec,
    lists: Seq<(Seq<RuleIndex>, Seq<ConstraintSpec>)>,
    count: int,
)
    ensures
        ({
            let after = all_placed(schema, lists, count);
            &&& same_rules(after.outline, schema.outline)
            &&& after.version == schema.version
            &&& after.options == schema.options
            &&& after.frontmatter == schema.frontmatter
            &&& after.outline_provenance == schema.outline_provenance
        }),
    decreases count,
{
    if count <= 0 || count > lists.len() {
        rules_stay(schema.outline);
    } else {
        all_placing_keeps_rules(schema, lists, count - 1);
        let before = all_placed(schema, lists, count - 1);
        let after = all_placed(schema, lists, count);
        let (scope, constraints) = lists[count - 1];
        if before.outline_provenance == OutlineProvenance::Outline {
            placing_keeps_rules(before.outline, schema.outline, scope, constraints);
        } else if before.outline.len() > 0 {
            assert(same_rule(before.outline[0], schema.outline[0]));
            placing_keeps_rules(
                before.outline[0].sections,
                schema.outline[0].sections,
                scope,
                constraints,
            );
            assert forall|at: int| 0 <= at < after.outline.len() implies same_rule(
                #[trigger] after.outline[at],
                schema.outline[at],
            ) by {
                assert(same_rule(before.outline[at], schema.outline[at]));
            }
        }
    }
}

/// What a load that succeeded was built from.
proof fn loads_are_built(
    source: Seq<char>,
    sources: Seq<SourceSpec>,
    prepared: Option<PreparedSpec>,
    members: Members,
    loaded: LoadedSpec,
)
    requires
        reads_as(source, members),
        load_of(source, sources, prepared) == Ok::<LoadedSpec, InvalidSpec>(loaded),
    ensures
        ({
            let places = source_places(source);
            let options = declared_options(members);
            let outline = document_outline_build(places, members, options.match_case);
            let policy = frontmatter_build(places, members, sources, prepared);
            &&& loaded.schema.options == options
            &&& loaded.schema.outline_provenance == provenance_of(members)
            &&& policy.policy == Some(loaded.schema.frontmatter)
            &&& outline.rules matches Some(rules) && same_rules(loaded.schema.outline, rules)
            &&& outline.findings.errors.len() == 0
        }),
{
    let places = source_places(source);
    documents_are_built(places, members, sources, prepared);
    let lists = built_constraints(places, members).lists;
    all_placing_keeps_rules(
        bare_schema(places, members, sources, prepared),
        lists,
        lists.len() as int,
    );
}

/// The policy of a loaded schema forbids frontmatter where the document
/// declares `frontmatter.allow: false`, requires it where the document declares
/// `frontmatter.required: true`, and nowhere else; it has a schema where the
/// document declares `frontmatter.schema`, and that is the one of the graph.
pub proof fn policies_follow_the_document(
    source: Seq<char>,
    sources: Seq<SourceSpec>,
    prepared: Option<PreparedSpec>,
    members: Members,
    loaded: LoadedSchema,
)
    requires
        reads_as(source, members),
        load_of(source, sources, prepared) == Ok::<LoadedSpec, InvalidSpec>(loaded@),
    ensures
        loaded.schema.frontmatter is Forbidden <==> field_of(members, "frontmatter"@, "allow"@)
            == Some(JsonSpec::Bool(false)),
        loaded.schema.frontmatter is Required <==> field_of(members, "frontmatter"@, "required"@)
            == Some(JsonSpec::Bool(true)),
        ({
            let schema = match loaded.schema.frontmatter {
                FrontmatterPolicy::Optional { schema } => schema,
                FrontmatterPolicy::Required { schema } => schema,
                FrontmatterPolicy::Forbidden { schema } => schema,
            };
            match schema {
                None => field_of(members, "frontmatter"@, "schema"@) is None,
                Some(schema) => {
                    &&& field_of(members, "frontmatter"@, "schema"@) matches Some(
                        JsonSpec::Text(_),
                    )
                    &&& prepared matches Some(graph) && graph.result matches Ok(compiled)
                        && compiled == schema@
                },
            }
        }),
{
    loads_are_built(source, sources, prepared, members, loaded@);
}

/// A document that both requires and forbids frontmatter is refused.
pub proof fn contradictory_policies_are_refused(
    source: Seq<char>,
    sources: Seq<SourceSpec>,
    prepared: Option<PreparedSpec>,
    members: Members,
)
    requires
        reads_as(source, members),
        field_of(members, "frontmatter"@, "allow"@) == Some(JsonSpec::Bool(false)),
        field_of(members, "frontmatter"@, "required"@) == Some(JsonSpec::Bool(true)),
    ensures
        load_of(source, sources, prepared) is Err,
{
    if let Ok(loaded) = load_of(source, sources, prepared) {
        loads_are_built(source, sources, prepared, members, loaded);
    }
}

/// The linked path is the text of the document's `frontmatter.schema`: the
/// member for which building the policy asks for a linked graph. So a document
/// with a linked path is not loaded without a graph, a document without one is
/// loaded alike with every graph and with none, and where only a graph is
/// missing the path is there.
pub proof fn linked_paths_are_those_that_loading_asks_for(
    source: Seq<char>,
    sources: Seq<SourceSpec>,
    prepared: Option<PreparedSpec>,
    members: Members,
)
    ensures
        reads_as(source, members) ==> linked_path_of(source) == match field_of(
            members,
            "frontmatter"@,
            "schema"@,
        ) {
            Some(JsonSpec::Text(path)) => Some(path),
            _ => None::<Seq<char>>,
        },
        (forall|any: Members| !reads_as(source, any)) ==> linked_path_of(source) is None,
        linked_path_of(source) is Some ==> load_of(source, sources, None) is Err,
        linked_path_of(source) is None ==> load_of(source, sources, prepared) == load_of(
            source,
            sources,
            None,
        ),
        load_of(source, sources, prepared) is Ok && load_of(source, sources, None) is Err
            ==> linked_path_of(source) is Some,
{
    if let Ok(tree) = parsed_tree(source) {
        if let Ok(value) = json_of(tree) {
            if let JsonSpec::Object(own) = value {
                assert(reads_as(source, own));
                let places = source_places(source);
                let with = frontmatter_build(places, own, sources, prepared);
                let without = frontmatter_build(places, own, sources, None);
                if linked_path_of(source) is None {
                    assert(with == without);
                    assert(document_build(places, own, sources, prepared) == document_build(
                        places,
                        own,
                        sources,
                        None,
                    )) by {
                        reveal(document_build);
                    }
                } else {
                    assert(without.policy is None);
                    documents_are_built(places, own, sources, None);
                }
            }
        }
    }
}

/// Every option is what the document declares under its name; undeclared,
/// markup is stripped, and case and skipped levels are not regarded.
pub proof fn options_follow_the_document(
    source: Seq<char>,
    sources: Seq<SourceSpec>,
    prepared: Option<PreparedSpec>,
    members: Members,
    loaded: LoadedSchema,
)
    requires
        reads_as(source, members),
        load_of(source, sources, prepared) == Ok::<LoadedSpec, InvalidSpec>(loaded@),
    ensures
        loaded.schema.options.match_case <==> field_of(members, "options"@, "match_case"@) == Some(
            JsonSpec::Bool(true),
        ),
        loaded.schema.options.strip_inline_markup <==> field_of(
            members,
            "options"@,
            "strip_inline_markup"@,
        ) != Some(JsonSpec::Bool(false)),
        loaded.schema.options.allow_skipped_levels <==> field_of(
            members,
            "options"@,
            "allow_skipped_levels"@,
        ) == Some(JsonSpec::Bool(true)),
{
    loads_are_built(source, sources, prepared, members, loaded@);
}

/// The items of a list that a member may be.
pub open spec fn items_of(value: Option<JsonSpec>) -> Seq<JsonSpec> {
    match value {
        Some(JsonSpec::Array(items)) => items,
        _ => Seq::empty(),
    }
}

/// The text that a member may be.
pub open spec fn text_of_member(value: Option<JsonSpec>) -> Seq<char> {
    match value {
        Some(JsonSpec::Text(text)) => text,
        _ => Seq::empty(),
    }
}

/// Whether members declare an outcome: `allow: false` denies; otherwise
/// `required: true` asks for one section, `required: false` admits one,
/// `repeat` spells the cardinality, and without any of them any number is
/// admitted.
pub open spec fn declares_outcome(members: Members, outcome: RuleOutcome) -> bool {
    if member(members, "allow"@) == Some(JsonSpec::Bool(false)) {
        outcome is Deny
    } else {
        outcome matches RuleOutcome::Allow(cardinality) && {
            if member(members, "required"@) == Some(JsonSpec::Bool(true)) {
                cardinality.min == 1 && cardinality.max == UpperBound::Bounded(1)
            } else if member(members, "required"@) == Some(JsonSpec::Bool(false)) {
                cardinality.min == 0 && cardinality.max == UpperBound::Bounded(1)
            } else if let Some(JsonSpec::Text(repeat)) = member(members, "repeat"@) {
                spells_cardinality(repeat, cardinality)
            } else {
                cardinality.min == 0 && cardinality.max == UpperBound::Unbounded
            }
        }
    }
}

/// Whether members declare the id of a rule: the text of `id`, or without one
/// the slug of the exact text that the rule matches.
pub open spec fn declares_id(members: Members, matcher: Matcher, id: Option<RuleId>) -> bool {
    match member(members, "id"@) {
        Some(JsonSpec::Text(text)) => id matches Some(id) && id.0@ == text,
        _ => match matcher {
            Matcher::Exact(text) => match id {
                Some(id) => slug_of(text.0@) == Some(id.0@),
                None => slug_of(text.0@) is None,
            },
            _ => id is None,
        },
    }
}

/// Whether a value declares a rule, but for its constraints.
pub open spec fn declares_rule(value: JsonSpec, rule: SectionRule) -> bool
    decreases rule,
{
    value matches JsonSpec::Object(members) && {
        &&& spells_matcher(text_of_member(member(members, "match"@)), rule.matcher)
        &&& declares_id(members, rule.matcher, rule.id)
        &&& declares_outcome(members, rule.outcome)
        &&& rule.strict <==> member(members, "strict"@) == Some(JsonSpec::Bool(true))
        &&& declare_rules(items_of(member(members, "sections"@)), rule.sections@)
    }
}

/// Whether values declare rules, one by one in the same order.
pub open spec fn declare_rules(values: Seq<JsonSpec>, rules: Seq<SectionRule>) -> bool
    decreases rules,
{
    &&& values.len() == rules.len()
    &&& forall|at: int|
        0 <= at < rules.len() ==> declares_rule(values[at], #[trigger] rules[at])
}

proof fn children_follow_their_member(
    places: PlacesSpec,
    members: Members,
    scope: Seq<RuleIndex>,
    index: usize,
    match_case: bool,
)
    ensures
        ({
            let build = rule_build(places, JsonSpec::Object(members), scope, index, match_case);
            let values = items_of(member(members, "sections"@));
            let children = scope_build(
                places,
                values,
                scope.push(RuleIndex(index)),
                match_case,
            );
            &&& build.findings.errors == own_findings(
                places,
                members,
                scope,
                index,
                match_case,
            ).errors + children.findings.errors
            &&& build.rule matches Some(rule) ==> children.rules == Some(rule.sections)
        }),
{
    children_are_built(places, JsonSpec::Object(members), scope, index, match_case);
}

proof fn rules_are_declared(
    places: PlacesSpec,
    value: JsonSpec,
    scope: Seq<RuleIndex>,
    index: usize,
    match_case: bool,
    rule: SectionRule,
)
    requires
        rule_build(places, value, scope, index, match_case).findings.errors.len() == 0,
        rule_build(places, value, scope, index, match_case).rule matches Some(built) && same_rule(
            rule_spec(rule),
            built,
        ),
    ensures
        declares_rule(value, rule),
    decreases rule,
{
    let members = value->Object_0;
    let build = rule_build(places, value, scope, index, match_case);
    let built = build.rule->0;
    let values = items_of(member(members, "sections"@));
    children_follow_their_member(places, members, scope, index, match_case);
    let own = own_findings(places, members, scope, index, match_case).errors;
    assert(own.len() == 0);
    let matcher = declared_matcher(places, members, scope, index, match_case);
    let outcome = declared_outcome(places, members, scope, index);
    assert(matcher == Ok::<MatcherSpec, ErrorSpec>(rule.matcher@));
    matchers_are_built_from_their_spelling(
        text_of_member(member(members, "match"@)),
        match_case,
        range_for(places, KeySpec::RuleField(scope, RuleIndex(index), "match"@)),
        rule.matcher,
    );
    assert(outcome == Ok::<RuleOutcome, ErrorSpec>(rule.outcome));
    if let Some(JsonSpec::Text(repeat)) = member(members, "repeat"@) {
        if let RuleOutcome::Allow(cardinality) = rule.outcome {
            repeats_are_read_as_they_are_spelled(repeat, cardinality);
        }
    }
    assert(declares_outcome(members, rule.outcome));
    let id_errors = declared_id_errors(places, members, value_of(matcher), scope, index);
    assert(id_errors.len() == 0);
    assert(declares_id(members, rule.matcher, rule.id));
    scopes_are_declared(
        places,
        values,
        scope.push(RuleIndex(index)),
        match_case,
        rule.sections@,
    );
}

proof fn lists_are_built_in_order(
    places: PlacesSpec,
    values: Seq<JsonSpec>,
    scope: Seq<RuleIndex>,
    match_case: bool,
    count: int,
)
    requires
        0 <= count <= values.len(),
        list_build(places, values, scope, match_case, count).complete,
    ensures
        ({
            let list = list_build(places, values, scope, match_case, count);
            &&& list.built.len() == count
            &&& forall|at: int|
                0 <= at < count ==> rule_build(
                    places,
                    values[at],
                    scope,
                    at as usize,
                    match_case,
                ).rule == Some((#[trigger] list.built[at]).1)
            &&& list.findings.errors.len() == 0 ==> forall|at: int|
                0 <= at < count ==> (#[trigger] rule_build(
                    places,
                    values[at],
                    scope,
                    at as usize,
                    match_case,
                )).findings.errors.len() == 0
        }),
    decreases count,
{
    if count > 0 {
        lists_are_built_in_order(places, values, scope, match_case, count - 1);
    }
}

proof fn scopes_are_declared(
    places: PlacesSpec,
    values: Seq<JsonSpec>,
    scope: Seq<RuleIndex>,
    match_case: bool,
    rules: Seq<SectionRule>,
)
    requires
        scope_build(places, values, scope, match_case).findings.errors.len() == 0,
        scope_build(places, values, scope, match_case).rules matches Some(built) && same_rules(
            rule_specs(rules),
            built,
        ),
    ensures
        declare_rules(values, rules),
    decreases rules,
{
    let built = scope_build(places, values, scope, match_case).rules->0;
    let list = list_build(places, values, scope, match_case, values.len() as int);
    lists_are_built_in_order(places, values, scope, match_case, values.len() as int);
    assert(rule_specs(rules).len() == rules.len());
    assert forall|at: int| 0 <= at < rules.len() implies declares_rule(
        values[at],
        #[trigger] rules[at],
    ) by {
        assert(built[at] == list.built[at].1);
        assert(same_rule(rule_specs(rules)[at], built[at]));
        assert(rule_specs(rules)[at] == rule_spec(rules[at]));
        rules_are_declared(places, values[at], scope, at as usize, match_case, rules[at]);
    }
}

proof fn outlines_follow_the_document(
    source: Seq<char>,
    sources: Seq<SourceSpec>,
    prepared: Option<PreparedSpec>,
    members: Members,
    loaded: LoadedSchema,
)
    requires
        reads_as(source, members),
        load_of(source, sources, prepared) == Ok::<LoadedSpec, InvalidSpec>(loaded@),
        member(members, "outline"@) is Some,
    ensures
        loaded.schema.outline_provenance is Outline,
        declare_rules(items_of(member(members, "outline"@)), loaded.schema.outline@),
{
    loads_are_built(source, sources, prepared, members, loaded@);
    let places = source_places(source);
    let match_case = declared_options(members).match_case;
    let rules = loaded.schema.outline@;
    assert(loaded@.schema.outline == rule_specs(rules));
    scopes_are_declared(
        outline_places(places, members),
        items_of(member(members, "outline"@)),
        Seq::empty(),
        match_case,
        rules,
    );
}

proof fn titles_follow_the_document(
    source: Seq<char>,
    sources: Seq<SourceSpec>,
    prepared: Option<PreparedSpec>,
    members: Members,
    loaded: LoadedSchema,
)
    requires
        reads_as(source, members),
        load_of(source, sources, prepared) == Ok::<LoadedSpec, InvalidSpec>(loaded@),
        member(members, "outline"@) is None,
    ensures
        ({
            let schema = loaded.schema;
            let title = member(members, "title"@);
            let rule = schema.outline@[0];
            &&& schema.outline_provenance is NoTitle <==> title == Some(JsonSpec::Null)
            &&& schema.outline_provenance is BareSections <==> title is None
            &&& !(schema.outline_provenance is Outline)
            &&& schema.outline@.len() == 1
            &&& rule.id is None
            &&& !rule.strict
            &&& rule.outcome == if title == Some(JsonSpec::Null) {
                RuleOutcome::Deny
            } else {
                RuleOutcome::Allow(Cardinality { min: 1, max: UpperBound::Bounded(1) })
            }
            &&& match title {
                Some(JsonSpec::Text(text)) => spells_matcher(text, rule.matcher),
                _ => rule.matcher is Any,
            }
            &&& declare_rules(items_of(member(members, "sections"@)), rule.sections@)
        }),
{
    loads_are_built(source, sources, prepared, members, loaded@);
    let places = source_places(source);
    let match_case = declared_options(members).match_case;
    let outline = document_outline_build(places, members, match_case);
    let rules = loaded.schema.outline@;
    assert(loaded@.schema.outline == rule_specs(rules));
    let rule = rules[0];
    assert(rule_specs(rules).len() == rules.len());
    assert(same_rule(rule_specs(rules)[0], outline.rules->0[0]));
    assert(rule_specs(rules)[0] == rule_spec(rule));
    scopes_are_declared(
        places,
        items_of(member(members, "sections"@)),
        Seq::empty(),
        match_case,
        rule.sections@,
    );
    if let Some(JsonSpec::Text(text)) = member(members, "title"@) {
        matchers_are_built_from_their_spelling(
            text,
            match_case,
            range_for(places, KeySpec::DocumentField("title"@)),
            rule.matcher,
        );
    }
}

/// Where a schema is declared by an `outline`, its rules are those that the
/// list declares; otherwise one rule stands above those that `sections`
/// declares, whose heading is what `title` spells, or any, and which is
/// required once, or denied where `title` is null.
pub proof fn rules_follow_the_document(
    source: Seq<char>,
    sources: Seq<SourceSpec>,
    prepared: Option<PreparedSpec>,
    members: Members,
    loaded: LoadedSchema,
)
    requires
        reads_as(source, members),
        load_of(source, sources, prepared) == Ok::<LoadedSpec, InvalidSpec>(loaded@),
    ensures
        ({
            let schema = loaded.schema;
            let title = member(members, "title"@);
            if member(members, "outline"@) is Some {
                &&& schema.outline_provenance is Outline
                &&& declare_rules(items_of(member(members, "outline"@)), schema.outline@)
            } else {
                let rule = schema.outline@[0];
                &&& schema.outline_provenance is NoTitle <==> title == Some(JsonSpec::Null)
                &&& schema.outline_provenance is BareSections <==> title is None
                &&& !(schema.outline_provenance is Outline)
                &&& schema.outline@.len() == 1
                &&& rule.id is None
                &&& !rule.strict
                &&& rule.outcome == if title == Some(JsonSpec::Null) {
                    RuleOutcome::Deny
                } else {
                    RuleOutcome::Allow(Cardinality { min: 1, max: UpperBound::Bounded(1) })
                }
                &&& match title {
                    Some(JsonSpec::Text(text)) => spells_matcher(text, rule.matcher),
                    _ => rule.matcher is Any,
                }
                &&& declare_rules(items_of(member(members, "sections"@)), rule.sections@)
            }
        }),
{
    if member(members, "outline"@) is Some {
        outlines_follow_the_document(source, sources, prepared, members, loaded);
    } else {
        titles_follow_the_document(source, sources, prepared, members, loaded);
    }
}

} // verus!
