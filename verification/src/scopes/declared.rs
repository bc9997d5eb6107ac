//! What a named schema holds of the document that it was loaded from.

use vstd::prelude::*;

use super::captures::{CaptureContext, GroupFacts};
use super::document::{
    named_load_of, preamble_build, preamble_owner, root_build, shape_build, title_found, NamedLoad,
    NamedLoadSpec, Readings,
};
use super::exports::{
    export_faults, export_of, export_required, exports_build, exports_of, field_faults,
    name_faults, optional_json, path_faults, query_fault_specs, required_faults, type_faults,
    DeclaredSpec,
};
use super::frontmatter::{
    capturing_build_of, schema_build, CapturingPolicy, DeclaredSchemaSpec, RawFrontmatter,
};
use super::meaning::{
    captures_follow_their_declaration, cardinalities_follow_their_declaration,
    content_follows_its_declaration, declare_captures, declare_content, declare_orders,
    declares_cardinality, orders_follow_their_declaration, spells_type,
    types_are_read_and_written_by_name,
};
use super::model::{
    child_spec, export_specs, guard_specs, named_spec, named_specs, scope_spec, type_named,
    ChildScope, DeclaredScope, DocumentShape, FrontmatterCapture, NamedRule, ScopeMode,
    SectionGuard, TitleSlot,
};
use super::names::DeclarationSpec;
use super::rules::{
    analysis_specs, capture_declarations, child_build, count_field, field_range, found,
    guards_build, head_errors, id_field, matcher_groups, mode_of, named_build, named_build_is,
    named_captures, named_cardinality, named_content, named_id_errors, named_list_build,
    named_matcher, named_orders, own_found, raw_field, scope_of_rules, BuilderSpec,
};
use crate::json::{member, members_of, JsonSpec};
use crate::load_result::{ContentOwnerSpec, ErrorSpec, RuleIndex, SourceId, SourceSpec};
use crate::loader::load::{outline_places, provenance_of, title_matcher};
use crate::loader::loaded::{declares_id, field_of, items_of, text_of_member};
use crate::loader::patterns::{matchers_are_built_from_their_spelling, spells_matcher};
use crate::loader::places::{known_range, range_for, PlacesSpec};
use crate::loader::ranges::KeySpec;
use crate::loader::rules::{declared_options, error_of, text_field, value_of};
use crate::loader::shape::Members;
use crate::schema::{Cardinality, FrontmatterSchema, FrontmatterSchemaSpec, MatcherSpec};

verus! {

/// The named groups of regular expressions.
pub type GroupTable = Seq<(Seq<char>, Seq<(Seq<char>, GroupFacts)>)>;

/// Whether a value declares a guard: the headings that its `match` spells.
pub open spec fn declares_guard(value: JsonSpec, guard: SectionGuard) -> bool {
    spells_matcher(text_of_member(member(members_of(value), "match"@)), guard.matcher)
}

/// Whether values declare guards, one by one in the same order.
pub open spec fn declare_guards(values: Seq<JsonSpec>, guards: Seq<SectionGuard>) -> bool {
    &&& values.len() == guards.len()
    &&& forall|at: int|
        0 <= at < values.len() ==> declares_guard(values[at], #[trigger] guards[at])
}

/// Whether a value declares a named rule, with what is below it.
pub open spec fn declares_named(groups: GroupTable, value: JsonSpec, rule: NamedRule) -> bool
    decreases rule,
{
    value matches JsonSpec::Object(members) && {
        &&& spells_matcher(text_of_member(member(members, "match"@)), rule.matcher)
        &&& declares_id(members, rule.matcher, rule.id)
        &&& declares_cardinality(members, rule.matcher is Exact, rule.cardinality)
        &&& declare_content(member(members, "content"@), rule.content)
        &&& declare_captures(
            member(members, "captures"@),
            Some(rule.matcher@),
            matcher_groups(groups, Some(rule.matcher@)),
            rule.captures@,
        )
        &&& declare_orders(member(members, "order"@), rule.order@)
        &&& declares_children(groups, members, rule.children)
    }
}

/// Whether members declare what may stand below a heading: the rules of
/// `sections` and the guards of `forbid_sections`.
pub open spec fn declares_children(
    groups: GroupTable,
    members: Members,
    children: ChildScope,
) -> bool
    decreases children,
{
    let forbidden = items_of(member(members, "forbid_sections"@));
    match children {
        ChildScope::Omitted => {
            &&& !(member(members, "sections"@) matches Some(JsonSpec::Array(_)))
            &&& forbidden.len() == 0
        },
        ChildScope::GuardsOnly(guards) => {
            &&& !(member(members, "sections"@) matches Some(JsonSpec::Array(_)))
            &&& declare_guards(forbidden, guards.all())
        },
        ChildScope::Declared(scope) => {
            member(members, "sections"@) matches Some(JsonSpec::Array(values)) && declares_scope(
                groups,
                members,
                values,
                scope,
            )
        },
    }
}

/// Whether members declare a scope of the rules that values declare: guards
/// under `forbid_sections`, other sections anywhere where `extras` is a text,
/// and no order where `unordered` is true, where nothing stands behind a rule
/// for any heading.
pub open spec fn declares_scope(
    groups: GroupTable,
    members: Members,
    values: Seq<JsonSpec>,
    scope: DeclaredScope,
) -> bool
    decreases scope,
{
    &&& declare_named(groups, values, scope.rules@)
    &&& declare_guards(items_of(member(members, "forbid_sections"@)), scope.guards@)
    &&& scope.extras is Anywhere <==> (member(members, "extras"@) matches Some(JsonSpec::Text(_)))
    &&& scope.mode is Unordered <==> member(members, "unordered"@) == Some(JsonSpec::Bool(true))
    &&& scope.mode is Unordered ==> forall|at: int|
        0 <= at < scope.rules@.len() - 1 ==> !((#[trigger] scope.rules@[at]).matcher is Any)
}

/// Whether values declare named rules, one by one in the same order.
pub open spec fn declare_named(
    groups: GroupTable,
    values: Seq<JsonSpec>,
    rules: Seq<NamedRule>,
) -> bool
    decreases rules,
{
    &&& values.len() == rules.len()
    &&& forall|at: int|
        0 <= at < rules.len() ==> declares_named(groups, values[at], #[trigger] rules[at])
}

proof fn guards_are_declared(
    builder: BuilderSpec,
    values: Seq<JsonSpec>,
    scope: Seq<RuleIndex>,
    count: int,
    guards: Seq<SectionGuard>,
)
    requires
        0 <= count <= values.len(),
        guards_build(builder, values, scope, count).guards == Some(guard_specs(guards)),
    ensures
        guards.len() == count,
        forall|at: int|
            0 <= at < count ==> declares_guard(values[at], #[trigger] guards[at]),
    decreases count,
{
    assert(guard_specs(guards).len() == guards.len());
    if count > 0 {
        let before = guards_build(builder, values, scope, count - 1).guards->0;
        let last = guards.last();
        assert(guard_specs(guards).last() == last.matcher@);
        assert(guard_specs(guards) == before.push(guard_specs(guards).last()));
        assert(guard_specs(guards.drop_last()) =~= before) by {
            assert forall|at: int| 0 <= at < before.len() implies guard_specs(guards.drop_last())[at]
                == before[at] by {
                assert(guard_specs(guards)[at] == guards[at].matcher@);
            }
        }
        guards_are_declared(builder, values, scope, count - 1, guards.drop_last());
        let index = (count - 1) as usize;
        let range = range_for(builder.places, KeySpec::GuardField(scope, index, "match"@));
        matchers_are_built_from_their_spelling(
            text_of_member(member(members_of(values[count - 1]), "match"@)),
            builder.match_case,
            range,
            last.matcher,
        );
        assert forall|at: int| 0 <= at < count implies declares_guard(
            values[at],
            #[trigger] guards[at],
        ) by {
            if at < count - 1 {
                assert(guards.drop_last()[at] == guards[at]);
            }
        }
    }
}

proof fn named_rules_are_declared(
    builder: BuilderSpec,
    value: JsonSpec,
    scope: Seq<RuleIndex>,
    index: usize,
    unreachable: bool,
    rule: NamedRule,
)
    requires
        named_build(builder, value, scope, index, unreachable).rule == Some(named_spec(rule)),
        named_build(builder, value, scope, index, unreachable).findings.errors.len() == 0,
    ensures
        declares_named(builder.analyses, value, rule),
        !unreachable,
    decreases rule, 0int,
{
    let members = value->Object_0;
    let place = (scope, RuleIndex(index));
    let below = scope.push(RuleIndex(index));
    named_build_is(builder, members, scope, index, unreachable);
    let content = named_content(builder, place, members);
    let captures = named_captures(builder, place, members);
    let orders = named_orders(builder, place, members);
    let given = capture_declarations(builder.places, place, captures.captures);
    let children = child_build(builder, members, below, given);
    let own = own_found(builder, place, members, unreachable).errors;
    assert(named_build(builder, value, scope, index, unreachable).findings.errors == own
        + children.findings.errors);
    let head = head_errors(builder, place, members, unreachable);
    assert(own == head + content.errors + captures.errors + orders.errors);
    assert(head.len() == 0 && content.errors.len() == 0 && children.findings.errors.len() == 0);
    let matcher = named_matcher(builder, place, members);
    let cardinality = named_cardinality(builder, place, members);
    assert(matcher == Ok::<MatcherSpec, ErrorSpec>(rule.matcher@));
    assert(cardinality == Ok::<Cardinality, ErrorSpec>(rule.cardinality));
    matchers_are_built_from_their_spelling(
        text_of_member(member(members, "match"@)),
        builder.match_case,
        field_range(builder, place, "match"@),
        rule.matcher,
    );
    assert(rule.matcher is Exact <==> rule.matcher@ is Exact);
    cardinalities_follow_their_declaration(
        members,
        rule.matcher is Exact,
        field_range(builder, place, count_field(members)),
        rule.cardinality,
    );
    let ids = named_id_errors(
        text_field(members, "id"@),
        value_of(matcher),
        scope.len() == 0,
        field_range(builder, place, id_field(members)),
    );
    assert(ids.len() == 0);
    assert(declares_id(members, rule.matcher, rule.id));
    content_follows_its_declaration(
        builder.places,
        ContentOwnerSpec::Rule(place),
        ContentOwnerSpec::Rule(place),
        member(members, "content"@),
        builder.match_case,
        rule.content,
    );
    captures_follow_their_declaration(
        CaptureContext {
            places: builder.places,
            rule: place,
            matcher: value_of(matcher),
            groups: matcher_groups(builder.analyses, value_of(matcher)),
        },
        raw_field(members, "captures"@),
        rule.captures@,
    );
    orders_follow_their_declaration(
        builder.places,
        place,
        raw_field(members, "order"@),
        captures.captures,
        value_of(cardinality),
        rule.order@,
    );
    children_are_declared(builder, members, below, given, rule.children);
}

proof fn children_are_declared(
    builder: BuilderSpec,
    members: Members,
    scope: Seq<RuleIndex>,
    given: Seq<DeclarationSpec>,
    children: ChildScope,
)
    requires
        child_build(builder, members, scope, given).children == Some(child_spec(children)),
        child_build(builder, members, scope, given).findings.errors.len() == 0,
    ensures
        declares_children(builder.analyses, members, children),
    decreases children, 0int,
{
    let forbidden = items_of(member(members, "forbid_sections"@));
    match children {
        ChildScope::Omitted => {},
        ChildScope::GuardsOnly(guards) => {
            guards_are_declared(
                builder,
                forbidden,
                scope,
                forbidden.len() as int,
                guards.all(),
            );
        },
        ChildScope::Declared(declared) => {
            let values = member(members, "sections"@)->0->Array_0;
            scopes_are_declared(builder, members, values, scope, given, declared);
        },
    }
}

proof fn scopes_are_declared(
    builder: BuilderSpec,
    members: Members,
    values: Seq<JsonSpec>,
    scope: Seq<RuleIndex>,
    given: Seq<DeclarationSpec>,
    declared: DeclaredScope,
)
    requires
        scope_of_rules(builder, members, values, scope, given).scope == Some(
            scope_spec(declared),
        ),
        scope_of_rules(builder, members, values, scope, given).findings.errors.len() == 0,
    ensures
        declares_scope(builder.analyses, members, values, declared),
    decreases declared, 0int,
{
    let list = named_list_build(
        builder,
        values,
        scope,
        mode_of(members),
        given,
        values.len() as int,
    );
    let forbidden = items_of(member(members, "forbid_sections"@));
    let findings = scope_of_rules(builder, members, values, scope, given).findings;
    assert(list.findings.errors.len() <= findings.errors.len());
    let rules = declared.rules@;
    assert(named_specs(rules).len() == rules.len());
    assert forall|at: int| 0 <= at < list.built.len() implies list.built[at] == named_spec(
        rules[at],
    ) by {
        assert(named_specs(rules)[at] == named_spec(rules[at]));
    }
    lists_are_declared(
        builder,
        values,
        scope,
        mode_of(members),
        given,
        values.len() as int,
        rules,
    );
    guards_are_declared(builder, forbidden, scope, forbidden.len() as int, declared.guards@);
}

proof fn lists_are_declared(
    builder: BuilderSpec,
    values: Seq<JsonSpec>,
    scope: Seq<RuleIndex>,
    mode: ScopeMode,
    given: Seq<DeclarationSpec>,
    count: int,
    rules: Seq<NamedRule>,
)
    requires
        0 <= count <= values.len(),
        ({
            let list = named_list_build(builder, values, scope, mode, given, count);
            &&& list.complete
            &&& list.findings.errors.len() == 0
            &&& list.built.len() <= rules.len()
            &&& forall|at: int|
                0 <= at < list.built.len() ==> #[trigger] list.built[at] == named_spec(rules[at])
        }),
    ensures
        ({
            let list = named_list_build(builder, values, scope, mode, given, count);
            &&& list.built.len() == count
            &&& forall|at: int|
                0 <= at < count ==> declares_named(
                    builder.analyses,
                    values[at],
                    #[trigger] rules[at],
                )
            &&& forall|at: int|
                0 <= at < count && (#[trigger] rules[at]).matcher is Any ==> list.wildcard
            &&& mode == ScopeMode::Unordered ==> forall|at: int|
                0 <= at < count - 1 ==> !((#[trigger] rules[at]).matcher is Any)
        }),
    decreases rules, count,
{
    if count > 0 {
        let before = named_list_build(builder, values, scope, mode, given, count - 1);
        let list = named_list_build(builder, values, scope, mode, given, count);
        let index = (count - 1) as usize;
        let value = values[count - 1];
        let unreachable = mode == ScopeMode::Unordered && before.wildcard;
        let last = named_build(builder, value, scope, index, unreachable);
        assert(list.findings.errors == before.findings.errors + last.findings.errors);
        assert forall|at: int| 0 <= at < before.built.len() implies #[trigger] before.built[at]
            == named_spec(rules[at]) by {
            assert(list.built[at] == before.built[at]);
        }
        lists_are_declared(builder, values, scope, mode, given, count - 1, rules);
        assert(list.built.last() == named_spec(rules[count - 1]));
        named_rules_are_declared(builder, value, scope, index, unreachable, rules[count - 1]);
        let members = value->Object_0;
        let place = (scope, RuleIndex(index));
        named_build_is(builder, members, scope, index, unreachable);
        assert(named_matcher(builder, place, members) == Ok::<MatcherSpec, ErrorSpec>(
            rules[count - 1].matcher@,
        ));
    }
}

/// Whether members declare the shape of a document: an `outline` of rules, or
/// one heading above `sections`, which must not be there where `title` is null,
/// and is otherwise what `title` spells, or any; and in front of the sections
/// the content under `content`.
pub open spec fn declares_shape(
    groups: GroupTable,
    members: Members,
    document: DocumentShape,
) -> bool {
    let title = member(members, "title"@);
    let preamble = member(members, "content"@);
    match document {
        DocumentShape::Outline { scope, content } => {
            &&& (member(members, "outline"@) matches Some(JsonSpec::Array(values))
                && declares_scope(groups, members, values, scope))
            &&& declare_content(preamble, content)
        },
        DocumentShape::Title(TitleSlot::Forbidden { children, content }) => {
            &&& member(members, "outline"@) is None
            &&& title == Some(JsonSpec::Null)
            &&& declares_children(groups, members, children)
            &&& declare_content(preamble, content)
        },
        DocumentShape::Title(TitleSlot::Required { matcher, spelled, children, content }) => {
            &&& member(members, "outline"@) is None
            &&& title != Some(JsonSpec::Null)
            &&& spelled <==> title is Some
            &&& match title {
                Some(JsonSpec::Text(text)) => spells_matcher(text, matcher),
                _ => matcher is Any,
            }
            &&& declares_children(groups, members, children)
            &&& declare_content(preamble, content)
        },
    }
}

/// The shape of a document is the one that its members declare.
pub proof fn shapes_follow_their_declaration(
    builder: BuilderSpec,
    members: Members,
    document: DocumentShape,
)
    requires
        shape_build(builder, members).shape == Some(document@),
        shape_build(builder, members).findings.errors.len() == 0,
    ensures
        declares_shape(builder.analyses, members, document),
{
    let root = root_build(builder, members);
    let preamble = preamble_build(builder, members);
    let title = title_found(builder, members).errors;
    let build = shape_build(builder, members);
    assert(build.findings.errors == title + root.findings.errors + preamble.errors);
    assert(title.len() == 0 && root.findings.errors.len() == 0 && preamble.errors.len() == 0);
    let owner = preamble_owner(provenance_of(members));
    match document {
        DocumentShape::Outline { scope, content } => {
            let values = member(members, "outline"@)->0->Array_0;
            scopes_are_declared(builder, members, values, Seq::empty(), Seq::empty(), scope);
            content_follows_its_declaration(
                builder.places,
                ContentOwnerSpec::Document,
                owner,
                member(members, "content"@),
                builder.match_case,
                content,
            );
        },
        DocumentShape::Title(TitleSlot::Forbidden { children, content }) => {
            children_are_declared(builder, members, Seq::empty(), Seq::empty(), children);
            content_follows_its_declaration(
                builder.places,
                ContentOwnerSpec::Document,
                owner,
                member(members, "content"@),
                builder.match_case,
                content,
            );
        },
        DocumentShape::Title(TitleSlot::Required { matcher, children, content, .. }) => {
            children_are_declared(builder, members, Seq::empty(), Seq::empty(), children);
            content_follows_its_declaration(
                builder.places,
                ContentOwnerSpec::Document,
                owner,
                member(members, "content"@),
                builder.match_case,
                content,
            );
            let heading = title_matcher(builder.places, members, builder.match_case);
            assert(error_of(heading).len() == 0);
            if let Some(JsonSpec::Text(text)) = member(members, "title"@) {
                matchers_are_built_from_their_spelling(
                    text,
                    builder.match_case,
                    range_for(builder.places, KeySpec::DocumentField("title"@)),
                    matcher,
                );
            }
        },
    }
}

/// Whether a value declares a frontmatter capture: of the type under `type`,
/// at the path under `path` or at the key of its own name, and required where
/// `required` is true.
pub open spec fn declares_export(
    name: Seq<char>,
    value: JsonSpec,
    capture: FrontmatterCapture,
) -> bool {
    value matches JsonSpec::Object(fields) && {
        &&& (member(fields, "type"@) matches Some(JsonSpec::Text(spelling)) && spells_type(
            spelling,
            capture.value_type,
        ))
        &&& match member(fields, "path"@) {
            Some(path) => path == JsonSpec::Text(capture.path@),
            None => capture.path@ == "$['"@ + name + "']"@,
        }
        &&& capture.required <==> member(fields, "required"@) == Some(JsonSpec::Bool(true))
    }
}

/// A frontmatter capture is read from the value that declares it.
pub proof fn exports_are_read_from_their_declaration(
    name: Seq<char>,
    value: JsonSpec,
    queries: Seq<(Seq<char>, Seq<char>)>,
    capture: FrontmatterCapture,
)
    requires
        export_of(name, value, queries) == Some(capture@),
    ensures
        declares_export(name, value, capture),
{
    let fields = value->Object_0;
    let faults = export_faults(name, value, queries);
    let types = type_faults(name, fields);
    let flags = required_faults(name, fields);
    let paths = path_faults(name, fields, queries);
    let names = name_faults(name);
    assert(faults == names + (field_faults(name, fields, fields.len() as int) + types + flags
        + paths));
    assert(names.len() == 0 && types.len() == 0 && flags.len() == 0 && paths.len() == 0);
    assert(member(fields, "type"@) matches Some(JsonSpec::Text(_)));
    let spelling = member(fields, "type"@)->0->Text_0;
    assert(type_named(spelling) is Some);
    types_are_read_and_written_by_name(spelling, capture.value_type);
    assert(export_required(fields) is Some);
}

/// Whether a value declares frontmatter captures, one by one under their names.
pub open spec fn declare_exports(
    value: Option<JsonSpec>,
    captures: Seq<(String, FrontmatterCapture)>,
) -> bool {
    value matches Some(JsonSpec::Object(entries)) && {
        &&& entries.len() == captures.len()
        &&& forall|at: int|
            0 <= at < captures.len() ==> {
                &&& entries[at].0 == (#[trigger] captures[at]).0@
                &&& declares_export(entries[at].0, entries[at].1, captures[at].1)
            }
    }
}

/// The frontmatter captures are those that the declaration names.
pub proof fn exports_follow_their_declaration(
    places: PlacesSpec,
    value: Option<JsonSpec>,
    declared: bool,
    queries: Seq<(Seq<char>, Seq<char>)>,
    captures: Seq<(String, FrontmatterCapture)>,
)
    requires
        exports_build(places, value, declared, queries).captures == DeclaredSpec::Valid(
            export_specs(captures),
        ),
    ensures
        declare_exports(value, captures),
{
    reveal(exports_build);
    let entries = value->0->Object_0;
    let exports = exports_of(entries, queries);
    assert(export_specs(captures).len() == captures.len());
    assert(exports.len() == entries.len());
    assert forall|at: int| 0 <= at < captures.len() implies ({
        &&& entries[at].0 == (#[trigger] captures[at]).0@
        &&& declares_export(entries[at].0, entries[at].1, captures[at].1)
    }) by {
        assert(export_specs(captures)[at] == (captures[at].0@, captures[at].1@));
        assert(exports[at] == (
            entries[at].0,
            export_of(entries[at].0, entries[at].1, queries)->Some_0,
        ));
        assert(export_of(entries[at].0, entries[at].1, queries) is Some);
        exports_are_read_from_their_declaration(
            entries[at].0,
            entries[at].1,
            queries,
            captures[at].1,
        );
    }
}

/// The schema of a policy.
pub open spec fn schema_of(policy: CapturingPolicy) -> Option<FrontmatterSchema> {
    match policy {
        CapturingPolicy::RequiredWithCaptures { schema, .. } => schema,
        CapturingPolicy::OptionalWithCaptures { schema, .. } => schema,
        CapturingPolicy::Required { schema } => schema,
        CapturingPolicy::Optional { schema } => schema,
        CapturingPolicy::Forbidden { schema } => schema,
    }
}

/// The policy is the one that the document declares: it forbids frontmatter
/// where `allow` is false, requires it where `required` is true, has captures
/// where they are declared, and has a schema where one is declared.
pub proof fn capturing_policies_follow_their_declaration(
    places: PlacesSpec,
    raw: RawFrontmatter,
    settled: Option<DeclaredSchemaSpec>,
    sources: Seq<SourceSpec>,
    queries: Seq<(Seq<char>, Seq<char>)>,
    policy: CapturingPolicy,
)
    requires
        capturing_build_of(places, Some(raw), true, settled, sources, queries).policy == Some(
            policy@,
        ),
    ensures
        policy is Forbidden <==> raw.allow == Some(false),
        policy is Required || policy is RequiredWithCaptures <==> raw.required == Some(true),
        policy is RequiredWithCaptures || policy is OptionalWithCaptures <==> known_range(
            places,
            KeySpec::FrontmatterField("captures"@),
        ) is Some,
        schema_of(policy) is Some <==> settled is Some,
        settled matches Some(DeclaredSchemaSpec::Linked(Some(prepared))) ==> prepared.result
            == Ok::<FrontmatterSchemaSpec, Seq<(SourceId, Seq<char>)>>(schema_of(policy)->0@),
        settled matches Some(DeclaredSchemaSpec::Inline(result)) ==> result
            == Ok::<FrontmatterSchemaSpec, Seq<Seq<char>>>(schema_of(policy)->0@),
        policy matches CapturingPolicy::RequiredWithCaptures { captures, .. } ==> declare_exports(
            optional_json(raw.captures),
            captures@,
        ),
        policy matches CapturingPolicy::OptionalWithCaptures { captures, .. } ==> declare_exports(
            optional_json(raw.captures),
            captures@,
        ),
{
    reveal(schema_build);
    let declared = known_range(places, KeySpec::FrontmatterField("captures"@)) is Some;
    let value = optional_json(raw.captures);
    assert(exports_build(places, value, declared, queries).captures is Absent <==> !declared) by {
        reveal(exports_build);
    }
    match policy {
        CapturingPolicy::RequiredWithCaptures { captures, .. } => {
            exports_follow_their_declaration(places, value, declared, queries, captures@);
        },
        CapturingPolicy::OptionalWithCaptures { captures, .. } => {
            exports_follow_their_declaration(places, value, declared, queries, captures@);
        },
        _ => {},
    }
}

/// Undeclared frontmatter is optional, without a schema or captures.
pub proof fn undeclared_frontmatter_is_optional(
    places: PlacesSpec,
    raw: Option<RawFrontmatter>,
    settled: Option<DeclaredSchemaSpec>,
    sources: Seq<SourceSpec>,
    queries: Seq<(Seq<char>, Seq<char>)>,
    policy: CapturingPolicy,
)
    requires
        capturing_build_of(places, raw, false, settled, sources, queries).policy == Some(policy@),
    ensures
        policy is Optional,
        schema_of(policy) is None,
{
}

/// A named schema that was loaded has the version, the options, the policy and
/// the shape that its document declares.
pub proof fn named_schemas_follow_the_document(
    places: PlacesSpec,
    readings: Readings,
    members: Members,
    raw: Option<RawFrontmatter>,
    settled: Option<DeclaredSchemaSpec>,
    sources: Seq<SourceSpec>,
    load: NamedLoad,
)
    requires
        named_load_of(places, readings, members, raw, settled, sources) == Ok::<
            NamedLoadSpec,
            Seq<ErrorSpec>,
        >(load@),
    ensures
        member(members, "version"@) == Some(JsonSpec::Number("2"@)),
        load.schema.options.match_case <==> field_of(members, "options"@, "match_case"@) == Some(
            JsonSpec::Bool(true),
        ),
        load.schema.options.strip_inline_markup <==> field_of(
            members,
            "options"@,
            "strip_inline_markup"@,
        ) != Some(JsonSpec::Bool(false)),
        load.schema.options.allow_skipped_levels <==> field_of(
            members,
            "options"@,
            "allow_skipped_levels"@,
        ) == Some(JsonSpec::Bool(true)),
        declares_shape(analysis_specs(readings.analyses@), members, load.schema.document),
        member(members, "frontmatter"@) is None ==> load.schema.frontmatter is Optional
            && schema_of(load.schema.frontmatter) is None,
        member(members, "frontmatter"@) is Some ==> (raw matches Some(raw) && {
            let policy = load.schema.frontmatter;
            &&& policy is Forbidden <==> raw.allow == Some(false)
            &&& policy is Required || policy is RequiredWithCaptures <==> raw.required == Some(
                true,
            )
            &&& schema_of(policy) is Some <==> settled is Some
        }),
{
    let inner = outline_places(places, members);
    let queries = query_fault_specs(readings.queries@);
    let declared = member(members, "frontmatter"@) is Some;
    let frontmatter = capturing_build_of(inner, raw, declared, settled, sources, queries);
    let builder = BuilderSpec {
        places: inner,
        match_case: declared_options(members).match_case,
        analyses: analysis_specs(readings.analyses@),
    };
    let earlier = found(frontmatter.errors, frontmatter.nodes);
    let shape = shape_build(builder, members);
    let findings = earlier.plus(shape.findings);
    assert(findings.errors == earlier.errors + shape.findings.errors);
    assert(shape.findings.errors.len() == 0);
    shapes_follow_their_declaration(builder, members, load.schema.document);
    if declared {
        if let Some(raw) = raw {
            capturing_policies_follow_their_declaration(
                inner,
                raw,
                settled,
                sources,
                queries,
                load.schema.frontmatter,
            );
        }
    }
}

} // verus!
