//! Building the rules of named scopes out of their declarations.

use vstd::prelude::*;

use super::captures::{
    build_rule_captures, built_captures, capture_declaration_range, capture_range, captures_build,
    group_specs, optional_groups, CaptureContext, CapturesBuild, GroupFacts, Groups,
};
use super::cardinality::{build_cardinality, cardinality_of};
use super::content::{build_content_scope, content_scope_build, optional_value, ContentBuild};
use super::model::{
    capture_specs, child_spec, guard_specs, named_spec, named_specs, scope_spec, Captures,
    ChildScope, ChildSpec, ContentScope, DeclaredScope, ExtrasMode, NamedRule, NamedSpec,
    ScopeMode, ScopeSpec, SectionGuard, ValueOrderEntry, ValueType,
};
use super::names::{
    check_named_scope, declaration_specs, free_namespaces_have_different_names, in_scope,
    names_differ, names_fit, namespace_errors, reserved_purpose, reserved_root_id,
    DeclarationSpec, EntrySpec, NamedDeclaration, NamedEntry, NamedScope, NamedScopeSpec,
    Namespaces,
};
use super::order::{build_rule_order, optional_captures, optional_orders, order_build, OrderBuild};
use crate::document_path::slug::{has_slug_form, heading_slug, HeadingSlug};
use crate::json::{
    get_member, item_specs, member, member_index_bounds, member_specs, members_of, Json,
    JsonSpec,
};
use crate::load_result::{
    error_specs, CapturePath, ContentOwner, ContentOwnerSpec, ErrorSpec, FoundNodes, GuardPath,
    NodeAddress, RuleIndex, RulePath, SchemaError, SchemaErrorKind, SchemaNode, ScopePath,
    SourceRange,
};
use crate::loader::places::{
    error_at, plain_error, range_for, shape_error, shape_error_at, Places, PlacesSpec,
};
use crate::loader::ranges::{KeySpec, RangeKey};
use crate::loader::rules::{
    bool_field, build_matcher, error_of, get_bool, get_list, get_text, list_field, matcher_of,
    matcher_spec, rule_id_of, text_field, text_spec, value_of, Declared,
};
use crate::loader::shape::{member_at, Members};
use crate::schema::{id_spec, Cardinality, Matcher, MatcherSpec, NonEmpty, RuleId};
use crate::text::{join2, join3, same_text};

verus! {

/// The named groups of regular expressions, by the expression.
pub type Analyses = Vec<(String, Groups)>;

/// What analyses are.
pub open spec fn analysis_specs(analyses: Seq<(String, Groups)>) -> Seq<
    (Seq<char>, Seq<(Seq<char>, GroupFacts)>),
> {
    analyses.map_values(|analysis: (String, Groups)| (analysis.0@, group_specs(analysis.1@)))
}

/// The named groups of a regular expression, from `from` on.
pub open spec fn analysis_from(
    analyses: Seq<(Seq<char>, Seq<(Seq<char>, GroupFacts)>)>,
    pattern: Seq<char>,
    from: int,
) -> Option<Seq<(Seq<char>, GroupFacts)>>
    decreases analyses.len() - from,
{
    if from < 0 || from >= analyses.len() {
        None
    } else if analyses[from].0 == pattern {
        Some(analyses[from].1)
    } else {
        analysis_from(analyses, pattern, from + 1)
    }
}

/// The named groups of a matcher, if it is a regular expression that was
/// analyzed.
pub open spec fn matcher_groups(
    analyses: Seq<(Seq<char>, Seq<(Seq<char>, GroupFacts)>)>,
    matcher: Option<MatcherSpec>,
) -> Option<Seq<(Seq<char>, GroupFacts)>> {
    match matcher {
        Some(MatcherSpec::Regex(pattern)) => analysis_from(analyses, pattern, 0),
        _ => None,
    }
}

fn find_groups<'a>(analyses: &'a Analyses, matcher: &Option<Matcher>) -> (groups: Option<
    &'a Groups,
>)
    ensures
        optional_groups(groups) == matcher_groups(
            analysis_specs(analyses@),
            matcher_spec(*matcher),
        ),
{
    let ghost specs = analysis_specs(analyses@);
    let pattern = match matcher {
        Some(Matcher::Regex(pattern)) => pattern.0.as_str(),
        _ => {
            return None;
        },
    };
    let mut at: usize = 0;
    while at < analyses.len()
        invariant
            at <= analyses@.len(),
            specs == analysis_specs(analyses@),
            matcher_groups(specs, matcher_spec(*matcher)) == analysis_from(
                specs,
                pattern@,
                at as int,
            ),
        decreases analyses.len() - at,
    {
        assert(specs[at as int] == (analyses@[at as int].0@, group_specs(
            analyses@[at as int].1@,
        )));
        if same_text(analyses[at].0.as_str(), pattern) {
            return Some(&analyses[at].1);
        }
        at += 1;
    }
    None
}

/// What scopes are built with.
pub struct Builder<'a> {
    /// Where things stand.
    pub places: &'a Places,
    /// Whether case counts.
    pub match_case: bool,
    /// The named groups of the regular expressions.
    pub analyses: &'a Analyses,
}

/// What a builder is.
pub struct BuilderSpec {
    /// See [`Builder::places`].
    pub places: PlacesSpec,
    /// See [`Builder::match_case`].
    pub match_case: bool,
    /// See [`Builder::analyses`].
    pub analyses: Seq<(Seq<char>, Seq<(Seq<char>, GroupFacts)>)>,
}

impl<'a> View for Builder<'a> {
    type V = BuilderSpec;

    open spec fn view(&self) -> BuilderSpec {
        BuilderSpec {
            places: self.places@,
            match_case: self.match_case,
            analyses: analysis_specs(self.analyses@),
        }
    }
}

/// What building named scopes leaves behind, besides its result.
pub struct ScopeFindings<'j> {
    /// The errors.
    pub errors: Vec<SchemaError>,
    /// The ranges of the nodes that were built.
    pub nodes: FoundNodes,
    /// The constraints that scopes declare, to be built when all rules are.
    pub constraints: Vec<Declared<'j>>,
    /// The names that scopes declare.
    pub names: Namespaces,
}

/// What findings are.
#[verifier::ext_equal]
pub struct ScopeFindingsSpec {
    /// See [`ScopeFindings::errors`].
    pub errors: Seq<ErrorSpec>,
    /// See [`ScopeFindings::nodes`].
    pub nodes: Seq<(NodeAddress, SourceRange)>,
    /// See [`ScopeFindings::constraints`].
    pub constraints: Seq<(Seq<RuleIndex>, Seq<JsonSpec>)>,
    /// See [`ScopeFindings::names`].
    pub names: Seq<(NamedScopeSpec, Seq<DeclarationSpec>)>,
}

impl<'j> View for ScopeFindings<'j> {
    type V = ScopeFindingsSpec;

    open spec fn view(&self) -> ScopeFindingsSpec {
        ScopeFindingsSpec {
            errors: error_specs(self.errors@),
            nodes: self.nodes@,
            constraints: self.constraints@.map_values(|declared: Declared<'j>| declared@),
            names: self.names@,
        }
    }
}

impl ScopeFindingsSpec {
    /// These findings, and then more.
    pub open spec fn plus(self, more: ScopeFindingsSpec) -> ScopeFindingsSpec {
        ScopeFindingsSpec {
            errors: self.errors + more.errors,
            nodes: self.nodes + more.nodes,
            constraints: self.constraints + more.constraints,
            names: self.names + more.names,
        }
    }
}

/// Findings of errors and nodes alone.
pub open spec fn found(
    errors: Seq<ErrorSpec>,
    nodes: Seq<(NodeAddress, SourceRange)>,
) -> ScopeFindingsSpec {
    ScopeFindingsSpec { errors, nodes, constraints: Seq::empty(), names: Seq::empty() }
}

/// No findings.
pub open spec fn none_found() -> ScopeFindingsSpec {
    found(Seq::empty(), Seq::empty())
}

impl<'j> ScopeFindings<'j> {
    /// No findings.
    pub fn new() -> (findings: Self)
        ensures
            findings@ == none_found(),
    {
        let findings = ScopeFindings {
            errors: Vec::new(),
            nodes: FoundNodes::new(),
            constraints: Vec::new(),
            names: Namespaces::new(),
        };
        assert(findings@ =~= none_found());
        findings
    }
}

/// The errors in the id of a rule in a named scope.
pub open spec fn named_id_errors(
    explicit: Option<Seq<char>>,
    matcher: Option<MatcherSpec>,
    top_level: bool,
    range: SourceRange,
) -> Seq<ErrorSpec> {
    match explicit {
        Some(id) => if !has_slug_form(id) {
            seq![shape_error(range, "rule id `"@ + id + "` is not a lowercase slug"@)]
        } else {
            match reserved_purpose(id) {
                Some(purpose) => if top_level {
                    seq![
                        plain_error(
                            SchemaErrorKind::ReservedId,
                            range,
                            "top-level rule id `"@ + id + "` is reserved for "@ + purpose,
                        ),
                    ]
                } else {
                    Seq::empty()
                },
                None => Seq::empty(),
            }
        },
        None => match rule_id_of(explicit, matcher) {
            Some(id) => match reserved_purpose(id) {
                Some(purpose) => if top_level {
                    seq![
                        plain_error(
                            SchemaErrorKind::ReservedId,
                            range,
                            "top-level auto-generated rule id `"@ + id + "` is reserved for "@
                                + purpose,
                        ),
                    ]
                } else {
                    Seq::empty()
                },
                None => Seq::empty(),
            },
            None => Seq::empty(),
        },
    }
}

/// Builds the id of a rule in a named scope.
pub fn build_named_id(
    explicit: Option<&str>,
    matcher: &Option<Matcher>,
    top_level: bool,
    range: SourceRange,
    errors: &mut Vec<SchemaError>,
) -> (id: Option<RuleId>)
    ensures
        id_spec(id) == rule_id_of(text_spec(explicit), matcher_spec(*matcher)),
        error_specs(final(errors)@) == error_specs(old(errors)@) + named_id_errors(
            text_spec(explicit),
            matcher_spec(*matcher),
            top_level,
            range,
        ),
{
    let ghost expected = named_id_errors(
        text_spec(explicit),
        matcher_spec(*matcher),
        top_level,
        range,
    );
    let (id, kind) = match explicit {
        Some(id) => {
            if HeadingSlug::parse(id).is_none() {
                shape_error_at(errors, range, join3("rule id `", id, "` is not a lowercase slug"));
                assert(error_specs(errors@) =~= error_specs(old(errors)@) + expected);
                return None;
            }
            (id.to_owned(), "top-level rule id `")
        },
        None => match matcher {
            Some(Matcher::Exact(text)) => match heading_slug(text.0.as_str()) {
                Some(slug) => (slug.into_string(), "top-level auto-generated rule id `"),
                None => {
                    assert(error_specs(errors@) =~= error_specs(old(errors)@) + expected);
                    return None;
                },
            },
            _ => {
                assert(error_specs(errors@) =~= error_specs(old(errors)@) + expected);
                return None;
            },
        },
    };
    if top_level {
        if let Some(purpose) = reserved_root_id(id.as_str()) {
            error_at(
                errors,
                SchemaErrorKind::ReservedId,
                range,
                join2(join3(kind, id.as_str(), "` is reserved for ").as_str(), purpose),
            );
        }
    }
    assert(error_specs(errors@) =~= error_specs(old(errors)@) + expected);
    Some(RuleId(id))
}

/// The value of an optional field, where `null` is no value.
pub open spec fn raw_field(members: Members, name: Seq<char>) -> Option<JsonSpec> {
    match member(members, name) {
        Some(JsonSpec::Null) => None,
        value => value,
    }
}

fn get_raw<'j>(members: &'j Vec<(String, Json)>, name: &str) -> (value: Option<&'j Json>)
    ensures
        optional_value(value) == raw_field(member_specs(members@), name@),
{
    match get_member(members, name) {
        Some(Json::Null) => None,
        value => value,
    }
}

/// The field at which a rule's id is reported.
pub open spec fn id_field(members: Members) -> Seq<char> {
    if text_field(members, "id"@) is Some {
        "id"@
    } else {
        "match"@
    }
}

/// The field at which a rule's cardinality is reported.
pub open spec fn count_field(members: Members) -> Seq<char> {
    if text_field(members, "repeat"@) is Some {
        "repeat"@
    } else if bool_field(members, "required"@) is Some {
        "required"@
    } else {
        "match"@
    }
}

/// Where a field of a rule stands.
pub open spec fn field_range(
    builder: BuilderSpec,
    rule: (Seq<RuleIndex>, RuleIndex),
    field: Seq<char>,
) -> SourceRange {
    range_for(builder.places, KeySpec::RuleField(rule.0, rule.1, field))
}

fn get_field_range<'a>(builder: &Builder<'a>, rule: &RulePath, field: &str) -> (range: SourceRange)
    ensures
        range == field_range(builder@, rule@, field@),
{
    builder.places.range(RangeKey::RuleField(rule.scope.clone(), rule.index, field.to_owned()))
}

/// The matcher that a rule declares, or the error in it.
pub open spec fn named_matcher(
    builder: BuilderSpec,
    rule: (Seq<RuleIndex>, RuleIndex),
    members: Members,
) -> Result<MatcherSpec, ErrorSpec> {
    matcher_of(
        match text_field(members, "match"@) {
            Some(source) => source,
            None => Seq::empty(),
        },
        builder.match_case,
        field_range(builder, rule, "match"@),
    )
}

/// The cardinality that a rule declares, or the error in it.
pub open spec fn named_cardinality(
    builder: BuilderSpec,
    rule: (Seq<RuleIndex>, RuleIndex),
    members: Members,
) -> Result<Cardinality, ErrorSpec> {
    cardinality_of(
        bool_field(members, "required"@),
        text_field(members, "repeat"@),
        value_of(named_matcher(builder, rule, members)) matches Some(MatcherSpec::Exact(_)),
        field_range(builder, rule, count_field(members)),
    )
}

/// The id of a rule.
pub open spec fn named_id(
    builder: BuilderSpec,
    rule: (Seq<RuleIndex>, RuleIndex),
    members: Members,
) -> Option<Seq<char>> {
    rule_id_of(text_field(members, "id"@), value_of(named_matcher(builder, rule, members)))
}

/// The name that a rule gives to its scope: its id, unless it could not be
/// counted or the id is reserved.
pub open spec fn rule_declaration(
    builder: BuilderSpec,
    rule: (Seq<RuleIndex>, RuleIndex),
    members: Members,
) -> Seq<DeclarationSpec> {
    match (named_id(builder, rule, members), named_cardinality(builder, rule, members)) {
        (Some(id), Ok(cardinality)) => if rule.0.len() == 0 && reserved_purpose(id) is Some {
            Seq::empty()
        } else {
            seq![
                DeclarationSpec {
                    name: id,
                    range: field_range(builder, rule, id_field(members)),
                    entry: EntrySpec::Section(rule, cardinality.max),
                },
            ]
        },
        _ => Seq::empty(),
    }
}

/// What building the content of a rule yields.
pub open spec fn named_content(
    builder: BuilderSpec,
    rule: (Seq<RuleIndex>, RuleIndex),
    members: Members,
) -> ContentBuild {
    content_scope_build(
        builder.places,
        ContentOwnerSpec::Rule(rule),
        ContentOwnerSpec::Rule(rule),
        member(members, "content"@),
        builder.match_case,
    )
}

/// What building the captures of a rule yields.
pub open spec fn named_captures(
    builder: BuilderSpec,
    rule: (Seq<RuleIndex>, RuleIndex),
    members: Members,
) -> CapturesBuild {
    let matcher = value_of(named_matcher(builder, rule, members));
    captures_build(
        CaptureContext {
            places: builder.places,
            rule,
            matcher,
            groups: matcher_groups(builder.analyses, matcher),
        },
        raw_field(members, "captures"@),
    )
}

/// What building the orders of a rule yields.
pub open spec fn named_orders(
    builder: BuilderSpec,
    rule: (Seq<RuleIndex>, RuleIndex),
    members: Members,
) -> OrderBuild {
    order_build(
        builder.places,
        rule,
        raw_field(members, "order"@),
        named_captures(builder, rule, members).captures,
        value_of(named_cardinality(builder, rule, members)),
    )
}

/// The errors in a rule's matcher, id, and cardinality. A rule behind a
/// wildcard in an unordered scope is never reached.
pub open spec fn head_errors(
    builder: BuilderSpec,
    rule: (Seq<RuleIndex>, RuleIndex),
    members: Members,
    unreachable: bool,
) -> Seq<ErrorSpec> {
    let matcher = named_matcher(builder, rule, members);
    error_of(matcher) + (if unreachable && matcher is Ok {
        seq![
            plain_error(
                SchemaErrorKind::UnreachableRule,
                field_range(builder, rule, "match"@),
                "rule is unreachable after the first wildcard in an unordered scope"@,
            ),
        ]
    } else {
        Seq::empty()
    }) + named_id_errors(
        text_field(members, "id"@),
        value_of(matcher),
        rule.0.len() == 0,
        field_range(builder, rule, id_field(members)),
    ) + error_of(named_cardinality(builder, rule, members))
}

/// What a rule leaves behind by itself, without its child rules.
pub open spec fn own_found(
    builder: BuilderSpec,
    rule: (Seq<RuleIndex>, RuleIndex),
    members: Members,
    unreachable: bool,
) -> ScopeFindingsSpec {
    let content = named_content(builder, rule, members);
    let captures = named_captures(builder, rule, members);
    let orders = named_orders(builder, rule, members);
    found(
        head_errors(builder, rule, members, unreachable) + content.errors + captures.errors
            + orders.errors,
        seq![
            (
                NodeAddress::Rule(rule.0, rule.1),
                range_for(builder.places, KeySpec::Rule(rule.0, rule.1)),
            ),
        ] + content.nodes + captures.nodes + orders.nodes,
    )
}

/// The head of a rule: its matcher, its id, and its cardinality.
struct RuleHead {
    matcher: Option<Matcher>,
    id: Option<RuleId>,
    cardinality: Option<Cardinality>,
}

fn build_head_matcher<'a>(
    builder: &Builder<'a>,
    rule: &RulePath,
    members: &Vec<(String, Json)>,
    errors: &mut Vec<SchemaError>,
) -> (matcher: Option<Matcher>)
    ensures
        ({
            let declared = named_matcher(builder@, rule@, member_specs(members@));
            &&& matcher_spec(matcher) == value_of(declared)
            &&& error_specs(final(errors)@) == error_specs(old(errors)@) + error_of(declared)
        }),
{
    let ghost declared = named_matcher(builder@, rule@, member_specs(members@));
    let range = get_field_range(builder, rule, "match");
    let source = match get_text(members, "match") {
        Some(source) => source,
        None => "",
    };
    proof {
        reveal_strlit("");
        assert(""@ =~= Seq::empty());
    }
    let matcher = build_matcher(source, builder.match_case, range, errors);
    assert(error_specs(errors@) =~= error_specs(old(errors)@) + error_of(declared));
    matcher
}

fn build_head_id<'a>(
    builder: &Builder<'a>,
    rule: &RulePath,
    members: &Vec<(String, Json)>,
    matcher: &Option<Matcher>,
    errors: &mut Vec<SchemaError>,
) -> (id: Option<RuleId>)
    ensures
        ({
            let specs = member_specs(members@);
            let explicit = text_field(specs, "id"@);
            &&& id_spec(id) == rule_id_of(explicit, matcher_spec(*matcher))
            &&& error_specs(final(errors)@) == error_specs(old(errors)@) + named_id_errors(
                explicit,
                matcher_spec(*matcher),
                rule@.0.len() == 0,
                field_range(builder@, rule@, id_field(specs)),
            )
        }),
{
    let explicit = get_text(members, "id");
    let field = if explicit.is_some() {
        "id"
    } else {
        "match"
    };
    let range = get_field_range(builder, rule, field);
    build_named_id(explicit, matcher, rule.scope.0.len() == 0, range, errors)
}

fn build_head_cardinality<'a>(
    builder: &Builder<'a>,
    rule: &RulePath,
    members: &Vec<(String, Json)>,
    matcher: &Option<Matcher>,
    errors: &mut Vec<SchemaError>,
) -> (cardinality: Option<Cardinality>)
    requires
        matcher_spec(*matcher) == value_of(
            named_matcher(builder@, rule@, member_specs(members@)),
        ),
    ensures
        ({
            let declared = named_cardinality(builder@, rule@, member_specs(members@));
            &&& cardinality == value_of(declared)
            &&& error_specs(final(errors)@) == error_specs(old(errors)@) + error_of(declared)
        }),
{
    let ghost declared = named_cardinality(builder@, rule@, member_specs(members@));
    let required = get_bool(members, "required");
    let repeat = get_text(members, "repeat");
    let field = if repeat.is_some() {
        "repeat"
    } else if required.is_some() {
        "required"
    } else {
        "match"
    };
    let range = get_field_range(builder, rule, field);
    let exact = match matcher {
        Some(Matcher::Exact(_)) => true,
        _ => false,
    };
    let cardinality = build_cardinality(required, repeat, exact, range, errors);
    assert(error_specs(errors@) =~= error_specs(old(errors)@) + error_of(declared));
    cardinality
}

fn build_head<'a>(
    builder: &Builder<'a>,
    rule: &RulePath,
    members: &Vec<(String, Json)>,
    unreachable: bool,
    errors: &mut Vec<SchemaError>,
) -> (head: RuleHead)
    ensures
        ({
            let specs = member_specs(members@);
            &&& matcher_spec(head.matcher) == value_of(named_matcher(builder@, rule@, specs))
            &&& id_spec(head.id) == named_id(builder@, rule@, specs)
            &&& head.cardinality == value_of(named_cardinality(builder@, rule@, specs))
            &&& error_specs(final(errors)@) == error_specs(old(errors)@) + head_errors(
                builder@,
                rule@,
                specs,
                unreachable,
            )
        }),
{
    let ghost start = error_specs(errors@);
    let matcher = build_head_matcher(builder, rule, members, errors);
    if unreachable && matcher.is_some() {
        error_at(
            errors,
            SchemaErrorKind::UnreachableRule,
            get_field_range(builder, rule, "match"),
            "rule is unreachable after the first wildcard in an unordered scope".to_owned(),
        );
    }
    let id = build_head_id(builder, rule, members, &matcher, errors);
    let cardinality = build_head_cardinality(builder, rule, members, &matcher, errors);
    assert(error_specs(errors@) =~= start + head_errors(
        builder@,
        rule@,
        member_specs(members@),
        unreachable,
    ));
    RuleHead { matcher, id, cardinality }
}

/// The parts of a rule besides its child rules.
struct OwnParts {
    head: RuleHead,
    content: Option<ContentScope>,
    captures: Option<Captures>,
    order: Option<Vec<ValueOrderEntry>>,
}

spec fn own_parts_match(
    own: OwnParts,
    builder: BuilderSpec,
    rule: (Seq<RuleIndex>, RuleIndex),
    members: Members,
) -> bool {
    let content = named_content(builder, rule, members);
    &&& matcher_spec(own.head.matcher) == value_of(named_matcher(builder, rule, members))
    &&& id_spec(own.head.id) == named_id(builder, rule, members)
    &&& own.head.cardinality == value_of(named_cardinality(builder, rule, members))
    &&& own.content is Some <==> content.errors.len() == 0
    &&& own.content matches Some(scope) ==> scope@ == content.rules
    &&& built_captures(own.captures) == named_captures(builder, rule, members).captures
    &&& optional_orders(own.order) == named_orders(builder, rule, members).entries
}

fn build_own_content<'a, 'j>(
    builder: &Builder<'a>,
    rule: &RulePath,
    members: &'j Vec<(String, Json)>,
    findings: &mut ScopeFindings<'j>,
) -> (content: Option<ContentScope>)
    ensures
        ({
            let build = named_content(builder@, rule@, member_specs(members@));
            &&& content is Some <==> build.errors.len() == 0
            &&& content matches Some(content) ==> content@ == build.rules
            &&& final(findings)@ == old(findings)@.plus(found(build.errors, build.nodes))
        }),
{
    let ghost build = named_content(builder@, rule@, member_specs(members@));
    let owner = ContentOwner::Rule(rule.clone());
    let content = build_content_scope(
        builder.places,
        &owner,
        &owner,
        get_member(members, "content"),
        builder.match_case,
        &mut findings.errors,
        &mut findings.nodes,
    );
    assert(findings@ =~= old(findings)@.plus(found(build.errors, build.nodes)));
    content
}

fn build_own_captures<'a, 'j>(
    builder: &Builder<'a>,
    rule: &RulePath,
    members: &'j Vec<(String, Json)>,
    matcher: &Option<Matcher>,
    findings: &mut ScopeFindings<'j>,
) -> (captures: Option<Captures>)
    requires
        matcher_spec(*matcher) == value_of(
            named_matcher(builder@, rule@, member_specs(members@)),
        ),
    ensures
        ({
            let build = named_captures(builder@, rule@, member_specs(members@));
            &&& built_captures(captures) == build.captures
            &&& final(findings)@ == old(findings)@.plus(found(build.errors, build.nodes))
        }),
{
    let ghost build = named_captures(builder@, rule@, member_specs(members@));
    let captures = build_rule_captures(
        builder.places,
        rule,
        get_raw(members, "captures"),
        matcher,
        find_groups(builder.analyses, matcher),
        &mut findings.errors,
        &mut findings.nodes,
    );
    assert(findings@ =~= old(findings)@.plus(found(build.errors, build.nodes)));
    captures
}

fn build_own_order<'a, 'j>(
    builder: &Builder<'a>,
    rule: &RulePath,
    members: &'j Vec<(String, Json)>,
    captures: &Option<Captures>,
    cardinality: Option<Cardinality>,
    findings: &mut ScopeFindings<'j>,
) -> (order: Option<Vec<ValueOrderEntry>>)
    requires
        built_captures(*captures) == named_captures(
            builder@,
            rule@,
            member_specs(members@),
        ).captures,
        cardinality == value_of(named_cardinality(builder@, rule@, member_specs(members@))),
    ensures
        ({
            let build = named_orders(builder@, rule@, member_specs(members@));
            &&& optional_orders(order) == build.entries
            &&& final(findings)@ == old(findings)@.plus(found(build.errors, build.nodes))
        }),
{
    let ghost build = named_orders(builder@, rule@, member_specs(members@));
    let order = build_rule_order(
        builder.places,
        rule,
        get_raw(members, "order"),
        captures.as_ref(),
        cardinality,
        &mut findings.errors,
        &mut findings.nodes,
    );
    assert(findings@ =~= old(findings)@.plus(found(build.errors, build.nodes)));
    order
}

fn build_own<'a, 'j>(
    builder: &Builder<'a>,
    rule: &RulePath,
    members: &'j Vec<(String, Json)>,
    unreachable: bool,
    findings: &mut ScopeFindings<'j>,
) -> (own: OwnParts)
    ensures
        own_parts_match(own, builder@, rule@, member_specs(members@)),
        final(findings)@ == old(findings)@.plus(
            own_found(builder@, rule@, member_specs(members@), unreachable),
        ),
{
    let ghost before = findings@;
    let ghost specs = member_specs(members@);
    findings.nodes.record(
        SchemaNode::Rule(rule.clone()),
        builder.places.range(RangeKey::Rule(rule.scope.clone(), rule.index)),
    );
    let head = build_head(builder, rule, members, unreachable, &mut findings.errors);
    let content = build_own_content(builder, rule, members, findings);
    let captures = build_own_captures(builder, rule, members, &head.matcher, findings);
    let order = build_own_order(
        builder,
        rule,
        members,
        &captures,
        head.cardinality,
        findings,
    );
    proof {
        let own = own_found(builder@, rule@, specs, unreachable);
        assert(findings@.errors =~= before.errors + own.errors);
        assert(findings@.nodes =~= before.nodes + own.nodes);
        assert(findings@ =~= before.plus(own));
    }
    OwnParts { head, content, captures, order }
}

/// The names that the captures of a rule give to its child scope.
pub open spec fn capture_declarations(
    places: PlacesSpec,
    rule: (Seq<RuleIndex>, RuleIndex),
    captures: Option<Seq<(Seq<char>, ValueType)>>,
) -> Seq<DeclarationSpec> {
    match captures {
        None => Seq::empty(),
        Some(captures) => captures.map_values(
            |capture: (Seq<char>, ValueType)|
                DeclarationSpec {
                    name: capture.0,
                    range: capture_range(places, rule, capture.0),
                    entry: EntrySpec::Capture(rule, capture.0),
                },
        ),
    }
}

/// Declares the captures of a rule in its child scope.
fn register_captures(places: &Places, rule: &RulePath, captures: Option<&Captures>) -> (declared:
    Vec<NamedDeclaration>)
    ensures
        declaration_specs(declared@) == capture_declarations(
            places@,
            rule@,
            optional_captures(captures),
        ),
{
    let ghost expected = capture_declarations(places@, rule@, optional_captures(captures));
    let mut declared: Vec<NamedDeclaration> = Vec::new();
    if let Some(captures) = captures {
        let ghost specs = capture_specs(captures@);
        let mut at: usize = 0;
        while at < captures.len()
            invariant
                at <= captures@.len(),
                specs == capture_specs(captures@),
                declared@.len() == at,
                expected == capture_declarations(places@, rule@, Some(specs)),
                forall|k: int| 0 <= k < at ==> (#[trigger] declared@[k])@ == expected[k],
            decreases captures.len() - at,
        {
            let name = captures[at].0.as_str();
            assert(specs[at as int].0 == name@);
            let declaration = NamedDeclaration {
                name: name.to_owned(),
                range: capture_declaration_range(places, rule, name),
                entry: NamedEntry::Capture(
                    CapturePath { rule: rule.clone(), name: name.to_owned() },
                ),
            };
            assert(declaration@ =~= expected[at as int]);
            declared.push(declaration);
            at += 1;
        }
    }
    assert(declaration_specs(declared@) =~= expected);
    declared
}

/// What building guards yields.
#[verifier::ext_equal]
pub struct GuardsBuild {
    /// The guards, if all could be built.
    pub guards: Option<Seq<MatcherSpec>>,
    /// The errors.
    pub errors: Seq<ErrorSpec>,
    /// The ranges of the nodes.
    pub nodes: Seq<(NodeAddress, SourceRange)>,
}

/// The matcher that a guard declares, or the error in it.
pub open spec fn guard_matcher(
    builder: BuilderSpec,
    value: JsonSpec,
    range: SourceRange,
) -> Result<MatcherSpec, ErrorSpec> {
    matcher_of(
        match text_field(members_of(value), "match"@) {
            Some(source) => source,
            None => Seq::empty(),
        },
        builder.match_case,
        range,
    )
}

/// What building the first `count` guards of a scope yields.
pub open spec fn guards_build(
    builder: BuilderSpec,
    values: Seq<JsonSpec>,
    scope: Seq<RuleIndex>,
    count: int,
) -> GuardsBuild
    decreases count,
{
    if count <= 0 {
        GuardsBuild { guards: Some(Seq::empty()), errors: Seq::empty(), nodes: Seq::empty() }
    } else {
        let before = guards_build(builder, values, scope, count - 1);
        let index = (count - 1) as usize;
        let range = range_for(builder.places, KeySpec::GuardField(scope, index, "match"@));
        let matcher = guard_matcher(builder, values[count - 1], range);
        GuardsBuild {
            guards: match (before.guards, matcher) {
                (Some(guards), Ok(matcher)) => Some(guards.push(matcher)),
                _ => None,
            },
            errors: before.errors + error_of(matcher),
            nodes: before.nodes.push((NodeAddress::Guard(scope, index), range)),
        }
    }
}

/// What building all guards of a scope yields.
pub open spec fn all_guards(
    builder: BuilderSpec,
    members: Members,
    scope: Seq<RuleIndex>,
) -> GuardsBuild {
    let values = list_field(members, "forbid_sections"@);
    guards_build(builder, values, scope, values.len() as int)
}

/// Builds the guards of a scope.
fn build_guards<'a, 'j>(
    builder: &Builder<'a>,
    members: &'j Vec<(String, Json)>,
    scope: &ScopePath,
    findings: &mut ScopeFindings<'j>,
) -> (built: Option<Vec<SectionGuard>>)
    ensures
        ({
            let build = all_guards(builder@, member_specs(members@), scope@);
            &&& built is Some <==> build.guards is Some
            &&& built matches Some(built) ==> build.guards == Some(guard_specs(built@))
            &&& final(findings)@ == old(findings)@.plus(found(build.errors, build.nodes))
        }),
{
    let ghost before = findings@;
    let ghost build = all_guards(builder@, member_specs(members@), scope@);
    let empty: Vec<Json> = Vec::new();
    let values = match get_list(members, "forbid_sections") {
        Some(values) => values,
        None => &empty,
    };
    let ghost specs = item_specs(values@);
    assert(specs =~= list_field(member_specs(members@), "forbid_sections"@));
    let mut guards: Vec<SectionGuard> = Vec::new();
    let mut complete = true;
    let mut at: usize = 0;
    assert(guard_specs(guards@) =~= Seq::empty());
    assert(findings@ =~= before.plus(none_found()));
    while at < values.len()
        invariant
            at <= values@.len(),
            specs == item_specs(values@),
            ({
                let so_far = guards_build(builder@, specs, scope@, at as int);
                &&& complete == (so_far.guards is Some)
                &&& so_far.guards matches Some(so_far) ==> guard_specs(guards@) == so_far
                &&& findings@ == before.plus(found(so_far.errors, so_far.nodes))
            }),
        decreases values.len() - at,
    {
        let ghost next = guards_build(builder@, specs, scope@, at + 1);
        let range = builder.places.range(
            RangeKey::GuardField(scope.clone(), at, "match".to_owned()),
        );
        findings.nodes.record(
            SchemaNode::Guard(GuardPath { scope: scope.clone(), index: at }),
            range,
        );
        let source = match values[at].as_object() {
            Some(fields) => match get_text(fields, "match") {
                Some(source) => source,
                None => "",
            },
            None => "",
        };
        proof {
            reveal_strlit("");
            assert(""@ =~= Seq::empty());
            if !(specs[at as int] is Object) {
                assert(members_of(specs[at as int]) =~= Seq::empty());
                assert(text_field(members_of(specs[at as int]), "match"@) is None);
            }
        }
        match build_matcher(source, builder.match_case, range, &mut findings.errors) {
            Some(matcher) => {
                let ghost earlier = guard_specs(guards@);
                let guard = SectionGuard { matcher };
                guards.push(guard);
                assert(guard_specs(guards@) =~= earlier.push(guard.matcher@));
            },
            None => {
                complete = false;
            },
        }
        assert(findings@ =~= before.plus(found(next.errors, next.nodes)));
        at += 1;
    }
    if complete {
        Some(guards)
    } else {
        None
    }
}

/// How a scope assigns headings.
pub open spec fn mode_of(members: Members) -> ScopeMode {
    if bool_field(members, "unordered"@) == Some(true) {
        ScopeMode::Unordered
    } else {
        ScopeMode::Ordered
    }
}

/// What a scope does with headings that no rule matches.
pub open spec fn extras_of(members: Members) -> ExtrasMode {
    if text_field(members, "extras"@) is Some {
        ExtrasMode::Anywhere
    } else {
        ExtrasMode::Reject
    }
}

/// What building a rule of a named scope yields.
#[verifier::ext_equal]
pub struct NamedBuild {
    /// The rule, if it could be built.
    pub rule: Option<NamedSpec>,
    /// What building it left behind.
    pub findings: ScopeFindingsSpec,
}

/// What building a prefix of the rules of a scope yields.
#[verifier::ext_equal]
pub struct NamedListBuild {
    /// The rules that could be built.
    pub built: Seq<NamedSpec>,
    /// Whether all could be built.
    pub complete: bool,
    /// Whether a wildcard is among them.
    pub wildcard: bool,
    /// The names of the scope so far.
    pub declared: Seq<DeclarationSpec>,
    /// What building them left behind.
    pub findings: ScopeFindingsSpec,
}

/// What building a scope with its own rules yields.
#[verifier::ext_equal]
pub struct DeclaredBuild {
    /// The scope, if it could be built.
    pub scope: Option<ScopeSpec>,
    /// What building it left behind.
    pub findings: ScopeFindingsSpec,
}

/// What building a child scope yields.
#[verifier::ext_equal]
pub struct ChildBuild {
    /// The child scope, if it could be built.
    pub children: Option<ChildSpec>,
    /// What building it left behind.
    pub findings: ScopeFindingsSpec,
}

/// What the names of a scope leave behind: themselves, and an error for each
/// that is declared again.
pub open spec fn names_found(
    scope: Seq<RuleIndex>,
    declared: Seq<DeclarationSpec>,
) -> ScopeFindingsSpec {
    ScopeFindingsSpec {
        errors: namespace_errors(declared),
        nodes: Seq::empty(),
        constraints: Seq::empty(),
        names: seq![(NamedScopeSpec::Sections(scope), declared)],
    }
}

/// The constraints that a scope declares, as findings.
pub open spec fn constraints_found(scope: Seq<RuleIndex>, members: Members) -> ScopeFindingsSpec {
    ScopeFindingsSpec {
        constraints: seq![(scope, list_field(members, "constraints"@))],
        ..none_found()
    }
}

/// What a scope with its own rules comes to, given its rules.
pub open spec fn declared_settled(
    builder: BuilderSpec,
    members: Members,
    scope: Seq<RuleIndex>,
    list: NamedListBuild,
) -> DeclaredBuild {
    let guards = all_guards(builder, members, scope);
    DeclaredBuild {
        scope: if list.complete && namespace_errors(list.declared).len() == 0 && guards.guards is Some {
            Some(
                ScopeSpec {
                    rules: list.built,
                    guards: guards.guards->0,
                    extras: extras_of(members),
                    mode: mode_of(members),
                },
            )
        } else {
            None
        },
        findings: constraints_found(scope, members).plus(list.findings).plus(
            names_found(scope, list.declared),
        ).plus(found(guards.errors, guards.nodes)),
    }
}

/// What a child scope comes to, given its rules where it declares any, and the
/// names that its owner gives to it.
pub open spec fn child_settled(
    builder: BuilderSpec,
    members: Members,
    scope: Seq<RuleIndex>,
    given: Seq<DeclarationSpec>,
    list: Option<NamedListBuild>,
) -> ChildBuild {
    match list {
        Some(list) => {
            let declared = declared_settled(builder, members, scope, list);
            ChildBuild {
                children: match declared.scope {
                    Some(scope) => Some(ChildSpec::Declared(scope)),
                    None => None,
                },
                findings: declared.findings,
            }
        },
        None => {
            let free = namespace_errors(given).len() == 0;
            if list_field(members, "forbid_sections"@).len() == 0 {
                ChildBuild {
                    children: if free {
                        Some(ChildSpec::Omitted)
                    } else {
                        None
                    },
                    findings: names_found(scope, given),
                }
            } else {
                let guards = all_guards(builder, members, scope);
                ChildBuild {
                    children: match guards.guards {
                        Some(guards) => if free {
                            Some(ChildSpec::GuardsOnly(guards))
                        } else {
                            None
                        },
                        None => None,
                    },
                    findings: found(guards.errors, guards.nodes).plus(names_found(scope, given)),
                }
            }
        },
    }
}

/// What a rule comes to, given its child scope.
pub open spec fn rule_settled(
    builder: BuilderSpec,
    rule: (Seq<RuleIndex>, RuleIndex),
    members: Members,
    unreachable: bool,
    children: ChildBuild,
) -> NamedBuild {
    let content = named_content(builder, rule, members);
    let captures = named_captures(builder, rule, members);
    let orders = named_orders(builder, rule, members);
    NamedBuild {
        rule: match (
            named_matcher(builder, rule, members),
            named_cardinality(builder, rule, members),
            children.children,
            captures.captures,
            orders.entries,
        ) {
            (Ok(matcher), Ok(cardinality), Some(children), Some(captures), Some(order)) => {
                if content.errors.len() == 0 {
                    Some(
                        NamedSpec {
                            id: named_id(builder, rule, members),
                            matcher,
                            cardinality,
                            children,
                            content: content.rules,
                            captures,
                            order,
                        },
                    )
                } else {
                    None
                }
            },
            _ => None,
        },
        findings: own_found(builder, rule, members, unreachable).plus(children.findings),
    }
}

/// What building the rule that `value` declares yields.
pub open spec fn named_build(
    builder: BuilderSpec,
    value: JsonSpec,
    scope: Seq<RuleIndex>,
    index: usize,
    unreachable: bool,
) -> NamedBuild
    decreases value, 0int,
{
    match value {
        JsonSpec::Object(members) => {
            let rule = (scope, RuleIndex(index));
            let child_scope = scope.push(RuleIndex(index));
            let given = capture_declarations(
                builder.places,
                rule,
                named_captures(builder, rule, members).captures,
            );
            let list = match member_at(members, "sections"@) {
                Some(at) => if 0 <= at < members.len() {
                    match members[at].1 {
                        JsonSpec::Array(rules) => Some(
                            named_list_build(
                                builder,
                                rules,
                                child_scope,
                                mode_of(members),
                                given,
                                rules.len() as int,
                            ),
                        ),
                        _ => None,
                    }
                } else {
                    None
                },
                None => None,
            };
            rule_settled(
                builder,
                rule,
                members,
                unreachable,
                child_settled(builder, members, child_scope, given, list),
            )
        },
        _ => NamedBuild { rule: None, findings: none_found() },
    }
}

/// What building the first `count` rules of a scope yields, where `given`
/// names are declared already.
pub open spec fn named_list_build(
    builder: BuilderSpec,
    rules: Seq<JsonSpec>,
    scope: Seq<RuleIndex>,
    mode: ScopeMode,
    given: Seq<DeclarationSpec>,
    count: int,
) -> NamedListBuild
    decreases rules, count,
{
    if count <= 0 || count > rules.len() {
        NamedListBuild {
            built: Seq::empty(),
            complete: true,
            wildcard: false,
            declared: given,
            findings: none_found(),
        }
    } else {
        let before = named_list_build(builder, rules, scope, mode, given, count - 1);
        let index = (count - 1) as usize;
        let value = rules[count - 1];
        let rule = (scope, RuleIndex(index));
        let last = named_build(
            builder,
            value,
            scope,
            index,
            mode == ScopeMode::Unordered && before.wildcard,
        );
        NamedListBuild {
            built: match last.rule {
                Some(rule) => before.built.push(rule),
                None => before.built,
            },
            complete: before.complete && last.rule is Some,
            wildcard: before.wildcard || (value is Object && named_matcher(
                builder,
                rule,
                members_of(value),
            ) == Ok::<MatcherSpec, ErrorSpec>(MatcherSpec::Any)),
            declared: before.declared + if value is Object {
                rule_declaration(builder, rule, members_of(value))
            } else {
                Seq::empty()
            },
            findings: before.findings.plus(last.findings),
        }
    }
}

/// The rules of the child scope that `members` declare, if any.
pub open spec fn sections_build(
    builder: BuilderSpec,
    members: Members,
    scope: Seq<RuleIndex>,
    given: Seq<DeclarationSpec>,
) -> Option<NamedListBuild> {
    match member(members, "sections"@) {
        Some(JsonSpec::Array(rules)) => Some(
            named_list_build(
                builder,
                rules,
                scope,
                mode_of(members),
                given,
                rules.len() as int,
            ),
        ),
        _ => None,
    }
}

/// What building the child scope that `members` declare yields.
pub open spec fn child_build(
    builder: BuilderSpec,
    members: Members,
    scope: Seq<RuleIndex>,
    given: Seq<DeclarationSpec>,
) -> ChildBuild {
    child_settled(builder, members, scope, given, sections_build(builder, members, scope, given))
}

pub(crate) proof fn named_build_is(
    builder: BuilderSpec,
    members: Members,
    scope: Seq<RuleIndex>,
    index: usize,
    unreachable: bool,
)
    ensures
        ({
            let rule = (scope, RuleIndex(index));
            let given = capture_declarations(
                builder.places,
                rule,
                named_captures(builder, rule, members).captures,
            );
            named_build(builder, JsonSpec::Object(members), scope, index, unreachable)
                == rule_settled(
                builder,
                rule,
                members,
                unreachable,
                child_build(builder, members, scope.push(RuleIndex(index)), given),
            )
        }),
{
    member_index_bounds(members, "sections"@, 0);
}

/// The name that a rule gives to its scope.
fn declare_rule<'a>(
    builder: &Builder<'a>,
    rule: &RulePath,
    members: &Vec<(String, Json)>,
    head: &RuleHead,
) -> (declared: Option<NamedDeclaration>)
    requires
        id_spec(head.id) == named_id(builder@, rule@, member_specs(members@)),
        head.cardinality == value_of(
            named_cardinality(builder@, rule@, member_specs(members@)),
        ),
    ensures
        ({
            let expected = rule_declaration(builder@, rule@, member_specs(members@));
            match declared {
                Some(declared) => expected == seq![declared@],
                None => expected.len() == 0,
            }
        }),
{
    match (&head.id, head.cardinality) {
        (Some(id), Some(cardinality)) => {
            if rule.scope.0.len() == 0 && reserved_root_id(id.0.as_str()).is_some() {
                return None;
            }
            let field = if get_text(members, "id").is_some() {
                "id"
            } else {
                "match"
            };
            let declared = NamedDeclaration {
                name: id.0.clone(),
                range: get_field_range(builder, rule, field),
                entry: NamedEntry::Section {
                    path: rule.clone(),
                    effective_maximum: cardinality.max,
                },
            };
            assert(declared@ =~= rule_declaration(builder@, rule@, member_specs(members@))[0]);
            assert(rule_declaration(builder@, rule@, member_specs(members@)) =~= seq![declared@]);
            Some(declared)
        },
        _ => None,
    }
}

/// Builds the child scope that `members` declare, where its owner gives names
/// to it already.
pub fn build_child_scope<'a, 'j>(
    builder: &Builder<'a>,
    members: &'j Vec<(String, Json)>,
    scope: &ScopePath,
    given: Vec<NamedDeclaration>,
    findings: &mut ScopeFindings<'j>,
) -> (built: Option<ChildScope>)
    ensures
        ({
            let build = child_build(
                builder@,
                member_specs(members@),
                scope@,
                declaration_specs(given@),
            );
            &&& built is Some <==> build.children is Some
            &&& built matches Some(built) ==> build.children == Some(child_spec(built))
            &&& final(findings)@ == old(findings)@.plus(build.findings)
        }),
    decreases members, 1int,
{
    let ghost before = findings@;
    let ghost specs = member_specs(members@);
    let ghost names = declaration_specs(given@);
    let ghost build = child_build(builder@, specs, scope@, names);
    match get_member(members, "sections") {
        Some(Json::Array(rules)) => {
            proof {
                let at = choose|at: int|
                    0 <= at < members@.len() && members@[at].1 == Json::Array(*rules);
                assert(decreases_to!(*members => members@));
                assert(decreases_to!(members@ => members@[at]));
                assert(decreases_to!(members@[at] => members@[at].1));
                assert(decreases_to!(members@[at].1 => members@[at].1->Array_0));
            }
            let declared = build_declared_scope(builder, members, rules, scope, given, findings);
            return match declared {
                Some(declared) => Some(ChildScope::Declared(declared)),
                None => None,
            };
        },
        _ => {},
    }
    let guarded = match get_list(members, "forbid_sections") {
        Some(guards) => guards.len() > 0,
        None => false,
    };
    if !guarded {
        assert(list_field(specs, "forbid_sections"@).len() == 0);
        let free = check_named_scope(&given, &mut findings.errors);
        findings.names.register(NamedScope::Sections(scope.clone()), given);
        assert(findings@ =~= before.plus(build.findings));
        return if free {
            Some(ChildScope::Omitted)
        } else {
            None
        };
    }
    assert(list_field(specs, "forbid_sections"@).len() > 0);
    let guards = build_guards(builder, members, scope, findings);
    let free = check_named_scope(&given, &mut findings.errors);
    findings.names.register(NamedScope::Sections(scope.clone()), given);
    assert(findings@ =~= before.plus(build.findings));
    match guards {
        Some(guards) => {
            proof {
                guards_are_counted(
                    builder@,
                    list_field(specs, "forbid_sections"@),
                    scope@,
                    list_field(specs, "forbid_sections"@).len() as int,
                );
                assert(guard_specs(guards@).len() == guards@.len());
            }
            if !free {
                return None;
            }
            match NonEmpty::from_vec(guards) {
                Some(guards) => Some(ChildScope::GuardsOnly(guards)),
                None => None,
            }
        },
        None => None,
    }
}

proof fn guards_are_counted(
    builder: BuilderSpec,
    values: Seq<JsonSpec>,
    scope: Seq<RuleIndex>,
    count: int,
)
    requires
        0 <= count <= values.len(),
    ensures
        guards_build(builder, values, scope, count).guards matches Some(guards) ==> guards.len()
            == count,
    decreases count,
{
    if count > 0 {
        guards_are_counted(builder, values, scope, count - 1);
    }
}

/// What building a scope with the rules of a list yields.
pub open spec fn scope_of_rules(
    builder: BuilderSpec,
    members: Members,
    rules: Seq<JsonSpec>,
    scope: Seq<RuleIndex>,
    given: Seq<DeclarationSpec>,
) -> DeclaredBuild {
    declared_settled(
        builder,
        members,
        scope,
        named_list_build(builder, rules, scope, mode_of(members), given, rules.len() as int),
    )
}

/// Builds a scope with the rules of a list.
pub fn build_declared_scope<'a, 'j>(
    builder: &Builder<'a>,
    members: &'j Vec<(String, Json)>,
    rules: &'j Vec<Json>,
    scope: &ScopePath,
    given: Vec<NamedDeclaration>,
    findings: &mut ScopeFindings<'j>,
) -> (built: Option<DeclaredScope>)
    ensures
        ({
            let build = scope_of_rules(
                builder@,
                member_specs(members@),
                item_specs(rules@),
                scope@,
                declaration_specs(given@),
            );
            &&& built is Some <==> build.scope is Some
            &&& built matches Some(built) ==> build.scope == Some(scope_spec(built))
            &&& final(findings)@ == old(findings)@.plus(build.findings)
        }),
    decreases rules, 1int,
{
    let ghost before = findings@;
    let ghost specs = member_specs(members@);
    let ghost build = scope_of_rules(
        builder@,
        specs,
        item_specs(rules@),
        scope@,
        declaration_specs(given@),
    );
    let declared = Declared { scope: scope.clone(), values: get_list(members, "constraints") };
    findings.constraints.push(declared);
    assert(declared@.1 =~= list_field(specs, "constraints"@));
    assert(findings@ =~= before.plus(constraints_found(scope@, specs)));
    let mode = match get_bool(members, "unordered") {
        Some(true) => ScopeMode::Unordered,
        _ => ScopeMode::Ordered,
    };
    let rules = build_named_scope(builder, rules, scope, mode, given, findings);
    let guards = build_guards(builder, members, scope, findings);
    assert(findings@ =~= before.plus(build.findings));
    let extras = if get_text(members, "extras").is_some() {
        ExtrasMode::Anywhere
    } else {
        ExtrasMode::Reject
    };
    match (rules, guards) {
        (Some(rules), Some(guards)) => Some(DeclaredScope { rules, guards, extras, mode }),
        _ => None,
    }
}

/// Builds the section rules declared directly in one named scope, and checks
/// the scope's names.
pub fn build_named_scope<'a, 'j>(
    builder: &Builder<'a>,
    rules: &'j Vec<Json>,
    scope: &ScopePath,
    mode: ScopeMode,
    given: Vec<NamedDeclaration>,
    findings: &mut ScopeFindings<'j>,
) -> (built: Option<Vec<NamedRule>>)
    ensures
        ({
            let list = named_list_build(
                builder@,
                item_specs(rules@),
                scope@,
                mode,
                declaration_specs(given@),
                rules@.len() as int,
            );
            &&& built is Some <==> list.complete && namespace_errors(list.declared).len() == 0
            &&& built matches Some(built) ==> named_specs(built@) == list.built
            &&& final(findings)@ == old(findings)@.plus(
                list.findings.plus(names_found(scope@, list.declared)),
            )
        }),
    decreases rules, 0int,
{
    let ghost before = findings@;
    let ghost values = item_specs(rules@);
    let ghost names = declaration_specs(given@);
    let mut declared = given;
    let mut semantic: Vec<NamedRule> = Vec::new();
    let mut complete = true;
    let mut wildcard_seen = false;
    let mut at: usize = 0;
    assert(findings@ =~= before.plus(none_found()));
    assert(named_specs(semantic@) =~= Seq::empty());
    while at < rules.len()
        invariant
            at <= rules@.len(),
            values == item_specs(rules@),
            ({
                let list = named_list_build(builder@, values, scope@, mode, names, at as int);
                &&& named_specs(semantic@) == list.built
                &&& complete == list.complete
                &&& wildcard_seen == list.wildcard
                &&& declaration_specs(declared@) == list.declared
                &&& findings@ == before.plus(list.findings)
            }),
        decreases rules.len() - at,
    {
        assert(decreases_to!(*rules => rules@[at as int]));
        let ghost list = named_list_build(builder@, values, scope@, mode, names, at as int);
        let ghost next = named_list_build(builder@, values, scope@, mode, names, at + 1);
        let unreachable = mode == ScopeMode::Unordered && wildcard_seen;
        let (rule, declaration, wildcard) = build_named_rule(
            builder,
            &rules[at],
            scope,
            at,
            unreachable,
            findings,
        );
        assert(findings@ =~= before.plus(next.findings));
        if wildcard {
            wildcard_seen = true;
        }
        let ghost earlier = declaration_specs(declared@);
        match declaration {
            Some(declaration) => {
                declared.push(declaration);
                assert(declaration_specs(declared@) =~= earlier.push(declaration@));
            },
            None => {},
        }
        assert(declaration_specs(declared@) =~= next.declared);
        match rule {
            Some(rule) => {
                let ghost so_far = named_specs(semantic@);
                semantic.push(rule);
                assert(named_specs(semantic@) =~= so_far.push(named_spec(rule)));
            },
            None => {
                complete = false;
            },
        }
        at += 1;
    }
    let ghost list = named_list_build(builder@, values, scope@, mode, names, at as int);
    let free = check_named_scope(&declared, &mut findings.errors);
    findings.names.register(NamedScope::Sections(scope.clone()), declared);
    assert(findings@ =~= before.plus(list.findings.plus(names_found(scope@, list.declared))));
    if complete && free {
        Some(semantic)
    } else {
        None
    }
}

/// Builds a rule, and its child scope with it; the rule, the name that it gives
/// to its scope, and whether it is a wildcard.
#[verifier::rlimit(60)]
#[verifier::spinoff_prover]
fn build_named_rule<'a, 'j>(
    builder: &Builder<'a>,
    value: &'j Json,
    scope: &ScopePath,
    index: usize,
    unreachable: bool,
    findings: &mut ScopeFindings<'j>,
) -> (built: (Option<NamedRule>, Option<NamedDeclaration>, bool))
    ensures
        ({
            let build = named_build(builder@, value@, scope@, index, unreachable);
            let rule = (scope@, RuleIndex(index));
            let members = members_of(value@);
            let declared = if value@ is Object {
                rule_declaration(builder@, rule, members)
            } else {
                Seq::empty()
            };
            &&& built.0 is Some <==> build.rule is Some
            &&& built.0 matches Some(rule) ==> build.rule == Some(named_spec(rule))
            &&& match built.1 {
                Some(declaration) => declared == seq![declaration@],
                None => declared.len() == 0,
            }
            &&& built.2 == (value@ is Object && named_matcher(builder@, rule, members) == Ok::<
                MatcherSpec,
                ErrorSpec,
            >(MatcherSpec::Any))
            &&& final(findings)@ == old(findings)@.plus(build.findings)
        }),
    decreases value, 0int,
{
    let ghost before = findings@;
    let members = match value {
        Json::Object(members) => members,
        _ => {
            assert(findings@ =~= before.plus(none_found()));
            return (None, None, false);
        },
    };
    let ghost specs = member_specs(members@);
    let rule = RulePath { scope: scope.clone(), index: RuleIndex(index) };
    let own = build_own(builder, &rule, members, unreachable, findings);
    let ghost own_findings = own_found(builder@, rule@, specs, unreachable);
    let declaration = declare_rule(builder, &rule, members, &own.head);
    let wildcard = match &own.head.matcher {
        Some(Matcher::Any) => true,
        _ => false,
    };
    let given = register_captures(builder.places, &rule, own.captures.as_ref());
    proof {
        named_build_is(builder@, specs, scope@, index, unreachable);
        assert(decreases_to!(*value => value->Object_0));
    }
    let children = build_child_scope(builder, members, &scope.child(index), given, findings);
    let ghost build = named_build(builder@, value@, scope@, index, unreachable);
    assert(findings@ =~= before.plus(build.findings));
    let built = match (
        own.head.matcher,
        own.head.cardinality,
        children,
        own.content,
        own.captures,
        own.order,
    ) {
        (
            Some(matcher),
            Some(cardinality),
            Some(children),
            Some(content),
            Some(captures),
            Some(order),
        ) => Some(
            NamedRule {
                id: own.head.id,
                matcher,
                cardinality,
                children,
                content,
                captures,
                order,
            },
        ),
        _ => None,
    };
    (built, declaration, wildcard)
}

/// Whether rules of one scope have different ids.
pub open spec fn ids_differ(rules: Seq<NamedSpec>) -> bool {
    forall|left: int, right: int|
        0 <= left < right < rules.len() && (#[trigger] rules[left]).id is Some ==> rules[left].id
            != (#[trigger] rules[right]).id
}

/// Whether rules have ids other than the given names.
pub open spec fn ids_avoid(rules: Seq<NamedSpec>, given: Seq<DeclarationSpec>) -> bool {
    forall|at: int, name: int|
        0 <= at < rules.len() && 0 <= name < given.len() ==> (#[trigger] rules[at]).id != Some(
            (#[trigger] given[name]).name,
        )
}

proof fn ids_are_declared(
    builder: BuilderSpec,
    rules: Seq<JsonSpec>,
    scope: Seq<RuleIndex>,
    mode: ScopeMode,
    given: Seq<DeclarationSpec>,
    count: int,
)
    requires
        0 <= count <= rules.len(),
        scope.len() > 0,
        named_list_build(builder, rules, scope, mode, given, count).complete,
    ensures
        ({
            let list = named_list_build(builder, rules, scope, mode, given, count);
            &&& given.len() <= list.declared.len()
            &&& forall|name: int|
                0 <= name < given.len() ==> #[trigger] list.declared[name] == given[name]
            &&& forall|at: int|
                0 <= at < list.built.len() && (#[trigger] list.built[at]).id is Some ==> exists|
                    place: int,
                |
                    given.len() <= place < list.declared.len() && (
                    #[trigger] list.declared[place]).name == list.built[at].id->0
            &&& names_differ(list.declared) ==> ids_differ(list.built) && ids_avoid(
                list.built,
                given,
            )
        }),
    decreases count,
{
    let list = named_list_build(builder, rules, scope, mode, given, count);
    if count > 0 {
        let before = named_list_build(builder, rules, scope, mode, given, count - 1);
        let value = rules[count - 1];
        let rule = (scope, RuleIndex((count - 1) as usize));
        let members = members_of(value);
        let last = named_build(
            builder,
            value,
            scope,
            (count - 1) as usize,
            mode == ScopeMode::Unordered && before.wildcard,
        );
        ids_are_declared(builder, rules, scope, mode, given, count - 1);
        assert(value is Object);
        named_build_is(
            builder,
            members,
            scope,
            (count - 1) as usize,
            mode == ScopeMode::Unordered && before.wildcard,
        );
        let built = last.rule->0;
        assert(list.built == before.built.push(built));
        let declared = rule_declaration(builder, rule, members);
        if built.id is Some {
            assert(declared.len() == 1);
            assert(declared[0].name == built.id->0);
            assert(list.declared[before.declared.len() as int].name == built.id->0);
        }
        assert forall|at: int| 0 <= at < list.built.len() && (#[trigger] list.built[at]).id is Some
            implies exists|place: int|
            given.len() <= place < list.declared.len() && (#[trigger] list.declared[place]).name
                == list.built[at].id->0 by {
            if at < before.built.len() {
                assert(before.built[at] == list.built[at]);
                let place = choose|place: int|
                    given.len() <= place < before.declared.len() && (
                    #[trigger] before.declared[place]).name == before.built[at].id->0;
                assert(list.declared[place] == before.declared[place]);
            }
        }
        if names_differ(list.declared) {
            assert(names_differ(before.declared)) by {
                assert forall|left: int, right: int|
                    0 <= left < right < before.declared.len() implies (
                #[trigger] before.declared[left]).name != (#[trigger] before.declared[right]).name by {
                    assert(list.declared[left] == before.declared[left]);
                    assert(list.declared[right] == before.declared[right]);
                }
            }
            assert forall|left: int, right: int|
                0 <= left < right < list.built.len() && (#[trigger] list.built[left]).id is Some
                implies list.built[left].id != (#[trigger] list.built[right]).id by {
                assert(before.built[left] == list.built[left]);
                if right < before.built.len() {
                    assert(before.built[right] == list.built[right]);
                } else if built.id is Some {
                    let place = choose|place: int|
                        given.len() <= place < before.declared.len() && (
                        #[trigger] before.declared[place]).name == before.built[left].id->0;
                    assert(list.declared[place] == before.declared[place]);
                    assert(list.declared[place].name
                        != list.declared[before.declared.len() as int].name);
                }
            }
            assert forall|at: int, name: int|
                0 <= at < list.built.len() && 0 <= name < given.len() implies (
            #[trigger] list.built[at]).id != Some((#[trigger] given[name]).name) by {
                if list.built[at].id is Some {
                    let place = choose|place: int|
                        given.len() <= place < list.declared.len() && (
                        #[trigger] list.declared[place]).name == list.built[at].id->0;
                    assert(list.declared[name] == given[name]);
                    assert(list.declared[name].name != list.declared[place].name);
                }
            }
        }
    }
}

/// In a nested scope that could be built, the rules have different ids, and
/// none has the name of a capture of the scope's owner.
pub proof fn built_scopes_have_different_names(
    builder: BuilderSpec,
    members: Members,
    rules: Seq<JsonSpec>,
    scope: Seq<RuleIndex>,
    given: Seq<DeclarationSpec>,
)
    requires
        scope.len() > 0,
    ensures
        scope_of_rules(builder, members, rules, scope, given).scope matches Some(built) ==> {
            &&& ids_differ(built.rules)
            &&& ids_avoid(built.rules, given)
        },
{
    let list = named_list_build(
        builder,
        rules,
        scope,
        mode_of(members),
        given,
        rules.len() as int,
    );
    if scope_of_rules(builder, members, rules, scope, given).scope is Some {
        free_namespaces_have_different_names(list.declared);
        ids_are_declared(
            builder,
            rules,
            scope,
            mode_of(members),
            given,
            rules.len() as int,
        );
    }
}

proof fn fitting_names_join(
    left: Seq<(NamedScopeSpec, Seq<DeclarationSpec>)>,
    right: Seq<(NamedScopeSpec, Seq<DeclarationSpec>)>,
)
    requires
        names_fit(left),
        names_fit(right),
    ensures
        names_fit(left + right),
{
    assert forall|at: int| 0 <= at < (left + right).len() implies in_scope(
        (#[trigger] (left + right)[at]).1,
        (left + right)[at].0,
    ) by {
        if at < left.len() {
            assert(in_scope(left[at].1, left[at].0));
        } else {
            assert(in_scope(right[at - left.len()].1, right[at - left.len()].0));
        }
    }
}

proof fn settled_names_fit(
    builder: BuilderSpec,
    members: Members,
    scope: Seq<RuleIndex>,
    given: Seq<DeclarationSpec>,
    list: Option<NamedListBuild>,
)
    requires
        in_scope(given, NamedScopeSpec::Sections(scope)),
        list matches Some(list) ==> names_fit(list.findings.names) && in_scope(
            list.declared,
            NamedScopeSpec::Sections(scope),
        ),
    ensures
        names_fit(child_settled(builder, members, scope, given, list).findings.names),
{
    let settled = child_settled(builder, members, scope, given, list);
    match list {
        Some(list) => {
            let own = names_found(scope, list.declared).names;
            assert(in_scope(own[0].1, own[0].0));
            fitting_names_join(list.findings.names, own);
            assert(settled.findings.names =~= list.findings.names + own);
        },
        None => {
            let own = names_found(scope, given).names;
            assert(in_scope(own[0].1, own[0].0));
            assert(settled.findings.names =~= own);
        },
    }
}

proof fn rule_names_fit(
    builder: BuilderSpec,
    value: JsonSpec,
    scope: Seq<RuleIndex>,
    index: usize,
    unreachable: bool,
)
    ensures
        names_fit(named_build(builder, value, scope, index, unreachable).findings.names),
    decreases value, 1int,
{
    if let JsonSpec::Object(members) = value {
        let rule = (scope, RuleIndex(index));
        let child_scope = scope.push(RuleIndex(index));
        let given = capture_declarations(
            builder.places,
            rule,
            named_captures(builder, rule, members).captures,
        );
        named_build_is(builder, members, scope, index, unreachable);
        member_index_bounds(members, "sections"@, 0);
        if let Some(at) = member_at(members, "sections"@) {
            if let JsonSpec::Array(rules) = members[at].1 {
                assert(in_scope(given, NamedScopeSpec::Sections(child_scope)));
                list_names_fit(
                    builder,
                    rules,
                    child_scope,
                    mode_of(members),
                    given,
                    rules.len() as int,
                );
            }
        }
        settled_names_fit(
            builder,
            members,
            child_scope,
            given,
            sections_build(builder, members, child_scope, given),
        );
        let own = own_found(builder, rule, members, unreachable);
        fitting_names_join(
            own.names,
            child_build(builder, members, child_scope, given).findings.names,
        );
    }
}

proof fn list_names_fit(
    builder: BuilderSpec,
    rules: Seq<JsonSpec>,
    scope: Seq<RuleIndex>,
    mode: ScopeMode,
    given: Seq<DeclarationSpec>,
    count: int,
)
    requires
        in_scope(given, NamedScopeSpec::Sections(scope)),
        0 <= count <= rules.len(),
    ensures
        ({
            let list = named_list_build(builder, rules, scope, mode, given, count);
            &&& names_fit(list.findings.names)
            &&& in_scope(list.declared, NamedScopeSpec::Sections(scope))
        }),
    decreases rules, count,
{
    if count > 0 {
        let before = named_list_build(builder, rules, scope, mode, given, count - 1);
        let unreachable = mode == ScopeMode::Unordered && before.wildcard;
        list_names_fit(builder, rules, scope, mode, given, count - 1);
        rule_names_fit(builder, rules[count - 1], scope, (count - 1) as usize, unreachable);
        let last = named_build(
            builder,
            rules[count - 1],
            scope,
            (count - 1) as usize,
            unreachable,
        );
        fitting_names_join(before.findings.names, last.findings.names);
    }
}

/// Every id of a built scope, at any depth, is registered where its rule
/// stands.
pub proof fn built_scopes_register_their_names(
    builder: BuilderSpec,
    members: Members,
    scope: Seq<RuleIndex>,
    given: Seq<DeclarationSpec>,
)
    requires
        in_scope(given, NamedScopeSpec::Sections(scope)),
    ensures
        names_fit(child_build(builder, members, scope, given).findings.names),
        forall|rules: Seq<JsonSpec>|
            names_fit(
                (#[trigger] scope_of_rules(builder, members, rules, scope, given)).findings.names,
            ),
{
    if let Some(JsonSpec::Array(rules)) = member(members, "sections"@) {
        list_names_fit(builder, rules, scope, mode_of(members), given, rules.len() as int);
    }
    settled_names_fit(
        builder,
        members,
        scope,
        given,
        sections_build(builder, members, scope, given),
    );
    assert forall|rules: Seq<JsonSpec>| names_fit(
        (#[trigger] scope_of_rules(builder, members, rules, scope, given)).findings.names,
    ) by {
        let list = named_list_build(
            builder,
            rules,
            scope,
            mode_of(members),
            given,
            rules.len() as int,
        );
        list_names_fit(builder, rules, scope, mode_of(members), given, rules.len() as int);
        settled_names_fit(builder, members, scope, given, Some(list));
    }
}

} // verus!
