//! Loading a schema from its source.

use vstd::prelude::*;
use vstd::utf8::encode_utf8;

use super::bounds::{are_sources_of, ranges_are_within, reported_ranges_lie_in_their_sources};
use super::constraints::{
    build_constraint, constraint_read, lexical_ref_errors, spelled_refs, validate_lexical_refs,
    RefContext,
};
use super::external::{
    can_have, prepare_external_schema, prepared_external, GraphFaultSpec, PreparedExternalSchema,
    PreparedSpec,
};
use super::frontmatter::{build_frontmatter, frontmatter_build, policy_spec, prepared_spec};
use super::placement::{place_constraints, placed};
use super::places::{error_at, plain_error, range_for, shape_error, shape_error_at, Places, PlacesSpec};
use super::ranges::{
    char_offsets, char_range, document_ranges, offsets_of, range_of_chars, KeySpec, RangeIndex,
    RangeKey,
};
use super::rules::{
    build_matcher, build_options, build_outline_scope, build_scope, declared_options, error_of,
    get_list, get_text, list_field, matcher_of, nothing_found, outline_build, scope_build,
    text_field, Declared, Findings, FindingsSpec, ScopeBuild,
};
use super::shape::{document_shape_errors, validate_document_shape, Members};
use crate::json::{get_member, item_specs, member, member_specs, members_of, Json, JsonSpec};
use crate::load_result::{
    error_specs, label_spec, node_ranges, ByteOffset, ConstraintIndex, ConstraintPath, ErrorSpec,
    FoundNodes, InvalidSchema, InvalidSpec, JsonSchemaResourceContents, LinkedJsonSchemaInput,
    LinkedSpec, LoadSchemaResult, LoadedSchema, LoadedSpec, NodeAddress, NodeRanges, ResourceSpec,
    RuleIndex, SchemaError, SchemaErrorKind, SchemaLocations, SchemaNode, SchemaSource,
    SchemaSources, ScopePath, SourceId, SourceLabel, SourceRange, SourceSpec, TextRange,
};
use crate::schema::{
    addressed_rules, constraint_specs, rule_spec, rule_specs, Cardinality, Constraint,
    ConstraintSpec, FrontmatterPolicy, Matcher, MatcherSpec, NonEmpty, Options,
    OutlineProvenance, RuleOutcome, RuleSpec, Schema, SchemaSpec, SchemaVersion, SectionRule,
    UpperBound,
};
use crate::text::{decimal, decimal_u64, join2, join3, parse_plain_integer, plain_integer};
use crate::yaml::convert::{json_of, schema_yaml_to_json};
use crate::yaml::reader::{parse_schema_yaml, parsed_tree, YamlError, YamlFault};

verus! {

/// The range of the whole of a primary source.
pub open spec fn document_range_of(source: Seq<char>) -> SourceRange {
    SourceRange {
        source: SourceId(0),
        range: TextRange {
            start: ByteOffset(0),
            end: ByteOffset(encode_utf8(source).len() as usize),
        },
    }
}

/// The error that a refusal of the YAML reader is reported as.
pub open spec fn yaml_error_of(fault: YamlFault, source: Seq<char>) -> ErrorSpec {
    plain_error(
        fault.kind,
        match fault.span {
            Some((start, end)) => range_of_chars(start, end, offsets_of(source)),
            None => document_range_of(source),
        },
        fault.message,
    )
}

/// The spelling of a version number.
pub open spec fn version_spelling(version: int) -> Seq<char> {
    if version < 0 {
        "-"@ + decimal((-version) as nat)
    } else {
        decimal(version as nat)
    }
}

/// The version number that the document declares.
pub open spec fn declared_version(members: Members) -> Option<int> {
    match member(members, "version"@) {
        Some(JsonSpec::Number(spelling)) => match plain_integer(spelling) {
            Some(version) => if i64::MIN <= version <= i64::MAX {
                Some(version)
            } else {
                None
            },
            None => None,
        },
        _ => None,
    }
}

/// The error of a version other than the one that there is.
pub open spec fn version_errors(places: PlacesSpec, version: int) -> Seq<ErrorSpec> {
    if version == 1 {
        Seq::empty()
    } else {
        seq![
            plain_error(
                SchemaErrorKind::UnsupportedVersion,
                range_for(places, KeySpec::DocumentField("version"@)),
                "unsupported schema version "@ + version_spelling(version) + "; expected 1"@,
            ),
        ]
    }
}

/// The spelling from which the outline comes.
pub open spec fn provenance_of(members: Members) -> OutlineProvenance {
    if member(members, "outline"@) is Some {
        OutlineProvenance::Outline
    } else {
        match member(members, "title"@) {
            Some(JsonSpec::Null) => OutlineProvenance::NoTitle,
            Some(_) => OutlineProvenance::Title,
            None => OutlineProvenance::BareSections,
        }
    }
}

/// The range that title diagnostics are anchored on. Bare `sections` implies
/// `title: "*"` without a `title` key, so the `sections` key that implied the
/// rule carries the anchor.
pub open spec fn title_range(places: PlacesSpec, provenance: OutlineProvenance) -> SourceRange {
    range_for(
        places,
        KeySpec::DocumentField(
            if provenance == OutlineProvenance::BareSections {
                "sections"@
            } else {
                "title"@
            },
        ),
    )
}

/// The matcher of a declared title, or the error in it; any text where none is
/// declared.
pub open spec fn title_matcher(
    places: PlacesSpec,
    members: Members,
    match_case: bool,
) -> Result<MatcherSpec, ErrorSpec> {
    match text_field(members, "title"@) {
        Some(title) => matcher_of(
            title,
            match_case,
            range_for(places, KeySpec::DocumentField("title"@)),
        ),
        None => Ok(MatcherSpec::Any),
    }
}

/// The rule that a sugar form stands for: its matcher is the declared title,
/// it is required exactly once, or denied for `title: null`, and the
/// `sections` list is its child scope.
pub open spec fn title_rule(
    provenance: OutlineProvenance,
    matcher: MatcherSpec,
    sections: Seq<RuleSpec>,
) -> RuleSpec {
    RuleSpec {
        id: None,
        matcher,
        outcome: if provenance == OutlineProvenance::NoTitle {
            RuleOutcome::Deny
        } else {
            RuleOutcome::Allow(Cardinality { min: 1, max: UpperBound::Bounded(1) })
        },
        strict: false,
        sections,
        constraints: Seq::empty(),
    }
}

/// What building the outline of a sugar form yields.
pub open spec fn sugar_build(
    places: PlacesSpec,
    members: Members,
    match_case: bool,
) -> ScopeBuild {
    let provenance = provenance_of(members);
    let title = title_matcher(places, members, match_case);
    let sections = scope_build(
        places,
        list_field(members, "sections"@),
        Seq::empty(),
        match_case,
    );
    let own = FindingsSpec {
        errors: error_of(title),
        nodes: seq![(NodeAddress::Title, title_range(places, provenance))],
        constraints: Seq::empty(),
    };
    ScopeBuild {
        rules: match sections.rules {
            Some(rules) => Some(
                seq![
                    title_rule(
                        provenance,
                        match title {
                            Ok(matcher) => matcher,
                            Err(_) => MatcherSpec::Any,
                        },
                        rules,
                    ),
                ],
            ),
            None => None,
        },
        findings: own.plus(sections.findings),
    }
}

/// The places by which the outline is built: those of the general form are
/// collected under keys of their own.
pub open spec fn outline_places(places: PlacesSpec, members: Members) -> PlacesSpec {
    PlacesSpec { outline_general: member(members, "outline"@) is Some, ..places }
}

/// What building the outline yields.
pub open spec fn document_outline_build(
    places: PlacesSpec,
    members: Members,
    match_case: bool,
) -> ScopeBuild {
    if member(members, "outline"@) is Some {
        outline_build(
            outline_places(places, members),
            list_field(members, "outline"@),
            match_case,
        )
    } else {
        sugar_build(places, members, match_case)
    }
}

/// The constraints that all scopes declare, the top level's first.
pub open spec fn all_declared(members: Members, outline: ScopeBuild) -> Seq<
    (Seq<RuleIndex>, Seq<JsonSpec>),
> {
    seq![(Seq::<RuleIndex>::empty(), list_field(members, "constraints"@))]
        + outline.findings.constraints
}

/// What building the constraints of a scope yields.
#[verifier::ext_equal]
pub struct ConstraintsBuild {
    /// The constraints that could be built.
    pub constraints: Seq<ConstraintSpec>,
    /// The errors.
    pub errors: Seq<ErrorSpec>,
    /// The ranges of the constraints.
    pub nodes: Seq<(NodeAddress, SourceRange)>,
}

/// The range of a constraint.
pub open spec fn constraint_range(
    places: PlacesSpec,
    scope: Seq<RuleIndex>,
    index: int,
) -> SourceRange {
    range_for(places, KeySpec::Constraint(scope, ConstraintIndex(index as usize)))
}

/// What building the first `count` constraints of a scope yields.
pub open spec fn scope_constraints(
    places: PlacesSpec,
    root: Seq<RuleSpec>,
    match_case: bool,
    scope: Seq<RuleIndex>,
    values: Seq<JsonSpec>,
    count: int,
) -> ConstraintsBuild
    decreases count,
{
    if count <= 0 || count > values.len() {
        ConstraintsBuild {
            constraints: Seq::empty(),
            errors: Seq::empty(),
            nodes: Seq::empty(),
        }
    } else {
        let before = scope_constraints(places, root, match_case, scope, values, count - 1);
        let range = constraint_range(places, scope, count - 1);
        let read = constraint_read(
            RefContext { root, match_case, scope, range },
            values[count - 1],
        );
        ConstraintsBuild {
            constraints: match read.constraint {
                Some(constraint) => before.constraints.push(constraint),
                None => before.constraints,
            },
            errors: before.errors + read.errors,
            nodes: before.nodes.push(
                (
                    NodeAddress::Constraint(scope, ConstraintIndex((count - 1) as usize)),
                    range,
                ),
            ),
        }
    }
}

/// What building the constraints of the first `count` scopes yields.
#[verifier::ext_equal]
pub struct AllConstraints {
    /// The constraints of every scope.
    pub lists: Seq<(Seq<RuleIndex>, Seq<ConstraintSpec>)>,
    /// The errors.
    pub errors: Seq<ErrorSpec>,
    /// The ranges of the constraints.
    pub nodes: Seq<(NodeAddress, SourceRange)>,
}

/// What building the constraints of the first `count` scopes yields.
pub open spec fn constraints_build(
    places: PlacesSpec,
    root: Seq<RuleSpec>,
    match_case: bool,
    declared: Seq<(Seq<RuleIndex>, Seq<JsonSpec>)>,
    count: int,
) -> AllConstraints
    decreases count,
{
    if count <= 0 || count > declared.len() {
        AllConstraints { lists: Seq::empty(), errors: Seq::empty(), nodes: Seq::empty() }
    } else {
        let before = constraints_build(places, root, match_case, declared, count - 1);
        let (scope, values) = declared[count - 1];
        let own = scope_constraints(
            places,
            root,
            match_case,
            scope,
            values,
            values.len() as int,
        );
        AllConstraints {
            lists: before.lists.push((scope, own.constraints)),
            errors: before.errors + own.errors,
            nodes: before.nodes + own.nodes,
        }
    }
}

/// The errors in the spelling of the references of a scope's first `count`
/// constraints.
pub open spec fn scope_lexical_errors(
    places: PlacesSpec,
    scope: Seq<RuleIndex>,
    values: Seq<JsonSpec>,
    count: int,
) -> Seq<ErrorSpec>
    decreases count,
{
    if count <= 0 || count > values.len() {
        Seq::empty()
    } else {
        scope_lexical_errors(places, scope, values, count - 1) + lexical_ref_errors(
            spelled_refs(values[count - 1]),
            constraint_range(places, scope, count - 1),
        )
    }
}

/// The errors in the spelling of the references of the first `count` scopes.
pub open spec fn all_lexical_errors(
    places: PlacesSpec,
    declared: Seq<(Seq<RuleIndex>, Seq<JsonSpec>)>,
    count: int,
) -> Seq<ErrorSpec>
    decreases count,
{
    if count <= 0 || count > declared.len() {
        Seq::empty()
    } else {
        let (scope, values) = declared[count - 1];
        all_lexical_errors(places, declared, count - 1) + scope_lexical_errors(
            places,
            scope,
            values,
            values.len() as int,
        )
    }
}

/// The schema, with the constraints of the first `count` scopes in place.
pub open spec fn all_placed(
    schema: SchemaSpec,
    lists: Seq<(Seq<RuleIndex>, Seq<ConstraintSpec>)>,
    count: int,
) -> SchemaSpec
    decreases count,
{
    if count <= 0 || count > lists.len() {
        schema
    } else {
        placed(all_placed(schema, lists, count - 1), lists[count - 1].0, lists[count - 1].1)
    }
}

/// What a load that failed reports: the errors, or one that says no more than
/// that it failed.
pub open spec fn reported(errors: Seq<ErrorSpec>, document: SourceRange) -> Seq<ErrorSpec> {
    if errors.len() == 0 {
        seq![shape_error(document, "schema could not be loaded"@)]
    } else {
        errors
    }
}

/// What building a schema out of a document of valid shape yields: the schema
/// and the ranges of its nodes, or the errors.
#[verifier::opaque]
pub open spec fn document_build(
    places: PlacesSpec,
    members: Members,
    sources: Seq<SourceSpec>,
    prepared: Option<PreparedSpec>,
) -> Result<(SchemaSpec, Seq<(NodeAddress, SourceRange)>), Seq<ErrorSpec>> {
    match declared_version(members) {
        None => Err(
            seq![
                shape_error(
                    places.document,
                    "invalid schema document shape: invalid number"@,
                ),
            ],
        ),
        Some(version) => {
            let frontmatter = frontmatter_build(places, members, sources, prepared);
            let options = declared_options(members);
            let outline = document_outline_build(places, members, options.match_case);
            let declared = all_declared(members, outline);
            let errors = version_errors(places, version) + frontmatter.errors
                + outline.findings.errors;
            if version == 1 && frontmatter.policy is Some && outline.rules is Some {
                let provenance = provenance_of(members);
                let schema = SchemaSpec {
                    version: SchemaVersion::V1,
                    options,
                    frontmatter: frontmatter.policy->0,
                    outline: outline.rules->0,
                    constraints: Seq::empty(),
                    outline_provenance: provenance,
                };
                let built = constraints_build(
                    outline_places(places, members),
                    addressed_rules(schema.outline, provenance),
                    options.match_case,
                    declared,
                    declared.len() as int,
                );
                if (errors + built.errors).len() > 0 {
                    Err(errors + built.errors)
                } else {
                    Ok(
                        (
                            all_placed(schema, built.lists, built.lists.len() as int),
                            frontmatter.nodes + outline.findings.nodes + built.nodes,
                        ),
                    )
                }
            } else {
                Err(
                    reported(
                        errors + all_lexical_errors(
                            outline_places(places, members),
                            declared,
                            declared.len() as int,
                        ),
                        places.document,
                    ),
                )
            }
        },
    }
}

/// What loading a source yields, given what its linked graph was prepared to:
/// the schema and the ranges of its nodes, or the errors.
pub open spec fn source_build(
    source: Seq<char>,
    sources: Seq<SourceSpec>,
    prepared: Option<PreparedSpec>,
) -> Result<(SchemaSpec, Seq<(NodeAddress, SourceRange)>), Seq<ErrorSpec>> {
    match parsed_tree(source) {
        Err(fault) => Err(seq![yaml_error_of(fault, source)]),
        Ok(tree) => {
            let places = PlacesSpec {
                ranges: document_ranges(tree, offsets_of(source)),
                document: document_range_of(source),
                outline_general: false,
            };
            match json_of(tree) {
                Err(fault) => Err(seq![yaml_error_of(fault, source)]),
                Ok(value) => if document_shape_errors(places, value).len() > 0 {
                    Err(document_shape_errors(places, value))
                } else {
                    document_build(places, members_of(value), sources, prepared)
                },
            }
        },
    }
}

/// What loading a source yields.
pub open spec fn load_of(
    source: Seq<char>,
    sources: Seq<SourceSpec>,
    prepared: Option<PreparedSpec>,
) -> Result<LoadedSpec, InvalidSpec> {
    match source_build(source, sources, prepared) {
        Ok((schema, nodes)) => Ok(
            LoadedSpec {
                schema,
                sources,
                document: document_range_of(source),
                nodes: node_ranges(nodes),
            },
        ),
        Err(errors) => Err(InvalidSpec { sources, errors }),
    }
}

/// What a load result is.
pub open spec fn load_spec(result: LoadSchemaResult) -> Result<LoadedSpec, InvalidSpec> {
    match result {
        Ok(loaded) => Ok(loaded@),
        Err(invalid) => Err(invalid@),
    }
}

/// The id of the document that a load was requested for.
pub open spec fn primary_source(result: LoadSchemaResult) -> SourceId {
    match result {
        Ok(loaded) => loaded.sources.primary,
        Err(invalid) => invalid.sources.primary,
    }
}

/// A document whose schema cannot be built has at least one error.
proof fn refused_documents_have_errors(
    places: PlacesSpec,
    members: Members,
    sources: Seq<SourceSpec>,
    prepared: Option<PreparedSpec>,
)
    ensures
        document_build(places, members, sources, prepared) matches Err(errors) ==> errors.len()
            > 0,
{
    reveal(document_build);
}

/// A failed load reports at least one error.
pub proof fn failures_have_errors(
    source: Seq<char>,
    sources: Seq<SourceSpec>,
    prepared: Option<PreparedSpec>,
)
    ensures
        load_of(source, sources, prepared) matches Err(invalid) ==> invalid.errors.len() > 0,
{
    if let Ok(tree) = parsed_tree(source) {
        let places = PlacesSpec {
            ranges: document_ranges(tree, offsets_of(source)),
            document: document_range_of(source),
            outline_general: false,
        };
        if let Ok(value) = json_of(tree) {
            refused_documents_have_errors(places, members_of(value), sources, prepared);
        }
    }
}

/// Builds the constraints of one scope.
fn build_scope_constraints(
    schema: &Schema,
    places: &Places,
    declared: &Declared<'_>,
    errors: &mut Vec<SchemaError>,
    nodes: &mut FoundNodes,
) -> (constraints: Vec<Constraint>)
    ensures
        ({
            let build = scope_constraints(
                places@,
                addressed_rules(schema@.outline, schema.outline_provenance),
                schema.options.match_case,
                declared@.0,
                declared@.1,
                declared@.1.len() as int,
            );
            &&& constraint_specs(constraints@) == build.constraints
            &&& error_specs(final(errors)@) == error_specs(old(errors)@) + build.errors
            &&& final(nodes)@ == old(nodes)@ + build.nodes
        }),
{
    let ghost root = addressed_rules(schema@.outline, schema.outline_provenance);
    let ghost match_case = schema.options.match_case;
    let ghost scope = declared@.0;
    let ghost specs = declared@.1;
    let mut constraints: Vec<Constraint> = Vec::new();
    assert(constraint_specs(constraints@) =~= Seq::empty());
    assert(error_specs(errors@) =~= error_specs(old(errors)@) + Seq::<ErrorSpec>::empty());
    assert(nodes@ =~= old(nodes)@ + Seq::<(NodeAddress, SourceRange)>::empty());
    let values = match declared.values {
        Some(values) => values,
        None => {
            return constraints;
        },
    };
    let mut at: usize = 0;
    while at < values.len()
        invariant
            at <= values@.len(),
            specs == item_specs(values@),
            scope == declared.scope@,
            root == addressed_rules(schema@.outline, schema.outline_provenance),
            match_case == schema.options.match_case,
            ({
                let build = scope_constraints(
                    places@,
                    root,
                    match_case,
                    scope,
                    specs,
                    at as int,
                );
                &&& constraint_specs(constraints@) == build.constraints
                &&& error_specs(errors@) == error_specs(old(errors)@) + build.errors
                &&& nodes@ == old(nodes)@ + build.nodes
            }),
        decreases values.len() - at,
    {
        let ghost before = scope_constraints(places@, root, match_case, scope, specs, at as int);
        let ghost after = scope_constraints(places@, root, match_case, scope, specs, at + 1);
        let range = places.range(
            RangeKey::Constraint(declared.scope.clone(), ConstraintIndex(at)),
        );
        nodes.record(
            SchemaNode::Constraint(
                ConstraintPath { scope: declared.scope.clone(), index: ConstraintIndex(at) },
            ),
            range,
        );
        assert(nodes@ =~= old(nodes)@ + after.nodes);
        let ghost so_far = constraint_specs(constraints@);
        match build_constraint(schema, &declared.scope, &values[at], range, errors) {
            Some(constraint) => {
                constraints.push(constraint);
                assert(constraint_specs(constraints@) =~= so_far.push(constraint@));
            },
            None => {},
        }
        assert(error_specs(errors@) =~= error_specs(old(errors)@) + after.errors);
        at += 1;
    }
    constraints
}

/// What the declarations of scopes are.
pub open spec fn declared_specs(declared: Seq<Declared<'_>>) -> Seq<
    (Seq<RuleIndex>, Seq<JsonSpec>),
> {
    declared.map_values(|one: Declared<'_>| one@)
}

/// What the constraints of scopes are.
pub open spec fn list_specs(lists: Seq<(ScopePath, Vec<Constraint>)>) -> Seq<
    (Seq<RuleIndex>, Seq<ConstraintSpec>),
> {
    lists.map_values(|list: (ScopePath, Vec<Constraint>)| (list.0@, constraint_specs(list.1@)))
}

/// Builds the constraints of all scopes.
fn build_all_constraints(
    schema: &Schema,
    places: &Places,
    declared: &Vec<Declared<'_>>,
    errors: &mut Vec<SchemaError>,
    nodes: &mut FoundNodes,
) -> (lists: Vec<(ScopePath, Vec<Constraint>)>)
    ensures
        ({
            let build = constraints_build(
                places@,
                addressed_rules(schema@.outline, schema.outline_provenance),
                schema.options.match_case,
                declared_specs(declared@),
                declared@.len() as int,
            );
            &&& list_specs(lists@) == build.lists
            &&& error_specs(final(errors)@) == error_specs(old(errors)@) + build.errors
            &&& final(nodes)@ == old(nodes)@ + build.nodes
        }),
{
    let ghost root = addressed_rules(schema@.outline, schema.outline_provenance);
    let ghost match_case = schema.options.match_case;
    let ghost specs = declared_specs(declared@);
    let mut lists: Vec<(ScopePath, Vec<Constraint>)> = Vec::new();
    assert(list_specs(lists@) =~= Seq::empty());
    assert(error_specs(errors@) =~= error_specs(old(errors)@) + Seq::<ErrorSpec>::empty());
    assert(nodes@ =~= old(nodes)@ + Seq::<(NodeAddress, SourceRange)>::empty());
    let mut at: usize = 0;
    while at < declared.len()
        invariant
            at <= declared@.len(),
            specs == declared_specs(declared@),
            root == addressed_rules(schema@.outline, schema.outline_provenance),
            match_case == schema.options.match_case,
            ({
                let build = constraints_build(places@, root, match_case, specs, at as int);
                &&& list_specs(lists@) == build.lists
                &&& error_specs(errors@) == error_specs(old(errors)@) + build.errors
                &&& nodes@ == old(nodes)@ + build.nodes
            }),
        decreases declared.len() - at,
    {
        let ghost after = constraints_build(places@, root, match_case, specs, at + 1);
        let ghost so_far = list_specs(lists@);
        assert(specs[at as int] == declared@[at as int]@);
        let constraints = build_scope_constraints(schema, places, &declared[at], errors, nodes);
        let list = (declared[at].scope.clone(), constraints);
        lists.push(list);
        assert(list_specs(lists@) =~= so_far.push((list.0@, constraint_specs(list.1@))));
        assert(error_specs(errors@) =~= error_specs(old(errors)@) + after.errors);
        assert(nodes@ =~= old(nodes)@ + after.nodes);
        at += 1;
    }
    lists
}

fn check_scope_refs(places: &Places, declared: &Declared<'_>, errors: &mut Vec<SchemaError>)
    ensures
        error_specs(final(errors)@) == error_specs(old(errors)@) + scope_lexical_errors(
            places@,
            declared@.0,
            declared@.1,
            declared@.1.len() as int,
        ),
{
    let ghost scope = declared@.0;
    let ghost specs = declared@.1;
    assert(error_specs(errors@) =~= error_specs(old(errors)@) + Seq::<ErrorSpec>::empty());
    let values = match declared.values {
        Some(values) => values,
        None => {
            return;
        },
    };
    let mut at: usize = 0;
    while at < values.len()
        invariant
            at <= values@.len(),
            specs == item_specs(values@),
            scope == declared.scope@,
            error_specs(errors@) == error_specs(old(errors)@) + scope_lexical_errors(
                places@,
                scope,
                specs,
                at as int,
            ),
        decreases values.len() - at,
    {
        let range = places.range(
            RangeKey::Constraint(declared.scope.clone(), ConstraintIndex(at)),
        );
        validate_lexical_refs(&values[at], range, errors);
        assert(error_specs(errors@) =~= error_specs(old(errors)@) + scope_lexical_errors(
            places@,
            scope,
            specs,
            at + 1,
        ));
        at += 1;
    }
}

/// Reports the errors in the spelling of all references.
fn validate_constraint_lexical_refs(
    places: &Places,
    declared: &Vec<Declared<'_>>,
    errors: &mut Vec<SchemaError>,
)
    ensures
        error_specs(final(errors)@) == error_specs(old(errors)@) + all_lexical_errors(
            places@,
            declared_specs(declared@),
            declared@.len() as int,
        ),
{
    let ghost specs = declared_specs(declared@);
    assert(error_specs(errors@) =~= error_specs(old(errors)@) + Seq::<ErrorSpec>::empty());
    let mut at: usize = 0;
    while at < declared.len()
        invariant
            at <= declared@.len(),
            specs == declared_specs(declared@),
            error_specs(errors@) == error_specs(old(errors)@) + all_lexical_errors(
                places@,
                specs,
                at as int,
            ),
        decreases declared.len() - at,
    {
        assert(specs[at as int] == declared@[at as int]@);
        check_scope_refs(places, &declared[at], errors);
        assert(error_specs(errors@) =~= error_specs(old(errors)@) + all_lexical_errors(
            places@,
            specs,
            at + 1,
        ));
        at += 1;
    }
}

/// Puts the constraints of all scopes in place.
fn place_all(schema: Schema, lists: Vec<(ScopePath, Vec<Constraint>)>) -> (result: Schema)
    ensures
        result@ == all_placed(schema@, list_specs(lists@), lists@.len() as int),
{
    let ghost start = schema@;
    let ghost specs = list_specs(lists@);
    let mut schema = schema;
    let mut lists = lists;
    let mut at: usize = 0;
    let count = lists.len();
    while at < count
        invariant
            at <= count,
            lists@.len() == count - at,
            count == specs.len(),
            list_specs(lists@) =~= specs.skip(at as int),
            schema@ == all_placed(start, specs, at as int),
        decreases count - at,
    {
        let ghost remaining = list_specs(lists@);
        assert(remaining[0] == specs[at as int]);
        let (scope, constraints) = lists.remove(0);
        assert(list_specs(lists@) =~= remaining.skip(1));
        assert(specs.skip(at as int).skip(1) =~= specs.skip(at + 1));
        place_constraints(&mut schema, &scope, constraints);
        at += 1;
    }
    schema
}

/// Builds the title of a sugar form.
fn build_title(
    places: &Places,
    members: &Vec<(String, Json)>,
    provenance: OutlineProvenance,
    match_case: bool,
    findings: &mut Findings<'_>,
) -> (matcher: Matcher)
    requires
        provenance == provenance_of(member_specs(members@)),
        provenance != OutlineProvenance::Outline,
    ensures
        ({
            let title = title_matcher(places@, member_specs(members@), match_case);
            &&& matcher@ == match title {
                Ok(matcher) => matcher,
                Err(_) => MatcherSpec::Any,
            }
            &&& final(findings)@ == old(findings)@.plus(
                FindingsSpec {
                    errors: error_of(title),
                    nodes: seq![(NodeAddress::Title, title_range(places@, provenance))],
                    constraints: Seq::empty(),
                },
            )
        }),
{
    let ghost before = findings@;
    let ghost title = title_matcher(places@, member_specs(members@), match_case);
    let field = if provenance == OutlineProvenance::BareSections {
        "sections"
    } else {
        "title"
    };
    let anchor = places.range(RangeKey::DocumentField(field.to_owned()));
    findings.nodes.record(SchemaNode::Title, anchor);
    let matcher = match get_text(members, "title") {
        Some(title) => {
            let range = places.range(RangeKey::DocumentField("title".to_owned()));
            match build_matcher(title, match_case, range, &mut findings.errors) {
                Some(matcher) => matcher,
                None => Matcher::Any,
            }
        },
        None => Matcher::Any,
    };
    assert(findings@ =~= before.plus(
        FindingsSpec {
            errors: error_of(title),
            nodes: seq![(NodeAddress::Title, title_range(places@, provenance))],
            constraints: Seq::empty(),
        },
    ));
    matcher
}

/// Builds the outline of a sugar form.
fn build_sugar<'j>(
    places: &Places,
    members: &'j Vec<(String, Json)>,
    provenance: OutlineProvenance,
    match_case: bool,
    findings: &mut Findings<'j>,
) -> (outline: Option<Vec<SectionRule>>)
    requires
        provenance == provenance_of(member_specs(members@)),
        provenance != OutlineProvenance::Outline,
    ensures
        ({
            let build = sugar_build(places@, member_specs(members@), match_case);
            &&& outline is Some <==> build.rules is Some
            &&& outline matches Some(outline) ==> build.rules == Some(rule_specs(outline@))
            &&& final(findings)@ == old(findings)@.plus(build.findings)
        }),
{
    let ghost before = findings@;
    let ghost build = sugar_build(places@, member_specs(members@), match_case);
    let matcher = build_title(places, members, provenance, match_case, findings);
    let root = ScopePath::root();
    let sections = match get_list(members, "sections") {
        Some(rules) => build_scope(places, rules, &root, match_case, findings),
        None => {
            proof {
                let none = scope_build(places@, Seq::empty(), Seq::empty(), match_case);
                assert(none.findings =~= nothing_found());
                assert(none.rules->0 =~= rule_specs(Seq::empty()));
                assert(findings@ =~= findings@.plus(nothing_found()));
            }
            Some(Vec::new())
        },
    };
    assert(findings@ =~= before.plus(build.findings));
    match sections {
        Some(sections) => {
            let rule = SectionRule {
                id: None,
                matcher,
                outcome: if provenance == OutlineProvenance::NoTitle {
                    RuleOutcome::Deny
                } else {
                    RuleOutcome::Allow(Cardinality { min: 1, max: UpperBound::Bounded(1) })
                },
                strict: false,
                sections,
                constraints: Vec::new(),
            };
            assert(constraint_specs(rule.constraints@) =~= Seq::empty());
            assert(rule_spec(rule) =~= build.rules->0[0]);
            let outline = vec![rule];
            assert(rule_specs(outline@) =~= build.rules->0);
            Some(outline)
        },
        None => None,
    }
}

/// The spelling from which the outline comes.
pub(crate) fn outline_provenance(members: &Vec<(String, Json)>) -> (provenance: OutlineProvenance)
    ensures
        provenance == provenance_of(member_specs(members@)),
{
    if get_member(members, "outline").is_some() {
        OutlineProvenance::Outline
    } else {
        match get_member(members, "title") {
            Some(Json::Null) => OutlineProvenance::NoTitle,
            Some(_) => OutlineProvenance::Title,
            None => OutlineProvenance::BareSections,
        }
    }
}

/// The version number that the document declares.
fn get_version(members: &Vec<(String, Json)>) -> (version: Option<i64>)
    ensures
        declared_version(member_specs(members@)) == match version {
            Some(version) => Some(version as int),
            None => None,
        },
{
    match get_member(members, "version") {
        Some(Json::Number(spelling)) => match parse_plain_integer(spelling.as_str()) {
            Some(version) => if -9223372036854775808 <= version && version
                <= 9223372036854775807 {
                Some(version as i64)
            } else {
                None
            },
            None => None,
        },
        _ => None,
    }
}

/// The spelling of a version number.
fn spell_version(version: i64) -> (text: String)
    ensures
        text@ == version_spelling(version as int),
{
    if version >= 0 {
        decimal_u64(version as u64)
    } else {
        let magnitude = (-(version as i128)) as u64;
        join2("-", decimal_u64(magnitude).as_str())
    }
}

fn check_version(places: &Places, version: i64, errors: &mut Vec<SchemaError>)
    ensures
        error_specs(final(errors)@) == error_specs(old(errors)@) + version_errors(
            places@,
            version as int,
        ),
{
    if version != 1 {
        error_at(
            errors,
            SchemaErrorKind::UnsupportedVersion,
            places.range(RangeKey::DocumentField("version".to_owned())),
            join3(
                "unsupported schema version ",
                spell_version(version).as_str(),
                "; expected 1",
            ),
        );
    }
    assert(error_specs(errors@) =~= error_specs(old(errors)@) + version_errors(
        places@,
        version as int,
    ));
}

/// Builds the outline.
fn build_outline<'j>(
    places: &Places,
    members: &'j Vec<(String, Json)>,
    provenance: OutlineProvenance,
    match_case: bool,
    findings: &mut Findings<'j>,
) -> (outline: Option<Vec<SectionRule>>)
    requires
        provenance == provenance_of(member_specs(members@)),
        places.outline_general == (provenance == OutlineProvenance::Outline),
    ensures
        ({
            let build = document_outline_build(
                PlacesSpec { outline_general: false, ..places@ },
                member_specs(members@),
                match_case,
            );
            &&& outline is Some <==> build.rules is Some
            &&& outline matches Some(outline) ==> build.rules == Some(rule_specs(outline@))
            &&& final(findings)@ == old(findings)@.plus(build.findings)
        }),
{
    let ghost specs = member_specs(members@);
    let ghost plain = PlacesSpec { outline_general: false, ..places@ };
    assert(outline_places(plain, specs) == places@);
    if provenance == OutlineProvenance::Outline {
        match get_list(members, "outline") {
            Some(rules) => build_outline_scope(places, rules, match_case, findings),
            None => {
                shape_error_at(
                    &mut findings.errors,
                    places.range(RangeKey::DocumentField("outline".to_owned())),
                    "outline must declare at least one rule; a document with no h1 headers is declared with `title: null`".to_owned(),
                );
                assert(findings@ =~= old(findings)@.plus(
                    outline_build(places@, Seq::empty(), match_case).findings,
                ));
                None
            },
        }
    } else {
        assert(plain == places@);
        build_sugar(places, members, provenance, match_case, findings)
    }
}

/// What the parts of a document that stand before its constraints are built
/// to.
struct Parts<'j> {
    version: i64,
    options: Options,
    policy: Option<FrontmatterPolicy>,
    provenance: OutlineProvenance,
    outline: Option<Vec<SectionRule>>,
    findings: Findings<'j>,
}

/// Builds the parts of a document that stand before its constraints.
fn build_parts<'j>(
    places: &Places,
    members: &'j Vec<(String, Json)>,
    version: i64,
    sources: &SchemaSources,
    prepared: Option<PreparedExternalSchema>,
) -> (parts: Parts<'j>)
    requires
        places.outline_general == (member(member_specs(members@), "outline"@) is Some),
    ensures
        ({
            let specs = member_specs(members@);
            let plain = PlacesSpec { outline_general: false, ..places@ };
            let frontmatter = frontmatter_build(plain, specs, sources@, prepared_spec(prepared));
            let options = declared_options(specs);
            let outline = document_outline_build(plain, specs, options.match_case);
            &&& parts.version == version
            &&& parts.options == options
            &&& policy_spec(parts.policy) == frontmatter.policy
            &&& parts.provenance == provenance_of(specs)
            &&& parts.outline is Some <==> outline.rules is Some
            &&& parts.outline is Some ==> outline.rules == Some(rule_specs(parts.outline->0@))
            &&& parts.findings@.errors == version_errors(plain, version as int)
                + frontmatter.errors + outline.findings.errors
            &&& parts.findings@.nodes == frontmatter.nodes + outline.findings.nodes
            &&& parts.findings@.constraints == all_declared(specs, outline)
        }),
{
    let ghost specs = member_specs(members@);
    let ghost plain = PlacesSpec { outline_general: false, ..places@ };
    let mut errors: Vec<SchemaError> = Vec::new();
    let mut nodes = FoundNodes::new();
    check_version(places, version, &mut errors);
    proof {
        document_fields_are_shared(places@, "version"@);
        assert(version_errors(places@, version as int) == version_errors(plain, version as int));
        frontmatter_is_shared(places@, specs, sources@, prepared_spec(prepared));
    }
    let policy = build_frontmatter(places, members, sources, prepared, &mut errors, &mut nodes);
    let options = build_options(members);
    let provenance = outline_provenance(members);
    let top = Declared { scope: ScopePath::root(), values: get_list(members, "constraints") };
    let mut findings = Findings { errors, nodes, constraints: vec![top] };
    let ghost before = findings@;
    let outline = build_outline(places, members, provenance, options.match_case, &mut findings);
    proof {
        let frontmatter = frontmatter_build(plain, specs, sources@, prepared_spec(prepared));
        let build = document_outline_build(plain, specs, options.match_case);
        assert(before.constraints =~= seq![
            (Seq::<RuleIndex>::empty(), list_field(specs, "constraints"@)),
        ]);
        assert(before.errors =~= version_errors(plain, version as int) + frontmatter.errors);
        assert(before.nodes =~= frontmatter.nodes);
        assert(findings@.constraints =~= all_declared(specs, build));
    }
    Parts { version, options, policy, provenance, outline, findings }
}

proof fn document_fields_are_shared(places: PlacesSpec, field: Seq<char>)
    ensures
        range_for(places, KeySpec::DocumentField(field)) == range_for(
            PlacesSpec { outline_general: false, ..places },
            KeySpec::DocumentField(field),
        ),
        range_for(places, KeySpec::FrontmatterField(field)) == range_for(
            PlacesSpec { outline_general: false, ..places },
            KeySpec::FrontmatterField(field),
        ),
{
}

proof fn frontmatter_is_shared(
    places: PlacesSpec,
    members: Members,
    sources: Seq<SourceSpec>,
    prepared: Option<PreparedSpec>,
)
    ensures
        frontmatter_build(places, members, sources, prepared) == frontmatter_build(
            PlacesSpec { outline_general: false, ..places },
            members,
            sources,
            prepared,
        ),
{
    document_fields_are_shared(places, "frontmatter"@);
    document_fields_are_shared(places, "schema"@);
}

/// What a schema and the ranges of its nodes are, or errors.
pub open spec fn build_spec(result: Result<(Schema, FoundNodes), Vec<SchemaError>>) -> Result<
    (SchemaSpec, Seq<(NodeAddress, SourceRange)>),
    Seq<ErrorSpec>,
> {
    match result {
        Ok((schema, nodes)) => Ok((schema@, nodes@)),
        Err(errors) => Err(error_specs(errors@)),
    }
}

/// Builds the schema that a document of valid shape describes.
fn build_document(
    places: &Places,
    members: &Vec<(String, Json)>,
    sources: &SchemaSources,
    prepared: Option<PreparedExternalSchema>,
) -> (result: Result<(Schema, FoundNodes), Vec<SchemaError>>)
    requires
        places.outline_general == (member(member_specs(members@), "outline"@) is Some),
    ensures
        build_spec(result) == document_build(
            PlacesSpec { outline_general: false, ..places@ },
            member_specs(members@),
            sources@,
            prepared_spec(prepared),
        ),
{
    let ghost specs = member_specs(members@);
    let ghost plain = PlacesSpec { outline_general: false, ..places@ };
    let ghost expected = document_build(plain, specs, sources@, prepared_spec(prepared));
    proof {
        reveal(document_build);
        assert(outline_places(plain, specs) == places@);
    }
    let version = match get_version(members) {
        Some(version) => version,
        None => {
            let mut errors: Vec<SchemaError> = Vec::new();
            shape_error_at(
                &mut errors,
                places.document,
                "invalid schema document shape: invalid number".to_owned(),
            );
            assert(error_specs(errors@) =~= expected->Err_0);
            return Err(errors);
        },
    };
    let parts = build_parts(places, members, version, sources, prepared);
    let mut findings = parts.findings;
    let ghost found = findings@;
    assert(declared_specs(findings.constraints@) =~= found.constraints);
    if version == 1 {
        if let Some(policy) = parts.policy {
            if let Some(outline) = parts.outline {
                let schema = Schema {
                    version: SchemaVersion::V1,
                    options: parts.options,
                    frontmatter: policy,
                    outline,
                    constraints: Vec::new(),
                    outline_provenance: parts.provenance,
                };
                assert(constraint_specs(schema.constraints@) =~= Seq::empty());
                let lists = build_all_constraints(
                    &schema,
                    places,
                    &findings.constraints,
                    &mut findings.errors,
                    &mut findings.nodes,
                );
                if findings.errors.len() > 0 {
                    assert(error_specs(findings.errors@).len() > 0);
                    return Err(findings.errors);
                }
                assert(error_specs(findings.errors@).len() == 0);
                let schema = place_all(schema, lists);
                return Ok((schema, findings.nodes));
            }
        }
    }
    validate_constraint_lexical_refs(places, &findings.constraints, &mut findings.errors);
    if findings.errors.len() == 0 {
        assert(error_specs(findings.errors@).len() == 0);
        shape_error_at(
            &mut findings.errors,
            places.document,
            "schema could not be loaded".to_owned(),
        );
    } else {
        assert(error_specs(findings.errors@).len() > 0);
    }
    assert(error_specs(findings.errors@) =~= expected->Err_0);
    Err(findings.errors)
}

/// Reports a refusal of the YAML reader against the bytes of the source.
fn yaml_failure(error: YamlError, offsets: &Vec<usize>, document: SourceRange) -> (errors: Vec<
    SchemaError,
>)
    ensures
        error_specs(errors@) == seq![
            plain_error(
                error.kind,
                match error.span {
                    Some((start, end)) => range_of_chars(start, end, offsets@),
                    None => document,
                },
                error.message@,
            ),
        ],
{
    let range = match error.span {
        Some((start, end)) => char_range(start, end, offsets),
        None => document,
    };
    let mut errors: Vec<SchemaError> = Vec::new();
    assert(error_specs(errors@) =~= Seq::empty());
    error_at(&mut errors, error.kind, range, error.message);
    errors
}

/// Builds the schema that a source describes.
fn build_source(
    source: &str,
    sources: &SchemaSources,
    prepared: Option<PreparedExternalSchema>,
) -> (result: Result<(Schema, FoundNodes), Vec<SchemaError>>)
    ensures
        build_spec(result) == source_build(source@, sources@, prepared_spec(prepared)),
        encode_utf8(source@).len() <= usize::MAX,
{
    let offsets = char_offsets(source);
    let document = SourceRange {
        source: SourceId(0),
        range: TextRange {
            start: ByteOffset(0),
            end: ByteOffset(source.as_bytes().len()),
        },
    };
    assert(document == document_range_of(source@));
    let tree = match parse_schema_yaml(source) {
        Ok(tree) => tree,
        Err(error) => {
            return Err(yaml_failure(error, &offsets, document));
        },
    };
    let ranges = RangeIndex::from_tree(&tree, &offsets);
    let mut places = Places { ranges, document, outline_general: false };
    let ghost plain = places@;
    let value = match schema_yaml_to_json(&tree) {
        Ok(value) => value,
        Err(error) => {
            return Err(yaml_failure(error, &offsets, document));
        },
    };
    let mut errors: Vec<SchemaError> = Vec::new();
    validate_document_shape(&places, &value, &mut errors);
    assert(error_specs(errors@) =~= document_shape_errors(plain, value@));
    if errors.len() > 0 {
        assert(error_specs(errors@).len() > 0);
        return Err(errors);
    }
    assert(error_specs(errors@).len() == 0);
    match value.as_object() {
        Some(members) => {
            places.outline_general = get_member(members, "outline").is_some();
            assert(PlacesSpec { outline_general: false, ..places@ } == plain);
            build_document(&places, members, sources, prepared)
        },
        None => {
            assert(false);
            Err(errors)
        },
    }
}

/// Loads a schema from its source, given what its linked graph was prepared
/// to. The sources are those that the schema is reported with.
pub fn load_prepared(
    source: &str,
    sources: SchemaSources,
    prepared: Option<PreparedExternalSchema>,
) -> (result: LoadSchemaResult)
    ensures
        load_spec(result) == load_of(source@, sources@, prepared_spec(prepared)),
        primary_source(result) == sources.primary,
        are_sources_of(sources@, source@) ==> ranges_are_within(load_spec(result)),
        encode_utf8(source@).len() <= usize::MAX,
{
    let document = SourceRange {
        source: SourceId(0),
        range: TextRange {
            start: ByteOffset(0),
            end: ByteOffset(source.as_bytes().len()),
        },
    };
    proof {
        failures_have_errors(source@, sources@, prepared_spec(prepared));
        if are_sources_of(sources@, source@) {
            reported_ranges_lie_in_their_sources(source@, sources@, prepared_spec(prepared));
        }
    }
    let built = build_source(source, &sources, prepared);
    assert(document == document_range_of(source@));
    match built {
        Ok((schema, nodes)) => Ok(
            LoadedSchema {
                schema,
                sources,
                locations: SchemaLocations { document, nodes: NodeRanges::of(&nodes) },
            },
        ),
        Err(errors) => {
            let mut errors = errors;
            let ghost all = errors@;
            assert(error_specs(all).len() == all.len());
            let first = errors.remove(0);
            let invalid = InvalidSchema { sources, errors: NonEmpty { first, rest: errors } };
            assert(seq![first] + errors@ =~= all);
            Err(invalid)
        },
    }
}

/// The source of an external resource.
pub open spec fn resource_source(resource: ResourceSpec) -> SourceSpec {
    SourceSpec {
        label: resource.label,
        text: match resource.contents {
            Ok(text) => text,
            Err(_) => Seq::empty(),
        },
    }
}

/// The sources of a load: the primary one, and those of external resources as
/// far as there are ids for them.
pub open spec fn sources_of(
    source: Seq<char>,
    label: Option<Seq<char>>,
    external: Option<LinkedSpec>,
) -> Seq<SourceSpec> {
    let primary = seq![SourceSpec { label, text: source }];
    match external {
        None => primary,
        Some(external) => primary + external.resources.take(
            if external.resources.len() > u32::MAX {
                u32::MAX as int
            } else {
                external.resources.len() as int
            },
        ).map_values(|resource: ResourceSpec| resource_source(resource)),
    }
}

/// What an optional graph is.
pub open spec fn linked_spec(external: Option<LinkedJsonSchemaInput>) -> Option<LinkedSpec> {
    match external {
        None => None,
        Some(external) => Some(external@),
    }
}

/// Whether an optional graph can have an outcome.
pub open spec fn external_can_have(
    external: Option<LinkedSpec>,
    outcome: Option<GraphFaultSpec>,
) -> bool {
    match external {
        None => true,
        Some(external) => can_have(external, outcome),
    }
}

/// What an optional graph is prepared to, for an outcome.
pub open spec fn external_prepared(
    external: Option<LinkedSpec>,
    outcome: Option<GraphFaultSpec>,
) -> Option<PreparedSpec> {
    match external {
        None => None,
        Some(external) => Some(prepared_external(external, outcome)),
    }
}

/// The sources of a load.
fn load_sources(
    source: &str,
    label: Option<SourceLabel>,
    external: &Option<LinkedJsonSchemaInput>,
) -> (sources: SchemaSources)
    ensures
        sources@ == sources_of(source@, label_spec(label), linked_spec(*external)),
        sources.primary == SourceId(0),
{
    let primary = SchemaSource { label, text: source.to_owned() };
    let mut sources = SchemaSources { primary: SourceId(0), documents: vec![primary] };
    let ghost start = sources@;
    assert(start =~= seq![SourceSpec { label: label_spec(label), text: source@ }]);
    if let Some(external) = external {
        let ghost resources = external@.resources;
        let ghost expected = resources.map_values(
            |resource: ResourceSpec| resource_source(resource),
        );
        let count: usize = if external.resources.len() > 4294967295 {
            4294967295
        } else {
            external.resources.len()
        };
        let mut at: usize = 0;
        while at < count
            invariant
                at <= count <= external.resources@.len(),
                resources == external@.resources,
                expected == resources.map_values(
                    |resource: ResourceSpec| resource_source(resource),
                ),
                sources@ =~= start + expected.take(at as int),
                sources.primary == SourceId(0),
            decreases count - at,
        {
            let resource = &external.resources[at];
            let text = match &resource.contents {
                JsonSchemaResourceContents::Loaded(text) => text.clone(),
                JsonSchemaResourceContents::ReadFailure(_) => String::new(),
            };
            let label = match &resource.label {
                Some(label) => Some(label.clone()),
                None => None,
            };
            let ghost before = sources@;
            let document = SchemaSource { label, text };
            assert(resources[at as int] == resource@);
            assert(document@ == expected[at as int]);
            sources.documents.push(document);
            assert(sources@ =~= before.push(document@));
            at += 1;
        }
        assert(expected.take(count as int) =~= resources.take(count as int).map_values(
            |resource: ResourceSpec| resource_source(resource),
        ));
    }
    sources
}

/// Loads a schema from UTF-8 source text.
///
/// The returned model contains only normalized values. Errors are accumulated
/// where later checks do not depend on an earlier invalid value.
pub fn load_schema(source: &str) -> (result: LoadSchemaResult)
    ensures
        load_spec(result) == load_of(source@, sources_of(source@, None, None), None),
        primary_source(result) == SourceId(0),
        ranges_are_within(load_spec(result)),
{
    load_schema_with_label(source, None)
}

/// Loads a schema from source text with a diagnostic display label.
pub fn load_schema_with_label(source: &str, label: Option<SourceLabel>) -> (result:
    LoadSchemaResult)
    ensures
        load_spec(result) == load_of(
            source@,
            sources_of(source@, label_spec(label), None),
            None,
        ),
        primary_source(result) == SourceId(0),
        ranges_are_within(load_spec(result)),
{
    let sources = load_sources(source, label, &None);
    load_prepared(source, sources, None)
}

/// Loads a schema with an already-preloaded linked JSON Schema graph.
///
/// This is the complete pure loader boundary for filesystem-backed schemas:
/// callers perform all reads first and provide stable logical resource URIs.
/// What the JSON Schema compiler reports of a graph is one of the outcomes
/// that the graph can have.
pub fn load_schema_with_resources(
    source: &str,
    label: Option<SourceLabel>,
    external: Option<LinkedJsonSchemaInput>,
) -> (result: LoadSchemaResult)
    ensures
        exists|outcome: Option<GraphFaultSpec>| #[trigger]
            external_can_have(linked_spec(external), outcome) && load_spec(result) == load_of(
                source@,
                sources_of(source@, label_spec(label), linked_spec(external)),
                external_prepared(linked_spec(external), outcome),
            ),
        primary_source(result) == SourceId(0),
        are_sources_of(
            sources_of(source@, label_spec(label), linked_spec(external)),
            source@,
        ) ==> ranges_are_within(load_spec(result)),
{
    let sources = load_sources(source, label, &external);
    match &external {
        None => {
            let result = load_prepared(source, sources, None);
            proof {
                let outcome: Option<GraphFaultSpec> = None;
                assert(external_can_have(linked_spec(external), outcome));
            }
            result
        },
        Some(input) => {
            let prepared = prepare_external_schema(input);
            proof {
                let outcome = choose|outcome: Option<GraphFaultSpec>| #[trigger]
                    can_have(input@, outcome) && prepared@ == prepared_external(input@, outcome);
                assert(external_can_have(linked_spec(external), outcome));
            }
            load_prepared(source, sources, Some(prepared))
        },
    }
}

/// The linked frontmatter schema path that a source declares.
pub open spec fn linked_path_of(source: Seq<char>) -> Option<Seq<char>> {
    match parsed_tree(source) {
        Err(_) => None,
        Ok(tree) => match json_of(tree) {
            Err(_) => None,
            Ok(value) => match member(members_of(value), "frontmatter"@) {
                None => None,
                Some(frontmatter) => text_field(members_of(frontmatter), "schema"@),
            },
        },
    }
}

/// Returns the linked frontmatter schema path declared by valid outer YAML.
///
/// The path is returned exactly as declared. Resolution against a lexical file
/// location belongs to the I/O shell.
pub fn linked_frontmatter_schema_path(source: &str) -> (path: Option<String>)
    ensures
        linked_path_of(source@) == match path {
            None => None,
            Some(path) => Some(path@),
        },
{
    let tree = match parse_schema_yaml(source) {
        Ok(tree) => tree,
        Err(_) => {
            return None;
        },
    };
    let value = match schema_yaml_to_json(&tree) {
        Ok(value) => value,
        Err(_) => {
            return None;
        },
    };
    match value.as_object() {
        None => None,
        Some(members) => match get_member(members, "frontmatter") {
            None => None,
            Some(frontmatter) => match frontmatter.as_object() {
                None => None,
                Some(fields) => match get_text(fields, "schema") {
                    None => None,
                    Some(path) => Some(path.to_owned()),
                },
            },
        },
    }
}

} // verus!
