//! Building the frontmatter policy with typed values and inline schemas.

use serde_json::Value;
use vstd::prelude::*;

use super::exports::{
    build_frontmatter_captures, exports_build, optional_json, query_fault_specs,
    refused_exports_are_explained, DeclaredCaptures, DeclaredSpec, QueryFaults,
};
use super::inline::{
    inline_can_have, inline_result, inline_settled, prepare_inline_schema,
};
use super::model::{export_specs, ExportSpec, FrontmatterCapture, FrontmatterCaptures};
use super::order::text_specs;
use crate::json::{Json, JsonSpec};
use crate::json_value::value_content;
use crate::load_result::{
    error_specs, ErrorSpec, FoundNodes, NodeAddress, SchemaError, SchemaErrorKind, SchemaNode,
    SchemaSources, SourceRange, SourceSpec,
};
use crate::loader::external::{content_fault, GraphFaultSpec, PreparedExternalSchema, PreparedSpec};
use crate::loader::frontmatter::{
    linked_errors, prepared_spec, report_linked, source_range, whole_source,
};
use crate::loader::places::{error_at, known_range, plain_error, range_for, Places, PlacesSpec};
use crate::loader::ranges::{KeySpec, RangeKey};
use crate::schema::{
    frontmatter_schema_spec, FrontmatterSchema, FrontmatterSchemaSpec, NonEmpty,
};

verus! {

/// What the frontmatter must be like, and the typed values it holds. Only
/// frontmatter that may be there can hold any.
#[derive(Debug, PartialEq, Eq)]
pub enum CapturingPolicy {
    /// It must be there, and holds typed values.
    RequiredWithCaptures {
        /// The schema of its content.
        schema: Option<FrontmatterSchema>,
        /// The typed values.
        captures: FrontmatterCaptures,
    },
    /// It may be there, and holds typed values.
    OptionalWithCaptures {
        /// The schema of its content.
        schema: Option<FrontmatterSchema>,
        /// The typed values.
        captures: FrontmatterCaptures,
    },
    /// It must be there.
    Required {
        /// The schema of its content.
        schema: Option<FrontmatterSchema>,
    },
    /// It may be there.
    Optional {
        /// The schema of its content.
        schema: Option<FrontmatterSchema>,
    },
    /// It must not be there.
    Forbidden {
        /// The schema of its content.
        schema: Option<FrontmatterSchema>,
    },
}

/// What a policy with typed values is.
pub enum CapturingSpec {
    /// See [`CapturingPolicy::RequiredWithCaptures`].
    RequiredWithCaptures(Option<FrontmatterSchemaSpec>, Seq<(Seq<char>, ExportSpec)>),
    /// See [`CapturingPolicy::OptionalWithCaptures`].
    OptionalWithCaptures(Option<FrontmatterSchemaSpec>, Seq<(Seq<char>, ExportSpec)>),
    /// See [`CapturingPolicy::Required`].
    Required(Option<FrontmatterSchemaSpec>),
    /// See [`CapturingPolicy::Optional`].
    Optional(Option<FrontmatterSchemaSpec>),
    /// See [`CapturingPolicy::Forbidden`].
    Forbidden(Option<FrontmatterSchemaSpec>),
}

impl View for CapturingPolicy {
    type V = CapturingSpec;

    open spec fn view(&self) -> CapturingSpec {
        match self {
            CapturingPolicy::RequiredWithCaptures { schema, captures } =>
                CapturingSpec::RequiredWithCaptures(
                frontmatter_schema_spec(*schema),
                export_specs(captures@),
            ),
            CapturingPolicy::OptionalWithCaptures { schema, captures } =>
                CapturingSpec::OptionalWithCaptures(
                frontmatter_schema_spec(*schema),
                export_specs(captures@),
            ),
            CapturingPolicy::Required { schema } => CapturingSpec::Required(
                frontmatter_schema_spec(*schema),
            ),
            CapturingPolicy::Optional { schema } => CapturingSpec::Optional(
                frontmatter_schema_spec(*schema),
            ),
            CapturingPolicy::Forbidden { schema } => CapturingSpec::Forbidden(
                frontmatter_schema_spec(*schema),
            ),
        }
    }
}

/// The typed values that a policy holds.
pub open spec fn policy_exports(policy: CapturingSpec) -> Seq<(Seq<char>, ExportSpec)> {
    match policy {
        CapturingSpec::RequiredWithCaptures(_, captures) => captures,
        CapturingSpec::OptionalWithCaptures(_, captures) => captures,
        _ => Seq::empty(),
    }
}

impl CapturingPolicy {
    /// The typed values.
    pub fn exports(&self) -> (captures: &[(String, FrontmatterCapture)])
        ensures
            export_specs(captures@) == policy_exports(self@),
    {
        match self {
            CapturingPolicy::RequiredWithCaptures { captures, .. } => captures.as_slice(),
            CapturingPolicy::OptionalWithCaptures { captures, .. } => captures.as_slice(),
            _ => {
                let none: &[(String, FrontmatterCapture)] = &[];
                assert(export_specs(none@) =~= Seq::empty());
                none
            },
        }
    }
}

/// What an optional policy is.
pub open spec fn optional_policy(policy: Option<CapturingPolicy>) -> Option<CapturingSpec> {
    match policy {
        Some(policy) => Some(policy@),
        None => None,
    }
}

/// A declared schema whose preparation is settled.
pub enum DeclaredSchema {
    /// A linked graph, if any was prepared.
    Linked(Option<PreparedExternalSchema>),
    /// An inline schema, or what is wrong with it.
    Inline(Result<FrontmatterSchema, NonEmpty<String>>),
}

/// What a declared schema is.
pub enum DeclaredSchemaSpec {
    /// See [`DeclaredSchema::Linked`].
    Linked(Option<PreparedSpec>),
    /// See [`DeclaredSchema::Inline`].
    Inline(Result<FrontmatterSchemaSpec, Seq<Seq<char>>>),
}

impl View for DeclaredSchema {
    type V = DeclaredSchemaSpec;

    open spec fn view(&self) -> DeclaredSchemaSpec {
        match self {
            DeclaredSchema::Linked(prepared) => DeclaredSchemaSpec::Linked(
                prepared_spec(*prepared),
            ),
            DeclaredSchema::Inline(result) => DeclaredSchemaSpec::Inline(inline_result(*result)),
        }
    }
}

/// What an optional declared schema is.
pub open spec fn optional_declared(schema: Option<DeclaredSchema>) -> Option<DeclaredSchemaSpec> {
    match schema {
        Some(schema) => Some(schema@),
        None => None,
    }
}

/// What a declared schema yields.
#[verifier::ext_equal]
pub struct SchemaBuild {
    /// The schema, or `None` if it could not be built; without a declaration
    /// there is no schema, and nothing that could fail.
    pub schema: Option<Option<FrontmatterSchemaSpec>>,
    /// The errors.
    pub errors: Seq<ErrorSpec>,
    /// The ranges of the nodes that were built.
    pub nodes: Seq<(NodeAddress, SourceRange)>,
}

/// Faults in a schema, at one place.
pub open spec fn schema_errors(faults: Seq<Seq<char>>, range: SourceRange) -> Seq<ErrorSpec> {
    faults.map_values(
        |fault: Seq<char>| plain_error(SchemaErrorKind::InvalidFrontmatterSchema, range, fault),
    )
}

/// What a declared schema yields.
#[verifier::opaque]
pub open spec fn schema_build(
    places: PlacesSpec,
    sources: Seq<SourceSpec>,
    schema: Option<DeclaredSchemaSpec>,
) -> SchemaBuild {
    let range = range_for(places, KeySpec::FrontmatterField("schema"@));
    let declaration = (NodeAddress::FrontmatterSchemaDeclaration, range);
    match schema {
        None => SchemaBuild { schema: Some(None), errors: Seq::empty(), nodes: Seq::empty() },
        Some(DeclaredSchemaSpec::Linked(None)) => SchemaBuild {
            schema: None,
            errors: seq![
                plain_error(
                    SchemaErrorKind::InvalidFrontmatterSchema,
                    range,
                    "linked frontmatter schema requires a schema file path context"@,
                ),
            ],
            nodes: seq![declaration],
        },
        Some(DeclaredSchemaSpec::Linked(Some(prepared))) => match prepared.result {
            Err(errors) => SchemaBuild {
                schema: None,
                errors: linked_errors(sources, errors, range),
                nodes: seq![declaration],
            },
            Ok(schema) => SchemaBuild {
                schema: Some(Some(schema)),
                errors: Seq::empty(),
                nodes: seq![
                    declaration,
                    (
                        NodeAddress::FrontmatterSchemaDocument,
                        whole_source(sources, prepared.root_source, range),
                    ),
                ],
            },
        },
        Some(DeclaredSchemaSpec::Inline(result)) => SchemaBuild {
            schema: match result {
                Ok(schema) => Some(Some(schema)),
                Err(_) => None,
            },
            errors: match result {
                Ok(_) => Seq::empty(),
                Err(faults) => schema_errors(faults, range),
            },
            nodes: seq![declaration, (NodeAddress::FrontmatterSchemaDocument, range)],
        },
    }
}

/// The policy for frontmatter that is required or allowed, and holds typed
/// values or does not.
pub open spec fn capturing_policy_of(
    required: bool,
    allow: bool,
    schema: Option<FrontmatterSchemaSpec>,
    captures: DeclaredSpec,
) -> Option<CapturingSpec> {
    match captures {
        DeclaredSpec::Invalid => None,
        DeclaredSpec::Valid(captures) => if !allow {
            None
        } else if required {
            Some(CapturingSpec::RequiredWithCaptures(schema, captures))
        } else {
            Some(CapturingSpec::OptionalWithCaptures(schema, captures))
        },
        DeclaredSpec::Absent => if required {
            Some(CapturingSpec::Required(schema))
        } else if allow {
            Some(CapturingSpec::Optional(schema))
        } else {
            Some(CapturingSpec::Forbidden(schema))
        },
    }
}

/// What building the policy yields.
#[verifier::ext_equal]
pub struct CapturingBuild {
    /// The policy, if it could be built.
    pub policy: Option<CapturingSpec>,
    /// The errors.
    pub errors: Seq<ErrorSpec>,
    /// The ranges of the nodes that were built.
    pub nodes: Seq<(NodeAddress, SourceRange)>,
}

/// The error for typed values of frontmatter that must not be there.
pub open spec fn conflict_errors(places: PlacesSpec, conflict: bool) -> Seq<ErrorSpec> {
    if conflict {
        seq![
            plain_error(
                SchemaErrorKind::ConflictingFrontmatter,
                range_for(places, KeySpec::FrontmatterField("captures"@)),
                "frontmatter cannot declare captures and be forbidden"@,
            ),
        ]
    } else {
        Seq::empty()
    }
}

/// What building the policy yields for a declared frontmatter.
pub open spec fn capturing_build(
    places: PlacesSpec,
    required: bool,
    allow: bool,
    captures: Option<JsonSpec>,
    schema: Option<DeclaredSchemaSpec>,
    sources: Seq<SourceSpec>,
    queries: Seq<(Seq<char>, Seq<char>)>,
) -> CapturingBuild {
    let range = range_for(places, KeySpec::DocumentField("frontmatter"@));
    let node = (NodeAddress::Frontmatter, range);
    if required && !allow {
        CapturingBuild {
            policy: None,
            errors: seq![
                plain_error(
                    SchemaErrorKind::ConflictingFrontmatter,
                    range,
                    "frontmatter cannot be both required and forbidden"@,
                ),
            ],
            nodes: seq![node],
        }
    } else {
        let declared = known_range(places, KeySpec::FrontmatterField("captures"@)) is Some;
        let exports = exports_build(places, captures, declared, queries);
        let content = schema_build(places, sources, schema);
        CapturingBuild {
            policy: match content.schema {
                None => None,
                Some(schema) => capturing_policy_of(required, allow, schema, exports.captures),
            },
            errors: conflict_errors(places, declared && !allow) + exports.errors + content.errors,
            nodes: seq![node] + exports.nodes + content.nodes,
        }
    }
}

/// Reports what is wrong with an inline schema.
fn report_inline(faults: NonEmpty<String>, range: SourceRange, errors: &mut Vec<SchemaError>)
    ensures
        error_specs(final(errors)@) == error_specs(old(errors)@) + schema_errors(
            text_specs(faults.all()),
            range,
        ),
{
    let ghost specs = text_specs(faults.all());
    let ghost expected = schema_errors(specs, range);
    let all = faults.iter();
    let mut at: usize = 0;
    assert(error_specs(errors@) =~= error_specs(old(errors)@) + expected.take(0));
    while at < all.len()
        invariant
            at <= all@.len() == specs.len(),
            expected == schema_errors(specs, range),
            forall|k: int| 0 <= k < all@.len() ==> (#[trigger] all@[k])@ == specs[k],
            error_specs(errors@) == error_specs(old(errors)@) + expected.take(at as int),
        decreases all.len() - at,
    {
        assert(all@[at as int]@ == specs[at as int]);
        error_at(
            errors,
            SchemaErrorKind::InvalidFrontmatterSchema,
            range,
            all[at].clone(),
        );
        assert(expected.take(at + 1) =~= expected.take(at as int).push(expected[at as int]));
        assert(error_specs(errors@) =~= error_specs(old(errors)@) + expected.take(at + 1));
        at += 1;
    }
    assert(expected.take(at as int) =~= expected);
}

/// Builds the declared schema; `None` if it cannot be built.
fn build_declared_schema(
    places: &Places,
    sources: &SchemaSources,
    schema: Option<DeclaredSchema>,
    errors: &mut Vec<SchemaError>,
    nodes: &mut FoundNodes,
) -> (built: Option<Option<FrontmatterSchema>>)
    ensures
        ({
            let build = schema_build(places@, sources@, optional_declared(schema));
            &&& match built {
                Some(schema) => build.schema == Some(frontmatter_schema_spec(schema)),
                None => build.schema is None,
            }
            &&& error_specs(final(errors)@) == error_specs(old(errors)@) + build.errors
            &&& final(nodes)@ == old(nodes)@ + build.nodes
        }),
{
    let ghost build = schema_build(places@, sources@, optional_declared(schema));
    reveal(schema_build);
    let schema = match schema {
        Some(schema) => schema,
        None => {
            assert(error_specs(errors@) =~= error_specs(old(errors)@) + build.errors);
            assert(nodes@ =~= old(nodes)@ + build.nodes);
            return Some(None);
        },
    };
    let range = places.range(RangeKey::FrontmatterField("schema".to_owned()));
    nodes.record(SchemaNode::FrontmatterSchemaDeclaration, range);
    match schema {
        DeclaredSchema::Linked(None) => {
            error_at(
                errors,
                SchemaErrorKind::InvalidFrontmatterSchema,
                range,
                "linked frontmatter schema requires a schema file path context".to_owned(),
            );
            assert(error_specs(errors@) =~= error_specs(old(errors)@) + build.errors);
            assert(nodes@ =~= old(nodes)@ + build.nodes);
            None
        },
        DeclaredSchema::Linked(Some(prepared)) => {
            let document_range = source_range(sources, prepared.root_source, range);
            match prepared.result {
                Ok(schema) => {
                    nodes.record(SchemaNode::FrontmatterSchemaDocument, document_range);
                    assert(error_specs(errors@) =~= error_specs(old(errors)@) + build.errors);
                    assert(nodes@ =~= old(nodes)@ + build.nodes);
                    Some(Some(schema))
                },
                Err(found) => {
                    report_linked(sources, found, range, errors);
                    assert(nodes@ =~= old(nodes)@ + build.nodes);
                    None
                },
            }
        },
        DeclaredSchema::Inline(result) => {
            nodes.record(SchemaNode::FrontmatterSchemaDocument, range);
            assert(nodes@ =~= old(nodes)@ + build.nodes);
            match result {
                Ok(schema) => {
                    assert(error_specs(errors@) =~= error_specs(old(errors)@) + build.errors);
                    Some(Some(schema))
                },
                Err(faults) => {
                    report_inline(faults, range, errors);
                    None
                },
            }
        },
    }
}

fn make_capturing_policy(
    required: bool,
    allow: bool,
    schema: Option<FrontmatterSchema>,
    captures: DeclaredCaptures,
) -> (policy: Option<CapturingPolicy>)
    ensures
        optional_policy(policy) == capturing_policy_of(
            required,
            allow,
            frontmatter_schema_spec(schema),
            captures@,
        ),
{
    match captures {
        DeclaredCaptures::Invalid => None,
        DeclaredCaptures::Valid(captures) => {
            if !allow {
                None
            } else if required {
                Some(CapturingPolicy::RequiredWithCaptures { schema, captures })
            } else {
                Some(CapturingPolicy::OptionalWithCaptures { schema, captures })
            }
        },
        DeclaredCaptures::Absent => {
            if required {
                Some(CapturingPolicy::Required { schema })
            } else if allow {
                Some(CapturingPolicy::Optional { schema })
            } else {
                Some(CapturingPolicy::Forbidden { schema })
            }
        },
    }
}

/// Settles the policy that a frontmatter declares, given its schema as far as
/// that was prepared. Nothing partial is built, but independent faults are all
/// reported.
#[verifier::spinoff_prover]
pub fn settle_frontmatter(
    places: &Places,
    required: bool,
    allow: bool,
    captures: Option<&Json>,
    schema: Option<DeclaredSchema>,
    sources: &SchemaSources,
    queries: &QueryFaults,
    errors: &mut Vec<SchemaError>,
    nodes: &mut FoundNodes,
) -> (policy: Option<CapturingPolicy>)
    ensures
        ({
            let build = capturing_build(
                places@,
                required,
                allow,
                optional_json(captures),
                optional_declared(schema),
                sources@,
                query_fault_specs(queries@),
            );
            &&& optional_policy(policy) == build.policy
            &&& error_specs(final(errors)@) == error_specs(old(errors)@) + build.errors
            &&& final(nodes)@ == old(nodes)@ + build.nodes
        }),
{
    let ghost build = capturing_build(
        places@,
        required,
        allow,
        optional_json(captures),
        optional_declared(schema),
        sources@,
        query_fault_specs(queries@),
    );
    let range = places.range(RangeKey::DocumentField("frontmatter".to_owned()));
    nodes.record(SchemaNode::Frontmatter, range);
    if required && !allow {
        error_at(
            errors,
            SchemaErrorKind::ConflictingFrontmatter,
            range,
            "frontmatter cannot be both required and forbidden".to_owned(),
        );
        assert(error_specs(errors@) =~= error_specs(old(errors)@) + build.errors);
        assert(nodes@ =~= old(nodes)@ + build.nodes);
        return None;
    }
    let declared = places.find(RangeKey::FrontmatterField("captures".to_owned())).is_some();
    if declared && !allow {
        error_at(
            errors,
            SchemaErrorKind::ConflictingFrontmatter,
            places.range(RangeKey::FrontmatterField("captures".to_owned())),
            "frontmatter cannot declare captures and be forbidden".to_owned(),
        );
    }
    assert(error_specs(errors@) =~= error_specs(old(errors)@) + conflict_errors(
        places@,
        declared && !allow,
    ));
    let captures = build_frontmatter_captures(places, captures, declared, queries, errors, nodes);
    let schema = build_declared_schema(places, sources, schema, errors, nodes);
    assert(error_specs(errors@) =~= error_specs(old(errors)@) + build.errors);
    assert(nodes@ =~= old(nodes)@ + build.nodes);
    match schema {
        Some(schema) => make_capturing_policy(required, allow, schema, captures),
        None => None,
    }
}

/// A schema as the frontmatter spells it.
pub enum RawSchema<'a> {
    /// A path to a linked schema.
    Path,
    /// An inline schema.
    Mapping(&'a Value),
}

/// The fields of a frontmatter declaration.
pub struct RawFrontmatter<'a> {
    /// Whether frontmatter must be there.
    pub required: Option<bool>,
    /// Whether frontmatter may be there.
    pub allow: Option<bool>,
    /// The schema of its content.
    pub schema: Option<RawSchema<'a>>,
    /// The typed values it declares.
    pub captures: Option<&'a Json>,
}

/// What preparing the schema of a declaration can come to.
pub open spec fn declared_can_be(
    schema: Option<RawSchema>,
    prepared: Option<PreparedSpec>,
    settled: Option<DeclaredSchemaSpec>,
) -> bool {
    match schema {
        None => settled is None,
        Some(RawSchema::Path) => settled == Some(DeclaredSchemaSpec::Linked(prepared)),
        Some(RawSchema::Mapping(value)) => exists|outcome: Option<GraphFaultSpec>| #[trigger]
            inline_can_have(value_content(*value), outcome) && settled == Some(
                DeclaredSchemaSpec::Inline(
                    inline_settled(
                        value_content(*value),
                        content_fault(value_content(*value)),
                        outcome,
                    ),
                ),
            ),
    }
}

/// What building the policy can yield. Without a declaration frontmatter is
/// optional; a declaration whose fields could not be read yields nothing.
pub open spec fn capturing_build_of(
    places: PlacesSpec,
    raw: Option<RawFrontmatter>,
    declared: bool,
    settled: Option<DeclaredSchemaSpec>,
    sources: Seq<SourceSpec>,
    queries: Seq<(Seq<char>, Seq<char>)>,
) -> CapturingBuild {
    if !declared {
        CapturingBuild {
            policy: Some(CapturingSpec::Optional(None)),
            errors: Seq::empty(),
            nodes: Seq::empty(),
        }
    } else {
        match raw {
            None => CapturingBuild {
                policy: None,
                errors: Seq::empty(),
                nodes: seq![
                    (
                        NodeAddress::Frontmatter,
                        range_for(places, KeySpec::DocumentField("frontmatter"@)),
                    ),
                ],
            },
            Some(raw) => capturing_build(
                places,
                raw.required == Some(true),
                raw.allow != Some(false),
                optional_json(raw.captures),
                settled,
                sources,
                queries,
            ),
        }
    }
}

/// The schema that a declaration names, or `None`.
pub open spec fn raw_schema<'a>(raw: Option<RawFrontmatter<'a>>) -> Option<RawSchema<'a>> {
    match raw {
        Some(raw) => raw.schema,
        None => None,
    }
}

/// Prepares the schema of a declaration.
fn prepare_declared(schema: Option<RawSchema>, prepared: Option<PreparedExternalSchema>) -> (settled:
    Option<DeclaredSchema>)
    ensures
        declared_can_be(schema, prepared_spec(prepared), optional_declared(settled)),
{
    match schema {
        None => None,
        Some(RawSchema::Path) => Some(DeclaredSchema::Linked(prepared)),
        Some(RawSchema::Mapping(value)) => Some(
            DeclaredSchema::Inline(prepare_inline_schema(value)),
        ),
    }
}

/// Builds the policy that the frontmatter of a schema declares.
pub fn build_capturing_frontmatter(
    places: &Places,
    raw: Option<RawFrontmatter>,
    declared: bool,
    sources: &SchemaSources,
    prepared: Option<PreparedExternalSchema>,
    queries: &QueryFaults,
    errors: &mut Vec<SchemaError>,
    nodes: &mut FoundNodes,
) -> (policy: Option<CapturingPolicy>)
    ensures
        exists|settled: Option<DeclaredSchemaSpec>|
            {
                let build = capturing_build_of(
                    places@,
                    raw,
                    declared,
                    settled,
                    sources@,
                    query_fault_specs(queries@),
                );
                &&& #[trigger] declared_can_be(raw_schema(raw), prepared_spec(prepared), settled)
                &&& optional_policy(policy) == build.policy
                &&& error_specs(final(errors)@) == error_specs(old(errors)@) + build.errors
                &&& final(nodes)@ == old(nodes)@ + build.nodes
            },
{
    let ghost given = raw;
    let ghost before = error_specs(errors@);
    let ghost ranges = nodes@;
    let schema = match &raw {
        Some(RawFrontmatter { schema: Some(RawSchema::Mapping(value)), .. }) => Some(
            RawSchema::Mapping(*value),
        ),
        Some(RawFrontmatter { schema: Some(RawSchema::Path), .. }) => Some(RawSchema::Path),
        _ => None,
    };
    assert(schema == raw_schema(raw));
    let settled = prepare_declared(schema, prepared);
    let ghost choice = optional_declared(settled);
    let ghost build = capturing_build_of(
        places@,
        raw,
        declared,
        choice,
        sources@,
        query_fault_specs(queries@),
    );
    assert(declared_can_be(raw_schema(given), prepared_spec(prepared), choice));
    if !declared {
        assert(error_specs(errors@) =~= before + build.errors);
        assert(nodes@ =~= ranges + build.nodes);
        return Some(CapturingPolicy::Optional { schema: None });
    }
    match raw {
        None => {
            nodes.record(
                SchemaNode::Frontmatter,
                places.range(RangeKey::DocumentField("frontmatter".to_owned())),
            );
            assert(error_specs(errors@) =~= before + build.errors);
            assert(nodes@ =~= ranges + build.nodes);
            None
        },
        Some(raw) => {
            let required = match raw.required {
                Some(required) => required,
                None => false,
            };
            let allow = match raw.allow {
                Some(allow) => allow,
                None => true,
            };
            settle_frontmatter(
                places,
                required,
                allow,
                raw.captures,
                settled,
                sources,
                queries,
                errors,
                nodes,
            )
        },
    }
}

/// Frontmatter that must not be there never holds typed values, and a policy
/// is refused exactly where an error says why.
pub proof fn refused_policies_are_explained(
    places: PlacesSpec,
    required: bool,
    allow: bool,
    captures: Option<JsonSpec>,
    schema: Option<DeclaredSchemaSpec>,
    sources: Seq<SourceSpec>,
    queries: Seq<(Seq<char>, Seq<char>)>,
)
    requires
        schema matches Some(DeclaredSchemaSpec::Linked(Some(prepared))) ==> (prepared.result
            matches Err(errors) ==> errors.len() > 0),
        schema matches Some(DeclaredSchemaSpec::Inline(Err(faults))) ==> faults.len() > 0,
    ensures
        ({
            let build = capturing_build(
                places,
                required,
                allow,
                captures,
                schema,
                sources,
                queries,
            );
            &&& build.policy is None <==> build.errors.len() > 0
            &&& !allow ==> match build.policy {
                None => true,
                Some(policy) => policy is Forbidden,
            }
            &&& required ==> match build.policy {
                None => true,
                Some(policy) => policy is Required || policy is RequiredWithCaptures,
            }
        }),
{
    reveal(schema_build);
    let declared = known_range(places, KeySpec::FrontmatterField("captures"@)) is Some;
    refused_exports_are_explained(places, captures, declared, queries);
}

} // verus!
