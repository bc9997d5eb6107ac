//! Building the frontmatter policy.

use vstd::prelude::*;
use vstd::utf8::encode_utf8;

use super::external::{external_error_specs, PreparedExternalError, PreparedExternalSchema, PreparedSpec};
use super::places::{error_at, plain_error, range_for, Places, PlacesSpec};
use super::ranges::{KeySpec, RangeKey};
use super::rules::{bool_field, flag_or, get_flag};
use super::shape::Members;
use crate::json::{get_member, member, member_specs, members_of, Json, JsonSpec};
use crate::load_result::{
    error_specs, ByteOffset, ErrorSpec, FoundNodes, NodeAddress, SchemaError, SchemaErrorKind,
    SchemaNode, SchemaSources, SourceId, SourceRange, SourceSpec, TextRange,
};
use crate::schema::{
    frontmatter_schema_spec, FrontmatterPolicy, FrontmatterSchema, FrontmatterSchemaSpec, NonEmpty,
    PolicySpec,
};

verus! {

/// What building the frontmatter policy yields.
#[verifier::ext_equal]
pub struct PolicyBuild {
    /// The policy, if it could be built.
    pub policy: Option<PolicySpec>,
    /// The errors.
    pub errors: Seq<ErrorSpec>,
    /// The ranges of the nodes that were built.
    pub nodes: Seq<(NodeAddress, SourceRange)>,
}

/// The policy for frontmatter that is required or allowed.
pub open spec fn policy_of(
    required: bool,
    allow: bool,
    schema: Option<FrontmatterSchemaSpec>,
) -> PolicySpec {
    if required {
        PolicySpec::Required(schema)
    } else if allow {
        PolicySpec::Optional(schema)
    } else {
        PolicySpec::Forbidden(schema)
    }
}

/// The whole of the source that `id` numbers, or `otherwise`.
pub open spec fn whole_source(
    sources: Seq<SourceSpec>,
    id: SourceId,
    otherwise: SourceRange,
) -> SourceRange {
    if id.0 < sources.len() {
        SourceRange {
            source: id,
            range: TextRange {
                start: ByteOffset(0),
                end: ByteOffset(encode_utf8(sources[id.0 as int].text).len() as usize),
            },
        }
    } else {
        otherwise
    }
}

/// The errors of a linked graph, each over the whole of its source.
pub open spec fn linked_errors(
    sources: Seq<SourceSpec>,
    errors: Seq<(SourceId, Seq<char>)>,
    otherwise: SourceRange,
) -> Seq<ErrorSpec> {
    errors.map_values(
        |error: (SourceId, Seq<char>)|
            plain_error(
                SchemaErrorKind::InvalidFrontmatterSchema,
                whole_source(sources, error.0, otherwise),
                error.1,
            ),
    )
}

/// What a linked schema yields for the policy.
pub open spec fn linked_build(
    places: PlacesSpec,
    sources: Seq<SourceSpec>,
    prepared: Option<PreparedSpec>,
    required: bool,
    allow: bool,
) -> PolicyBuild {
    let range = range_for(places, KeySpec::FrontmatterField("schema"@));
    let declared = (NodeAddress::FrontmatterSchemaDeclaration, range);
    match prepared {
        None => PolicyBuild {
            policy: None,
            errors: seq![
                plain_error(
                    SchemaErrorKind::InvalidFrontmatterSchema,
                    range,
                    "linked frontmatter schema requires a schema file path context"@,
                ),
            ],
            nodes: seq![declared],
        },
        Some(prepared) => match prepared.result {
            Err(errors) => PolicyBuild {
                policy: None,
                errors: linked_errors(sources, errors, range),
                nodes: seq![declared],
            },
            Ok(schema) => PolicyBuild {
                policy: Some(policy_of(required, allow, Some(schema))),
                errors: Seq::empty(),
                nodes: seq![
                    declared,
                    (
                        NodeAddress::FrontmatterSchemaDocument,
                        whole_source(sources, prepared.root_source, range),
                    ),
                ],
            },
        },
    }
}

/// What building the frontmatter policy yields.
pub open spec fn frontmatter_build(
    places: PlacesSpec,
    members: Members,
    sources: Seq<SourceSpec>,
    prepared: Option<PreparedSpec>,
) -> PolicyBuild {
    match member(members, "frontmatter"@) {
        None => PolicyBuild {
            policy: Some(PolicySpec::Optional(None)),
            errors: Seq::empty(),
            nodes: Seq::empty(),
        },
        Some(value) => {
            let fields = members_of(value);
            let range = range_for(places, KeySpec::DocumentField("frontmatter"@));
            let node = (NodeAddress::Frontmatter, range);
            let required = flag_or(bool_field(fields, "required"@), false);
            let allow = flag_or(bool_field(fields, "allow"@), true);
            if required && !allow {
                PolicyBuild {
                    policy: None,
                    errors: seq![
                        plain_error(
                            SchemaErrorKind::ConflictingFrontmatter,
                            range,
                            "frontmatter cannot be both required and forbidden"@,
                        ),
                    ],
                    nodes: seq![node],
                }
            } else {
                match member(fields, "schema"@) {
                    None => PolicyBuild {
                        policy: Some(policy_of(required, allow, None)),
                        errors: Seq::empty(),
                        nodes: seq![node],
                    },
                    Some(JsonSpec::Text(_)) => {
                        let linked = linked_build(places, sources, prepared, required, allow);
                        PolicyBuild { nodes: seq![node] + linked.nodes, ..linked }
                    },
                    Some(_) => PolicyBuild {
                        policy: None,
                        errors: seq![
                            plain_error(
                                SchemaErrorKind::InvalidFrontmatterSchema,
                                range_for(places, KeySpec::FrontmatterField("schema"@)),
                                "inline frontmatter JSON Schema is not implemented yet; use a linked JSON file"@,
                            ),
                        ],
                        nodes: seq![node],
                    },
                }
            }
        },
    }
}

/// The whole of the source that `id` numbers, or `otherwise`.
pub(crate) fn source_range(sources: &SchemaSources, id: SourceId, otherwise: SourceRange) -> (range:
    SourceRange)
    ensures
        range == whole_source(sources@, id, otherwise),
{
    match sources.get(id) {
        Some(source) => SourceRange {
            source: id,
            range: TextRange {
                start: ByteOffset(0),
                end: ByteOffset(source.text.as_str().as_bytes().len()),
            },
        },
        None => otherwise,
    }
}

/// What an optional policy is.
pub open spec fn policy_spec(policy: Option<FrontmatterPolicy>) -> Option<PolicySpec> {
    match policy {
        None => None,
        Some(policy) => Some(policy@),
    }
}

/// What an optional prepared graph is.
pub open spec fn prepared_spec(prepared: Option<PreparedExternalSchema>) -> Option<PreparedSpec> {
    match prepared {
        None => None,
        Some(prepared) => Some(prepared@),
    }
}

fn make_policy(required: bool, allow: bool, schema: Option<FrontmatterSchema>) -> (policy:
    FrontmatterPolicy)
    ensures
        policy@ == policy_of(required, allow, frontmatter_schema_spec(schema)),
{
    if required {
        FrontmatterPolicy::Required { schema }
    } else if allow {
        FrontmatterPolicy::Optional { schema }
    } else {
        FrontmatterPolicy::Forbidden { schema }
    }
}

/// Reports the errors of a linked graph.
pub(crate) fn report_linked(
    sources: &SchemaSources,
    found: NonEmpty<PreparedExternalError>,
    otherwise: SourceRange,
    errors: &mut Vec<SchemaError>,
)
    ensures
        error_specs(final(errors)@) == error_specs(old(errors)@) + linked_errors(
            sources@,
            external_error_specs(found.all()),
            otherwise,
        ),
{
    let ghost specs = external_error_specs(found.all());
    let ghost expected = linked_errors(sources@, specs, otherwise);
    let all = found.iter();
    let mut at: usize = 0;
    assert(error_specs(errors@) =~= error_specs(old(errors)@) + expected.take(0));
    while at < all.len()
        invariant
            at <= all@.len() == specs.len(),
            expected == linked_errors(sources@, specs, otherwise),
            forall|k: int| 0 <= k < all@.len() ==> (#[trigger] all@[k])@ == specs[k],
            error_specs(errors@) == error_specs(old(errors)@) + expected.take(at as int),
        decreases all.len() - at,
    {
        let error = all[at];
        assert(all@[at as int]@ == specs[at as int]);
        error_at(
            errors,
            SchemaErrorKind::InvalidFrontmatterSchema,
            source_range(sources, error.source, otherwise),
            error.message.clone(),
        );
        assert(expected.take(at + 1) =~= expected.take(at as int).push(expected[at as int]));
        assert(error_specs(errors@) =~= error_specs(old(errors)@) + expected.take(at + 1));
        at += 1;
    }
    assert(expected.take(at as int) =~= expected);
}

fn build_linked(
    places: &Places,
    sources: &SchemaSources,
    prepared: Option<PreparedExternalSchema>,
    required: bool,
    allow: bool,
    errors: &mut Vec<SchemaError>,
    nodes: &mut FoundNodes,
) -> (policy: Option<FrontmatterPolicy>)
    ensures
        ({
            let build = linked_build(places@, sources@, prepared_spec(prepared), required, allow);
            &&& policy_spec(policy) == build.policy
            &&& error_specs(final(errors)@) == error_specs(old(errors)@) + build.errors
            &&& final(nodes)@ == old(nodes)@ + build.nodes
        }),
{
    let ghost build = linked_build(places@, sources@, prepared_spec(prepared), required, allow);
    let range = places.range(RangeKey::FrontmatterField("schema".to_owned()));
    nodes.record(SchemaNode::FrontmatterSchemaDeclaration, range);
    let prepared = match prepared {
        Some(prepared) => prepared,
        None => {
            error_at(
                errors,
                SchemaErrorKind::InvalidFrontmatterSchema,
                range,
                "linked frontmatter schema requires a schema file path context".to_owned(),
            );
            assert(error_specs(errors@) =~= error_specs(old(errors)@) + build.errors);
            assert(nodes@ =~= old(nodes)@ + build.nodes);
            return None;
        },
    };
    let document_range = source_range(sources, prepared.root_source, range);
    match prepared.result {
        Ok(schema) => {
            nodes.record(SchemaNode::FrontmatterSchemaDocument, document_range);
            assert(error_specs(errors@) =~= error_specs(old(errors)@) + build.errors);
            assert(nodes@ =~= old(nodes)@ + build.nodes);
            Some(make_policy(required, allow, Some(schema)))
        },
        Err(found) => {
            report_linked(sources, found, range, errors);
            assert(nodes@ =~= old(nodes)@ + build.nodes);
            None
        },
    }
}

/// Builds the frontmatter policy that the document declares.
pub fn build_frontmatter(
    places: &Places,
    members: &Vec<(String, Json)>,
    sources: &SchemaSources,
    prepared: Option<PreparedExternalSchema>,
    errors: &mut Vec<SchemaError>,
    nodes: &mut FoundNodes,
) -> (policy: Option<FrontmatterPolicy>)
    ensures
        ({
            let build = frontmatter_build(
                places@,
                member_specs(members@),
                sources@,
                prepared_spec(prepared),
            );
            &&& policy_spec(policy) == build.policy
            &&& error_specs(final(errors)@) == error_specs(old(errors)@) + build.errors
            &&& final(nodes)@ == old(nodes)@ + build.nodes
        }),
{
    let ghost build = frontmatter_build(
        places@,
        member_specs(members@),
        sources@,
        prepared_spec(prepared),
    );
    let value = match get_member(members, "frontmatter") {
        Some(value) => value,
        None => {
            assert(error_specs(errors@) =~= error_specs(old(errors)@) + build.errors);
            assert(nodes@ =~= old(nodes)@ + build.nodes);
            return Some(FrontmatterPolicy::Optional { schema: None });
        },
    };
    let empty: Vec<(String, Json)> = Vec::new();
    let fields = match value.as_object() {
        Some(fields) => fields,
        None => &empty,
    };
    assert(member_specs(fields@) =~= members_of(value@));
    let range = places.range(RangeKey::DocumentField("frontmatter".to_owned()));
    nodes.record(SchemaNode::Frontmatter, range);
    let required = get_flag(fields, "required", false);
    let allow = get_flag(fields, "allow", true);
    if required && !allow {
        error_at(
            errors,
            SchemaErrorKind::ConflictingFrontmatter,
            range,
            "frontmatter cannot be both required and forbidden".to_owned(),
        );
        assert(error_specs(errors@) =~= error_specs(old(errors)@) + build.errors);
        assert(nodes@ =~= old(nodes)@ + build.nodes);
        return None;
    }
    match get_member(fields, "schema") {
        None => {
            assert(error_specs(errors@) =~= error_specs(old(errors)@) + build.errors);
            assert(nodes@ =~= old(nodes)@ + build.nodes);
            Some(make_policy(required, allow, None))
        },
        Some(Json::Text(_)) => {
            let policy = build_linked(places, sources, prepared, required, allow, errors, nodes);
            assert(nodes@ =~= old(nodes)@ + build.nodes);
            policy
        },
        Some(_) => {
            error_at(
                errors,
                SchemaErrorKind::InvalidFrontmatterSchema,
                places.range(RangeKey::FrontmatterField("schema".to_owned())),
                "inline frontmatter JSON Schema is not implemented yet; use a linked JSON file".to_owned(),
            );
            assert(error_specs(errors@) =~= error_specs(old(errors)@) + build.errors);
            assert(nodes@ =~= old(nodes)@ + build.nodes);
            None
        },
    }
}

} // verus!
