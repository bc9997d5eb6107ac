//! Building the schema of a document with named scopes.

use vstd::prelude::*;

use super::binding::{rules_at, Binder, BinderSpec};
use super::constraints::{
    build_named_constraint, locator_errors, named_constraint_read,
    validate_constraint_lexical_refs, NamedConstraint, NamedConstraintSpec,
};
use super::content::{build_content_scope, content_scope_build, ContentBuild};
use super::exports::{query_fault_specs, QueryFaults};
use super::frontmatter::{
    build_capturing_frontmatter, capturing_build_of, declared_can_be, optional_policy,
    policy_exports, raw_schema, CapturingPolicy, CapturingSpec, DeclaredSchemaSpec,
    RawFrontmatter,
};
use super::locators::{Locators, LocatorsSpec};
use super::model::{
    child_rules, scope_spec, ChildScope, ChildSpec, ContentScope, DeclaredScope, DocumentShape,
    NamedSchema, NamedSpec, ScopeMode, ShapeSpec, TitleSlot,
};
use super::names::{declaration_specs, names_fit, DeclarationSpec, NamedDeclaration, Namespaces};
use super::rules::{
    analysis_specs, build_child_scope, build_declared_scope, built_scopes_register_their_names,
    capture_declarations, child_build, constraints_found, found, mode_of, named_build,
    named_build_is, named_captures, named_list_build, none_found, scope_of_rules, Analyses,
    Builder, BuilderSpec, ChildBuild, ScopeFindings, ScopeFindingsSpec,
};
use crate::json::{
    get_member, item_specs, member, member_index_bounds, member_specs, Json, JsonSpec,
};
use crate::load_result::{
    error_specs, node_ranges, ConstraintIndex, ConstraintPath, ContentOwner, ContentOwnerSpec,
    ErrorSpec, FoundNodes, NodeAddress, NodeRanges, RuleIndex, SchemaError, SchemaErrorKind,
    SchemaNode, SchemaSources, ScopePath, SourceRange, SourceSpec,
};
use crate::loader::constraints::spelled_refs;
use crate::loader::external::PreparedExternalSchema;
use crate::loader::frontmatter::prepared_spec;
use crate::loader::load::{
    constraint_range, declared_specs, outline_places, outline_provenance, provenance_of, reported,
    title_matcher, title_range,
};
use crate::loader::places::{error_at, plain_error, range_for, shape_error_at, Places, PlacesSpec};
use crate::loader::ranges::{KeySpec, RangeKey};
use crate::loader::rules::{
    build_matcher, build_options, declared_options, error_of, get_text, Declared,
};
use crate::loader::shape::{is_integer, is_yaml_integer, member_at, Members};
use crate::schema::{Matcher, MatcherSpec, NonEmpty, Options, OutlineProvenance};
use crate::text::{join3, same_text};

verus! {

/// Whether a document declares the version that there is.
pub open spec fn has_version(members: Members) -> bool {
    member(members, "version"@) == Some(JsonSpec::Number("2"@))
}

/// The error of another version. A version that is no integer of a size that
/// versions can have is an error of shape, and reported as such.
pub open spec fn named_version_errors(places: PlacesSpec, members: Members) -> Seq<ErrorSpec> {
    match member(members, "version"@) {
        Some(JsonSpec::Number(spelling)) => if !is_integer(JsonSpec::Number(spelling)) || spelling
            == "2"@ {
            Seq::empty()
        } else {
            seq![
                plain_error(
                    SchemaErrorKind::UnsupportedVersion,
                    range_for(places, KeySpec::DocumentField("version"@)),
                    "unsupported schema version "@ + spelling + "; expected 2"@,
                ),
            ]
        },
        _ => Seq::empty(),
    }
}

/// Classifies the version that a document declares, independently of what else
/// is wrong with its shape.
pub fn classify_version(
    places: &Places,
    members: &Vec<(String, Json)>,
    errors: &mut Vec<SchemaError>,
) -> (supported: bool)
    ensures
        supported == has_version(member_specs(members@)),
        error_specs(final(errors)@) == error_specs(old(errors)@) + named_version_errors(
            places@,
            member_specs(members@),
        ),
{
    let ghost expected = named_version_errors(places@, member_specs(members@));
    let value = match get_member(members, "version") {
        Some(value) => value,
        None => {
            assert(error_specs(errors@) =~= error_specs(old(errors)@) + expected);
            return false;
        },
    };
    if let Json::Number(spelling) = value {
        if same_text(spelling.as_str(), "2") {
            assert(error_specs(errors@) =~= error_specs(old(errors)@) + expected);
            return true;
        }
        if is_yaml_integer(value) {
            error_at(
                errors,
                SchemaErrorKind::UnsupportedVersion,
                places.range(RangeKey::DocumentField("version".to_owned())),
                join3("unsupported schema version ", spelling.as_str(), "; expected 2"),
            );
        }
    }
    assert(error_specs(errors@) =~= error_specs(old(errors)@) + expected);
    false
}

/// Whose the content is that the document declares beside its sections: the
/// title's, where there is one.
pub open spec fn preamble_owner(provenance: OutlineProvenance) -> ContentOwnerSpec {
    match provenance {
        OutlineProvenance::Outline => ContentOwnerSpec::Document,
        OutlineProvenance::NoTitle => ContentOwnerSpec::Document,
        _ => ContentOwnerSpec::Title,
    }
}

/// What building the content that the document declares beside its sections
/// yields.
pub open spec fn preamble_build(builder: BuilderSpec, members: Members) -> ContentBuild {
    content_scope_build(
        builder.places,
        ContentOwnerSpec::Document,
        preamble_owner(provenance_of(members)),
        member(members, "content"@),
        builder.match_case,
    )
}

/// What building the scope at the root yields. An outline that is no list of
/// rules yields none.
pub open spec fn root_build(builder: BuilderSpec, members: Members) -> ChildBuild {
    match member(members, "outline"@) {
        Some(JsonSpec::Array(rules)) => {
            let outline = scope_of_rules(
                builder,
                members,
                rules,
                Seq::empty(),
                Seq::empty(),
            );
            ChildBuild {
                children: match outline.scope {
                    Some(scope) => Some(ChildSpec::Declared(scope)),
                    None => None,
                },
                findings: outline.findings,
            }
        },
        Some(_) => ChildBuild { children: None, findings: none_found() },
        None => child_build(builder, members, Seq::empty(), Seq::empty()),
    }
}

/// What building the shape of a document yields.
#[verifier::ext_equal]
pub struct ShapeBuild {
    /// The shape, if it could be built.
    pub shape: Option<ShapeSpec>,
    /// What else was found.
    pub findings: ScopeFindingsSpec,
}

/// The findings about the title of a document.
pub open spec fn title_found(builder: BuilderSpec, members: Members) -> ScopeFindingsSpec {
    if provenance_of(members) == OutlineProvenance::Outline {
        found(Seq::empty(), Seq::empty())
    } else {
        found(
            error_of(title_matcher(builder.places, members, builder.match_case)),
            seq![(NodeAddress::Title, title_range(builder.places, provenance_of(members)))],
        )
    }
}

/// What building the shape of a document yields: its title, its scope at the
/// root, and its own content. A title that is spelled but cannot be built
/// stands for any, and is reported.
pub open spec fn shape_build(builder: BuilderSpec, members: Members) -> ShapeBuild {
    let provenance = provenance_of(members);
    let root = root_build(builder, members);
    let content = preamble_build(builder, members);
    ShapeBuild {
        shape: match root.children {
            Some(children) if content.errors.len() == 0 => Some(
                ShapeSpec {
                    root: children,
                    document_content: if provenance == OutlineProvenance::Outline || provenance
                        == OutlineProvenance::NoTitle {
                        content.rules
                    } else {
                        None
                    },
                    title_content: if provenance == OutlineProvenance::Outline {
                        None
                    } else {
                        content.rules
                    },
                    title: if provenance == OutlineProvenance::Outline || provenance
                        == OutlineProvenance::NoTitle {
                        None
                    } else {
                        Some(
                            match title_matcher(builder.places, members, builder.match_case) {
                                Ok(matcher) => matcher,
                                Err(_) => MatcherSpec::Any,
                            },
                        )
                    },
                    provenance,
                },
            ),
            _ => None,
        },
        findings: title_found(builder, members).plus(root.findings).plus(
            found(content.errors, content.nodes),
        ),
    }
}

fn build_named_title<'a, 'j>(
    builder: &Builder<'a>,
    members: &Vec<(String, Json)>,
    provenance: OutlineProvenance,
    findings: &mut ScopeFindings<'j>,
) -> (matcher: Matcher)
    requires
        provenance == provenance_of(member_specs(members@)),
    ensures
        final(findings)@ == old(findings)@.plus(title_found(builder@, member_specs(members@))),
        provenance != OutlineProvenance::Outline ==> matcher@ == match title_matcher(
            builder@.places,
            member_specs(members@),
            builder@.match_case,
        ) {
            Ok(matcher) => matcher,
            Err(_) => MatcherSpec::Any,
        },
{
    let ghost before = findings@;
    let ghost expected = title_found(builder@, member_specs(members@));
    if provenance == OutlineProvenance::Outline {
        assert(findings@ =~= before.plus(expected));
        return Matcher::Any;
    }
    let field = if provenance == OutlineProvenance::BareSections {
        "sections"
    } else {
        "title"
    };
    let anchor = builder.places.range(RangeKey::DocumentField(field.to_owned()));
    findings.nodes.record(SchemaNode::Title, anchor);
    let matcher = match get_text(members, "title") {
        Some(title) => {
            let range = builder.places.range(RangeKey::DocumentField("title".to_owned()));
            match build_matcher(title, builder.match_case, range, &mut findings.errors) {
                Some(matcher) => matcher,
                None => Matcher::Any,
            }
        },
        None => Matcher::Any,
    };
    assert(findings@ =~= before.plus(expected));
    matcher
}

fn build_preamble<'a, 'j>(
    builder: &Builder<'a>,
    members: &Vec<(String, Json)>,
    provenance: OutlineProvenance,
    findings: &mut ScopeFindings<'j>,
) -> (content: Option<ContentScope>)
    requires
        provenance == provenance_of(member_specs(members@)),
    ensures
        ({
            let build = preamble_build(builder@, member_specs(members@));
            &&& content is Some <==> build.errors.len() == 0
            &&& content matches Some(content) ==> content@ == build.rules
            &&& final(findings)@ == old(findings)@.plus(found(build.errors, build.nodes))
        }),
{
    let ghost before = findings@;
    let ghost build = preamble_build(builder@, member_specs(members@));
    let owner = match provenance {
        OutlineProvenance::Outline => ContentOwner::Document,
        OutlineProvenance::NoTitle => ContentOwner::Document,
        _ => ContentOwner::Title,
    };
    let content = build_content_scope(
        builder.places,
        &ContentOwner::Document,
        &owner,
        get_member(members, "content"),
        builder.match_case,
        &mut findings.errors,
        &mut findings.nodes,
    );
    assert(findings@ =~= before.plus(found(build.errors, build.nodes)));
    content
}

/// Builds the scope at the root that an outline declares.
fn build_outline_scope<'a, 'j>(
    builder: &Builder<'a>,
    members: &'j Vec<(String, Json)>,
    outline: &'j Json,
    findings: &mut ScopeFindings<'j>,
) -> (scope: Option<DeclaredScope>)
    requires
        member(member_specs(members@), "outline"@) == Some(outline@),
    ensures
        ({
            let build = root_build(builder@, member_specs(members@));
            &&& scope is Some <==> build.children is Some
            &&& scope matches Some(scope) ==> build.children == Some(
                ChildSpec::Declared(scope_spec(scope)),
            )
            &&& final(findings)@ == old(findings)@.plus(build.findings)
        }),
{
    let ghost before = findings@;
    let ghost build = root_build(builder@, member_specs(members@));
    let none: Vec<NamedDeclaration> = Vec::new();
    assert(declaration_specs(none@) =~= Seq::empty());
    let scope = match outline {
        Json::Array(rules) => build_declared_scope(
            builder,
            members,
            rules,
            &ScopePath::root(),
            none,
            findings,
        ),
        _ => None,
    };
    assert(findings@ =~= before.plus(build.findings));
    scope
}

/// The title of a document without an outline.
fn title_slot(
    provenance: OutlineProvenance,
    matcher: Matcher,
    children: ChildScope,
    content: ContentScope,
) -> (slot: TitleSlot)
    ensures
        provenance == OutlineProvenance::NoTitle ==> slot == (TitleSlot::Forbidden {
            children,
            content,
        }),
        provenance != OutlineProvenance::NoTitle ==> slot == (TitleSlot::Required {
            matcher,
            spelled: provenance == OutlineProvenance::Title,
            children,
            content,
        }),
{
    if provenance == OutlineProvenance::NoTitle {
        TitleSlot::Forbidden { children, content }
    } else {
        TitleSlot::Required {
            matcher,
            spelled: provenance == OutlineProvenance::Title,
            children,
            content,
        }
    }
}

/// Builds the shape of a document.
pub fn build_document_shape<'a, 'j>(
    builder: &Builder<'a>,
    members: &'j Vec<(String, Json)>,
    findings: &mut ScopeFindings<'j>,
) -> (shape: Option<DocumentShape>)
    ensures
        ({
            let build = shape_build(builder@, member_specs(members@));
            &&& shape is Some <==> build.shape is Some
            &&& shape matches Some(shape) ==> build.shape == Some(shape@)
            &&& final(findings)@ == old(findings)@.plus(build.findings)
        }),
{
    let ghost before = findings@;
    let ghost specs = member_specs(members@);
    let ghost build = shape_build(builder@, specs);
    let provenance = outline_provenance(members);
    let matcher = build_named_title(builder, members, provenance, findings);
    if let Some(outline) = get_member(members, "outline") {
        let scope = build_outline_scope(builder, members, outline, findings);
        let content = build_preamble(builder, members, provenance, findings);
        assert(findings@ =~= before.plus(build.findings));
        return match (scope, content) {
            (Some(scope), Some(content)) => Some(DocumentShape::Outline { scope, content }),
            _ => None,
        };
    }
    let none: Vec<NamedDeclaration> = Vec::new();
    assert(declaration_specs(none@) =~= Seq::empty());
    let children = build_child_scope(builder, members, &ScopePath::root(), none, findings);
    let content = build_preamble(builder, members, provenance, findings);
    assert(findings@ =~= before.plus(build.findings));
    match (children, content) {
        (Some(children), Some(content)) => Some(
            DocumentShape::Title(title_slot(provenance, matcher, children, content)),
        ),
        _ => None,
    }
}

/// What locators of a document are bound against, apart from the constraint
/// that holds them.
pub open spec fn at_constraint(
    base: BinderSpec,
    places: PlacesSpec,
    scope: Seq<RuleIndex>,
    index: int,
) -> BinderSpec {
    BinderSpec { scope, range: constraint_range(places, scope, index), ..base }
}

/// What building constraints of a scope yields.
#[verifier::ext_equal]
pub struct NamedConstraintsBuild {
    /// The constraints that could be built.
    pub constraints: Seq<NamedConstraintSpec>,
    /// The errors.
    pub errors: Seq<ErrorSpec>,
    /// The ranges of the constraints.
    pub nodes: Seq<(NodeAddress, SourceRange)>,
}

/// What building the first `count` constraints of a scope yields.
pub open spec fn named_scope_constraints(
    base: BinderSpec,
    places: PlacesSpec,
    scope: Seq<RuleIndex>,
    values: Seq<JsonSpec>,
    count: int,
) -> NamedConstraintsBuild
    decreases count,
{
    if count <= 0 || count > values.len() {
        NamedConstraintsBuild {
            constraints: Seq::empty(),
            errors: Seq::empty(),
            nodes: Seq::empty(),
        }
    } else {
        let before = named_scope_constraints(base, places, scope, values, count - 1);
        let read = named_constraint_read(
            at_constraint(base, places, scope, count - 1),
            values[count - 1],
        );
        NamedConstraintsBuild {
            constraints: match read.constraint {
                Some(constraint) => before.constraints.push(constraint),
                None => before.constraints,
            },
            errors: before.errors + read.errors,
            nodes: before.nodes.push(
                (
                    NodeAddress::Constraint(scope, ConstraintIndex((count - 1) as usize)),
                    constraint_range(places, scope, count - 1),
                ),
            ),
        }
    }
}

/// What building the constraints of all scopes yields.
#[verifier::ext_equal]
pub struct NamedConstraintLists {
    /// The constraints of every scope.
    pub lists: Seq<(Seq<RuleIndex>, Seq<NamedConstraintSpec>)>,
    /// The errors.
    pub errors: Seq<ErrorSpec>,
    /// The ranges of the constraints.
    pub nodes: Seq<(NodeAddress, SourceRange)>,
}

/// What building the constraints of the first `count` scopes yields.
pub open spec fn named_constraints_build(
    base: BinderSpec,
    places: PlacesSpec,
    declared: Seq<(Seq<RuleIndex>, Seq<JsonSpec>)>,
    count: int,
) -> NamedConstraintLists
    decreases count,
{
    if count <= 0 || count > declared.len() {
        NamedConstraintLists { lists: Seq::empty(), errors: Seq::empty(), nodes: Seq::empty() }
    } else {
        let before = named_constraints_build(base, places, declared, count - 1);
        let (scope, values) = declared[count - 1];
        let own = named_scope_constraints(base, places, scope, values, values.len() as int);
        NamedConstraintLists {
            lists: before.lists.push((scope, own.constraints)),
            errors: before.errors + own.errors,
            nodes: before.nodes + own.nodes,
        }
    }
}

/// The errors in the spelling of the locators of a scope's first `count`
/// constraints.
pub open spec fn scope_locator_errors(
    locators: LocatorsSpec,
    places: PlacesSpec,
    scope: Seq<RuleIndex>,
    values: Seq<JsonSpec>,
    count: int,
) -> Seq<ErrorSpec>
    decreases count,
{
    if count <= 0 || count > values.len() {
        Seq::empty()
    } else {
        scope_locator_errors(locators, places, scope, values, count - 1) + locator_errors(
            locators,
            spelled_refs(values[count - 1]),
            constraint_range(places, scope, count - 1),
        )
    }
}

/// The errors in the spelling of the locators of the first `count` scopes.
pub open spec fn all_locator_errors(
    locators: LocatorsSpec,
    places: PlacesSpec,
    declared: Seq<(Seq<RuleIndex>, Seq<JsonSpec>)>,
    count: int,
) -> Seq<ErrorSpec>
    decreases count,
{
    if count <= 0 || count > declared.len() {
        Seq::empty()
    } else {
        let (scope, values) = declared[count - 1];
        all_locator_errors(locators, places, declared, count - 1) + scope_locator_errors(
            locators,
            places,
            scope,
            values,
            values.len() as int,
        )
    }
}

/// What constraints are.
pub open spec fn named_constraint_specs(constraints: Seq<NamedConstraint>) -> Seq<
    NamedConstraintSpec,
> {
    constraints.map_values(|constraint: NamedConstraint| constraint@)
}

/// What the constraints of scopes are.
pub open spec fn named_list_specs(lists: Seq<(ScopePath, Vec<NamedConstraint>)>) -> Seq<
    (Seq<RuleIndex>, Seq<NamedConstraintSpec>),
> {
    lists.map_values(
        |list: (ScopePath, Vec<NamedConstraint>)| (list.0@, named_constraint_specs(list.1@)),
    )
}

/// Builds the constraints of one scope.
fn build_scope_constraints(
    schema: &NamedSchema,
    names: &Namespaces,
    locators: &Locators,
    places: &Places,
    declared: &Declared<'_>,
    errors: &mut Vec<SchemaError>,
    nodes: &mut FoundNodes,
    Ghost(base): Ghost<BinderSpec>,
) -> (constraints: Vec<NamedConstraint>)
    requires
        base.shape == schema.document@,
        base.match_case == schema.options.match_case,
        base.captures == policy_exports(schema.frontmatter@),
        base.names == names@,
        base.locators == locators@,
    ensures
        ({
            let build = named_scope_constraints(
                base,
                places@,
                declared@.0,
                declared@.1,
                declared@.1.len() as int,
            );
            &&& named_constraint_specs(constraints@) == build.constraints
            &&& error_specs(final(errors)@) == error_specs(old(errors)@) + build.errors
            &&& final(nodes)@ == old(nodes)@ + build.nodes
        }),
{
    let ghost scope = declared@.0;
    let ghost specs = declared@.1;
    let mut constraints: Vec<NamedConstraint> = Vec::new();
    assert(named_constraint_specs(constraints@) =~= Seq::empty());
    assert(error_specs(errors@) =~= error_specs(old(errors)@) + Seq::<ErrorSpec>::empty());
    assert(nodes@ =~= old(nodes)@ + Seq::<(NodeAddress, SourceRange)>::empty());
    let values = match declared.values {
        Some(values) => values,
        None => {
            return constraints;
        },
    };
    let mut at: usize = 0;
    while at < values.len()
        invariant
            at <= values@.len(),
            specs == item_specs(values@),
            scope == declared.scope@,
            base.shape == schema.document@,
            base.match_case == schema.options.match_case,
            base.captures == policy_exports(schema.frontmatter@),
            base.names == names@,
            base.locators == locators@,
            ({
                let build = named_scope_constraints(base, places@, scope, specs, at as int);
                &&& named_constraint_specs(constraints@) == build.constraints
                &&& error_specs(errors@) == error_specs(old(errors)@) + build.errors
                &&& nodes@ == old(nodes)@ + build.nodes
            }),
        decreases values.len() - at,
    {
        let ghost after = named_scope_constraints(base, places@, scope, specs, at + 1);
        let range = places.range(
            RangeKey::Constraint(declared.scope.clone(), ConstraintIndex(at)),
        );
        nodes.record(
            SchemaNode::Constraint(
                ConstraintPath { scope: declared.scope.clone(), index: ConstraintIndex(at) },
            ),
            range,
        );
        assert(nodes@ =~= old(nodes)@ + after.nodes);
        let ghost so_far = named_constraint_specs(constraints@);
        let binder = Binder { schema, names, locators, scope: &declared.scope, range };
        assert(binder@ == at_constraint(base, places@, scope, at as int));
        match build_named_constraint(&binder, &values[at], errors) {
            Some(constraint) => {
                constraints.push(constraint);
                assert(named_constraint_specs(constraints@) =~= so_far.push(constraint@));
            },
            None => {},
        }
        assert(error_specs(errors@) =~= error_specs(old(errors)@) + after.errors);
        at += 1;
    }
    constraints
}

/// Builds the constraints of all scopes.
fn build_all_constraints(
    schema: &NamedSchema,
    names: &Namespaces,
    locators: &Locators,
    places: &Places,
    declared: &Vec<Declared<'_>>,
    errors: &mut Vec<SchemaError>,
    nodes: &mut FoundNodes,
    Ghost(base): Ghost<BinderSpec>,
) -> (lists: Vec<(ScopePath, Vec<NamedConstraint>)>)
    requires
        base.shape == schema.document@,
        base.match_case == schema.options.match_case,
        base.captures == policy_exports(schema.frontmatter@),
        base.names == names@,
        base.locators == locators@,
    ensures
        ({
            let build = named_constraints_build(
                base,
                places@,
                declared_specs(declared@),
                declared@.len() as int,
            );
            &&& named_list_specs(lists@) == build.lists
            &&& error_specs(final(errors)@) == error_specs(old(errors)@) + build.errors
            &&& final(nodes)@ == old(nodes)@ + build.nodes
        }),
{
    let ghost specs = declared_specs(declared@);
    let mut lists: Vec<(ScopePath, Vec<NamedConstraint>)> = Vec::new();
    assert(named_list_specs(lists@) =~= Seq::empty());
    assert(error_specs(errors@) =~= error_specs(old(errors)@) + Seq::<ErrorSpec>::empty());
    assert(nodes@ =~= old(nodes)@ + Seq::<(NodeAddress, SourceRange)>::empty());
    let mut at: usize = 0;
    while at < declared.len()
        invariant
            at <= declared@.len(),
            specs == declared_specs(declared@),
            base.shape == schema.document@,
            base.match_case == schema.options.match_case,
            base.captures == policy_exports(schema.frontmatter@),
            base.names == names@,
            base.locators == locators@,
            ({
                let build = named_constraints_build(base, places@, specs, at as int);
                &&& named_list_specs(lists@) == build.lists
                &&& error_specs(errors@) == error_specs(old(errors)@) + build.errors
                &&& nodes@ == old(nodes)@ + build.nodes
            }),
        decreases declared.len() - at,
    {
        let ghost after = named_constraints_build(base, places@, specs, at + 1);
        let ghost so_far = named_list_specs(lists@);
        assert(specs[at as int] == declared@[at as int]@);
        let constraints = build_scope_constraints(
            schema,
            names,
            locators,
            places,
            &declared[at],
            errors,
            nodes,
            Ghost(base),
        );
        let list = (declared[at].scope.clone(), constraints);
        lists.push(list);
        assert(named_list_specs(lists@) =~= so_far.push(
            (list.0@, named_constraint_specs(list.1@)),
        ));
        assert(error_specs(errors@) =~= error_specs(old(errors)@) + after.errors);
        assert(nodes@ =~= old(nodes)@ + after.nodes);
        at += 1;
    }
    lists
}

fn check_scope_locators(
    locators: &Locators,
    places: &Places,
    declared: &Declared<'_>,
    errors: &mut Vec<SchemaError>,
)
    ensures
        error_specs(final(errors)@) == error_specs(old(errors)@) + scope_locator_errors(
            locators@,
            places@,
            declared@.0,
            declared@.1,
            declared@.1.len() as int,
        ),
{
    let ghost scope = declared@.0;
    let ghost specs = declared@.1;
    assert(error_specs(errors@) =~= error_specs(old(errors)@) + Seq::<ErrorSpec>::empty());
    let values = match declared.values {
        Some(values) => values,
        None => {
            return;
        },
    };
    let mut at: usize = 0;
    while at < values.len()
        invariant
            at <= values@.len(),
            specs == item_specs(values@),
            scope == declared.scope@,
            error_specs(errors@) == error_specs(old(errors)@) + scope_locator_errors(
                locators@,
                places@,
                scope,
                specs,
                at as int,
            ),
        decreases values.len() - at,
    {
        let range = places.range(
            RangeKey::Constraint(declared.scope.clone(), ConstraintIndex(at)),
        );
        validate_constraint_lexical_refs(locators, &values[at], range, errors);
        assert(error_specs(errors@) =~= error_specs(old(errors)@) + scope_locator_errors(
            locators@,
            places@,
            scope,
            specs,
            at + 1,
        ));
        at += 1;
    }
}

/// Reports the errors in the spelling of all locators.
fn check_all_locators(
    locators: &Locators,
    places: &Places,
    declared: &Vec<Declared<'_>>,
    errors: &mut Vec<SchemaError>,
)
    ensures
        error_specs(final(errors)@) == error_specs(old(errors)@) + all_locator_errors(
            locators@,
            places@,
            declared_specs(declared@),
            declared@.len() as int,
        ),
{
    let ghost specs = declared_specs(declared@);
    assert(error_specs(errors@) =~= error_specs(old(errors)@) + Seq::<ErrorSpec>::empty());
    let mut at: usize = 0;
    while at < declared.len()
        invariant
            at <= declared@.len(),
            specs == declared_specs(declared@),
            error_specs(errors@) == error_specs(old(errors)@) + all_locator_errors(
                locators@,
                places@,
                specs,
                at as int,
            ),
        decreases declared.len() - at,
    {
        assert(specs[at as int] == declared@[at as int]@);
        check_scope_locators(locators, places, &declared[at], errors);
        assert(error_specs(errors@) =~= error_specs(old(errors)@) + all_locator_errors(
            locators@,
            places@,
            specs,
            at + 1,
        ));
        at += 1;
    }
}

/// A schema of named scopes with the constraints of its scopes.
#[derive(Debug, PartialEq, Eq)]
pub struct NamedLoad {
    /// The schema.
    pub schema: NamedSchema,
    /// The constraints of every scope that declares rules.
    pub constraints: Vec<(ScopePath, Vec<NamedConstraint>)>,
    /// The ranges of the nodes.
    pub nodes: NodeRanges,
}

/// What a schema of named scopes with its constraints is.
#[verifier::ext_equal]
pub struct NamedLoadSpec {
    /// The options.
    pub options: Options,
    /// What is declared of the frontmatter.
    pub frontmatter: CapturingSpec,
    /// The shape of the document.
    pub shape: ShapeSpec,
    /// See [`NamedLoad::constraints`].
    pub constraints: Seq<(Seq<RuleIndex>, Seq<NamedConstraintSpec>)>,
    /// See [`NamedLoad::nodes`].
    pub nodes: Map<NodeAddress, SourceRange>,
}

impl View for NamedLoad {
    type V = NamedLoadSpec;

    open spec fn view(&self) -> NamedLoadSpec {
        NamedLoadSpec {
            options: self.schema.options,
            frontmatter: self.schema.frontmatter@,
            shape: self.schema.document@,
            constraints: named_list_specs(self.constraints@),
            nodes: self.nodes@,
        }
    }
}

/// What a result of loading is.
pub open spec fn named_result(result: Result<NamedLoad, NonEmpty<SchemaError>>) -> Result<
    NamedLoadSpec,
    Seq<ErrorSpec>,
> {
    match result {
        Ok(load) => Ok(load@),
        Err(errors) => Err(error_specs(errors.all())),
    }
}

/// What building a schema of named scopes yields, given the policy for its
/// frontmatter, and what was found before: the schema with its constraints, or
/// the errors. Where the schema cannot be built, nothing binds, and of its
/// locators only the spelling is judged.
pub open spec fn schema_settled(
    builder: BuilderSpec,
    locators: LocatorsSpec,
    members: Members,
    policy: Option<CapturingSpec>,
    earlier: ScopeFindingsSpec,
) -> Result<NamedLoadSpec, Seq<ErrorSpec>> {
    let shape = shape_build(builder, members);
    let findings = earlier.plus(shape.findings);
    let count = findings.constraints.len() as int;
    match (policy, shape.shape) {
        (Some(policy), Some(shape)) => {
            let base = BinderSpec {
                shape,
                match_case: builder.match_case,
                captures: policy_exports(policy),
                names: findings.names,
                locators,
                scope: Seq::empty(),
                range: builder.places.document,
            };
            let built = named_constraints_build(
                base,
                builder.places,
                findings.constraints,
                count,
            );
            let errors = findings.errors + built.errors;
            if errors.len() > 0 {
                Err(errors)
            } else {
                Ok(
                    NamedLoadSpec {
                        options: declared_options(members),
                        frontmatter: policy,
                        shape,
                        constraints: built.lists,
                        nodes: node_ranges(findings.nodes + built.nodes),
                    },
                )
            }
        },
        _ => Err(
            reported(
                findings.errors + all_locator_errors(
                    locators,
                    builder.places,
                    findings.constraints,
                    count,
                ),
                builder.places.document,
            ),
        ),
    }
}

/// The errors, or one that says no more than that loading failed.
fn report(errors: Vec<SchemaError>, document: SourceRange) -> (all: NonEmpty<SchemaError>)
    ensures
        error_specs(all.all()) == reported(error_specs(errors@), document),
{
    let mut errors = errors;
    assert(error_specs(errors@).len() == errors@.len());
    let ghost given = error_specs(errors@);
    if errors.len() == 0 {
        shape_error_at(&mut errors, document, "schema could not be loaded".to_owned());
    }
    assert(error_specs(errors@) =~= reported(given, document));
    assert(error_specs(errors@).len() == errors@.len());
    let ghost all = errors@;
    let first = errors.remove(0);
    let list = NonEmpty { first, rest: errors };
    assert(list.all() =~= all);
    list
}

/// Settles a schema of named scopes, given the policy for its frontmatter and
/// what was found before.
pub fn settle_named_schema<'a, 'j>(
    builder: &Builder<'a>,
    locators: &Locators,
    members: &'j Vec<(String, Json)>,
    policy: Option<CapturingPolicy>,
    findings: ScopeFindings<'j>,
) -> (result: Result<NamedLoad, NonEmpty<SchemaError>>)
    requires
        builder.match_case == declared_options(member_specs(members@)).match_case,
    ensures
        named_result(result) == schema_settled(
            builder@,
            locators@,
            member_specs(members@),
            optional_policy(policy),
            findings@,
        ),
{
    let ghost specs = member_specs(members@);
    let ghost expected = schema_settled(
        builder@,
        locators@,
        specs,
        optional_policy(policy),
        findings@,
    );
    let mut findings = findings;
    let shape = build_document_shape(builder, members, &mut findings);
    let ghost found = findings@;
    assert(declared_specs(findings.constraints@) =~= found.constraints);
    match (policy, shape) {
        (Some(policy), Some(shape)) => {
            let schema = NamedSchema {
                options: build_options(members),
                frontmatter: policy,
                document: shape,
            };
            let ghost base = BinderSpec {
                shape: shape@,
                match_case: builder.match_case,
                captures: policy_exports(policy@),
                names: found.names,
                locators: locators@,
                scope: Seq::empty(),
                range: builder@.places.document,
            };
            let constraints = build_all_constraints(
                &schema,
                &findings.names,
                locators,
                builder.places,
                &findings.constraints,
                &mut findings.errors,
                &mut findings.nodes,
                Ghost(base),
            );
            assert(error_specs(findings.errors@).len() == findings.errors@.len());
            match NonEmpty::from_vec(findings.errors) {
                Some(errors) => Err(errors),
                None => {
                    let nodes = NodeRanges::of(&findings.nodes);
                    let load = NamedLoad { schema, constraints, nodes };
                    assert(load@ =~= expected->Ok_0);
                    Ok(load)
                },
            }
        },
        _ => {
            check_all_locators(
                locators,
                builder.places,
                &findings.constraints,
                &mut findings.errors,
            );
            Err(report(findings.errors, builder.places.document))
        },
    }
}

/// What is known of the spellings that a document holds: the named groups of
/// its regular expressions, what its locators say, and which of its queries
/// cannot be used.
pub struct Readings {
    /// The named groups of the regular expressions.
    pub analyses: Analyses,
    /// What spellings of locators say.
    pub locators: Locators,
    /// Which queries are no absolute singular queries, and why.
    pub queries: QueryFaults,
}

/// What loading a document of named scopes yields, given its schema for the
/// frontmatter as far as that was prepared.
pub open spec fn named_load_of(
    places: PlacesSpec,
    readings: Readings,
    members: Members,
    raw: Option<RawFrontmatter>,
    settled: Option<DeclaredSchemaSpec>,
    sources: Seq<SourceSpec>,
) -> Result<NamedLoadSpec, Seq<ErrorSpec>> {
    let places = outline_places(places, members);
    if !has_version(members) {
        Err(reported(named_version_errors(places, members), places.document))
    } else {
        let frontmatter = capturing_build_of(
            places,
            raw,
            member(members, "frontmatter"@) is Some,
            settled,
            sources,
            query_fault_specs(readings.queries@),
        );
        schema_settled(
            BuilderSpec {
                places,
                match_case: declared_options(members).match_case,
                analyses: analysis_specs(readings.analyses@),
            },
            readings.locators@,
            members,
            frontmatter.policy,
            found(frontmatter.errors, frontmatter.nodes),
        )
    }
}

/// Loads a document of named scopes.
pub fn load_named_schema(
    places: Places,
    readings: &Readings,
    members: &Vec<(String, Json)>,
    raw: Option<RawFrontmatter>,
    sources: &SchemaSources,
    prepared: Option<PreparedExternalSchema>,
) -> (result: Result<NamedLoad, NonEmpty<SchemaError>>)
    ensures
        !has_version(member_specs(members@)) ==> named_result(result) == Err::<
            NamedLoadSpec,
            Seq<ErrorSpec>,
        >(
            reported(
                named_version_errors(
                    outline_places(places@, member_specs(members@)),
                    member_specs(members@),
                ),
                places.document,
            ),
        ),
        has_version(member_specs(members@)) ==> exists|settled: Option<DeclaredSchemaSpec>|
         #[trigger]
            declared_can_be(raw_schema(raw), prepared_spec(prepared), settled) && named_result(
                result,
            ) == named_load_of(
                places@,
                *readings,
                member_specs(members@),
                raw,
                settled,
                sources@,
            ),
{
    let ghost specs = member_specs(members@);
    let ghost given = places@;
    let mut places = places;
    places.outline_general = get_member(members, "outline").is_some();
    assert(places@ == outline_places(given, specs));
    let mut findings: ScopeFindings = ScopeFindings::new();
    let supported = classify_version(&places, members, &mut findings.errors);
    assert(error_specs(findings.errors@) =~= named_version_errors(places@, specs));
    if !supported {
        return Err(report(findings.errors, places.document));
    }
    assert(findings@ =~= none_found());
    let policy = build_capturing_frontmatter(
        &places,
        raw,
        get_member(members, "frontmatter").is_some(),
        sources,
        prepared,
        &readings.queries,
        &mut findings.errors,
        &mut findings.nodes,
    );
    let options = build_options(members);
    let builder = Builder {
        places: &places,
        match_case: options.match_case,
        analyses: &readings.analyses,
    };
    proof {
        let settled = choose|settled: Option<DeclaredSchemaSpec>|
            {
                let build = capturing_build_of(
                    places@,
                    raw,
                    member(specs, "frontmatter"@) is Some,
                    settled,
                    sources@,
                    query_fault_specs(readings.queries@),
                );
                &&& #[trigger] declared_can_be(raw_schema(raw), prepared_spec(prepared), settled)
                &&& optional_policy(policy) == build.policy
                &&& error_specs(findings.errors@) == Seq::<ErrorSpec>::empty() + build.errors
                &&& findings.nodes@ == Seq::<(NodeAddress, SourceRange)>::empty() + build.nodes
            };
        let build = capturing_build_of(
            places@,
            raw,
            member(specs, "frontmatter"@) is Some,
            settled,
            sources@,
            query_fault_specs(readings.queries@),
        );
        assert(findings@ =~= found(build.errors, build.nodes));
    }
    settle_named_schema(&builder, &readings.locators, members, policy, findings)
}

/// A document that cannot be loaded has at least one error.
pub proof fn refused_named_schemas_are_explained(
    places: PlacesSpec,
    readings: Readings,
    members: Members,
    raw: Option<RawFrontmatter>,
    settled: Option<DeclaredSchemaSpec>,
    sources: Seq<SourceSpec>,
)
    ensures
        named_load_of(places, readings, members, raw, settled, sources) matches Err(errors)
            ==> errors.len() > 0,
{
}

/// A loaded document has no errors in any of its parts.
pub proof fn loaded_named_schemas_are_sound(
    places: PlacesSpec,
    readings: Readings,
    members: Members,
    raw: Option<RawFrontmatter>,
    settled: Option<DeclaredSchemaSpec>,
    sources: Seq<SourceSpec>,
)
    ensures
        named_load_of(places, readings, members, raw, settled, sources) is Ok ==> {
            let places = outline_places(places, members);
            let builder = BuilderSpec {
                places,
                match_case: declared_options(members).match_case,
                analyses: analysis_specs(readings.analyses@),
            };
            &&& has_version(members)
            &&& capturing_build_of(
                places,
                raw,
                member(members, "frontmatter"@) is Some,
                settled,
                sources,
                query_fault_specs(readings.queries@),
            ).errors.len() == 0
            &&& shape_build(builder, members).findings.errors.len() == 0
        },
{
}

/// Whether every list in a value has no more items than a machine can number.
pub open spec fn is_numbered(value: JsonSpec) -> bool
    decreases value,
{
    match value {
        JsonSpec::Array(items) => items.len() <= usize::MAX && forall|at: int|
            0 <= at < items.len() ==> is_numbered(#[trigger] items[at]),
        JsonSpec::Object(members) => forall|at: int|
            0 <= at < members.len() ==> is_numbered((#[trigger] members[at]).1),
        _ => true,
    }
}

pub(crate) proof fn numbered_members(members: Members, at: int)
    requires
        is_numbered(JsonSpec::Object(members)),
        0 <= at < members.len(),
    ensures
        is_numbered(members[at].1),
{
    let value = JsonSpec::Object(members);
    assert(value->Object_0[at] == members[at]);
}

/// Whether a scope lies at or below `base`, whose rules these are, and exists
/// there.
pub open spec fn exists_below(
    rules: Seq<NamedSpec>,
    base: Seq<RuleIndex>,
    scope: Seq<RuleIndex>,
) -> bool {
    &&& base.len() <= scope.len()
    &&& scope.take(base.len() as int) == base
    &&& rules_at(rules, scope.skip(base.len() as int)) is Some
}

/// Whether all scopes that declare constraints exist.
pub open spec fn scopes_exist(
    rules: Seq<NamedSpec>,
    base: Seq<RuleIndex>,
    declared: Seq<(Seq<RuleIndex>, Seq<JsonSpec>)>,
) -> bool {
    forall|at: int|
        0 <= at < declared.len() ==> exists_below(rules, base, (#[trigger] declared[at]).0)
}

proof fn child_scopes_exist(
    builder: BuilderSpec,
    members: Members,
    scope: Seq<RuleIndex>,
    given: Seq<DeclarationSpec>,
)
    requires
        is_numbered(JsonSpec::Object(members)),
        child_build(builder, members, scope, given).children is Some,
    ensures
        ({
            let build = child_build(builder, members, scope, given);
            scopes_exist(child_rules(build.children->0), scope, build.findings.constraints)
        }),
    decreases members, 1int,
{
    let build = child_build(builder, members, scope, given);
    if let Some(JsonSpec::Array(rules)) = member(members, "sections"@) {
        member_index_bounds(members, "sections"@, 0);
        let at = member_at(members, "sections"@)->0;
        assert(0 <= at < members.len());
        assert(members[at].1 == JsonSpec::Array(rules));
        numbered_members(members, at);
        declared_scopes_exist(builder, members, rules, scope, given);
    }
}

proof fn declared_scopes_exist(
    builder: BuilderSpec,
    members: Members,
    rules: Seq<JsonSpec>,
    scope: Seq<RuleIndex>,
    given: Seq<DeclarationSpec>,
)
    requires
        is_numbered(JsonSpec::Array(rules)),
        scope_of_rules(builder, members, rules, scope, given).scope is Some,
    ensures
        ({
            let build = scope_of_rules(builder, members, rules, scope, given);
            scopes_exist(build.scope->0.rules, scope, build.findings.constraints)
        }),
    decreases rules, rules.len() + 1,
{
    let build = scope_of_rules(builder, members, rules, scope, given);
    let list = named_list_build(
        builder,
        rules,
        scope,
        mode_of(members),
        given,
        rules.len() as int,
    );
    list_scopes_exist(builder, rules, scope, mode_of(members), given, rules.len() as int);
    assert(build.scope->0.rules == list.built);
    let own = constraints_found(scope, members).constraints;
    assert(build.findings.constraints =~= own + list.findings.constraints);
    assert forall|at: int| 0 <= at < build.findings.constraints.len() implies exists_below(
        list.built,
        scope,
        (#[trigger] build.findings.constraints[at]).0,
    ) by {
        if at == 0 {
            assert(scope.take(scope.len() as int) =~= scope);
            assert(scope.skip(scope.len() as int).len() == 0);
        } else {
            assert(build.findings.constraints[at] == list.findings.constraints[at - 1]);
        }
    }
}

proof fn list_scopes_exist(
    builder: BuilderSpec,
    rules: Seq<JsonSpec>,
    scope: Seq<RuleIndex>,
    mode: ScopeMode,
    given: Seq<DeclarationSpec>,
    count: int,
)
    requires
        is_numbered(JsonSpec::Array(rules)),
        0 <= count <= rules.len(),
        named_list_build(builder, rules, scope, mode, given, count).complete,
    ensures
        ({
            let list = named_list_build(builder, rules, scope, mode, given, count);
            &&& list.built.len() == count
            &&& scopes_exist(list.built, scope, list.findings.constraints)
            &&& forall|at: int|
                0 <= at < list.findings.constraints.len() ==> (
                #[trigger] list.findings.constraints[at]).0.len() > scope.len()
        }),
    decreases rules, count,
{
    if count > 0 {
        let list = named_list_build(builder, rules, scope, mode, given, count);
        let before = named_list_build(builder, rules, scope, mode, given, count - 1);
        let value = rules[count - 1];
        let index = (count - 1) as usize;
        let unreachable = mode == ScopeMode::Unordered && before.wildcard;
        let last = named_build(builder, value, scope, index, unreachable);
        list_scopes_exist(builder, rules, scope, mode, given, count - 1);
        assert(is_numbered(rules[count - 1]));
        rule_scopes_exist(builder, value, scope, index, unreachable);
        let built = last.rule->0;
        assert(list.built == before.built.push(built));
        assert(list.findings.constraints =~= before.findings.constraints
            + last.findings.constraints);
        assert forall|at: int| 0 <= at < list.findings.constraints.len() implies exists_below(
            list.built,
            scope,
            (#[trigger] list.findings.constraints[at]).0,
        ) && list.findings.constraints[at].0.len() > scope.len() by {
            let found = list.findings.constraints[at].0;
            let rest = found.skip(scope.len() as int);
            if at < before.findings.constraints.len() {
                assert(found == before.findings.constraints[at].0);
                assert(rest[0].0 < before.built.len());
                assert(list.built[rest[0].0 as int] == before.built[rest[0].0 as int]);
            } else {
                let child = scope.push(RuleIndex(index));
                assert(found == last.findings.constraints[at
                    - before.findings.constraints.len()].0);
                assert(exists_below(child_rules(built.children), child, found));
                assert(found.take(scope.len() as int) =~= child.take(scope.len() as int));
                assert(child.take(scope.len() as int) =~= scope);
                assert(rest[0] == found[scope.len() as int]);
                assert(found[scope.len() as int] == found.take(child.len() as int)[scope.len() as int]);
                assert(rest[0] == RuleIndex(index));
                assert(rest.skip(1) =~= found.skip(child.len() as int));
                assert(list.built[index as int] == built);
            }
        }
    }
}

proof fn rule_scopes_exist(
    builder: BuilderSpec,
    value: JsonSpec,
    scope: Seq<RuleIndex>,
    index: usize,
    unreachable: bool,
)
    requires
        is_numbered(value),
        named_build(builder, value, scope, index, unreachable).rule is Some,
    ensures
        ({
            let build = named_build(builder, value, scope, index, unreachable);
            scopes_exist(
                child_rules(build.rule->0.children),
                scope.push(RuleIndex(index)),
                build.findings.constraints,
            )
        }),
    decreases value, 1int,
{
    if let JsonSpec::Object(members) = value {
        let rule = (scope, RuleIndex(index));
        let given = capture_declarations(
            builder.places,
            rule,
            named_captures(builder, rule, members).captures,
        );
        named_build_is(builder, members, scope, index, unreachable);
        let child = child_build(builder, members, scope.push(RuleIndex(index)), given);
        child_scopes_exist(builder, members, scope.push(RuleIndex(index)), given);
        let build = named_build(builder, value, scope, index, unreachable);
        assert(build.findings.constraints =~= child.findings.constraints);
    }
}

/// In a document whose shape can be built, every id is registered where its
/// rule stands, and every scope that declares constraints exists. So its
/// locators can be bound as the laws of binding say.
pub proof fn built_documents_can_be_bound(builder: BuilderSpec, members: Members)
    requires
        is_numbered(JsonSpec::Object(members)),
    ensures
        ({
            let build = shape_build(builder, members);
            &&& names_fit(build.findings.names)
            &&& build.shape matches Some(shape) ==> forall|at: int|
                0 <= at < build.findings.constraints.len() ==> rules_at(
                    child_rules(shape.root),
                    (#[trigger] build.findings.constraints[at]).0,
                ) is Some
        }),
{
    let build = shape_build(builder, members);
    let root = root_build(builder, members);
    built_scopes_register_their_names(builder, members, Seq::empty(), Seq::empty());
    if let Some(JsonSpec::Array(rules)) = member(members, "outline"@) {
        assert(names_fit(
            scope_of_rules(builder, members, rules, Seq::empty(), Seq::empty()).findings.names,
        ));
    }
    assert(build.findings.names =~= root.findings.names);
    assert(build.findings.constraints =~= root.findings.constraints);
    if build.shape is Some {
        match member(members, "outline"@) {
            Some(JsonSpec::Array(rules)) => {
                member_index_bounds(members, "outline"@, 0);
                let at = member_at(members, "outline"@)->0;
                numbered_members(members, at);
                declared_scopes_exist(builder, members, rules, Seq::empty(), Seq::empty());
            },
            _ => {
                child_scopes_exist(builder, members, Seq::empty(), Seq::empty());
            },
        }
        assert forall|at: int| 0 <= at < build.findings.constraints.len() implies rules_at(
            child_rules(build.shape->0.root),
            (#[trigger] build.findings.constraints[at]).0,
        ) is Some by {
            let found = build.findings.constraints[at].0;
            assert(root.findings.constraints[at].0 == found);
            assert(found.skip(0) =~= found);
        }
    }
}

} // verus!
