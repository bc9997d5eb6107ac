//! Building constraints on named scopes out of their declarations.

use vstd::prelude::*;

use super::binding::{
    bind_operand, key_path, keys_lead_to_their_rules, ordered_at, outline_bound, rules_at,
    scope_is_ordered, value_bound, Binder, BinderSpec,
};
use super::locators::{
    key_specs, parse_of, same_key, BoundOperand, CanonicalStep, KeyStep, Locators, LocatorsSpec,
    OperandSpec, ParsedSpec, ResolvedFrontmatterCapture, ResolvedFrontmatterQuery, ResolvedRuleLocator,
    RuleLocatorSpec,
};
use super::model::{child_is_ordered, ValueType};
use super::names::names_fit;
use crate::case_fold::{folded, simple_fold};
use crate::json::{get_member, item_specs, member, member_specs, Json, JsonSpec};
use crate::load_result::{error_specs, ErrorSpec, SchemaError, SchemaErrorKind, SourceRange};
use crate::loader::constraints::{
    all_items, constraint_ref_strings, implication_keyword, is_group_keyword, one_or_more,
    scalar_or_sequence, spelled_refs, str_specs, value_specs,
};
use crate::loader::places::{error_at, plain_error, shape_error, shape_error_at};
use crate::loader::shape::consequence_field;
use crate::scalar::{FrontmatterScalar, ScalarSpec};
use crate::schema::{scalar_spec, AtLeastTwo, NonEmpty};
use crate::text::{join2, join3, same_text};

verus! {

/// What a constraint on named scopes speaks about.
#[derive(Debug, PartialEq, Eq)]
pub enum NamedProposition {
    /// That headings match a rule.
    Rule(ResolvedRuleLocator),
    /// That a query of the frontmatter holds.
    Query(ResolvedFrontmatterQuery),
    /// That a typed value of the frontmatter is there.
    Capture(ResolvedFrontmatterCapture),
}

/// What a proposition is.
pub enum NamedPropositionSpec {
    /// See [`NamedProposition::Rule`].
    Rule(RuleLocatorSpec),
    /// See [`NamedProposition::Query`].
    Query(Seq<char>, Option<ScalarSpec>),
    /// See [`NamedProposition::Capture`].
    Capture(Seq<char>, ValueType),
}

impl View for NamedProposition {
    type V = NamedPropositionSpec;

    open spec fn view(&self) -> NamedPropositionSpec {
        match *self {
            NamedProposition::Rule(locator) => NamedPropositionSpec::Rule(locator@),
            NamedProposition::Query(query) => NamedPropositionSpec::Query(
                query.query@,
                scalar_spec(query.equals),
            ),
            NamedProposition::Capture(capture) => NamedPropositionSpec::Capture(
                capture.name@,
                capture.value_type,
            ),
        }
    }
}

/// What propositions are.
pub open spec fn named_propositions(propositions: Seq<NamedProposition>) -> Seq<
    NamedPropositionSpec,
> {
    propositions.map_values(|proposition: NamedProposition| proposition@)
}

/// What locators of rules are.
pub open spec fn locator_specs(locators: Seq<ResolvedRuleLocator>) -> Seq<RuleLocatorSpec> {
    locators.map_values(|locator: ResolvedRuleLocator| locator@)
}

/// A constraint on named scopes.
#[derive(Debug, PartialEq, Eq)]
pub enum NamedConstraint {
    /// Exactly one holds.
    OneOf(AtLeastTwo<NamedProposition>),
    /// At least one holds.
    AnyOf(AtLeastTwo<NamedProposition>),
    /// At most one holds.
    AtMostOne(AtLeastTwo<NamedProposition>),
    /// All hold or none does.
    AllOrNone(AtLeastTwo<NamedProposition>),
    /// Where the condition holds, so do the consequences.
    Requires {
        /// The condition.
        condition: NamedProposition,
        /// What must hold then.
        consequences: NonEmpty<NamedProposition>,
    },
    /// Where the condition holds, the exclusions do not.
    Conflicts {
        /// The condition.
        condition: NamedProposition,
        /// What must not hold then.
        exclusions: NonEmpty<NamedProposition>,
    },
    /// The headings of the rules stand in this order.
    Ordered(AtLeastTwo<ResolvedRuleLocator>),
}

/// What a constraint is.
pub enum NamedConstraintSpec {
    /// See [`NamedConstraint::OneOf`].
    OneOf(Seq<NamedPropositionSpec>),
    /// See [`NamedConstraint::AnyOf`].
    AnyOf(Seq<NamedPropositionSpec>),
    /// See [`NamedConstraint::AtMostOne`].
    AtMostOne(Seq<NamedPropositionSpec>),
    /// See [`NamedConstraint::AllOrNone`].
    AllOrNone(Seq<NamedPropositionSpec>),
    /// See [`NamedConstraint::Requires`].
    Requires(NamedPropositionSpec, Seq<NamedPropositionSpec>),
    /// See [`NamedConstraint::Conflicts`].
    Conflicts(NamedPropositionSpec, Seq<NamedPropositionSpec>),
    /// See [`NamedConstraint::Ordered`].
    Ordered(Seq<RuleLocatorSpec>),
}

impl View for NamedConstraint {
    type V = NamedConstraintSpec;

    open spec fn view(&self) -> NamedConstraintSpec {
        match *self {
            NamedConstraint::OneOf(list) => NamedConstraintSpec::OneOf(
                named_propositions(list.all()),
            ),
            NamedConstraint::AnyOf(list) => NamedConstraintSpec::AnyOf(
                named_propositions(list.all()),
            ),
            NamedConstraint::AtMostOne(list) => NamedConstraintSpec::AtMostOne(
                named_propositions(list.all()),
            ),
            NamedConstraint::AllOrNone(list) => NamedConstraintSpec::AllOrNone(
                named_propositions(list.all()),
            ),
            NamedConstraint::Requires { condition, consequences } => {
                NamedConstraintSpec::Requires(condition@, named_propositions(consequences.all()))
            },
            NamedConstraint::Conflicts { condition, exclusions } => {
                NamedConstraintSpec::Conflicts(condition@, named_propositions(exclusions.all()))
            },
            NamedConstraint::Ordered(list) => NamedConstraintSpec::Ordered(
                locator_specs(list.all()),
            ),
        }
    }
}

/// What a proposition speaks about, however it is spelled.
///
/// Queries of the frontmatter are compared as they are written, so that
/// different queries differ even where they find the same. One without an
/// equality differs from one with an empty scalar.
#[derive(Debug, PartialEq, Eq)]
pub enum NamedIdentity {
    /// The rule with this key.
    Rule(Vec<CanonicalStep>),
    /// The typed value of the frontmatter of this name.
    Capture(String),
    /// The query, and what it must equal, up to case where case counts not.
    Query(String, Option<FrontmatterScalar>),
}

/// What an identity is.
pub enum NamedIdentitySpec {
    /// See [`NamedIdentity::Rule`].
    Rule(Seq<KeyStep>),
    /// See [`NamedIdentity::Capture`].
    Capture(Seq<char>),
    /// See [`NamedIdentity::Query`].
    Query(Seq<char>, Option<ScalarSpec>),
}

impl View for NamedIdentity {
    type V = NamedIdentitySpec;

    open spec fn view(&self) -> NamedIdentitySpec {
        match *self {
            NamedIdentity::Rule(key) => NamedIdentitySpec::Rule(key_specs(key@)),
            NamedIdentity::Capture(name) => NamedIdentitySpec::Capture(name@),
            NamedIdentity::Query(query, equals) => NamedIdentitySpec::Query(
                query@,
                scalar_spec(equals),
            ),
        }
    }
}

impl NamedIdentity {
    /// Whether two identities are the same.
    pub fn same(&self, other: &NamedIdentity) -> (same: bool)
        ensures
            same == (self@ == other@),
    {
        match (self, other) {
            (NamedIdentity::Rule(left), NamedIdentity::Rule(right)) => same_key(left, right),
            (NamedIdentity::Capture(left), NamedIdentity::Capture(right)) => same_text(
                left.as_str(),
                right.as_str(),
            ),
            (
                NamedIdentity::Query(left, left_equals),
                NamedIdentity::Query(right, right_equals),
            ) => same_text(left.as_str(), right.as_str()) && match (left_equals, right_equals) {
                (None, None) => true,
                (Some(left), Some(right)) => left.same(right),
                _ => false,
            },
            _ => false,
        }
    }
}

/// A scalar up to case, where case counts not.
pub open spec fn folded_scalar(scalar: Option<ScalarSpec>, match_case: bool) -> Option<ScalarSpec> {
    match scalar {
        Some(ScalarSpec::Text(text)) => if match_case {
            scalar
        } else {
            Some(ScalarSpec::Text(folded(text)))
        },
        other => other,
    }
}

/// What makes two queries of the frontmatter the same.
fn query_identity(query: &ResolvedFrontmatterQuery, match_case: bool) -> (identity: NamedIdentity)
    ensures
        identity@ == NamedIdentitySpec::Query(
            query.query@,
            folded_scalar(scalar_spec(query.equals), match_case),
        ),
{
    let equals = match &query.equals {
        Some(FrontmatterScalar::String(text)) => if match_case {
            Some(FrontmatterScalar::String(text.clone()))
        } else {
            Some(FrontmatterScalar::String(simple_fold(text.as_str())))
        },
        Some(other) => Some(other.copy()),
        None => None,
    };
    NamedIdentity::Query(query.query.clone(), equals)
}

/// What reading a proposition yields.
#[verifier::ext_equal]
pub struct NamedRead {
    /// The proposition and what it speaks about.
    pub found: Option<(NamedPropositionSpec, NamedIdentitySpec)>,
    /// The errors.
    pub errors: Seq<ErrorSpec>,
}

/// A locator that is no proposition.
pub open spec fn no_proposition(binder: BinderSpec, message: Seq<char>) -> NamedRead {
    NamedRead { found: None, errors: seq![shape_error(binder.range, message)] }
}

/// The proposition that a bound operand is. What ends at a capture or a text is
/// a value, and what ends at content is structure: neither is a proposition.
pub open spec fn proposition_of(binder: BinderSpec, operand: OperandSpec) -> NamedRead {
    match operand {
        OperandSpec::Rule(locator, identity, _) => NamedRead {
            found: Some((NamedPropositionSpec::Rule(locator), NamedIdentitySpec::Rule(identity))),
            errors: Seq::empty(),
        },
        OperandSpec::Query(query, equals) => NamedRead {
            found: Some(
                (
                    NamedPropositionSpec::Query(query, equals),
                    NamedIdentitySpec::Query(query, folded_scalar(equals, binder.match_case)),
                ),
            ),
            errors: Seq::empty(),
        },
        OperandSpec::FrontmatterCapture(name, value_type) => NamedRead {
            found: Some(
                (
                    NamedPropositionSpec::Capture(name, value_type),
                    NamedIdentitySpec::Capture(name),
                ),
            ),
            errors: Seq::empty(),
        },
        OperandSpec::Capture(locator, _, _, _) => no_proposition(
            binder,
            "ref `"@ + locator.source
                + "` ends at a declared capture, which is a value and not a proposition"@,
        ),
        OperandSpec::IntrinsicText(locator, _) => no_proposition(
            binder,
            "ref `"@ + locator.source
                + "` ends at the `/text` intrinsic, which is a value and not a proposition"@,
        ),
        OperandSpec::StructuralTerminal => no_proposition(
            binder,
            "structural content and item locators are not propositions"@,
        ),
        OperandSpec::ItemTextTerminal => no_proposition(
            binder,
            "item `/text` is a value and not a proposition"@,
        ),
    }
}

/// What reading the proposition that `value` declares yields.
pub open spec fn named_read(binder: BinderSpec, value: JsonSpec) -> NamedRead {
    let bound = value_bound(binder, value, false);
    match bound.operand {
        None => NamedRead { found: None, errors: bound.errors },
        Some(operand) => {
            let read = proposition_of(binder, operand);
            NamedRead { found: read.found, errors: bound.errors + read.errors }
        },
    }
}

/// What a proposition and its identity are.
pub open spec fn named_found(found: Option<(NamedProposition, NamedIdentity)>) -> Option<
    (NamedPropositionSpec, NamedIdentitySpec),
> {
    match found {
        None => None,
        Some(found) => Some((found.0@, found.1@)),
    }
}

/// Reads a proposition.
pub fn parse_named_proposition<'a>(
    binder: &Binder<'a>,
    value: &Json,
    errors: &mut Vec<SchemaError>,
) -> (found: Option<(NamedProposition, NamedIdentity)>)
    ensures
        ({
            let read = named_read(binder@, value@);
            &&& named_found(found) == read.found
            &&& error_specs(final(errors)@) == error_specs(old(errors)@) + read.errors
        }),
{
    let ghost start = error_specs(errors@);
    let ghost read = named_read(binder@, value@);
    let operand = match bind_operand(binder, value, false, errors) {
        Some(operand) => operand,
        None => {
            return None;
        },
    };
    let message = match operand {
        BoundOperand::Rule { locator, identity, .. } => {
            assert(error_specs(errors@) =~= start + read.errors);
            return Some((NamedProposition::Rule(locator), NamedIdentity::Rule(identity)));
        },
        BoundOperand::Query(query) => {
            assert(error_specs(errors@) =~= start + read.errors);
            let identity = query_identity(&query, binder.schema.options.match_case);
            return Some((NamedProposition::Query(query), identity));
        },
        BoundOperand::FrontmatterCapture(capture) => {
            assert(error_specs(errors@) =~= start + read.errors);
            let identity = NamedIdentity::Capture(capture.name.clone());
            return Some((NamedProposition::Capture(capture), identity));
        },
        BoundOperand::Capture(capture) => join3(
            "ref `",
            capture.source.as_str(),
            "` ends at a declared capture, which is a value and not a proposition",
        ),
        BoundOperand::IntrinsicText(text) => join3(
            "ref `",
            text.source.as_str(),
            "` ends at the `/text` intrinsic, which is a value and not a proposition",
        ),
        BoundOperand::StructuralTerminal => {
            "structural content and item locators are not propositions".to_owned()
        },
        BoundOperand::ItemTextTerminal => {
            "item `/text` is a value and not a proposition".to_owned()
        },
    };
    shape_error_at(errors, binder.range, message);
    assert(error_specs(errors@) =~= start + read.errors);
    None
}

/// What identities are.
pub open spec fn named_identities(identities: Seq<NamedIdentity>) -> Seq<NamedIdentitySpec> {
    identities.map_values(|identity: NamedIdentity| identity@)
}

/// Adds an identity; whether it is new.
fn add_named_identity(identities: &mut Vec<NamedIdentity>, identity: NamedIdentity) -> (new: bool)
    ensures
        new == !named_identities(old(identities)@).contains(identity@),
        named_identities(final(identities)@) == named_identities(old(identities)@).push(
            identity@,
        ),
{
    let ghost specs = named_identities(identities@);
    let mut new = true;
    let mut at: usize = 0;
    while at < identities.len()
        invariant
            at <= identities@.len(),
            specs == named_identities(identities@),
            new <==> forall|k: int| 0 <= k < at ==> #[trigger] specs[k] != identity@,
            identities@ == old(identities)@,
        decreases identities.len() - at,
    {
        assert(specs[at as int] == identities@[at as int]@);
        if identities[at].same(&identity) {
            new = false;
        }
        at += 1;
    }
    proof {
        if specs.contains(identity@) {
            let k = choose|k: int| 0 <= k < specs.len() && specs[k] == identity@;
            assert(specs[k] == identity@);
        }
    }
    identities.push(identity);
    assert(named_identities(identities@) =~= specs.push(identity@));
    new
}

/// What reading a list of propositions yields.
#[verifier::ext_equal]
pub struct NamedListRead {
    /// The propositions that could be read.
    pub propositions: Seq<NamedPropositionSpec>,
    /// What they speak about, behind what is spoken about already.
    pub identities: Seq<NamedIdentitySpec>,
    /// Whether all could be read.
    pub complete: bool,
    /// The errors.
    pub errors: Seq<ErrorSpec>,
}

/// What reading `values` yields, where `spoken` is spoken about already. A
/// proposition about something spoken about is reported with `duplicate`.
pub open spec fn named_list_read(
    binder: BinderSpec,
    values: Seq<JsonSpec>,
    spoken: Seq<NamedIdentitySpec>,
    duplicate: Seq<char>,
) -> NamedListRead
    decreases values.len(),
{
    if values.len() == 0 {
        NamedListRead {
            propositions: Seq::empty(),
            identities: spoken,
            complete: true,
            errors: Seq::empty(),
        }
    } else {
        let before = named_list_read(binder, values.drop_last(), spoken, duplicate);
        let read = named_read(binder, values.last());
        match read.found {
            None => NamedListRead {
                complete: false,
                errors: before.errors + read.errors,
                ..before
            },
            Some(found) => NamedListRead {
                propositions: before.propositions.push(found.0),
                identities: before.identities.push(found.1),
                complete: before.complete,
                errors: before.errors + read.errors + if before.identities.contains(found.1) {
                    seq![plain_error(SchemaErrorKind::DuplicateRef, binder.range, duplicate)]
                } else {
                    Seq::empty()
                },
            },
        }
    }
}

/// Reads a list of propositions; the propositions, and whether all could be
/// read.
fn parse_named_list<'a>(
    binder: &Binder<'a>,
    values: &[&Json],
    spoken: Vec<NamedIdentity>,
    duplicate: &str,
    errors: &mut Vec<SchemaError>,
) -> (read: (Vec<NamedProposition>, bool))
    ensures
        ({
            let expected = named_list_read(
                binder@,
                value_specs(values@),
                named_identities(spoken@),
                duplicate@,
            );
            &&& named_propositions(read.0@) == expected.propositions
            &&& read.1 == expected.complete
            &&& error_specs(final(errors)@) == error_specs(old(errors)@) + expected.errors
        }),
{
    let ghost specs = value_specs(values@);
    let ghost start = named_identities(spoken@);
    let mut identities = spoken;
    let mut propositions: Vec<NamedProposition> = Vec::new();
    let mut complete = true;
    let mut at: usize = 0;
    assert(named_propositions(propositions@) =~= Seq::empty());
    assert(error_specs(errors@) =~= error_specs(old(errors)@) + Seq::<ErrorSpec>::empty());
    while at < values.len()
        invariant
            at <= values@.len(),
            specs == value_specs(values@),
            ({
                let expected = named_list_read(binder@, specs.take(at as int), start, duplicate@);
                &&& named_propositions(propositions@) == expected.propositions
                &&& named_identities(identities@) == expected.identities
                &&& complete == expected.complete
                &&& error_specs(errors@) == error_specs(old(errors)@) + expected.errors
            }),
        decreases values.len() - at,
    {
        proof {
            assert(specs.take(at + 1).drop_last() =~= specs.take(at as int));
            assert(specs.take(at + 1).last() == values@[at as int]@);
        }
        let ghost after = named_list_read(binder@, specs.take(at + 1), start, duplicate@);
        match parse_named_proposition(binder, values[at], errors) {
            Some((proposition, identity)) => {
                if !add_named_identity(&mut identities, identity) {
                    error_at(
                        errors,
                        SchemaErrorKind::DuplicateRef,
                        binder.range,
                        duplicate.to_owned(),
                    );
                }
                let ghost so_far = named_propositions(propositions@);
                propositions.push(proposition);
                assert(named_propositions(propositions@) =~= so_far.push(proposition@));
            },
            None => {
                complete = false;
            },
        }
        assert(error_specs(errors@) =~= error_specs(old(errors)@) + after.errors);
        at += 1;
    }
    assert(specs.take(at as int) =~= specs);
    (propositions, complete)
}

/// What reading a constraint yields.
#[verifier::ext_equal]
pub struct NamedConstraintRead {
    /// The constraint, if it could be read.
    pub constraint: Option<NamedConstraintSpec>,
    /// The errors.
    pub errors: Seq<ErrorSpec>,
}

/// A constraint that could not be read.
pub open spec fn named_refused(errors: Seq<ErrorSpec>) -> NamedConstraintRead {
    NamedConstraintRead { constraint: None, errors }
}

/// The constraint of `keyword` on propositions.
pub open spec fn named_group(
    keyword: Seq<char>,
    propositions: Seq<NamedPropositionSpec>,
) -> NamedConstraintSpec {
    if keyword == "one_of"@ {
        NamedConstraintSpec::OneOf(propositions)
    } else if keyword == "any_of"@ {
        NamedConstraintSpec::AnyOf(propositions)
    } else if keyword == "at_most_one"@ {
        NamedConstraintSpec::AtMostOne(propositions)
    } else {
        NamedConstraintSpec::AllOrNone(propositions)
    }
}

/// What reading a constraint on a list of propositions yields.
pub open spec fn named_group_read(
    binder: BinderSpec,
    keyword: Seq<char>,
    operand: JsonSpec,
) -> NamedConstraintRead {
    match operand {
        JsonSpec::Array(values) => {
            let list = named_list_read(
                binder,
                values,
                Seq::empty(),
                "constraint contains a duplicate ref"@,
            );
            if !list.complete {
                named_refused(list.errors)
            } else if list.propositions.len() < 2 {
                named_refused(
                    list.errors.push(
                        shape_error(binder.range, keyword + " requires at least two refs"@),
                    ),
                )
            } else {
                NamedConstraintRead {
                    constraint: Some(named_group(keyword, list.propositions)),
                    errors: list.errors,
                }
            }
        },
        _ => named_refused(
            seq![shape_error(binder.range, "constraint operand must be a list of refs"@)],
        ),
    }
}

fn build_named_group<'a>(
    binder: &Binder<'a>,
    keyword: &str,
    operand: &Json,
    errors: &mut Vec<SchemaError>,
) -> (constraint: Option<NamedConstraint>)
    requires
        is_group_keyword(keyword@),
    ensures
        ({
            let read = named_group_read(binder@, keyword@, operand@);
            &&& constraint is Some <==> read.constraint is Some
            &&& constraint matches Some(constraint) ==> read.constraint == Some(constraint@)
            &&& error_specs(final(errors)@) == error_specs(old(errors)@) + read.errors
        }),
{
    let ghost read = named_group_read(binder@, keyword@, operand@);
    let items = match operand.as_array() {
        Some(items) => items,
        None => {
            shape_error_at(
                errors,
                binder.range,
                "constraint operand must be a list of refs".to_owned(),
            );
            assert(error_specs(errors@) =~= error_specs(old(errors)@) + read.errors);
            return None;
        },
    };
    let values = all_items(items);
    let spoken: Vec<NamedIdentity> = Vec::new();
    assert(named_identities(spoken@) =~= Seq::empty());
    let (propositions, complete) = parse_named_list(
        binder,
        values.as_slice(),
        spoken,
        "constraint contains a duplicate ref",
        errors,
    );
    if !complete {
        return None;
    }
    match AtLeastTwo::from_vec(propositions) {
        None => {
            shape_error_at(errors, binder.range, join2(keyword, " requires at least two refs"));
            assert(error_specs(errors@) =~= error_specs(old(errors)@) + read.errors);
            None
        },
        Some(list) => Some(
            if same_text(keyword, "one_of") {
                NamedConstraint::OneOf(list)
            } else if same_text(keyword, "any_of") {
                NamedConstraint::AnyOf(list)
            } else if same_text(keyword, "at_most_one") {
                NamedConstraint::AtMostOne(list)
            } else {
                NamedConstraint::AllOrNone(list)
            },
        ),
    }
}

/// What is spoken about once a condition has been read.
pub open spec fn spoken_of(condition: NamedRead) -> Seq<NamedIdentitySpec> {
    match condition.found {
        Some(found) => seq![found.1],
        None => Seq::empty(),
    }
}

/// What reading an implication from its parts yields.
pub open spec fn named_parts_read(
    binder: BinderSpec,
    condition_value: JsonSpec,
    consequence_value: JsonSpec,
    requires_keyword: bool,
) -> NamedConstraintRead {
    let field = consequence_field(requires_keyword);
    let condition = named_read(binder, condition_value);
    let values = one_or_more(consequence_value);
    if values.len() == 0 {
        named_refused(
            condition.errors.push(
                shape_error(binder.range, "`"@ + field + "` must contain at least one ref"@),
            ),
        )
    } else {
        let list = named_list_read(
            binder,
            values,
            spoken_of(condition),
            "duplicate ref in `"@ + field + "`"@,
        );
        NamedConstraintRead {
            constraint: match condition.found {
                Some(found) => if list.complete {
                    Some(
                        if requires_keyword {
                            NamedConstraintSpec::Requires(found.0, list.propositions)
                        } else {
                            NamedConstraintSpec::Conflicts(found.0, list.propositions)
                        },
                    )
                } else {
                    None
                },
                None => None,
            },
            errors: condition.errors + list.errors,
        }
    }
}

/// What reading an implication yields.
pub open spec fn named_implication_read(
    binder: BinderSpec,
    operand: JsonSpec,
    requires_keyword: bool,
) -> NamedConstraintRead {
    let field = consequence_field(requires_keyword);
    match operand {
        JsonSpec::Object(members) => if members.len() != 2 {
            named_refused(
                seq![
                    shape_error(
                        binder.range,
                        implication_keyword(requires_keyword) + " requires exactly `if` and `"@
                            + field + "`"@,
                    ),
                ],
            )
        } else {
            match (member(members, "if"@), member(members, field)) {
                (None, _) => named_refused(
                    seq![
                        shape_error(
                            binder.range,
                            "requires/conflicts operand is missing `if`"@,
                        ),
                    ],
                ),
                (_, None) => named_refused(
                    seq![
                        shape_error(
                            binder.range,
                            "requires/conflicts operand is missing `"@ + field + "`"@,
                        ),
                    ],
                ),
                (Some(condition), Some(consequence)) => named_parts_read(
                    binder,
                    condition,
                    consequence,
                    requires_keyword,
                ),
            }
        },
        _ => named_refused(
            seq![shape_error(binder.range, "requires/conflicts operand must be an object"@)],
        ),
    }
}

proof fn complete_lists_are_whole(
    binder: BinderSpec,
    values: Seq<JsonSpec>,
    spoken: Seq<NamedIdentitySpec>,
    duplicate: Seq<char>,
)
    ensures
        named_list_read(binder, values, spoken, duplicate).complete ==> named_list_read(
            binder,
            values,
            spoken,
            duplicate,
        ).propositions.len() == values.len(),
    decreases values.len(),
{
    if values.len() > 0 {
        complete_lists_are_whole(binder, values.drop_last(), spoken, duplicate);
    }
}

fn build_named_parts<'a>(
    binder: &Binder<'a>,
    condition_value: &Json,
    consequence_value: &Json,
    requires_keyword: bool,
    errors: &mut Vec<SchemaError>,
) -> (constraint: Option<NamedConstraint>)
    ensures
        ({
            let read = named_parts_read(
                binder@,
                condition_value@,
                consequence_value@,
                requires_keyword,
            );
            &&& constraint is Some <==> read.constraint is Some
            &&& constraint matches Some(constraint) ==> read.constraint == Some(constraint@)
            &&& error_specs(final(errors)@) == error_specs(old(errors)@) + read.errors
        }),
{
    let ghost read = named_parts_read(
        binder@,
        condition_value@,
        consequence_value@,
        requires_keyword,
    );
    let field = if requires_keyword {
        "then"
    } else {
        "then_not"
    };
    let condition = parse_named_proposition(binder, condition_value, errors);
    let values = scalar_or_sequence(consequence_value);
    if values.len() == 0 {
        shape_error_at(errors, binder.range, join3("`", field, "` must contain at least one ref"));
        assert(value_specs(values@).len() == 0);
        assert(error_specs(errors@) =~= error_specs(old(errors)@) + read.errors);
        return None;
    }
    assert(value_specs(values@).len() > 0);
    let mut spoken: Vec<NamedIdentity> = Vec::new();
    let ghost condition_read = named_read(binder@, condition_value@);
    let condition = match condition {
        Some((proposition, identity)) => {
            spoken.push(identity);
            Some(proposition)
        },
        None => None,
    };
    assert(named_identities(spoken@) =~= spoken_of(condition_read));
    let duplicate = join3("duplicate ref in `", field, "`");
    let (consequences, complete) = parse_named_list(
        binder,
        values.as_slice(),
        spoken,
        duplicate.as_str(),
        errors,
    );
    proof {
        complete_lists_are_whole(
            binder@,
            value_specs(values@),
            spoken_of(condition_read),
            duplicate@,
        );
        assert(error_specs(errors@) =~= error_specs(old(errors)@) + read.errors);
    }
    if !complete {
        return None;
    }
    let condition = match condition {
        Some(condition) => condition,
        None => {
            return None;
        },
    };
    match NonEmpty::from_vec(consequences) {
        Some(consequences) => Some(
            if requires_keyword {
                NamedConstraint::Requires { condition, consequences }
            } else {
                NamedConstraint::Conflicts { condition, exclusions: consequences }
            },
        ),
        None => None,
    }
}

/// Builds a constraint that is an implication.
pub fn build_named_implication<'a>(
    binder: &Binder<'a>,
    operand: &Json,
    requires_keyword: bool,
    errors: &mut Vec<SchemaError>,
) -> (constraint: Option<NamedConstraint>)
    ensures
        ({
            let read = named_implication_read(binder@, operand@, requires_keyword);
            &&& constraint is Some <==> read.constraint is Some
            &&& constraint matches Some(constraint) ==> read.constraint == Some(constraint@)
            &&& error_specs(final(errors)@) == error_specs(old(errors)@) + read.errors
        }),
{
    let ghost read = named_implication_read(binder@, operand@, requires_keyword);
    let range = binder.range;
    let field = if requires_keyword {
        "then"
    } else {
        "then_not"
    };
    let members = match operand.as_object() {
        Some(members) => members,
        None => {
            shape_error_at(
                errors,
                range,
                "requires/conflicts operand must be an object".to_owned(),
            );
            assert(error_specs(errors@) =~= error_specs(old(errors)@) + read.errors);
            return None;
        },
    };
    if members.len() != 2 {
        let keyword = if requires_keyword {
            "requires"
        } else {
            "conflicts"
        };
        shape_error_at(
            errors,
            range,
            join3(join2(keyword, " requires exactly `if` and `").as_str(), field, "`"),
        );
        assert(error_specs(errors@) =~= error_specs(old(errors)@) + read.errors);
        return None;
    }
    let condition = match get_member(members, "if") {
        Some(condition) => condition,
        None => {
            shape_error_at(
                errors,
                range,
                "requires/conflicts operand is missing `if`".to_owned(),
            );
            assert(error_specs(errors@) =~= error_specs(old(errors)@) + read.errors);
            return None;
        },
    };
    let consequence = match get_member(members, field) {
        Some(consequence) => consequence,
        None => {
            shape_error_at(
                errors,
                range,
                join3("requires/conflicts operand is missing `", field, "`"),
            );
            assert(error_specs(errors@) =~= error_specs(old(errors)@) + read.errors);
            return None;
        },
    };
    build_named_parts(binder, condition, consequence, requires_keyword, errors)
}

/// What reading the locators of an `ordered` constraint yields.
#[verifier::ext_equal]
pub struct NamedOrderedRead {
    /// The locators that are bound to rules.
    pub refs: Seq<RuleLocatorSpec>,
    /// Their identities.
    pub identities: Seq<NamedIdentitySpec>,
    /// The key of the scope of the last of them that shares it with those
    /// before it.
    pub parent: Option<Seq<KeyStep>>,
    /// Whether some do not share it.
    pub mixed: bool,
    /// Whether all could be read.
    pub complete: bool,
    /// The errors.
    pub errors: Seq<ErrorSpec>,
}

/// What reading one more locator of an `ordered` constraint yields. It must be
/// bound to a rule, for nothing else has a place among headings; and it must
/// resolve in one concrete scope with the others, which is everything above
/// the rule itself.
pub open spec fn named_ordered_step(
    binder: BinderSpec,
    before: NamedOrderedRead,
    value: JsonSpec,
) -> NamedOrderedRead {
    let bound = value_bound(binder, value, true);
    let errors = before.errors + bound.errors;
    match bound.operand {
        None => NamedOrderedRead { complete: false, errors, ..before },
        Some(OperandSpec::Rule(locator, identity, scope)) => if scope.len() == 0 {
            NamedOrderedRead { errors, ..before }
        } else {
            let parent = scope.drop_last();
            let mismatch = before.parent is Some && before.parent != Some(parent);
            NamedOrderedRead {
                refs: before.refs.push(locator),
                identities: before.identities.push(NamedIdentitySpec::Rule(identity)),
                parent: if mismatch {
                    before.parent
                } else {
                    Some(parent)
                },
                mixed: before.mixed || mismatch,
                complete: before.complete,
                errors: errors + (if mismatch {
                    seq![
                        plain_error(
                            SchemaErrorKind::OrderedScopeMismatch,
                            binder.range,
                            "all ordered refs must resolve in the same concrete scope"@,
                        ),
                    ]
                } else {
                    Seq::empty()
                }) + (if before.identities.contains(NamedIdentitySpec::Rule(identity)) {
                    seq![
                        plain_error(
                            SchemaErrorKind::DuplicateRef,
                            binder.range,
                            "duplicate ref in ordered"@,
                        ),
                    ]
                } else {
                    Seq::empty()
                }),
            }
        },
        Some(_) => NamedOrderedRead {
            complete: false,
            errors: errors.push(
                plain_error(
                    SchemaErrorKind::OrderedScopeMismatch,
                    binder.range,
                    "ordered ref `"@ + (match value {
                        JsonSpec::Text(source) => source,
                        _ => Seq::empty(),
                    }) + "` does not terminate in a rule id, so it has no header position"@,
                ),
            ),
            ..before
        },
    }
}

/// What reading the locators of an `ordered` constraint yields.
pub open spec fn named_ordered_refs(binder: BinderSpec, values: Seq<JsonSpec>) -> NamedOrderedRead
    decreases values.len(),
{
    if values.len() == 0 {
        NamedOrderedRead {
            refs: Seq::empty(),
            identities: Seq::empty(),
            parent: None,
            mixed: false,
            complete: true,
            errors: Seq::empty(),
        }
    } else {
        named_ordered_step(binder, named_ordered_refs(binder, values.drop_last()), values.last())
    }
}

/// What the locators of an `ordered` constraint come to. A scope whose rule
/// list orders its headings takes no constraint that orders them again.
pub open spec fn named_ordered_settled(
    binder: BinderSpec,
    list: NamedOrderedRead,
) -> NamedConstraintRead {
    if !list.complete {
        named_refused(list.errors)
    } else if !list.mixed && list.parent is Some && ordered_at(
        binder.root(),
        child_is_ordered(binder.shape.root),
        list.parent->0,
    ) {
        named_refused(
            list.errors.push(
                plain_error(
                    SchemaErrorKind::OrderedScopeMismatch,
                    binder.range,
                    "the scope these refs resolve in is already ordered by its rule list; remove this constraint, or set `unordered: true` on that scope"@,
                ),
            ),
        )
    } else if list.refs.len() < 2 {
        named_refused(
            list.errors.push(shape_error(binder.range, "ordered requires at least two refs"@)),
        )
    } else {
        NamedConstraintRead {
            constraint: Some(NamedConstraintSpec::Ordered(list.refs)),
            errors: list.errors,
        }
    }
}

/// What reading an `ordered` constraint yields.
pub open spec fn named_ordered_read(binder: BinderSpec, operand: JsonSpec) -> NamedConstraintRead {
    match operand {
        JsonSpec::Array(values) => named_ordered_settled(
            binder,
            named_ordered_refs(binder, values),
        ),
        _ => named_refused(seq![shape_error(binder.range, "ordered requires a list of refs"@)]),
    }
}

/// The locators of an `ordered` constraint that have been read.
struct OrderedLocators {
    refs: Vec<ResolvedRuleLocator>,
    identities: Vec<NamedIdentity>,
    parent: Option<Vec<CanonicalStep>>,
    mixed: bool,
    complete: bool,
}

spec fn optional_key(key: Option<Vec<CanonicalStep>>) -> Option<Seq<KeyStep>> {
    match key {
        None => None,
        Some(key) => Some(key_specs(key@)),
    }
}

spec fn ordered_locators(state: OrderedLocators, errors: Seq<SchemaError>) -> NamedOrderedRead {
    NamedOrderedRead {
        refs: locator_specs(state.refs@),
        identities: named_identities(state.identities@),
        parent: optional_key(state.parent),
        mixed: state.mixed,
        complete: state.complete,
        errors: error_specs(errors),
    }
}

/// Reads one more locator of an `ordered` constraint.
fn read_named_ordered<'a>(
    binder: &Binder<'a>,
    value: &Json,
    state: &mut OrderedLocators,
    errors: &mut Vec<SchemaError>,
)
    ensures
        ordered_locators(*final(state), final(errors)@) == named_ordered_step(
            binder@,
            ordered_locators(*old(state), old(errors)@),
            value@,
        ),
{
    let ghost before = ordered_locators(*state, errors@);
    let ghost after = named_ordered_step(binder@, before, value@);
    let operand = match bind_operand(binder, value, true, errors) {
        Some(operand) => operand,
        None => {
            state.complete = false;
            assert(ordered_locators(*state, errors@) =~= after);
            return;
        },
    };
    match operand {
        BoundOperand::Rule { locator, identity, scope } => {
            let ghost key = key_specs(scope@);
            let mut parent = scope;
            if parent.pop().is_none() {
                assert(key.len() == 0);
                assert(ordered_locators(*state, errors@) =~= after);
                return;
            }
            assert(key_specs(parent@) =~= key.drop_last());
            let mismatch = match &state.parent {
                Some(existing) => !same_key(existing, &parent),
                None => false,
            };
            if mismatch {
                error_at(
                    errors,
                    SchemaErrorKind::OrderedScopeMismatch,
                    binder.range,
                    "all ordered refs must resolve in the same concrete scope".to_owned(),
                );
                state.mixed = true;
            } else {
                state.parent = Some(parent);
            }
            if !add_named_identity(&mut state.identities, NamedIdentity::Rule(identity)) {
                error_at(
                    errors,
                    SchemaErrorKind::DuplicateRef,
                    binder.range,
                    "duplicate ref in ordered".to_owned(),
                );
            }
            let ghost refs = locator_specs(state.refs@);
            state.refs.push(locator);
            assert(locator_specs(state.refs@) =~= refs.push(locator@));
            assert(error_specs(errors@) =~= after.errors);
            assert(ordered_locators(*state, errors@) =~= after);
        },
        _ => {
            let source = match value.as_str() {
                Some(source) => source,
                None => "",
            };
            proof {
                reveal_strlit("");
                assert(""@ =~= Seq::empty());
            }
            error_at(
                errors,
                SchemaErrorKind::OrderedScopeMismatch,
                binder.range,
                join3(
                    "ordered ref `",
                    source,
                    "` does not terminate in a rule id, so it has no header position",
                ),
            );
            state.complete = false;
            assert(ordered_locators(*state, errors@) =~= after);
        },
    }
}

/// Builds an `ordered` constraint.
pub fn build_named_ordered<'a>(
    binder: &Binder<'a>,
    operand: &Json,
    errors: &mut Vec<SchemaError>,
) -> (constraint: Option<NamedConstraint>)
    ensures
        ({
            let read = named_ordered_read(binder@, operand@);
            &&& constraint is Some <==> read.constraint is Some
            &&& constraint matches Some(constraint) ==> read.constraint == Some(constraint@)
            &&& error_specs(final(errors)@) == error_specs(old(errors)@) + read.errors
        }),
{
    let ghost read = named_ordered_read(binder@, operand@);
    let values = match operand.as_array() {
        Some(values) => values,
        None => {
            shape_error_at(errors, binder.range, "ordered requires a list of refs".to_owned());
            assert(error_specs(errors@) =~= error_specs(old(errors)@) + read.errors);
            return None;
        },
    };
    let ghost specs = item_specs(values@);
    let mut found: Vec<SchemaError> = Vec::new();
    let mut state = OrderedLocators {
        refs: Vec::new(),
        identities: Vec::new(),
        parent: None,
        mixed: false,
        complete: true,
    };
    let mut at: usize = 0;
    assert(ordered_locators(state, found@) =~= named_ordered_refs(binder@, specs.take(0)));
    while at < values.len()
        invariant
            at <= values@.len(),
            specs == item_specs(values@),
            ordered_locators(state, found@) == named_ordered_refs(binder@, specs.take(at as int)),
        decreases values.len() - at,
    {
        proof {
            assert(specs.take(at + 1).drop_last() =~= specs.take(at as int));
            assert(specs.take(at + 1).last() == values@[at as int]@);
        }
        read_named_ordered(binder, &values[at], &mut state, &mut found);
        at += 1;
    }
    assert(specs.take(at as int) =~= specs);
    let refs = if state.complete {
        let already = match &state.parent {
            Some(parent) => !state.mixed && scope_is_ordered(binder.schema, parent),
            None => false,
        };
        if already {
            error_at(
                &mut found,
                SchemaErrorKind::OrderedScopeMismatch,
                binder.range,
                "the scope these refs resolve in is already ordered by its rule list; remove this constraint, or set `unordered: true` on that scope".to_owned(),
            );
            None
        } else {
            let refs = AtLeastTwo::from_vec(state.refs);
            if refs.is_none() {
                shape_error_at(
                    &mut found,
                    binder.range,
                    "ordered requires at least two refs".to_owned(),
                );
            }
            refs
        }
    } else {
        None
    };
    errors.append(&mut found);
    assert(error_specs(errors@) =~= error_specs(old(errors)@) + read.errors);
    match refs {
        Some(refs) => Some(NamedConstraint::Ordered(refs)),
        None => None,
    }
}

/// What reading the constraint that `value` declares yields.
pub open spec fn named_constraint_read(
    binder: BinderSpec,
    value: JsonSpec,
) -> NamedConstraintRead {
    match value {
        JsonSpec::Object(members) => if members.len() != 1 {
            named_refused(
                seq![shape_error(binder.range, "constraint must contain exactly one keyword"@)],
            )
        } else {
            let keyword = members[0].0;
            let operand = members[0].1;
            if is_group_keyword(keyword) {
                named_group_read(binder, keyword, operand)
            } else if keyword == "requires"@ {
                named_implication_read(binder, operand, true)
            } else if keyword == "conflicts"@ {
                named_implication_read(binder, operand, false)
            } else if keyword == "ordered"@ {
                named_ordered_read(binder, operand)
            } else {
                named_refused(
                    seq![
                        shape_error(
                            binder.range,
                            "unknown constraint keyword `"@ + keyword + "`"@,
                        ),
                    ],
                )
            }
        },
        _ => named_refused(
            seq![shape_error(binder.range, "constraint must be a single-key object"@)],
        ),
    }
}

/// Builds a constraint.
pub fn build_named_constraint<'a>(
    binder: &Binder<'a>,
    value: &Json,
    errors: &mut Vec<SchemaError>,
) -> (constraint: Option<NamedConstraint>)
    ensures
        ({
            let read = named_constraint_read(binder@, value@);
            &&& constraint is Some <==> read.constraint is Some
            &&& constraint matches Some(constraint) ==> read.constraint == Some(constraint@)
            &&& error_specs(final(errors)@) == error_specs(old(errors)@) + read.errors
        }),
{
    let ghost read = named_constraint_read(binder@, value@);
    let members = match value.as_object() {
        Some(members) => members,
        None => {
            shape_error_at(
                errors,
                binder.range,
                "constraint must be a single-key object".to_owned(),
            );
            assert(error_specs(errors@) =~= error_specs(old(errors)@) + read.errors);
            return None;
        },
    };
    if members.len() != 1 {
        shape_error_at(
            errors,
            binder.range,
            "constraint must contain exactly one keyword".to_owned(),
        );
        assert(error_specs(errors@) =~= error_specs(old(errors)@) + read.errors);
        return None;
    }
    let keyword = members[0].0.as_str();
    let operand = &members[0].1;
    assert(member_specs(members@)[0] == (keyword@, operand@));
    if same_text(keyword, "one_of") || same_text(keyword, "any_of") || same_text(
        keyword,
        "at_most_one",
    ) || same_text(keyword, "all_or_none") {
        build_named_group(binder, keyword, operand, errors)
    } else if same_text(keyword, "requires") {
        build_named_implication(binder, operand, true, errors)
    } else if same_text(keyword, "conflicts") {
        build_named_implication(binder, operand, false, errors)
    } else if same_text(keyword, "ordered") {
        build_named_ordered(binder, operand, errors)
    } else {
        shape_error_at(errors, binder.range, join3("unknown constraint keyword `", keyword, "`"));
        assert(error_specs(errors@) =~= error_specs(old(errors)@) + read.errors);
        None
    }
}

/// An error for each spelling that is no locator.
pub open spec fn locator_errors(
    locators: LocatorsSpec,
    refs: Seq<Seq<char>>,
    range: SourceRange,
) -> Seq<ErrorSpec>
    decreases refs.len(),
{
    if refs.len() == 0 {
        Seq::empty()
    } else {
        let before = locator_errors(locators, refs.drop_last(), range);
        match parse_of(locators, refs.last()) {
            Ok(_) => before,
            Err(fault) => before.push(
                shape_error(range, "invalid locator `"@ + refs.last() + "`: "@ + fault),
            ),
        }
    }
}

/// Refuses the malformed locators of a constraint when no schema could be
/// built. Without rules nothing binds, so this says nothing of names: neither
/// that one does not resolve, nor that two are the same.
pub fn validate_constraint_lexical_refs(
    locators: &Locators,
    value: &Json,
    range: SourceRange,
    errors: &mut Vec<SchemaError>,
)
    ensures
        error_specs(final(errors)@) == error_specs(old(errors)@) + locator_errors(
            locators@,
            spelled_refs(value@),
            range,
        ),
{
    let refs = constraint_ref_strings(value);
    let ghost specs = str_specs(refs@);
    let mut at: usize = 0;
    assert(error_specs(errors@) =~= error_specs(old(errors)@) + locator_errors(
        locators@,
        specs.take(0),
        range,
    ));
    while at < refs.len()
        invariant
            at <= refs@.len(),
            specs == str_specs(refs@),
            error_specs(errors@) == error_specs(old(errors)@) + locator_errors(
                locators@,
                specs.take(at as int),
                range,
            ),
        decreases refs.len() - at,
    {
        let reference = refs[at];
        proof {
            assert(specs.take(at + 1).drop_last() =~= specs.take(at as int));
            assert(specs.take(at + 1).last() == reference@);
        }
        match locators.parse(reference) {
            Ok(_) => {},
            Err(fault) => {
                shape_error_at(
                    errors,
                    range,
                    join2(join3("invalid locator `", reference, "`: ").as_str(), fault.as_str()),
                );
            },
        }
        assert(error_specs(errors@) =~= error_specs(old(errors)@) + locator_errors(
            locators@,
            specs.take(at + 1),
            range,
        ));
        at += 1;
    }
    assert(specs.take(at as int) =~= specs);
}

/// Whether a locator is bound to a rule in the scope that `parent` leads to.
pub open spec fn stands_in(binder: BinderSpec, value: JsonSpec, parent: Seq<KeyStep>) -> bool {
    match value_bound(binder, value, true).operand {
        Some(OperandSpec::Rule(_, _, key)) => key.len() > 0 && key.drop_last() == parent,
        _ => false,
    }
}

proof fn read_orders_share_a_scope(binder: BinderSpec, values: Seq<JsonSpec>)
    requires
        forall|at: int|
            0 <= at < values.len() ==> !(value_bound(
                binder,
                #[trigger] values[at],
                true,
            ).operand matches Some(OperandSpec::Rule(_, _, key)) && key.len() == 0),
    ensures
        ({
            let list = named_ordered_refs(binder, values);
            list.complete && list.errors.len() == 0 ==> {
                &&& !list.mixed
                &&& list.refs.len() == values.len() == list.identities.len()
                &&& list.identities.no_duplicates()
                &&& values.len() > 0 ==> list.parent is Some
                &&& forall|at: int|
                    0 <= at < values.len() ==> stands_in(
                        binder,
                        #[trigger] values[at],
                        list.parent->0,
                    )
            }
        }),
    decreases values.len(),
{
    if values.len() > 0 {
        let before = named_ordered_refs(binder, values.drop_last());
        let list = named_ordered_refs(binder, values);
        read_orders_share_a_scope(binder, values.drop_last());
        assert(values.last() == values[values.len() - 1]);
        if list.complete && list.errors.len() == 0 {
            assert(before.errors.len() == 0);
            assert forall|at: int| 0 <= at < values.len() implies stands_in(
                binder,
                #[trigger] values[at],
                list.parent->0,
            ) by {
                if at < values.len() - 1 {
                    assert(values.drop_last()[at] == values[at]);
                    assert(stands_in(binder, values.drop_last()[at], before.parent->0));
                }
            }
        }
    }
}

/// An `ordered` constraint that is accepted without errors orders at least two
/// different rules of one scope, and that scope is not ordered already. That a
/// bound rule has a key is what the names of a built schema give.
pub proof fn accepted_orders_are_sound(binder: BinderSpec, values: Seq<JsonSpec>)
    requires
        names_fit(binder.names),
        rules_at(binder.root(), binder.scope) is Some,
    ensures
        ({
            let read = named_ordered_read(binder, JsonSpec::Array(values));
            let list = named_ordered_refs(binder, values);
            read.constraint is Some && read.errors.len() == 0 ==> {
                &&& values.len() >= 2
                &&& list.parent is Some
                &&& forall|at: int|
                    0 <= at < values.len() ==> stands_in(
                        binder,
                        #[trigger] values[at],
                        list.parent->0,
                    )
                &&& list.identities.len() == values.len()
                &&& list.identities.no_duplicates()
                &&& !ordered_at(
                    binder.root(),
                    child_is_ordered(binder.shape.root),
                    list.parent->0,
                )
            }
        }),
{
    assert forall|at: int| 0 <= at < values.len() implies !(value_bound(
        binder,
        #[trigger] values[at],
        true,
    ).operand matches Some(OperandSpec::Rule(_, _, key)) && key.len() == 0) by {
        if let JsonSpec::Text(source) = values[at] {
            if let Ok(ParsedSpec::Outline(locator)) = parse_of(binder.locators, source) {
                keys_lead_to_their_rules(binder, locator, true);
                if let Some(OperandSpec::Rule(_, _, key)) = outline_bound(
                    binder,
                    locator,
                    true,
                ).operand {
                    assert(key_path(key).len() == key.len());
                }
            }
        }
    }
    read_orders_share_a_scope(binder, values);
}

/// Propositions that are read without errors are all there, and no two of them
/// speak about the same thing, nor about anything that was spoken about before.
pub proof fn accepted_lists_speak_of_each_thing_once(
    binder: BinderSpec,
    values: Seq<JsonSpec>,
    spoken: Seq<NamedIdentitySpec>,
    duplicate: Seq<char>,
)
    requires
        spoken.no_duplicates(),
    ensures
        ({
            let list = named_list_read(binder, values, spoken, duplicate);
            list.complete && list.errors.len() == 0 ==> {
                &&& list.propositions.len() == values.len()
                &&& list.identities.len() == spoken.len() + values.len()
                &&& list.identities.no_duplicates()
            }
        }),
    decreases values.len(),
{
    if values.len() > 0 {
        accepted_lists_speak_of_each_thing_once(binder, values.drop_last(), spoken, duplicate);
    }
}

} // verus!
