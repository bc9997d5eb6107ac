//! Building constraints out of their declarations.

use vstd::prelude::*;

use super::places::{error_at, plain_error, shape_error, shape_error_at};
use super::refs::{
    frontmatter_identity, frontmatter_ref_of, identity_of, parse_frontmatter_ref, parse_rule_ref,
    positions, resolve_ref, rule_ref_of, target_of,
};
use super::shape::{consequence_field, is_list_keyword, spells_list_keyword};
use crate::json::{get_member, item_specs, member, member_specs, Json, JsonSpec};
use crate::load_result::{
    error_specs, ErrorSpec, RuleIndex, SchemaError, SchemaErrorKind, ScopePath, SourceRange,
};
use crate::schema::{
    addressed_rules, proposition_specs, ref_specs, AtLeastTwo, Constraint, ConstraintSpec,
    FrontmatterRef, FrontmatterRefSpec, NonEmpty, Proposition, PropositionSpec, RefSpec, RuleRef,
    RuleSpec, Schema,
};
use crate::text::{has_prefix, join2, join3, same_text, starts_with};

verus! {

/// What a proposition speaks about, however it is spelled.
pub enum ResolvedIdentity {
    /// The rule at these positions.
    Rule(Vec<usize>),
    /// The frontmatter value, and the scalar up to case where case counts not.
    Frontmatter(FrontmatterRef),
}

/// What an identity is.
pub enum IdentitySpec {
    /// See [`ResolvedIdentity::Rule`].
    Rule(Seq<int>),
    /// See [`ResolvedIdentity::Frontmatter`].
    Frontmatter(FrontmatterRefSpec),
}

impl View for ResolvedIdentity {
    type V = IdentitySpec;

    open spec fn view(&self) -> IdentitySpec {
        match *self {
            ResolvedIdentity::Rule(path) => IdentitySpec::Rule(positions(path@)),
            ResolvedIdentity::Frontmatter(reference) => IdentitySpec::Frontmatter(reference@),
        }
    }
}

fn same_positions(left: &Vec<usize>, right: &Vec<usize>) -> (same: bool)
    ensures
        same == (positions(left@) == positions(right@)),
{
    if left.len() != right.len() {
        assert(positions(left@).len() != positions(right@).len());
        return false;
    }
    let mut at: usize = 0;
    while at < left.len()
        invariant
            at <= left@.len() == right@.len(),
            forall|k: int| 0 <= k < at ==> left@[k] == right@[k],
        decreases left.len() - at,
    {
        if left[at] != right[at] {
            assert(positions(left@)[at as int] != positions(right@)[at as int]);
            return false;
        }
        at += 1;
    }
    assert(positions(left@) =~= positions(right@));
    true
}

fn same_reference(left: &FrontmatterRef, right: &FrontmatterRef) -> (same: bool)
    ensures
        same == (left@ == right@),
{
    let ghost ours = left@.path;
    let ghost theirs = right@.path;
    if left.path.rest.len() != right.path.rest.len() {
        assert(ours.len() != theirs.len());
        return false;
    }
    assert(ours[0] == left.path.first.0@);
    assert(theirs[0] == right.path.first.0@);
    if !same_text(left.path.first.0.as_str(), right.path.first.0.as_str()) {
        return false;
    }
    let mut at: usize = 0;
    while at < left.path.rest.len()
        invariant
            at <= left.path.rest@.len() == right.path.rest@.len(),
            ours == left@.path,
            theirs == right@.path,
            ours.len() == theirs.len() == left.path.rest@.len() + 1,
            forall|k: int| 0 <= k <= at ==> #[trigger] ours[k] == theirs[k],
        decreases left.path.rest.len() - at,
    {
        assert(ours[at + 1] == left.path.rest@[at as int].0@);
        assert(theirs[at + 1] == right.path.rest@[at as int].0@);
        if !same_text(left.path.rest[at].0.as_str(), right.path.rest[at].0.as_str()) {
            return false;
        }
        at += 1;
    }
    assert(ours =~= theirs);
    match (&left.equals, &right.equals) {
        (None, None) => true,
        (Some(one), Some(two)) => one.same(two),
        _ => false,
    }
}

impl ResolvedIdentity {
    /// Whether two identities are the same.
    pub fn same(&self, other: &ResolvedIdentity) -> (same: bool)
        ensures
            same == (self@ == other@),
    {
        match (self, other) {
            (ResolvedIdentity::Rule(left), ResolvedIdentity::Rule(right)) => same_positions(
                left,
                right,
            ),
            (
                ResolvedIdentity::Frontmatter(left),
                ResolvedIdentity::Frontmatter(right),
            ) => same_reference(left, right),
            _ => false,
        }
    }
}

/// What identities are.
pub open spec fn identity_specs(identities: Seq<ResolvedIdentity>) -> Seq<IdentitySpec> {
    identities.map_values(|identity: ResolvedIdentity| identity@)
}

/// Adds an identity; whether it is new.
fn add_identity(identities: &mut Vec<ResolvedIdentity>, identity: ResolvedIdentity) -> (new: bool)
    ensures
        new == !identity_specs(old(identities)@).contains(identity@),
        identity_specs(final(identities)@) == identity_specs(old(identities)@).push(identity@),
{
    let ghost specs = identity_specs(identities@);
    let mut new = true;
    let mut at: usize = 0;
    while at < identities.len()
        invariant
            at <= identities@.len(),
            specs == identity_specs(identities@),
            new == !specs.take(at as int).contains(identity@),
            identities@ == old(identities)@,
        decreases identities.len() - at,
    {
        let found = identities[at].same(&identity);
        proof {
            assert(specs[at as int] == identities@[at as int]@);
            let before = specs.take(at as int);
            let after = specs.take(at + 1);
            assert(after =~= before.push(specs[at as int]));
            if before.contains(identity@) {
                let k = choose|k: int| 0 <= k < before.len() && before[k] == identity@;
                assert(after[k] == identity@);
            }
            if found {
                assert(after[at as int] == identity@);
            }
            if after.contains(identity@) && !found {
                let k = choose|k: int| 0 <= k < after.len() && after[k] == identity@;
                assert(before[k] == identity@);
            }
        }
        if found {
            new = false;
        }
        at += 1;
    }
    assert(specs.take(at as int) =~= specs);
    identities.push(identity);
    assert(identity_specs(identities@) =~= specs.push(identity@));
    new
}

/// What reading one proposition yields.
#[verifier::ext_equal]
pub struct PropositionRead {
    /// The proposition and what it speaks about.
    pub found: Option<(PropositionSpec, IdentitySpec)>,
    /// The errors.
    pub errors: Seq<ErrorSpec>,
}

/// What a constraint's propositions are read against.
pub struct RefContext {
    /// The rules that the empty scope addresses.
    pub root: Seq<RuleSpec>,
    /// Whether case counts.
    pub match_case: bool,
    /// The scope that holds the constraint.
    pub scope: Seq<RuleIndex>,
    /// Where the constraint stands.
    pub range: SourceRange,
}

/// The context of the constraints of one scope of a schema.
pub open spec fn context_of(
    schema: Schema,
    scope: Seq<RuleIndex>,
    range: SourceRange,
) -> RefContext {
    RefContext {
        root: addressed_rules(schema@.outline, schema.outline_provenance),
        match_case: schema.options.match_case,
        scope,
        range,
    }
}

/// What reading the proposition that `source` spells yields.
pub open spec fn proposition_read(
    context: RefContext,
    source: Seq<char>,
    ordered: bool,
) -> PropositionRead {
    if starts_with(source, "fm."@) {
        match frontmatter_ref_of(source) {
            None => PropositionRead {
                found: None,
                errors: seq![
                    plain_error(
                        SchemaErrorKind::UnresolvedRef,
                        context.range,
                        "invalid frontmatter ref `"@ + source + "`"@,
                    ),
                ],
            },
            Some(reference) => PropositionRead {
                found: Some(
                    (
                        PropositionSpec::Frontmatter(reference),
                        IdentitySpec::Frontmatter(identity_of(reference, context.match_case)),
                    ),
                ),
                errors: Seq::empty(),
            },
        }
    } else {
        match rule_ref_of(source) {
            None => PropositionRead {
                found: None,
                errors: seq![
                    plain_error(
                        SchemaErrorKind::UnresolvedRef,
                        context.range,
                        "invalid or unresolved ref `"@ + source + "`"@,
                    ),
                ],
            },
            Some(reference) => match target_of(context.root, context.scope, reference) {
                None => PropositionRead {
                    found: None,
                    errors: seq![
                        plain_error(
                            SchemaErrorKind::UnresolvedRef,
                            context.range,
                            "unresolved ref `"@ + source + "`"@,
                        ),
                    ],
                },
                Some(target) => PropositionRead {
                    found: Some(
                        (PropositionSpec::Rule(reference), IdentitySpec::Rule(target.path)),
                    ),
                    errors: (if target.denied {
                        seq![
                            plain_error(
                                SchemaErrorKind::ForbiddenRef,
                                context.range,
                                "ref `"@ + source
                                    + "` passes through or targets an allow: false rule"@,
                            ),
                        ]
                    } else {
                        Seq::empty()
                    }) + (if ordered && target.repeated {
                        seq![
                            plain_error(
                                SchemaErrorKind::OrderedScopeMismatch,
                                context.range,
                                "ordered ref `"@ + source
                                    + "` passes through a repeatable ancestor"@,
                            ),
                        ]
                    } else {
                        Seq::empty()
                    }),
                },
            },
        }
    }
}

/// What reading the proposition that `value` declares yields.
pub open spec fn value_read(
    context: RefContext,
    value: JsonSpec,
    ordered: bool,
) -> PropositionRead {
    match value {
        JsonSpec::Text(source) => proposition_read(context, source, ordered),
        _ => PropositionRead {
            found: None,
            errors: seq![shape_error(context.range, "constraint refs must be strings"@)],
        },
    }
}

/// What a proposition and its identity are.
pub open spec fn found_spec(found: Option<(Proposition, ResolvedIdentity)>) -> Option<
    (PropositionSpec, IdentitySpec),
> {
    match found {
        None => None,
        Some(found) => Some((found.0@, found.1@)),
    }
}

/// Reads a proposition.
pub fn parse_proposition(
    schema: &Schema,
    scope: &ScopePath,
    value: &Json,
    ordered: bool,
    range: SourceRange,
    errors: &mut Vec<SchemaError>,
) -> (found: Option<(Proposition, ResolvedIdentity)>)
    ensures
        ({
            let read = value_read(context_of(*schema, scope@, range), value@, ordered);
            &&& found_spec(found) == read.found
            &&& error_specs(final(errors)@) == error_specs(old(errors)@) + read.errors
        }),
{
    let ghost read = value_read(context_of(*schema, scope@, range), value@, ordered);
    let source = match value.as_str() {
        Some(source) => source,
        None => {
            shape_error_at(errors, range, "constraint refs must be strings".to_owned());
            assert(error_specs(errors@) =~= error_specs(old(errors)@) + read.errors);
            return None;
        },
    };
    if has_prefix(source, "fm.") {
        return match parse_frontmatter_ref(source) {
            Some(reference) => {
                let identity = frontmatter_identity(&reference, schema.options.match_case);
                assert(error_specs(errors@) =~= error_specs(old(errors)@) + read.errors);
                Some(
                    (
                        Proposition::Frontmatter(reference),
                        ResolvedIdentity::Frontmatter(identity),
                    ),
                )
            },
            None => {
                error_at(
                    errors,
                    SchemaErrorKind::UnresolvedRef,
                    range,
                    join3("invalid frontmatter ref `", source, "`"),
                );
                assert(error_specs(errors@) =~= error_specs(old(errors)@) + read.errors);
                None
            },
        };
    }
    let reference = match parse_rule_ref(source) {
        Some(reference) => reference,
        None => {
            error_at(
                errors,
                SchemaErrorKind::UnresolvedRef,
                range,
                join3("invalid or unresolved ref `", source, "`"),
            );
            assert(error_specs(errors@) =~= error_specs(old(errors)@) + read.errors);
            return None;
        },
    };
    let resolved = match resolve_ref(schema, scope, &reference) {
        Some(resolved) => resolved,
        None => {
            error_at(
                errors,
                SchemaErrorKind::UnresolvedRef,
                range,
                join3("unresolved ref `", source, "`"),
            );
            assert(error_specs(errors@) =~= error_specs(old(errors)@) + read.errors);
            return None;
        },
    };
    if resolved.denied {
        error_at(
            errors,
            SchemaErrorKind::ForbiddenRef,
            range,
            join3("ref `", source, "` passes through or targets an allow: false rule"),
        );
    }
    if ordered && resolved.repeated_non_final {
        error_at(
            errors,
            SchemaErrorKind::OrderedScopeMismatch,
            range,
            join3("ordered ref `", source, "` passes through a repeatable ancestor"),
        );
    }
    assert(error_specs(errors@) =~= error_specs(old(errors)@) + read.errors);
    Some((Proposition::Rule(reference), ResolvedIdentity::Rule(resolved.structural_path)))
}

/// What reading a list of propositions yields.
#[verifier::ext_equal]
pub struct ListRead {
    /// The propositions that could be read.
    pub propositions: Seq<PropositionSpec>,
    /// What they speak about, behind what is spoken about already.
    pub identities: Seq<IdentitySpec>,
    /// Whether all could be read.
    pub complete: bool,
    /// The errors.
    pub errors: Seq<ErrorSpec>,
}

/// What reading `values` yields, where `spoken` is spoken about already. A
/// proposition about something spoken about is reported with `duplicate`.
pub open spec fn list_read(
    context: RefContext,
    values: Seq<JsonSpec>,
    spoken: Seq<IdentitySpec>,
    duplicate: Seq<char>,
) -> ListRead
    decreases values.len(),
{
    if values.len() == 0 {
        ListRead {
            propositions: Seq::empty(),
            identities: spoken,
            complete: true,
            errors: Seq::empty(),
        }
    } else {
        let before = list_read(context, values.drop_last(), spoken, duplicate);
        let read = value_read(context, values.last(), false);
        match read.found {
            None => ListRead {
                complete: false,
                errors: before.errors + read.errors,
                ..before
            },
            Some(found) => ListRead {
                propositions: before.propositions.push(found.0),
                identities: before.identities.push(found.1),
                complete: before.complete,
                errors: before.errors + read.errors + if before.identities.contains(found.1) {
                    seq![plain_error(SchemaErrorKind::DuplicateRef, context.range, duplicate)]
                } else {
                    Seq::empty()
                },
            },
        }
    }
}

/// Reads a list of propositions; the propositions, and whether all could be
/// read.
fn parse_propositions(
    schema: &Schema,
    scope: &ScopePath,
    values: &[&Json],
    spoken: Vec<ResolvedIdentity>,
    duplicate: &str,
    range: SourceRange,
    errors: &mut Vec<SchemaError>,
) -> (read: (Vec<Proposition>, bool))
    ensures
        ({
            let expected = list_read(
                context_of(*schema, scope@, range),
                value_specs(values@),
                identity_specs(spoken@),
                duplicate@,
            );
            &&& proposition_specs(read.0@) == expected.propositions
            &&& read.1 == expected.complete
            &&& error_specs(final(errors)@) == error_specs(old(errors)@) + expected.errors
        }),
{
    let ghost specs = value_specs(values@);
    let ghost context = context_of(*schema, scope@, range);
    let ghost start = identity_specs(spoken@);
    let mut identities = spoken;
    let mut propositions: Vec<Proposition> = Vec::new();
    let mut complete = true;
    let mut at: usize = 0;
    assert(proposition_specs(propositions@) =~= Seq::empty());
    assert(error_specs(errors@) =~= error_specs(old(errors)@) + Seq::<ErrorSpec>::empty());
    while at < values.len()
        invariant
            at <= values@.len(),
            specs == value_specs(values@),
            context == context_of(*schema, scope@, range),
            ({
                let expected = list_read(context, specs.take(at as int), start, duplicate@);
                &&& proposition_specs(propositions@) == expected.propositions
                &&& identity_specs(identities@) == expected.identities
                &&& complete == expected.complete
                &&& error_specs(errors@) == error_specs(old(errors)@) + expected.errors
            }),
        decreases values.len() - at,
    {
        proof {
            assert(specs.take(at + 1).drop_last() =~= specs.take(at as int));
            assert(specs.take(at + 1).last() == values@[at as int]@);
        }
        let ghost before = list_read(context, specs.take(at as int), start, duplicate@);
        let ghost after = list_read(context, specs.take(at + 1), start, duplicate@);
        let ghost read = value_read(context, specs[at as int], false);
        match parse_proposition(schema, scope, values[at], false, range, errors) {
            Some((proposition, identity)) => {
                if !add_identity(&mut identities, identity) {
                    error_at(errors, SchemaErrorKind::DuplicateRef, range, duplicate.to_owned());
                }
                let ghost so_far = proposition_specs(propositions@);
                propositions.push(proposition);
                assert(proposition_specs(propositions@) =~= so_far.push(proposition@));
            },
            None => {
                complete = false;
            },
        }
        assert(error_specs(errors@) =~= error_specs(old(errors)@) + after.errors);
        at += 1;
    }
    assert(specs.take(at as int) =~= specs);
    (propositions, complete)
}

/// What reading a constraint yields.
#[verifier::ext_equal]
pub struct ConstraintRead {
    /// The constraint, if it could be read.
    pub constraint: Option<ConstraintSpec>,
    /// The errors.
    pub errors: Seq<ErrorSpec>,
}

/// A constraint that could not be read, for one reason.
pub open spec fn refused(errors: Seq<ErrorSpec>) -> ConstraintRead {
    ConstraintRead { constraint: None, errors }
}

/// The constraint of `keyword` on propositions.
pub open spec fn group_constraint(
    keyword: Seq<char>,
    propositions: Seq<PropositionSpec>,
) -> ConstraintSpec {
    if keyword == "one_of"@ {
        ConstraintSpec::OneOf(propositions)
    } else if keyword == "any_of"@ {
        ConstraintSpec::AnyOf(propositions)
    } else if keyword == "at_most_one"@ {
        ConstraintSpec::AtMostOne(propositions)
    } else {
        ConstraintSpec::AllOrNone(propositions)
    }
}

/// The keywords whose operand is a list of propositions.
pub open spec fn is_group_keyword(keyword: Seq<char>) -> bool {
    ||| keyword == "one_of"@
    ||| keyword == "any_of"@
    ||| keyword == "at_most_one"@
    ||| keyword == "all_or_none"@
}

/// What reading a constraint on a list of propositions yields.
pub open spec fn group_read(
    context: RefContext,
    keyword: Seq<char>,
    operand: JsonSpec,
) -> ConstraintRead {
    match operand {
        JsonSpec::Array(values) => {
            let list = list_read(
                context,
                values,
                Seq::empty(),
                "constraint contains a duplicate ref"@,
            );
            if !list.complete {
                refused(list.errors)
            } else if list.propositions.len() < 2 {
                refused(
                    list.errors.push(
                        shape_error(context.range, keyword + " requires at least two refs"@),
                    ),
                )
            } else {
                ConstraintRead {
                    constraint: Some(group_constraint(keyword, list.propositions)),
                    errors: list.errors,
                }
            }
        },
        _ => refused(
            seq![shape_error(context.range, "constraint operand must be a list of refs"@)],
        ),
    }
}

/// The items of an array, or the one value that is none.
pub open spec fn one_or_more(value: JsonSpec) -> Seq<JsonSpec> {
    match value {
        JsonSpec::Array(items) => items,
        other => seq![other],
    }
}

/// References to values.
pub open spec fn value_specs(values: Seq<&Json>) -> Seq<JsonSpec> {
    values.map_values(|value: &Json| value@)
}

/// References to the items of an array.
pub(crate) fn all_items(items: &Vec<Json>) -> (values: Vec<&Json>)
    ensures
        value_specs(values@) == item_specs(items@),
{
    let mut values: Vec<&Json> = Vec::new();
    let mut at: usize = 0;
    while at < items.len()
        invariant
            at <= items@.len(),
            values@.len() == at,
            forall|k: int| 0 <= k < at ==> *(#[trigger] values@[k]) == items@[k],
        decreases items.len() - at,
    {
        values.push(&items[at]);
        at += 1;
    }
    assert(value_specs(values@) =~= item_specs(items@));
    values
}

/// References to the items of an array, or to the one value that is none.
pub(crate) fn scalar_or_sequence(value: &Json) -> (values: Vec<&Json>)
    ensures
        value_specs(values@) == one_or_more(value@),
{
    match value.as_array() {
        Some(items) => all_items(items),
        None => {
            let values = vec![value];
            assert(value_specs(values@) =~= seq![value@]);
            values
        },
    }
}

fn build_group(
    schema: &Schema,
    scope: &ScopePath,
    keyword: &str,
    operand: &Json,
    range: SourceRange,
    errors: &mut Vec<SchemaError>,
) -> (constraint: Option<Constraint>)
    requires
        is_group_keyword(keyword@),
    ensures
        ({
            let read = group_read(context_of(*schema, scope@, range), keyword@, operand@);
            &&& constraint is Some <==> read.constraint is Some
            &&& constraint matches Some(constraint) ==> read.constraint == Some(constraint@)
            &&& error_specs(final(errors)@) == error_specs(old(errors)@) + read.errors
        }),
{
    let ghost read = group_read(context_of(*schema, scope@, range), keyword@, operand@);
    let items = match operand.as_array() {
        Some(items) => items,
        None => {
            shape_error_at(errors, range, "constraint operand must be a list of refs".to_owned());
            assert(error_specs(errors@) =~= error_specs(old(errors)@) + read.errors);
            return None;
        },
    };
    let values = all_items(items);
    let spoken: Vec<ResolvedIdentity> = Vec::new();
    assert(identity_specs(spoken@) =~= Seq::empty());
    let (propositions, complete) = parse_propositions(
        schema,
        scope,
        values.as_slice(),
        spoken,
        "constraint contains a duplicate ref",
        range,
        errors,
    );
    if !complete {
        return None;
    }
    match AtLeastTwo::from_vec(propositions) {
        None => {
            shape_error_at(errors, range, join2(keyword, " requires at least two refs"));
            assert(error_specs(errors@) =~= error_specs(old(errors)@) + read.errors);
            None
        },
        Some(list) => Some(
            if same_text(keyword, "one_of") {
                Constraint::OneOf(list)
            } else if same_text(keyword, "any_of") {
                Constraint::AnyOf(list)
            } else if same_text(keyword, "at_most_one") {
                Constraint::AtMostOne(list)
            } else {
                Constraint::AllOrNone(list)
            },
        ),
    }
}

/// The name of an implication's keyword.
pub open spec fn implication_keyword(requires_keyword: bool) -> Seq<char> {
    if requires_keyword {
        "requires"@
    } else {
        "conflicts"@
    }
}

/// What is spoken about once a condition has been read.
pub open spec fn spoken_by(condition: PropositionRead) -> Seq<IdentitySpec> {
    match condition.found {
        Some(found) => seq![found.1],
        None => Seq::empty(),
    }
}

/// What reading an implication from its parts yields.
pub open spec fn implication_parts_read(
    context: RefContext,
    condition_value: JsonSpec,
    consequence_value: JsonSpec,
    requires_keyword: bool,
) -> ConstraintRead {
    let field = consequence_field(requires_keyword);
    let condition = value_read(context, condition_value, false);
    let values = one_or_more(consequence_value);
    if values.len() == 0 {
        refused(
            condition.errors.push(
                shape_error(context.range, "`"@ + field + "` must contain at least one ref"@),
            ),
        )
    } else {
        let list = list_read(
            context,
            values,
            spoken_by(condition),
            "duplicate ref in `"@ + field + "`"@,
        );
        ConstraintRead {
            constraint: match condition.found {
                Some(found) => if list.complete {
                    Some(
                        if requires_keyword {
                            ConstraintSpec::Requires(found.0, list.propositions)
                        } else {
                            ConstraintSpec::Conflicts(found.0, list.propositions)
                        },
                    )
                } else {
                    None
                },
                None => None,
            },
            errors: condition.errors + list.errors,
        }
    }
}

/// What reading an implication yields.
pub open spec fn implication_read(
    context: RefContext,
    operand: JsonSpec,
    requires_keyword: bool,
) -> ConstraintRead {
    let field = consequence_field(requires_keyword);
    match operand {
        JsonSpec::Object(members) => if members.len() != 2 {
            refused(
                seq![
                    shape_error(
                        context.range,
                        implication_keyword(requires_keyword) + " requires exactly `if` and `"@
                            + field + "`"@,
                    ),
                ],
            )
        } else {
            match (member(members, "if"@), member(members, field)) {
                (None, _) => refused(
                    seq![
                        shape_error(
                            context.range,
                            "requires/conflicts operand is missing `if`"@,
                        ),
                    ],
                ),
                (_, None) => refused(
                    seq![
                        shape_error(
                            context.range,
                            "requires/conflicts operand is missing `"@ + field + "`"@,
                        ),
                    ],
                ),
                (Some(condition), Some(consequence)) => implication_parts_read(
                    context,
                    condition,
                    consequence,
                    requires_keyword,
                ),
            }
        },
        _ => refused(
            seq![shape_error(context.range, "requires/conflicts operand must be an object"@)],
        ),
    }
}

proof fn complete_lists_lose_nothing(
    context: RefContext,
    values: Seq<JsonSpec>,
    spoken: Seq<IdentitySpec>,
    duplicate: Seq<char>,
)
    ensures
        list_read(context, values, spoken, duplicate).complete ==> list_read(
            context,
            values,
            spoken,
            duplicate,
        ).propositions.len() == values.len(),
    decreases values.len(),
{
    if values.len() > 0 {
        complete_lists_lose_nothing(context, values.drop_last(), spoken, duplicate);
    }
}

fn build_implication_parts(
    schema: &Schema,
    scope: &ScopePath,
    condition_value: &Json,
    consequence_value: &Json,
    requires_keyword: bool,
    range: SourceRange,
    errors: &mut Vec<SchemaError>,
) -> (constraint: Option<Constraint>)
    ensures
        ({
            let read = implication_parts_read(
                context_of(*schema, scope@, range),
                condition_value@,
                consequence_value@,
                requires_keyword,
            );
            &&& constraint is Some <==> read.constraint is Some
            &&& constraint matches Some(constraint) ==> read.constraint == Some(constraint@)
            &&& error_specs(final(errors)@) == error_specs(old(errors)@) + read.errors
        }),
{
    let ghost context = context_of(*schema, scope@, range);
    let ghost read = implication_parts_read(
        context,
        condition_value@,
        consequence_value@,
        requires_keyword,
    );
    let field = if requires_keyword {
        "then"
    } else {
        "then_not"
    };
    let condition = parse_proposition(schema, scope, condition_value, false, range, errors);
    let values = scalar_or_sequence(consequence_value);
    if values.len() == 0 {
        shape_error_at(errors, range, join3("`", field, "` must contain at least one ref"));
        assert(value_specs(values@).len() == 0);
        assert(error_specs(errors@) =~= error_specs(old(errors)@) + read.errors);
        return None;
    }
    assert(value_specs(values@).len() > 0);
    let mut spoken: Vec<ResolvedIdentity> = Vec::new();
    let ghost condition_read = value_read(context, condition_value@, false);
    let condition = match condition {
        Some((proposition, identity)) => {
            spoken.push(identity);
            Some(proposition)
        },
        None => None,
    };
    assert(identity_specs(spoken@) =~= spoken_by(condition_read));
    let duplicate = join3("duplicate ref in `", field, "`");
    let (consequences, complete) = parse_propositions(
        schema,
        scope,
        values.as_slice(),
        spoken,
        duplicate.as_str(),
        range,
        errors,
    );
    proof {
        complete_lists_lose_nothing(
            context,
            value_specs(values@),
            spoken_by(condition_read),
            duplicate@,
        );
        assert(error_specs(errors@) =~= error_specs(old(errors)@) + read.errors);
    }
    if !complete {
        return None;
    }
    let condition = match condition {
        Some(condition) => condition,
        None => {
            return None;
        },
    };
    match NonEmpty::from_vec(consequences) {
        Some(consequences) => Some(
            if requires_keyword {
                Constraint::Requires { condition, consequences }
            } else {
                Constraint::Conflicts { condition, exclusions: consequences }
            },
        ),
        None => None,
    }
}

/// Builds a constraint that is an implication.
pub fn build_implication(
    schema: &Schema,
    scope: &ScopePath,
    operand: &Json,
    requires_keyword: bool,
    range: SourceRange,
    errors: &mut Vec<SchemaError>,
) -> (constraint: Option<Constraint>)
    ensures
        ({
            let read = implication_read(
                context_of(*schema, scope@, range),
                operand@,
                requires_keyword,
            );
            &&& constraint is Some <==> read.constraint is Some
            &&& constraint matches Some(constraint) ==> read.constraint == Some(constraint@)
            &&& error_specs(final(errors)@) == error_specs(old(errors)@) + read.errors
        }),
{
    let ghost read = implication_read(
        context_of(*schema, scope@, range),
        operand@,
        requires_keyword,
    );
    let field = if requires_keyword {
        "then"
    } else {
        "then_not"
    };
    let members = match operand.as_object() {
        Some(members) => members,
        None => {
            shape_error_at(
                errors,
                range,
                "requires/conflicts operand must be an object".to_owned(),
            );
            assert(error_specs(errors@) =~= error_specs(old(errors)@) + read.errors);
            return None;
        },
    };
    if members.len() != 2 {
        let keyword = if requires_keyword {
            "requires"
        } else {
            "conflicts"
        };
        shape_error_at(
            errors,
            range,
            join3(join2(keyword, " requires exactly `if` and `").as_str(), field, "`"),
        );
        assert(error_specs(errors@) =~= error_specs(old(errors)@) + read.errors);
        return None;
    }
    let condition = match get_member(members, "if") {
        Some(condition) => condition,
        None => {
            shape_error_at(
                errors,
                range,
                "requires/conflicts operand is missing `if`".to_owned(),
            );
            assert(error_specs(errors@) =~= error_specs(old(errors)@) + read.errors);
            return None;
        },
    };
    let consequence = match get_member(members, field) {
        Some(consequence) => consequence,
        None => {
            shape_error_at(
                errors,
                range,
                join3("requires/conflicts operand is missing `", field, "`"),
            );
            assert(error_specs(errors@) =~= error_specs(old(errors)@) + read.errors);
            return None;
        },
    };
    build_implication_parts(
        schema,
        scope,
        condition,
        consequence,
        requires_keyword,
        range,
        errors,
    )
}

/// What reading the references of an `ordered` constraint yields.
#[verifier::ext_equal]
pub struct OrderedRead {
    /// The references that name rules.
    pub refs: Seq<RefSpec>,
    /// The rules that they name.
    pub identities: Seq<IdentitySpec>,
    /// The scope of the last rule that stands in the scope of those before it.
    pub parent: Option<Seq<int>>,
    /// Whether all could be read.
    pub complete: bool,
    /// The errors.
    pub errors: Seq<ErrorSpec>,
}

/// What reading one more reference of an `ordered` constraint yields.
pub open spec fn ordered_step(
    context: RefContext,
    before: OrderedRead,
    value: JsonSpec,
) -> OrderedRead {
    let read = value_read(context, value, true);
    let errors = before.errors + read.errors;
    match read.found {
        None => OrderedRead { complete: false, errors, ..before },
        Some(found) => match found {
            (PropositionSpec::Rule(reference), IdentitySpec::Rule(path)) => if path.len() == 0 {
                OrderedRead { errors, ..before }
            } else {
                let mismatch = before.parent is Some && before.parent != Some(path.drop_last());
                OrderedRead {
                    refs: before.refs.push(reference),
                    identities: before.identities.push(found.1),
                    parent: if mismatch {
                        before.parent
                    } else {
                        Some(path.drop_last())
                    },
                    complete: before.complete,
                    errors: errors + (if mismatch {
                        seq![
                            plain_error(
                                SchemaErrorKind::OrderedScopeMismatch,
                                context.range,
                                "all ordered refs must resolve in the same scope"@,
                            ),
                        ]
                    } else {
                        Seq::empty()
                    }) + (if before.identities.contains(found.1) {
                        seq![
                            plain_error(
                                SchemaErrorKind::DuplicateRef,
                                context.range,
                                "duplicate ref in ordered"@,
                            ),
                        ]
                    } else {
                        Seq::empty()
                    }),
                }
            },
            _ => OrderedRead {
                errors: errors.push(
                    plain_error(
                        SchemaErrorKind::OrderedScopeMismatch,
                        context.range,
                        "frontmatter refs cannot be used in ordered"@,
                    ),
                ),
                ..before
            },
        },
    }
}

/// What reading the references of an `ordered` constraint yields.
pub open spec fn ordered_refs_read(context: RefContext, values: Seq<JsonSpec>) -> OrderedRead
    decreases values.len(),
{
    if values.len() == 0 {
        OrderedRead {
            refs: Seq::empty(),
            identities: Seq::empty(),
            parent: None,
            complete: true,
            errors: Seq::empty(),
        }
    } else {
        ordered_step(context, ordered_refs_read(context, values.drop_last()), values.last())
    }
}

/// What reading an `ordered` constraint yields.
pub open spec fn ordered_read(context: RefContext, operand: JsonSpec) -> ConstraintRead {
    match operand {
        JsonSpec::Array(values) => {
            let list = ordered_refs_read(context, values);
            if !list.complete {
                refused(list.errors)
            } else if list.refs.len() < 2 {
                refused(
                    list.errors.push(
                        shape_error(context.range, "ordered requires at least two refs"@),
                    ),
                )
            } else {
                ConstraintRead {
                    constraint: Some(ConstraintSpec::Ordered(list.refs)),
                    errors: list.errors,
                }
            }
        },
        _ => refused(seq![shape_error(context.range, "ordered requires a list of refs"@)]),
    }
}

/// The references of an `ordered` constraint that have been read.
struct OrderedState {
    refs: Vec<RuleRef>,
    identities: Vec<ResolvedIdentity>,
    parent: Option<Vec<usize>>,
    complete: bool,
}

/// What an optional list of positions is.
pub open spec fn parent_spec(parent: Option<Vec<usize>>) -> Option<Seq<int>> {
    match parent {
        None => None,
        Some(path) => Some(positions(path@)),
    }
}

/// Reads one more reference of an `ordered` constraint.
fn read_ordered(
    schema: &Schema,
    scope: &ScopePath,
    value: &Json,
    range: SourceRange,
    state: &mut OrderedState,
    errors: &mut Vec<SchemaError>,
)
    ensures
        ({
            let before = OrderedRead {
                refs: ref_specs(old(state).refs@),
                identities: identity_specs(old(state).identities@),
                parent: parent_spec(old(state).parent),
                complete: old(state).complete,
                errors: error_specs(old(errors)@),
            };
            let after = ordered_step(context_of(*schema, scope@, range), before, value@);
            &&& ref_specs(final(state).refs@) == after.refs
            &&& identity_specs(final(state).identities@) == after.identities
            &&& parent_spec(final(state).parent) == after.parent
            &&& final(state).complete == after.complete
            &&& error_specs(final(errors)@) == after.errors
        }),
{
    let found = parse_proposition(schema, scope, value, true, range, errors);
    let (reference, path) = match found {
        None => {
            state.complete = false;
            return;
        },
        Some((Proposition::Rule(reference), ResolvedIdentity::Rule(path))) => (reference, path),
        _ => {
            error_at(
                errors,
                SchemaErrorKind::OrderedScopeMismatch,
                range,
                "frontmatter refs cannot be used in ordered".to_owned(),
            );
            return;
        },
    };
    let ghost target = positions(path@);
    if path.len() == 0 {
        assert(target.len() == 0);
        return;
    }
    let mut target_parent = path.clone();
    target_parent.pop();
    assert(positions(target_parent@) =~= target.drop_last());
    let mismatch = match &state.parent {
        Some(existing) => !same_positions(existing, &target_parent),
        None => false,
    };
    if mismatch {
        error_at(
            errors,
            SchemaErrorKind::OrderedScopeMismatch,
            range,
            "all ordered refs must resolve in the same scope".to_owned(),
        );
    } else {
        state.parent = Some(target_parent);
    }
    if !add_identity(&mut state.identities, ResolvedIdentity::Rule(path)) {
        error_at(
            errors,
            SchemaErrorKind::DuplicateRef,
            range,
            "duplicate ref in ordered".to_owned(),
        );
    }
    let ghost before = ref_specs(state.refs@);
    state.refs.push(reference);
    proof {
        assert(ref_specs(state.refs@) =~= before.push(reference@));
        let earlier = OrderedRead {
            refs: ref_specs(old(state).refs@),
            identities: identity_specs(old(state).identities@),
            parent: parent_spec(old(state).parent),
            complete: old(state).complete,
            errors: error_specs(old(errors)@),
        };
        assert(error_specs(errors@) =~= ordered_step(
            context_of(*schema, scope@, range),
            earlier,
            value@,
        ).errors);
    }
}

/// Builds an `ordered` constraint.
pub fn build_ordered(
    schema: &Schema,
    scope: &ScopePath,
    operand: &Json,
    range: SourceRange,
    errors: &mut Vec<SchemaError>,
) -> (constraint: Option<Constraint>)
    ensures
        ({
            let read = ordered_read(context_of(*schema, scope@, range), operand@);
            &&& constraint is Some <==> read.constraint is Some
            &&& constraint matches Some(constraint) ==> read.constraint == Some(constraint@)
            &&& error_specs(final(errors)@) == error_specs(old(errors)@) + read.errors
        }),
{
    let ghost context = context_of(*schema, scope@, range);
    let ghost read = ordered_read(context, operand@);
    let values = match operand.as_array() {
        Some(values) => values,
        None => {
            shape_error_at(errors, range, "ordered requires a list of refs".to_owned());
            assert(error_specs(errors@) =~= error_specs(old(errors)@) + read.errors);
            return None;
        },
    };
    let ghost specs = item_specs(values@);
    let mut found: Vec<SchemaError> = Vec::new();
    let mut state = OrderedState {
        refs: Vec::new(),
        identities: Vec::new(),
        parent: None,
        complete: true,
    };
    let mut at: usize = 0;
    assert(ref_specs(state.refs@) =~= Seq::empty());
    assert(identity_specs(state.identities@) =~= Seq::empty());
    assert(error_specs(found@) =~= Seq::empty());
    while at < values.len()
        invariant
            at <= values@.len(),
            specs == item_specs(values@),
            context == context_of(*schema, scope@, range),
            ({
                let expected = ordered_refs_read(context, specs.take(at as int));
                &&& ref_specs(state.refs@) == expected.refs
                &&& identity_specs(state.identities@) == expected.identities
                &&& parent_spec(state.parent) == expected.parent
                &&& state.complete == expected.complete
                &&& error_specs(found@) == expected.errors
            }),
        decreases values.len() - at,
    {
        proof {
            assert(specs.take(at + 1).drop_last() =~= specs.take(at as int));
            assert(specs.take(at + 1).last() == values@[at as int]@);
            assert(ordered_refs_read(context, specs.take(at as int)) =~= OrderedRead {
                refs: ref_specs(state.refs@),
                identities: identity_specs(state.identities@),
                parent: parent_spec(state.parent),
                complete: state.complete,
                errors: error_specs(found@),
            });
        }
        read_ordered(schema, scope, &values[at], range, &mut state, &mut found);
        at += 1;
    }
    assert(specs.take(at as int) =~= specs);
    let refs = if state.complete {
        let refs = AtLeastTwo::from_vec(state.refs);
        if refs.is_none() {
            shape_error_at(&mut found, range, "ordered requires at least two refs".to_owned());
        }
        refs
    } else {
        None
    };
    errors.append(&mut found);
    assert(error_specs(errors@) =~= error_specs(old(errors)@) + read.errors);
    match refs {
        Some(refs) => Some(Constraint::Ordered(refs)),
        None => None,
    }
}

/// What reading the constraint that `value` declares yields.
pub open spec fn constraint_read(context: RefContext, value: JsonSpec) -> ConstraintRead {
    match value {
        JsonSpec::Object(members) => if members.len() != 1 {
            refused(
                seq![shape_error(context.range, "constraint must contain exactly one keyword"@)],
            )
        } else {
            let keyword = members[0].0;
            let operand = members[0].1;
            if is_group_keyword(keyword) {
                group_read(context, keyword, operand)
            } else if keyword == "requires"@ {
                implication_read(context, operand, true)
            } else if keyword == "conflicts"@ {
                implication_read(context, operand, false)
            } else if keyword == "ordered"@ {
                ordered_read(context, operand)
            } else {
                refused(
                    seq![
                        shape_error(
                            context.range,
                            "unknown constraint keyword `"@ + keyword + "`"@,
                        ),
                    ],
                )
            }
        },
        _ => refused(seq![shape_error(context.range, "constraint must be a single-key object"@)]),
    }
}

/// Builds a constraint.
pub fn build_constraint(
    schema: &Schema,
    scope: &ScopePath,
    value: &Json,
    range: SourceRange,
    errors: &mut Vec<SchemaError>,
) -> (constraint: Option<Constraint>)
    ensures
        ({
            let read = constraint_read(context_of(*schema, scope@, range), value@);
            &&& constraint is Some <==> read.constraint is Some
            &&& constraint matches Some(constraint) ==> read.constraint == Some(constraint@)
            &&& error_specs(final(errors)@) == error_specs(old(errors)@) + read.errors
        }),
{
    let ghost read = constraint_read(context_of(*schema, scope@, range), value@);
    let members = match value.as_object() {
        Some(members) => members,
        None => {
            shape_error_at(errors, range, "constraint must be a single-key object".to_owned());
            assert(error_specs(errors@) =~= error_specs(old(errors)@) + read.errors);
            return None;
        },
    };
    if members.len() != 1 {
        shape_error_at(errors, range, "constraint must contain exactly one keyword".to_owned());
        assert(error_specs(errors@) =~= error_specs(old(errors)@) + read.errors);
        return None;
    }
    let keyword = members[0].0.as_str();
    let operand = &members[0].1;
    assert(member_specs(members@)[0] == (keyword@, operand@));
    if same_text(keyword, "one_of") || same_text(keyword, "any_of") || same_text(
        keyword,
        "at_most_one",
    ) || same_text(keyword, "all_or_none") {
        build_group(schema, scope, keyword, operand, range, errors)
    } else if same_text(keyword, "requires") {
        build_implication(schema, scope, operand, true, range, errors)
    } else if same_text(keyword, "conflicts") {
        build_implication(schema, scope, operand, false, range, errors)
    } else if same_text(keyword, "ordered") {
        build_ordered(schema, scope, operand, range, errors)
    } else {
        shape_error_at(errors, range, join3("unknown constraint keyword `", keyword, "`"));
        assert(error_specs(errors@) =~= error_specs(old(errors)@) + read.errors);
        None
    }
}

/// The strings in a list.
pub open spec fn texts_in(values: Seq<JsonSpec>) -> Seq<Seq<char>>
    decreases values.len(),
{
    if values.len() == 0 {
        Seq::empty()
    } else {
        match values.last() {
            JsonSpec::Text(text) => texts_in(values.drop_last()).push(text),
            _ => texts_in(values.drop_last()),
        }
    }
}

/// The references that the operand of an implication holds.
pub open spec fn implication_refs(operand: JsonSpec, requires_keyword: bool) -> Seq<Seq<char>> {
    match operand {
        JsonSpec::Object(members) => (match member(members, "if"@) {
            Some(JsonSpec::Text(condition)) => seq![condition],
            _ => Seq::empty(),
        }) + (match member(members, consequence_field(requires_keyword)) {
            Some(value) => texts_in(one_or_more(value)),
            None => Seq::empty(),
        }),
        _ => Seq::empty(),
    }
}

/// The references that a constraint holds, as they are spelled.
pub open spec fn spelled_refs(value: JsonSpec) -> Seq<Seq<char>> {
    match value {
        JsonSpec::Object(members) => if members.len() == 0 {
            Seq::empty()
        } else {
            let keyword = members[0].0;
            if is_list_keyword(keyword) {
                match members[0].1 {
                    JsonSpec::Array(values) => texts_in(values),
                    _ => Seq::empty(),
                }
            } else if keyword == "requires"@ {
                implication_refs(members[0].1, true)
            } else if keyword == "conflicts"@ {
                implication_refs(members[0].1, false)
            } else {
                Seq::empty()
            }
        },
        _ => Seq::empty(),
    }
}

/// What texts are.
pub open spec fn str_specs(texts: Seq<&str>) -> Seq<Seq<char>> {
    texts.map_values(|text: &str| text@)
}

/// Adds the strings in a list.
fn push_texts<'j>(values: &Vec<&'j Json>, texts: &mut Vec<&'j str>)
    ensures
        str_specs(final(texts)@) == str_specs(old(texts)@) + texts_in(value_specs(values@)),
{
    let ghost specs = value_specs(values@);
    let mut at: usize = 0;
    assert(str_specs(texts@) =~= str_specs(old(texts)@) + texts_in(specs.take(0)));
    while at < values.len()
        invariant
            at <= values@.len(),
            specs == value_specs(values@),
            str_specs(texts@) == str_specs(old(texts)@) + texts_in(specs.take(at as int)),
        decreases values.len() - at,
    {
        proof {
            assert(specs.take(at + 1).drop_last() =~= specs.take(at as int));
            assert(specs.take(at + 1).last() == values@[at as int]@);
        }
        let ghost before = texts@;
        if let Some(text) = values[at].as_str() {
            texts.push(text);
            assert(str_specs(texts@) =~= str_specs(before).push(text@));
        }
        assert(str_specs(texts@) =~= str_specs(old(texts)@) + texts_in(specs.take(at + 1)));
        at += 1;
    }
    assert(specs.take(at as int) =~= specs);
}

fn push_implication_refs<'j>(operand: &'j Json, requires_keyword: bool, texts: &mut Vec<&'j str>)
    ensures
        str_specs(final(texts)@) == str_specs(old(texts)@) + implication_refs(
            operand@,
            requires_keyword,
        ),
{
    let ghost before = str_specs(texts@);
    if let Some(members) = operand.as_object() {
        if let Some(condition) = get_member(members, "if") {
            if let Some(text) = condition.as_str() {
                texts.push(text);
                assert(str_specs(texts@) =~= before.push(text@));
            }
        }
        let field = if requires_keyword {
            "then"
        } else {
            "then_not"
        };
        if let Some(value) = get_member(members, field) {
            push_texts(&scalar_or_sequence(value), texts);
        }
    }
    assert(str_specs(texts@) =~= before + implication_refs(operand@, requires_keyword));
}

/// The references that a constraint holds, as they are spelled.
pub fn constraint_ref_strings(value: &Json) -> (texts: Vec<&str>)
    ensures
        str_specs(texts@) == spelled_refs(value@),
{
    let mut texts: Vec<&str> = Vec::new();
    assert(str_specs(texts@) =~= Seq::empty());
    if let Some(members) = value.as_object() {
        if members.len() > 0 {
            let keyword = members[0].0.as_str();
            let operand = &members[0].1;
            assert(member_specs(members@)[0] == (keyword@, operand@));
            if spells_list_keyword(keyword) {
                if let Some(items) = operand.as_array() {
                    push_texts(&all_items(items), &mut texts);
                }
            } else if same_text(keyword, "requires") {
                push_implication_refs(operand, true, &mut texts);
            } else if same_text(keyword, "conflicts") {
                push_implication_refs(operand, false, &mut texts);
            }
        }
    }
    assert(str_specs(texts@) =~= spelled_refs(value@));
    texts
}

/// Whether `source` spells a reference.
pub open spec fn spells_ref(source: Seq<char>) -> bool {
    if starts_with(source, "fm."@) {
        frontmatter_ref_of(source) is Some
    } else {
        rule_ref_of(source) is Some
    }
}

/// The errors in the spelling of references: those that spell none, and those
/// that are spelled before.
pub open spec fn lexical_ref_errors(refs: Seq<Seq<char>>, range: SourceRange) -> Seq<ErrorSpec>
    decreases refs.len(),
{
    if refs.len() == 0 {
        Seq::empty()
    } else {
        let source = refs.last();
        lexical_ref_errors(refs.drop_last(), range) + (if spells_ref(source) {
            Seq::empty()
        } else {
            seq![
                plain_error(
                    SchemaErrorKind::UnresolvedRef,
                    range,
                    "invalid ref `"@ + source + "`"@,
                ),
            ]
        }) + (if refs.drop_last().contains(source) {
            seq![
                plain_error(
                    SchemaErrorKind::DuplicateRef,
                    range,
                    "duplicate ref `"@ + source + "` in one constraint"@,
                ),
            ]
        } else {
            Seq::empty()
        })
    }
}

fn spelled_before(texts: &Vec<&str>, count: usize) -> (found: bool)
    requires
        count < texts@.len(),
    ensures
        found == str_specs(texts@).take(count as int).contains(texts@[count as int]@),
{
    let ghost before = str_specs(texts@).take(count as int);
    let mut at: usize = 0;
    while at < count
        invariant
            at <= count < texts@.len(),
            before == str_specs(texts@).take(count as int),
            forall|k: int| 0 <= k < at ==> #[trigger] before[k] != texts@[count as int]@,
        decreases count - at,
    {
        if same_text(texts[at], texts[count]) {
            assert(before[at as int] == texts@[count as int]@);
            return true;
        }
        assert(before[at as int] == texts@[at as int]@);
        at += 1;
    }
    false
}

/// Reports the errors in the spelling of a constraint's references.
pub fn validate_lexical_refs(value: &Json, range: SourceRange, errors: &mut Vec<SchemaError>)
    ensures
        error_specs(final(errors)@) == error_specs(old(errors)@) + lexical_ref_errors(
            spelled_refs(value@),
            range,
        ),
{
    let refs = constraint_ref_strings(value);
    let ghost specs = str_specs(refs@);
    let mut at: usize = 0;
    assert(error_specs(errors@) =~= error_specs(old(errors)@) + lexical_ref_errors(
        specs.take(0),
        range,
    ));
    while at < refs.len()
        invariant
            at <= refs@.len(),
            specs == str_specs(refs@),
            error_specs(errors@) == error_specs(old(errors)@) + lexical_ref_errors(
                specs.take(at as int),
                range,
            ),
        decreases refs.len() - at,
    {
        let reference = refs[at];
        proof {
            assert(specs.take(at + 1).drop_last() =~= specs.take(at as int));
            assert(specs.take(at + 1).last() == reference@);
        }
        let valid = if has_prefix(reference, "fm.") {
            parse_frontmatter_ref(reference).is_some()
        } else {
            parse_rule_ref(reference).is_some()
        };
        if !valid {
            error_at(
                errors,
                SchemaErrorKind::UnresolvedRef,
                range,
                join3("invalid ref `", reference, "`"),
            );
        }
        if spelled_before(&refs, at) {
            error_at(
                errors,
                SchemaErrorKind::DuplicateRef,
                range,
                join3("duplicate ref `", reference, "` in one constraint"),
            );
        }
        assert(error_specs(errors@) =~= error_specs(old(errors)@) + lexical_ref_errors(
            specs.take(at + 1),
            range,
        ));
        at += 1;
    }
    assert(specs.take(at as int) =~= specs);
}

/// Propositions that are read without errors are all there, and no two of them
/// speak about the same thing, nor about anything that was spoken about before.
pub proof fn accepted_lists_speak_of_each_thing_once(
    context: RefContext,
    values: Seq<JsonSpec>,
    spoken: Seq<IdentitySpec>,
    duplicate: Seq<char>,
)
    requires
        spoken.no_duplicates(),
    ensures
        ({
            let list = list_read(context, values, spoken, duplicate);
            list.complete && list.errors.len() == 0 ==> {
                &&& list.propositions.len() == values.len()
                &&& list.identities.len() == spoken.len() + values.len()
                &&& list.identities.no_duplicates()
            }
        }),
    decreases values.len(),
{
    if values.len() > 0 {
        accepted_lists_speak_of_each_thing_once(context, values.drop_last(), spoken, duplicate);
    }
}

/// An `ordered` constraint that is accepted without errors orders at least two
/// different rules of one scope.
pub proof fn accepted_orders_are_of_one_scope(context: RefContext, values: Seq<JsonSpec>)
    ensures
        ({
            let read = ordered_read(context, JsonSpec::Array(values));
            let list = ordered_refs_read(context, values);
            read.constraint is Some && read.errors.len() == 0 ==> {
                &&& list.refs.len() >= 2
                &&& list.identities.len() == list.refs.len()
                &&& list.identities.no_duplicates()
                &&& list.parent is Some
                &&& forall|at: int|
                    0 <= at < list.identities.len() ==> stands_below(
                        #[trigger] list.identities[at],
                        list.parent->0,
                    )
            }
        }),
{
    read_orders_share_a_scope(context, values);
}

/// Whether an identity is that of a rule in the scope at `parent`.
pub open spec fn stands_below(identity: IdentitySpec, parent: Seq<int>) -> bool {
    match identity {
        IdentitySpec::Rule(path) => path.len() > 0 && path.drop_last() == parent,
        _ => false,
    }
}

proof fn read_orders_share_a_scope(context: RefContext, values: Seq<JsonSpec>)
    ensures
        ({
            let list = ordered_refs_read(context, values);
            list.errors.len() == 0 ==> {
                &&& list.identities.len() == list.refs.len()
                &&& list.identities.no_duplicates()
                &&& list.refs.len() > 0 ==> list.parent is Some
                &&& forall|at: int|
                    0 <= at < list.identities.len() ==> stands_below(
                        #[trigger] list.identities[at],
                        list.parent->0,
                    )
            }
        }),
    decreases values.len(),
{
    if values.len() > 0 {
        let before = ordered_refs_read(context, values.drop_last());
        let list = ordered_refs_read(context, values);
        read_orders_share_a_scope(context, values.drop_last());
        if list.errors.len() == 0 {
            assert(before.errors.len() == 0);
            assert forall|at: int| 0 <= at < list.identities.len() implies stands_below(
                #[trigger] list.identities[at],
                list.parent->0,
            ) by {
                if at < before.identities.len() {
                    assert(before.identities[at] == list.identities[at]);
                }
            }
        }
    }
}

} // verus!
