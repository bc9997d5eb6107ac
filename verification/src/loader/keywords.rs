//! What constraints say, said of their keywords and of the references that
//! they spell.

use vstd::prelude::*;

use super::constraints::{
    constraint_read, group_read, implication_parts_read, implication_read, list_read, one_or_more,
    ordered_read, ordered_refs_read, proposition_read, spoken_by, value_read, IdentitySpec,
    RefContext,
};
use super::refs::{
    dotted, rule_at, rule_ref_of, rule_with_id, rule_with_id_bounds, rules_in, segments,
    target_in, target_of,
};
use super::shape::{consequence_field, Members};
use crate::json::{member, JsonSpec};
use crate::load_result::SchemaErrorKind;
use crate::scalar::scalar_of;
use crate::schema::{
    proposition_specs, ref_specs, AtLeastTwo, Constraint, ConstraintSpec, FrontmatterKey,
    Proposition, PropositionSpec, RefAnchor, RefSpec, RuleId, RuleOutcome, RuleRef, RuleSpec,
    UpperBound,
};
use crate::text::{find_either, find_either_bounds, starts_with};

verus! {

/// A constraint is of the variant of its one keyword: `one_of` asks for exactly
/// one, `any_of` for at least one, `at_most_one` for no more, `all_or_none` for
/// all or none, `requires` and `conflicts` state implications, and `ordered` an
/// order.
pub proof fn constraints_are_of_the_variant_of_their_keyword(
    context: RefContext,
    value: JsonSpec,
    constraint: Constraint,
)
    requires
        constraint_read(context, value).constraint == Some(constraint@),
    ensures
        value matches JsonSpec::Object(members) && members.len() == 1 && {
            let keyword = members[0].0;
            &&& keyword == "one_of"@ <==> constraint is OneOf
            &&& keyword == "any_of"@ <==> constraint is AnyOf
            &&& keyword == "at_most_one"@ <==> constraint is AtMostOne
            &&& keyword == "all_or_none"@ <==> constraint is AllOrNone
            &&& keyword == "requires"@ <==> constraint is Requires
            &&& keyword == "conflicts"@ <==> constraint is Conflicts
            &&& keyword == "ordered"@ <==> constraint is Ordered
        },
{
    keywords_differ();
    let members = value->Object_0;
    let operand = members[0].1;
    let keyword = members[0].0;
    assert(group_read(context, keyword, operand).constraint is Some ==> operand is Array);
}

pub(crate) proof fn keywords_differ()
    ensures
        "one_of"@ != "any_of"@,
        "one_of"@ != "at_most_one"@,
        "one_of"@ != "all_or_none"@,
        "one_of"@ != "requires"@,
        "one_of"@ != "conflicts"@,
        "one_of"@ != "ordered"@,
        "any_of"@ != "at_most_one"@,
        "any_of"@ != "all_or_none"@,
        "any_of"@ != "requires"@,
        "any_of"@ != "conflicts"@,
        "any_of"@ != "ordered"@,
        "at_most_one"@ != "all_or_none"@,
        "at_most_one"@ != "requires"@,
        "at_most_one"@ != "conflicts"@,
        "at_most_one"@ != "ordered"@,
        "all_or_none"@ != "requires"@,
        "all_or_none"@ != "conflicts"@,
        "all_or_none"@ != "ordered"@,
        "requires"@ != "conflicts"@,
        "requires"@ != "ordered"@,
        "conflicts"@ != "ordered"@,
{
    reveal_strlit("one_of");
    reveal_strlit("any_of");
    reveal_strlit("at_most_one");
    reveal_strlit("all_or_none");
    reveal_strlit("requires");
    reveal_strlit("conflicts");
    reveal_strlit("ordered");
    assert("one_of"@.len() == 6 && "any_of"@.len() == 6);
    assert("at_most_one"@.len() == 11 && "all_or_none"@.len() == 11);
    assert("requires"@.len() == 8 && "conflicts"@.len() == 9 && "ordered"@.len() == 7);
    assert("one_of"@[0] == 'o');
    assert("any_of"@[0] == 'a');
    assert("at_most_one"@[1] == 't');
    assert("all_or_none"@[1] == 'l');
}

/// Whether a value spells a proposition: a text that starts with `fm.` spells a
/// frontmatter value by its keys, joined by dots, and behind the first `=` the
/// scalar to compare with; any other text spells a rule by ids, joined by dots,
/// behind `$.` where they start at the root.
pub open spec fn is_spelled(value: JsonSpec, proposition: Proposition) -> bool {
    value matches JsonSpec::Text(source) && match proposition {
        Proposition::Rule(reference) => {
            let ids = dotted(reference.path.all().map_values(|id: RuleId| id.0@));
            &&& !starts_with(source, "fm."@)
            &&& reference.anchor == RefAnchor::SchemaRoot ==> source == "$."@ + ids
            &&& reference.anchor == RefAnchor::CurrentScope ==> source == ids
        },
        Proposition::Frontmatter(reference) => {
            let keys = dotted(reference.path.all().map_values(|key: FrontmatterKey| key.0@));
            let head = "fm."@ + keys;
            &&& starts_with(source, head)
            &&& forall|at: int| 3 <= at < head.len() ==> #[trigger] source[at] != '='
            &&& match reference.equals {
                None => source == head,
                Some(scalar) => {
                    &&& head.len() < source.len()
                    &&& source[head.len() as int] == '='
                    &&& scalar@ == scalar_of(source.skip(head.len() as int + 1))
                },
            }
        },
    }
}

/// Segments are joined by single dots.
pub proof fn segments_are_joined_by_dots(first: Seq<char>, rest: Seq<Seq<char>>)
    ensures
        dotted(seq![first]) == first,
        rest.len() > 0 ==> dotted(seq![first] + rest) == first + "."@ + dotted(rest),
{
    reveal_strlit(".");
    if rest.len() > 0 {
        let all = seq![first] + rest;
        assert(all.skip(1) =~= rest);
        assert(first + seq!['.'] + dotted(rest) =~= first + "."@ + dotted(rest));
    }
}

proof fn segments_join_back(text: Seq<char>)
    ensures
        segments(text).len() > 0,
        dotted(segments(text)) == text,
    decreases text.len(),
{
    let dot = find_either(text, '.', '.', 0);
    find_either_bounds(text, '.', '.', 0);
    if dot < text.len() {
        let rest = segments(text.skip(dot + 1));
        segments_join_back(text.skip(dot + 1));
        let all = seq![text.take(dot)] + rest;
        assert(all.skip(1) =~= rest);
        assert(text.take(dot) + seq!['.'] + text.skip(dot + 1) =~= text);
    }
}

/// A proposition is read from the value that spells it.
pub proof fn propositions_are_read_from_their_spelling(
    context: RefContext,
    value: JsonSpec,
    ordered: bool,
    proposition: Proposition,
)
    requires
        value_read(context, value, ordered).found matches Some(found) && found.0 == proposition@,
    ensures
        is_spelled(value, proposition),
{
    let source = value->Text_0;
    reveal_strlit("fm.");
    reveal_strlit("$.");
    if starts_with(source, "fm."@) {
        let body = source.skip(3);
        let equals = find_either(body, '=', '=', 0);
        find_either_bounds(body, '=', '=', 0);
        segments_join_back(body.take(equals));
        let reference = proposition->Frontmatter_0;
        let keys = dotted(reference.path.all().map_values(|key: FrontmatterKey| key.0@));
        let head = "fm."@ + keys;
        assert(keys == body.take(equals));
        assert(source.take(3) == "fm."@);
        assert(source.take(head.len() as int) =~= head) by {
            assert forall|at: int| 0 <= at < head.len() implies source[at] == head[at] by {
                if at < 3 {
                    assert(source.take(3)[at] == source[at]);
                } else {
                    assert(body[at - 3] == source[at]);
                }
            }
        }
        assert forall|at: int| 3 <= at < head.len() implies #[trigger] source[at] != '=' by {
            assert(body[at - 3] == source[at]);
        }
        if equals < body.len() {
            assert(body[equals] == source[3 + equals]);
            assert(body.skip(equals + 1) =~= source.skip(head.len() as int + 1));
        } else {
            assert(source =~= head);
        }
    } else {
        let rooted = starts_with(source, "$."@);
        let tail = if rooted {
            source.skip(2)
        } else {
            source
        };
        segments_join_back(tail);
        let reference = proposition->Rule_0;
        assert(reference.path.all().map_values(|id: RuleId| id.0@) == segments(tail));
        if rooted {
            assert(source =~= "$."@ + source.skip(2)) by {
                assert(source.take(2) == "$."@);
                assert(source =~= source.take(2) + source.skip(2));
            }
        }
    }
}

proof fn lists_follow_their_values(
    context: RefContext,
    values: Seq<JsonSpec>,
    spoken: Seq<IdentitySpec>,
    duplicate: Seq<char>,
)
    requires
        list_read(context, values, spoken, duplicate).complete,
    ensures
        ({
            let read = list_read(context, values, spoken, duplicate).propositions;
            &&& read.len() == values.len()
            &&& forall|at: int|
                0 <= at < values.len() ==> (value_read(
                    context,
                    #[trigger] values[at],
                    false,
                ).found matches Some(found) && found.0 == read[at])
        }),
    decreases values.len(),
{
    if values.len() > 0 {
        let before = values.drop_last();
        lists_follow_their_values(context, before, spoken, duplicate);
        let read = list_read(context, values, spoken, duplicate).propositions;
        let earlier = list_read(context, before, spoken, duplicate).propositions;
        assert forall|at: int| 0 <= at < values.len() implies (value_read(
            context,
            #[trigger] values[at],
            false,
        ).found matches Some(found) && found.0 == read[at]) by {
            if at < before.len() {
                assert(before[at] == values[at]);
                assert(read[at] == earlier[at]);
            }
        }
    }
}

/// Whether propositions are spelled by values, one by one in the same order.
pub open spec fn are_spelled(values: Seq<JsonSpec>, propositions: Seq<Proposition>) -> bool {
    &&& values.len() == propositions.len()
    &&& forall|at: int|
        0 <= at < values.len() ==> is_spelled(#[trigger] values[at], propositions[at])
}

proof fn propositions_follow(
    context: RefContext,
    values: Seq<JsonSpec>,
    spoken: Seq<IdentitySpec>,
    duplicate: Seq<char>,
    propositions: Seq<Proposition>,
)
    requires
        list_read(context, values, spoken, duplicate).complete,
        list_read(context, values, spoken, duplicate).propositions == proposition_specs(
            propositions,
        ),
    ensures
        are_spelled(values, propositions),
{
    lists_follow_their_values(context, values, spoken, duplicate);
    assert(proposition_specs(propositions).len() == propositions.len());
    assert forall|at: int| 0 <= at < values.len() implies is_spelled(
        #[trigger] values[at],
        propositions[at],
    ) by {
        assert(proposition_specs(propositions)[at] == propositions[at]@);
        propositions_are_read_from_their_spelling(context, values[at], false, propositions[at]);
    }
}

/// Whether a value declares a constraint: an object of the one keyword of the
/// constraint, whose operand spells what the constraint speaks about. That is
/// a list of references for a group and for an order; for an implication the
/// condition under `if`, and one or more consequences under `then`, where they
/// must hold, or under `then_not`, where they must not.
pub open spec fn declares_constraint(value: JsonSpec, constraint: Constraint) -> bool {
    value matches JsonSpec::Object(members) && members.len() == 1 && {
        let keyword = members[0].0;
        let operand = members[0].1;
        match constraint {
            Constraint::OneOf(list) => keyword == "one_of"@ && is_list_of(operand, list.all()),
            Constraint::AnyOf(list) => keyword == "any_of"@ && is_list_of(operand, list.all()),
            Constraint::AtMostOne(list) => keyword == "at_most_one"@ && is_list_of(
                operand,
                list.all(),
            ),
            Constraint::AllOrNone(list) => keyword == "all_or_none"@ && is_list_of(
                operand,
                list.all(),
            ),
            Constraint::Requires { condition, consequences } => keyword == "requires"@
                && is_implication_of(operand, "then"@, condition, consequences.all()),
            Constraint::Conflicts { condition, exclusions } => keyword == "conflicts"@
                && is_implication_of(operand, "then_not"@, condition, exclusions.all()),
            Constraint::Ordered(list) => keyword == "ordered"@ && is_list_of(
                operand,
                list.all().map_values(|reference: RuleRef| Proposition::Rule(reference)),
            ),
        }
    }
}

/// Whether an operand is a list that spells propositions, one by one.
pub open spec fn is_list_of(operand: JsonSpec, propositions: Seq<Proposition>) -> bool {
    operand matches JsonSpec::Array(values) && are_spelled(values, propositions)
}

/// Whether an operand spells a condition under `if`, and under `field` what
/// follows from it.
pub open spec fn is_implication_of(
    operand: JsonSpec,
    field: Seq<char>,
    condition: Proposition,
    propositions: Seq<Proposition>,
) -> bool {
    operand matches JsonSpec::Object(parts) && {
        &&& member(parts, "if"@) is Some
        &&& member(parts, field) is Some
        &&& is_spelled(member(parts, "if"@)->0, condition)
        &&& are_spelled(listed(member(parts, field)->0), propositions)
    }
}

/// A constraint that is read without errors is the one that its value declares.
pub proof fn constraints_are_read_as_they_are_declared(
    context: RefContext,
    value: JsonSpec,
    constraint: Constraint,
)
    requires
        constraint_read(context, value).constraint == Some(constraint@),
        constraint_read(context, value).errors.len() == 0,
    ensures
        declares_constraint(value, constraint),
{
    constraints_are_of_the_variant_of_their_keyword(context, value, constraint);
    keywords_differ();
    let members = value->Object_0;
    let operand = members[0].1;
    let keyword = members[0].0;
    match constraint {
        Constraint::OneOf(list) => {
            groups_follow(context, keyword, operand, list.all());
        },
        Constraint::AnyOf(list) => {
            groups_follow(context, keyword, operand, list.all());
        },
        Constraint::AtMostOne(list) => {
            groups_follow(context, keyword, operand, list.all());
        },
        Constraint::AllOrNone(list) => {
            groups_follow(context, keyword, operand, list.all());
        },
        Constraint::Requires { condition, consequences } => {
            implications_follow(context, operand, true, condition, consequences.all());
        },
        Constraint::Conflicts { condition, exclusions } => {
            implications_follow(context, operand, false, condition, exclusions.all());
        },
        Constraint::Ordered(list) => {
            let values = operand->Array_0;
            let propositions = list.all().map_values(
                |reference: RuleRef| Proposition::Rule(reference),
            );
            orders_name_rules_in_the_order_of_their_operand(context, values, list);
            assert forall|at: int| 0 <= at < values.len() implies is_spelled(
                #[trigger] values[at],
                propositions[at],
            ) by {
                assert(propositions[at] == Proposition::Rule(list.all()[at]));
            }
        },
    }
}

proof fn missing_propositions_have_errors(context: RefContext, value: JsonSpec, ordered: bool)
    ensures
        value_read(context, value, ordered).found is None ==> value_read(
            context,
            value,
            ordered,
        ).errors.len() > 0,
{
}

proof fn incomplete_lists_have_errors(
    context: RefContext,
    values: Seq<JsonSpec>,
    spoken: Seq<IdentitySpec>,
    duplicate: Seq<char>,
)
    ensures
        !list_read(context, values, spoken, duplicate).complete ==> list_read(
            context,
            values,
            spoken,
            duplicate,
        ).errors.len() > 0,
    decreases values.len(),
{
    if values.len() > 0 {
        incomplete_lists_have_errors(context, values.drop_last(), spoken, duplicate);
        missing_propositions_have_errors(context, values.last(), false);
    }
}

proof fn incomplete_orders_have_errors(context: RefContext, values: Seq<JsonSpec>)
    ensures
        !ordered_refs_read(context, values).complete ==> ordered_refs_read(
            context,
            values,
        ).errors.len() > 0,
    decreases values.len(),
{
    if values.len() > 0 {
        incomplete_orders_have_errors(context, values.drop_last());
        missing_propositions_have_errors(context, values.last(), true);
    }
}

/// A constraint that is not read is reported.
pub proof fn refused_constraints_are_reported(context: RefContext, value: JsonSpec)
    ensures
        constraint_read(context, value).constraint is None ==> constraint_read(
            context,
            value,
        ).errors.len() > 0,
{
    if let JsonSpec::Object(members) = value {
        if members.len() == 1 {
            let operand = members[0].1;
            if let JsonSpec::Array(values) = operand {
                incomplete_lists_have_errors(
                    context,
                    values,
                    Seq::empty(),
                    "constraint contains a duplicate ref"@,
                );
                incomplete_orders_have_errors(context, values);
            }
            if let JsonSpec::Object(parts) = operand {
                refused_implications_have_errors(context, parts, true);
                refused_implications_have_errors(context, parts, false);
            }
        }
    }
}

proof fn refused_implications_have_errors(context: RefContext, parts: Members, positive: bool)
    ensures
        implication_read(context, JsonSpec::Object(parts), positive).constraint is None
            ==> implication_read(context, JsonSpec::Object(parts), positive).errors.len() > 0,
{
    let field = consequence_field(positive);
    if member(parts, "if"@) is Some && member(parts, field) is Some {
        let premise = member(parts, "if"@)->0;
        let consequence = member(parts, field)->0;
        let condition = value_read(context, premise, false);
        missing_propositions_have_errors(context, premise, false);
        incomplete_lists_have_errors(
            context,
            one_or_more(consequence),
            spoken_by(condition),
            "duplicate ref in `"@ + field + "`"@,
        );
    }
}

/// The values of a list, or the one value that is none.
pub open spec fn listed(value: JsonSpec) -> Seq<JsonSpec> {
    if value is Array {
        value->Array_0
    } else {
        seq![value]
    }
}

proof fn groups_follow(
    context: RefContext,
    keyword: Seq<char>,
    operand: JsonSpec,
    propositions: Seq<Proposition>,
)
    requires
        group_read(context, keyword, operand).constraint matches Some(read) && ({
            ||| read == ConstraintSpec::OneOf(proposition_specs(propositions))
            ||| read == ConstraintSpec::AnyOf(proposition_specs(propositions))
            ||| read == ConstraintSpec::AtMostOne(proposition_specs(propositions))
            ||| read == ConstraintSpec::AllOrNone(proposition_specs(propositions))
        }),
    ensures
        operand matches JsonSpec::Array(values) && are_spelled(values, propositions),
{
    propositions_follow(
        context,
        operand->Array_0,
        Seq::empty(),
        "constraint contains a duplicate ref"@,
        propositions,
    );
}

proof fn implications_follow(
    context: RefContext,
    operand: JsonSpec,
    positive: bool,
    condition: Proposition,
    propositions: Seq<Proposition>,
)
    requires
        implication_read(context, operand, positive).constraint == Some(
            if positive {
                ConstraintSpec::Requires(condition@, proposition_specs(propositions))
            } else {
                ConstraintSpec::Conflicts(condition@, proposition_specs(propositions))
            },
        ),
    ensures
        operand matches JsonSpec::Object(parts) && {
            let field = if positive {
                "then"@
            } else {
                "then_not"@
            };
            &&& member(parts, "if"@) is Some
            &&& member(parts, field) is Some
            &&& is_spelled(member(parts, "if"@)->0, condition)
            &&& are_spelled(listed(member(parts, field)->0), propositions)
        },
{
    let parts = operand->Object_0;
    let field = if positive {
        "then"@
    } else {
        "then_not"@
    };
    let premise = member(parts, "if"@)->0;
    let consequence = member(parts, field)->0;
    let read = implication_parts_read(context, premise, consequence, positive);
    assert(implication_read(context, operand, positive) == read);
    propositions_are_read_from_their_spelling(context, premise, false, condition);
    let spoken = seq![(value_read(context, premise, false).found->0).1];
    assert(one_or_more(consequence) == listed(consequence));
    propositions_follow(
        context,
        listed(consequence),
        spoken,
        "duplicate ref in `"@ + field + "`"@,
        propositions,
    );
}

proof fn orders_follow(context: RefContext, values: Seq<JsonSpec>)
    requires
        ordered_refs_read(context, values).errors.len() == 0,
    ensures
        ({
            let read = ordered_refs_read(context, values);
            &&& read.complete ==> read.refs.len() == values.len()
            &&& read.complete ==> forall|at: int|
                0 <= at < values.len() ==> (value_read(
                    context,
                    #[trigger] values[at],
                    true,
                ).found matches Some(found) && found.0 == PropositionSpec::Rule(read.refs[at]))
        }),
    decreases values.len(),
{
    if values.len() > 0 {
        let before = values.drop_last();
        let earlier = ordered_refs_read(context, before);
        let read = ordered_refs_read(context, values);
        assert(earlier.errors.len() == 0);
        orders_follow(context, before);
        if read.complete {
            rules_have_positions(context, values.last());
            assert forall|at: int| 0 <= at < values.len() implies (value_read(
                context,
                #[trigger] values[at],
                true,
            ).found matches Some(found) && found.0 == PropositionSpec::Rule(read.refs[at])) by {
                if at < before.len() {
                    assert(before[at] == values[at]);
                }
            }
        }
    }
}

proof fn rules_have_positions(context: RefContext, value: JsonSpec)
    ensures
        value_read(context, value, true).found matches Some(
            (PropositionSpec::Rule(_), IdentitySpec::Rule(path)),
        ) ==> path.len() > 0,
{
    if let JsonSpec::Text(source) = value {
        if let Some(reference) = rule_ref_of(source) {
            let tail = if starts_with(source, "$."@) {
                source.skip(2)
            } else {
                source
            };
            segments_join_back(tail);
            if reference.anchor == RefAnchor::SchemaRoot {
                targets_are_as_long(context.root, reference.path);
            } else if let Some(rules) = rules_in(context.root, context.scope) {
                targets_are_as_long(rules, reference.path);
            }
        }
    }
}

proof fn targets_are_as_long(rules: Seq<RuleSpec>, ids: Seq<Seq<char>>)
    ensures
        target_in(rules, ids) matches Some(target) ==> target.path.len() == ids.len(),
    decreases ids.len(),
{
    if ids.len() > 0 {
        rule_with_id_bounds(rules, ids[0], 0);
        if let Some(at) = rule_with_id(rules, ids[0], 0) {
            targets_are_as_long(rules[at].sections, ids.skip(1));
        }
    }
}

/// An order that is read without errors names the rules that its operand
/// spells, in the order of the operand.
pub proof fn orders_name_rules_in_the_order_of_their_operand(
    context: RefContext,
    values: Seq<JsonSpec>,
    list: AtLeastTwo<RuleRef>,
)
    requires
        ordered_read(context, JsonSpec::Array(values)).errors.len() == 0,
        ordered_read(context, JsonSpec::Array(values)).constraint == Some(
            Constraint::Ordered(list)@,
        ),
    ensures
        list.all().len() == values.len(),
        forall|at: int|
            0 <= at < values.len() ==> is_spelled(
                #[trigger] values[at],
                Proposition::Rule(list.all()[at]),
            ),
{
    orders_follow(context, values);
    let read = ordered_refs_read(context, values);
    assert(ref_specs(list.all()) == read.refs);
    assert forall|at: int| 0 <= at < values.len() implies is_spelled(
        #[trigger] values[at],
        Proposition::Rule(list.all()[at]),
    ) by {
        assert(ref_specs(list.all())[at] == list.all()[at]@);
        propositions_are_read_from_their_spelling(
            context,
            values[at],
            true,
            Proposition::Rule(list.all()[at]),
        );
    }
}

/// Whether every rule on the way to a position, and the one there, admits
/// sections.
pub open spec fn admits_on_the_way(rules: Seq<RuleSpec>, path: Seq<int>) -> bool {
    forall|count: int|
        0 < count <= path.len() ==> (#[trigger] rule_at(rules, path.take(count)) matches Some(
            rule,
        ) && rule.outcome is Allow)
}

/// Whether every rule on the way to a position, before the one there, admits
/// one section at most.
pub open spec fn is_single_on_the_way(rules: Seq<RuleSpec>, path: Seq<int>) -> bool {
    forall|count: int|
        0 < count < path.len() ==> (#[trigger] rule_at(rules, path.take(count)) matches Some(
            rule,
        ) && (rule.outcome matches RuleOutcome::Allow(cardinality) && (cardinality.max matches
            UpperBound::Bounded(max) && max <= 1)))
}

pub(crate) proof fn targets_are_admitted(rules: Seq<RuleSpec>, ids: Seq<Seq<char>>)
    ensures
        target_in(rules, ids) matches Some(target) ==> {
            &&& target.path.len() == ids.len()
            &&& !target.denied ==> admits_on_the_way(rules, target.path)
            &&& !target.repeated ==> is_single_on_the_way(rules, target.path)
        },
    decreases ids.len(),
{
    if ids.len() > 0 && target_in(rules, ids) is Some {
        let target = target_in(rules, ids)->0;
        rule_with_id_bounds(rules, ids[0], 0);
        let at = rule_with_id(rules, ids[0], 0)->0;
        let rest = target_in(rules[at].sections, ids.skip(1))->0;
        targets_are_admitted(rules[at].sections, ids.skip(1));
        assert forall|count: int| 0 < count <= target.path.len() implies #[trigger] rule_at(
            rules,
            target.path.take(count),
        ) == if count == 1 {
            Some(rules[at])
        } else {
            rule_at(rules[at].sections, rest.path.take(count - 1))
        } by {
            assert(target.path.take(count).skip(1) =~= rest.path.take(count - 1));
            assert(target.path.take(count)[0] == at);
        }
        if !target.denied {
            assert forall|count: int| 0 < count <= target.path.len() implies (#[trigger] rule_at(
                rules,
                target.path.take(count),
            ) matches Some(rule) && rule.outcome is Allow) by {
                if count > 1 {
                    assert(rule_at(rules[at].sections, rest.path.take(count - 1)) is Some);
                }
            }
        }
        if !target.repeated {
            assert forall|count: int| 0 < count < target.path.len() implies (#[trigger] rule_at(
                rules,
                target.path.take(count),
            ) matches Some(rule) && (rule.outcome matches RuleOutcome::Allow(cardinality)
                && (cardinality.max matches UpperBound::Bounded(max) && max <= 1))) by {
                if count > 1 {
                    assert(rule_at(rules[at].sections, rest.path.take(count - 1)) is Some);
                }
            }
        }
    }
}

pub(crate) proof fn targets_are_named(rules: Seq<RuleSpec>, ids: Seq<Seq<char>>)
    ensures
        target_in(rules, ids) matches Some(target) ==> is_named_on_the_way(
            rules,
            target.path,
            ids,
        ),
    decreases ids.len(),
{
    if ids.len() > 0 && target_in(rules, ids) is Some {
        let target = target_in(rules, ids)->0;
        rule_with_id_bounds(rules, ids[0], 0);
        let at = rule_with_id(rules, ids[0], 0)->0;
        let rest = target_in(rules[at].sections, ids.skip(1))->0;
        targets_are_named(rules[at].sections, ids.skip(1));
        assert forall|count: int| 0 < count <= ids.len() implies (#[trigger] rule_at(
            rules,
            target.path.take(count),
        ) matches Some(rule) && rule.id == Some(ids[count - 1])) by {
            assert(target.path.take(count).skip(1) =~= rest.path.take(count - 1));
            assert(target.path.take(count)[0] == at);
            if count > 1 {
                assert(rule_at(rules[at].sections, rest.path.take(count - 1)) is Some);
                assert(ids.skip(1)[count - 2] == ids[count - 1]);
            }
        }
    }
}

/// Whether ids name the rules on the way to a position, one by one.
pub open spec fn is_named_on_the_way(
    rules: Seq<RuleSpec>,
    path: Seq<int>,
    ids: Seq<Seq<char>>,
) -> bool {
    &&& path.len() == ids.len()
    &&& forall|count: int|
        0 < count <= ids.len() ==> (#[trigger] rule_at(rules, path.take(count)) matches Some(
            rule,
        ) && rule.id == Some(ids[count - 1]))
}

/// A reference that is accepted names, from the root or from the scope that
/// holds it, rules that admit sections; in an order, no rule on the way may
/// repeat.
pub proof fn accepted_references_pass_admitting_rules(
    context: RefContext,
    source: Seq<char>,
    ordered: bool,
    reference: RefSpec,
    rules: Seq<RuleSpec>,
)
    requires
        proposition_read(context, source, ordered).errors.len() == 0,
        proposition_read(context, source, ordered).found matches Some(found) && found.0
            == PropositionSpec::Rule(reference),
        reference.anchor == RefAnchor::SchemaRoot ==> rules == context.root,
        reference.anchor == RefAnchor::CurrentScope ==> rules_in(context.root, context.scope)
            == Some(rules),
    ensures
        exists|path: Seq<int>| #[trigger]
            is_named_on_the_way(rules, path, reference.path) && admits_on_the_way(rules, path) && (
            ordered ==> is_single_on_the_way(rules, path)),
{
    targets_are_admitted(rules, reference.path);
    targets_are_named(rules, reference.path);
    let target = target_in(rules, reference.path)->0;
    let resolved = target_of(context.root, context.scope, reference)->0;
    assert(resolved.denied == target.denied && resolved.repeated == target.repeated);
    let errors = proposition_read(context, source, ordered).errors;
    if target.denied {
        assert(errors[0].kind == SchemaErrorKind::ForbiddenRef);
    }
    assert(is_named_on_the_way(rules, target.path, reference.path));
}

/// The scope that holds an accepted reference is one of the schema's.
pub proof fn accepted_references_stand_in_a_scope(
    context: RefContext,
    source: Seq<char>,
    ordered: bool,
    reference: RefSpec,
)
    requires
        proposition_read(context, source, ordered).found matches Some(found) && found.0
            == PropositionSpec::Rule(reference),
        reference.anchor == RefAnchor::CurrentScope,
    ensures
        rules_in(context.root, context.scope) is Some,
{
}

} // verus!
