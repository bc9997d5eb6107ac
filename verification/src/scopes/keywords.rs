//! What the keywords of named constraints mean.

use vstd::prelude::*;

use super::binding::{
    export_type, outline_bound, source_bound, value_bound, walk, BinderSpec, WalkResult,
};
use super::constraints::{
    locator_specs, named_constraint_read, named_group_read, named_implication_read,
    named_list_read, named_ordered_read, named_ordered_refs, named_parts_read,
    named_propositions, named_read, spoken_of, NamedConstraint, NamedConstraintSpec,
    NamedIdentitySpec, NamedProposition,
};
use super::locators::{parse_of, OperandSpec, OutlineSpec, ParsedSpec, ResolvedRuleLocator};
use super::model::{ExportSpec, ValueType};
use crate::json::{member, JsonSpec};
use crate::loader::constraints::one_or_more;
use crate::loader::keywords::{keywords_differ, listed};
use crate::scalar::scalar_of;

verus! {

/// A named constraint is of the variant of the keyword that declares it.
pub proof fn named_constraints_are_of_the_variant_of_their_keyword(
    binder: BinderSpec,
    value: JsonSpec,
    constraint: NamedConstraint,
)
    requires
        named_constraint_read(binder, value).constraint == Some(constraint@),
    ensures
        value matches JsonSpec::Object(members) && members.len() == 1 && {
            let keyword = members[0].0;
            &&& keyword == "one_of"@ <==> constraint is OneOf
            &&& keyword == "any_of"@ <==> constraint is AnyOf
            &&& keyword == "at_most_one"@ <==> constraint is AtMostOne
            &&& keyword == "all_or_none"@ <==> constraint is AllOrNone
            &&& keyword == "requires"@ <==> constraint is Requires
            &&& keyword == "conflicts"@ <==> constraint is Conflicts
            &&& keyword == "ordered"@ <==> constraint is Ordered
        },
{
    keywords_differ();
}

/// Whether a type is that of the frontmatter capture of a name.
pub open spec fn is_exported(
    captures: Seq<(Seq<char>, ExportSpec)>,
    name: Seq<char>,
    value_type: ValueType,
) -> bool {
    exists|at: int|
        0 <= at < captures.len() && (#[trigger] captures[at]).0 == name
            && captures[at].1.value_type == value_type
}

/// Whether a value spells a proposition: its locator reads as that of a rule
/// and of nothing in it, as a query with the scalar to compare with, or as a
/// declared frontmatter capture.
pub open spec fn locates(
    binder: BinderSpec,
    value: JsonSpec,
    proposition: NamedProposition,
) -> bool {
    value matches JsonSpec::Text(source) && match proposition {
        NamedProposition::Rule(locator) => locates_rule(binder, source, locator),
        NamedProposition::Query(query) => {
            parse_of(binder.locators, source) matches Ok(ParsedSpec::Query(path, equality)) && {
                &&& query.query@ == path
                &&& match (query.equals, equality) {
                    (None, None) => true,
                    (Some(scalar), Some(text)) => scalar@ == scalar_of(text),
                    _ => false,
                }
            }
        },
        NamedProposition::Capture(capture) => {
            parse_of(binder.locators, source) matches Ok(ParsedSpec::Capture(name)) && {
                &&& capture.name@ == name
                &&& is_exported(binder.captures, name, capture.value_type)
            }
        },
    }
}

/// Whether a source reads as the locator of a rule.
pub open spec fn locates_rule(
    binder: BinderSpec,
    source: Seq<char>,
    locator: ResolvedRuleLocator,
) -> bool {
    parse_of(binder.locators, source) matches Ok(ParsedSpec::Outline(parsed)) && {
        &&& locator.source@ == parsed.source
        &&& locator.anchor == parsed.anchor
        &&& parsed.structural.len() == 0
        &&& parsed.text is None
    }
}

proof fn exports_are_found(
    captures: Seq<(Seq<char>, ExportSpec)>,
    name: Seq<char>,
    from: int,
)
    requires
        0 <= from,
        export_type(captures, name, from) is Some,
    ensures
        is_exported(captures, name, export_type(captures, name, from)->0),
    decreases captures.len() - from,
{
    if captures[from].0 != name {
        exports_are_found(captures, name, from + 1);
    } else {
        assert(captures[from].1.value_type == export_type(captures, name, from)->0);
    }
}

proof fn walks_end_without_rules(
    binder: BinderSpec,
    locator: OutlineSpec,
    ordered: bool,
    count: int,
)
    ensures
        walk(binder, locator, ordered, count) matches WalkResult::Ended(ended) ==> !(ended.operand
            matches Some(OperandSpec::Rule(_, _, _))),
    decreases count,
{
    if count > 0 {
        walks_end_without_rules(binder, locator, ordered, count - 1);
    }
}

proof fn rules_are_located(
    binder: BinderSpec,
    source: Seq<char>,
    ordered: bool,
    locator: ResolvedRuleLocator,
)
    requires
        source_bound(binder, source, ordered).operand matches Some(
            OperandSpec::Rule(found, _, _),
        ) && found == locator@,
    ensures
        locates_rule(binder, source, locator),
{
    if let Ok(ParsedSpec::Outline(parsed)) = parse_of(binder.locators, source) {
        walks_end_without_rules(binder, parsed, ordered, parsed.names.len() as int);
        steps_leave_the_section(binder, parsed, ordered);
    }
}

proof fn steps_leave_the_section(
    binder: BinderSpec,
    locator: OutlineSpec,
    ordered: bool,
)
    requires
        outline_bound(binder, locator, ordered).operand matches Some(OperandSpec::Rule(_, _, _)),
    ensures
        locator.structural.len() == 0,
        locator.text is None,
        outline_bound(binder, locator, ordered).operand matches Some(
            OperandSpec::Rule(found, _, _),
        ) && found.source == locator.source && found.anchor == locator.anchor,
{
    walks_end_without_rules(binder, locator, ordered, locator.names.len() as int);
    if let WalkResult::At(state) = walk(binder, locator, ordered, locator.names.len() as int) {
        let count = locator.structural.len() as int;
        if count > 0 {
            structural_steps_end_in_blocks(binder, locator, state.cursor, count);
        }
    }
}

proof fn structural_steps_end_in_blocks(
    binder: BinderSpec,
    locator: OutlineSpec,
    cursor: super::binding::CursorSpec,
    count: int,
)
    requires
        count > 0,
    ensures
        super::binding::structural_walk(binder, locator, cursor, count) matches Ok(after)
            ==> !(after is Section),
{
}

/// A proposition is read from the value whose locator spells it.
pub proof fn named_propositions_are_read_from_their_locator(
    binder: BinderSpec,
    value: JsonSpec,
    proposition: NamedProposition,
)
    requires
        named_read(binder, value).found matches Some(found) && found.0 == proposition@,
    ensures
        locates(binder, value, proposition),
{
    let source = value->Text_0;
    let operand = value_bound(binder, value, false).operand->0;
    match proposition {
        NamedProposition::Rule(locator) => {
            rules_are_located(binder, source, false, locator);
        },
        NamedProposition::Query(_) => {
            outlines_bind_no_frontmatter(binder, source);
        },
        NamedProposition::Capture(_) => {
            outlines_bind_no_frontmatter(binder, source);
            if let Ok(ParsedSpec::Capture(name)) = parse_of(binder.locators, source) {
                exports_are_found(binder.captures, name, 0);
            }
        },
    }
}

proof fn outlines_bind_no_frontmatter(binder: BinderSpec, source: Seq<char>)
    ensures
        parse_of(binder.locators, source) is Ok && parse_of(binder.locators, source)->Ok_0
            is Outline ==> {
            let operand = source_bound(binder, source, false).operand;
            &&& !(operand matches Some(OperandSpec::Query(_, _)))
            &&& !(operand matches Some(OperandSpec::FrontmatterCapture(_, _)))
        },
{
    if let Ok(ParsedSpec::Outline(parsed)) = parse_of(binder.locators, source) {
        walks_bind_no_frontmatter(binder, parsed, false, parsed.names.len() as int);
    }
}

proof fn walks_bind_no_frontmatter(
    binder: BinderSpec,
    locator: OutlineSpec,
    ordered: bool,
    count: int,
)
    ensures
        walk(binder, locator, ordered, count) matches WalkResult::Ended(ended) ==> {
            &&& !(ended.operand matches Some(OperandSpec::Query(_, _)))
            &&& !(ended.operand matches Some(OperandSpec::FrontmatterCapture(_, _)))
        },
    decreases count,
{
    if count > 0 {
        walks_bind_no_frontmatter(binder, locator, ordered, count - 1);
    }
}

/// Whether values spell propositions, one by one in the same order.
pub open spec fn locate_all(
    binder: BinderSpec,
    values: Seq<JsonSpec>,
    propositions: Seq<NamedProposition>,
) -> bool {
    &&& values.len() == propositions.len()
    &&& forall|at: int|
        0 <= at < values.len() ==> locates(binder, #[trigger] values[at], propositions[at])
}

proof fn named_lists_follow(
    binder: BinderSpec,
    values: Seq<JsonSpec>,
    spoken: Seq<NamedIdentitySpec>,
    duplicate: Seq<char>,
)
    requires
        named_list_read(binder, values, spoken, duplicate).complete,
    ensures
        ({
            let read = named_list_read(binder, values, spoken, duplicate).propositions;
            &&& read.len() == values.len()
            &&& forall|at: int|
                0 <= at < values.len() ==> (named_read(
                    binder,
                    #[trigger] values[at],
                ).found matches Some(found) && found.0 == read[at])
        }),
    decreases values.len(),
{
    if values.len() > 0 {
        let before = values.drop_last();
        named_lists_follow(binder, before, spoken, duplicate);
        let read = named_list_read(binder, values, spoken, duplicate).propositions;
        let earlier = named_list_read(binder, before, spoken, duplicate).propositions;
        assert forall|at: int| 0 <= at < values.len() implies (named_read(
            binder,
            #[trigger] values[at],
        ).found matches Some(found) && found.0 == read[at]) by {
            if at < before.len() {
                assert(before[at] == values[at]);
                assert(read[at] == earlier[at]);
            }
        }
    }
}

proof fn named_propositions_follow(
    binder: BinderSpec,
    values: Seq<JsonSpec>,
    spoken: Seq<NamedIdentitySpec>,
    duplicate: Seq<char>,
    propositions: Seq<NamedProposition>,
)
    requires
        named_list_read(binder, values, spoken, duplicate).complete,
        named_list_read(binder, values, spoken, duplicate).propositions == named_propositions(
            propositions,
        ),
    ensures
        locate_all(binder, values, propositions),
{
    named_lists_follow(binder, values, spoken, duplicate);
    assert(named_propositions(propositions).len() == propositions.len());
    assert forall|at: int| 0 <= at < values.len() implies locates(
        binder,
        #[trigger] values[at],
        propositions[at],
    ) by {
        assert(named_propositions(propositions)[at] == propositions[at]@);
        named_propositions_are_read_from_their_locator(binder, values[at], propositions[at]);
    }
}

/// Whether an operand is a list that spells propositions, one by one.
pub open spec fn is_named_list(
    binder: BinderSpec,
    operand: JsonSpec,
    propositions: Seq<NamedProposition>,
) -> bool {
    operand matches JsonSpec::Array(values) && locate_all(binder, values, propositions)
}

/// Whether an operand spells a condition under `if`, and under `field` what
/// follows from it.
pub open spec fn is_named_implication(
    binder: BinderSpec,
    operand: JsonSpec,
    field: Seq<char>,
    condition: NamedProposition,
    propositions: Seq<NamedProposition>,
) -> bool {
    operand matches JsonSpec::Object(parts) && {
        &&& member(parts, "if"@) is Some
        &&& member(parts, field) is Some
        &&& locates(binder, member(parts, "if"@)->0, condition)
        &&& locate_all(binder, listed(member(parts, field)->0), propositions)
    }
}

/// Whether a value declares a named constraint: an object of the one keyword
/// of the constraint, whose operand spells what the constraint speaks about.
pub open spec fn declares_named_constraint(
    binder: BinderSpec,
    value: JsonSpec,
    constraint: NamedConstraint,
) -> bool {
    value matches JsonSpec::Object(members) && members.len() == 1 && {
        let keyword = members[0].0;
        let operand = members[0].1;
        match constraint {
            NamedConstraint::OneOf(list) => keyword == "one_of"@ && is_named_list(
                binder,
                operand,
                list.all(),
            ),
            NamedConstraint::AnyOf(list) => keyword == "any_of"@ && is_named_list(
                binder,
                operand,
                list.all(),
            ),
            NamedConstraint::AtMostOne(list) => keyword == "at_most_one"@ && is_named_list(
                binder,
                operand,
                list.all(),
            ),
            NamedConstraint::AllOrNone(list) => keyword == "all_or_none"@ && is_named_list(
                binder,
                operand,
                list.all(),
            ),
            NamedConstraint::Requires { condition, consequences } => keyword == "requires"@
                && is_named_implication(binder, operand, "then"@, condition, consequences.all()),
            NamedConstraint::Conflicts { condition, exclusions } => keyword == "conflicts"@
                && is_named_implication(
                binder,
                operand,
                "then_not"@,
                condition,
                exclusions.all(),
            ),
            NamedConstraint::Ordered(list) => {
                &&& keyword == "ordered"@
                &&& (operand matches JsonSpec::Array(values) && {
                    &&& values.len() == list.all().len()
                    &&& forall|at: int|
                        0 <= at < values.len() ==> (#[trigger] values[at] matches JsonSpec::Text(
                            source,
                        ) && locates_rule(binder, source, list.all()[at]))
                })
            },
        }
    }
}

proof fn named_groups_follow(
    binder: BinderSpec,
    keyword: Seq<char>,
    operand: JsonSpec,
    propositions: Seq<NamedProposition>,
)
    requires
        named_group_read(binder, keyword, operand).constraint matches Some(read) && ({
            ||| read == NamedConstraintSpec::OneOf(named_propositions(propositions))
            ||| read == NamedConstraintSpec::AnyOf(named_propositions(propositions))
            ||| read == NamedConstraintSpec::AtMostOne(named_propositions(propositions))
            ||| read == NamedConstraintSpec::AllOrNone(named_propositions(propositions))
        }),
    ensures
        is_named_list(binder, operand, propositions),
{
    named_propositions_follow(
        binder,
        operand->Array_0,
        Seq::empty(),
        "constraint contains a duplicate ref"@,
        propositions,
    );
}

proof fn named_implications_follow(
    binder: BinderSpec,
    operand: JsonSpec,
    positive: bool,
    condition: NamedProposition,
    propositions: Seq<NamedProposition>,
)
    requires
        named_implication_read(binder, operand, positive).constraint == Some(
            if positive {
                NamedConstraintSpec::Requires(condition@, named_propositions(propositions))
            } else {
                NamedConstraintSpec::Conflicts(condition@, named_propositions(propositions))
            },
        ),
    ensures
        is_named_implication(
            binder,
            operand,
            if positive {
                "then"@
            } else {
                "then_not"@
            },
            condition,
            propositions,
        ),
{
    let parts = operand->Object_0;
    let field = if positive {
        "then"@
    } else {
        "then_not"@
    };
    let premise = member(parts, "if"@)->0;
    let consequence = member(parts, field)->0;
    let read = named_parts_read(binder, premise, consequence, positive);
    assert(named_implication_read(binder, operand, positive) == read);
    named_propositions_are_read_from_their_locator(binder, premise, condition);
    assert(one_or_more(consequence) == listed(consequence));
    named_propositions_follow(
        binder,
        listed(consequence),
        spoken_of(named_read(binder, premise)),
        "duplicate ref in `"@ + field + "`"@,
        propositions,
    );
}

proof fn named_orders_follow(binder: BinderSpec, values: Seq<JsonSpec>)
    requires
        named_ordered_refs(binder, values).complete,
        named_ordered_refs(binder, values).refs.len() == values.len(),
    ensures
        ({
            let read = named_ordered_refs(binder, values);
            forall|at: int|
                0 <= at < values.len() ==> (value_bound(
                    binder,
                    #[trigger] values[at],
                    true,
                ).operand matches Some(OperandSpec::Rule(found, _, _)) && found == read.refs[at])
        }),
    decreases values.len(),
{
    if values.len() > 0 {
        let before = values.drop_last();
        let earlier = named_ordered_refs(binder, before);
        let read = named_ordered_refs(binder, values);
        orders_lose_nothing(binder, before);
        named_orders_follow(binder, before);
        assert forall|at: int| 0 <= at < values.len() implies (value_bound(
            binder,
            #[trigger] values[at],
            true,
        ).operand matches Some(OperandSpec::Rule(found, _, _)) && found == read.refs[at]) by {
            if at < before.len() {
                assert(before[at] == values[at]);
                assert(read.refs[at] == earlier.refs[at]);
            }
        }
    }
}

proof fn orders_lose_nothing(binder: BinderSpec, values: Seq<JsonSpec>)
    ensures
        named_ordered_refs(binder, values).refs.len() <= values.len(),
    decreases values.len(),
{
    if values.len() > 0 {
        orders_lose_nothing(binder, values.drop_last());
    }
}

proof fn rules_have_a_scope(
    binder: BinderSpec,
    locator: OutlineSpec,
    ordered: bool,
    count: int,
)
    ensures
        walk(binder, locator, ordered, count) matches WalkResult::At(state) ==> state.steps.len()
            <= state.scope_key.len(),
    decreases count,
{
    if count > 0 {
        rules_have_a_scope(binder, locator, ordered, count - 1);
    }
}

proof fn complete_orders_are_whole(binder: BinderSpec, values: Seq<JsonSpec>)
    ensures
        named_ordered_refs(binder, values).complete ==> named_ordered_refs(
            binder,
            values,
        ).refs.len() == values.len(),
    decreases values.len(),
{
    if values.len() > 0 {
        complete_orders_are_whole(binder, values.drop_last());
        if let JsonSpec::Text(source) = values.last() {
            if let Ok(ParsedSpec::Outline(parsed)) = parse_of(binder.locators, source) {
                walks_end_without_rules(binder, parsed, true, parsed.names.len() as int);
                rules_have_a_scope(binder, parsed, true, parsed.names.len() as int);
            }
        }
    }
}

/// A named constraint is read as its value declares it.
pub proof fn named_constraints_are_read_as_they_are_declared(
    binder: BinderSpec,
    value: JsonSpec,
    constraint: NamedConstraint,
)
    requires
        named_constraint_read(binder, value).constraint == Some(constraint@),
    ensures
        declares_named_constraint(binder, value, constraint),
{
    named_constraints_are_of_the_variant_of_their_keyword(binder, value, constraint);
    keywords_differ();
    let members = value->Object_0;
    let operand = members[0].1;
    let keyword = members[0].0;
    match constraint {
        NamedConstraint::OneOf(list) => {
            named_groups_follow(binder, keyword, operand, list.all());
        },
        NamedConstraint::AnyOf(list) => {
            named_groups_follow(binder, keyword, operand, list.all());
        },
        NamedConstraint::AtMostOne(list) => {
            named_groups_follow(binder, keyword, operand, list.all());
        },
        NamedConstraint::AllOrNone(list) => {
            named_groups_follow(binder, keyword, operand, list.all());
        },
        NamedConstraint::Requires { condition, consequences } => {
            named_implications_follow(binder, operand, true, condition, consequences.all());
        },
        NamedConstraint::Conflicts { condition, exclusions } => {
            named_implications_follow(binder, operand, false, condition, exclusions.all());
        },
        NamedConstraint::Ordered(list) => {
            let values = operand->Array_0;
            let read = named_ordered_refs(binder, values);
            assert(named_ordered_read(binder, operand).constraint == Some(constraint@));
            complete_orders_are_whole(binder, values);
            named_orders_follow(binder, values);
            assert(locator_specs(list.all()) == read.refs);
            assert forall|at: int| 0 <= at < values.len() implies (
            #[trigger] values[at] matches JsonSpec::Text(source) && locates_rule(
                binder,
                source,
                list.all()[at],
            )) by {
                assert(locator_specs(list.all())[at] == list.all()[at]@);
                assert(value_bound(binder, values[at], true).operand is Some);
                rules_are_located(binder, values[at]->Text_0, true, list.all()[at]);
            }
        },
    }
}

} // verus!
