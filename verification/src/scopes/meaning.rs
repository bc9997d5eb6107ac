//! What rules on content, items, captures and value orders hold of their
//! declarations.

use vstd::prelude::*;

use super::captures::{captures_build, captures_of, group_from, CaptureContext, GroupFacts};
use super::cardinality::cardinality_of;
use super::content::{
    all_field_errors, alternative_read, body_errors, cardinality_range,
    cardinality_shape_errors, choice_errors, choice_of, choice_read, content_cardinality,
    content_errors, content_list_build, content_scope_build, content_value, head_of, id_errors,
    item_cardinality, item_errors, item_list_errors, item_matcher, item_scope_errors,
    item_scope_of, item_value, label_errors, list_kind_errors, match_shape_errors,
    misplaced_errors, value_range, whole_range, Block, Head,
};
use super::model::{
    capture_specs, content_rule_specs, item_rule_specs, order_specs, type_named, type_spelling,
    type_spellings_parse_back, BlockMatcher, ContentRule, ContentScope, ItemRule, ItemScope,
    ListKind, ValueOrderDirection, ValueOrderEntry, ValueType,
};
use super::order::{
    by_faults, direction_of, entry_faults, entry_list_errors, entry_of, faults_at, order_build,
    strict_of,
};
use crate::load_result::{ContentOwnerSpec, ErrorSpec, RuleIndex, SourceRange};
use crate::loader::loaded::text_of_member;
use crate::loader::patterns::{
    matchers_are_built_from_their_spelling, repeats_are_read_as_they_are_spelled,
    spells_cardinality, spells_matcher,
};
use crate::loader::places::PlacesSpec;
use crate::loader::ranges::ContentPlace;
use crate::loader::rules::{bool_field, text_field};
use crate::loader::shape::Members;
use crate::json::{member, JsonSpec};
use crate::schema::{Cardinality, MatcherSpec, RuleId, UpperBound};

verus! {

/// Whether a text spells a type of values.
pub open spec fn spells_type(name: Seq<char>, value_type: ValueType) -> bool {
    match value_type {
        ValueType::Int => name == "int"@,
        ValueType::Bool => name == "bool"@,
        ValueType::Date => name == "date"@,
        ValueType::Semver => name == "semver"@,
        ValueType::Dotted => name == "dotted"@,
        ValueType::Text => name == "text"@,
    }
}

/// A type is read from the name that spells it and from no other, and written
/// by that name.
pub proof fn types_are_read_and_written_by_name(name: Seq<char>, value_type: ValueType)
    ensures
        type_named(name) == Some(value_type) <==> spells_type(name, value_type),
        spells_type(type_spelling(value_type), value_type),
{
    type_spellings_parse_back(value_type, name);
}

/// Whether a value declares how values are ordered: by the capture under `by`,
/// descending where `dir` is `desc` and ascending where it is `asc` or not
/// there, and without equal neighbours where `strict` is true.
pub open spec fn declares_order(value: JsonSpec, entry: ValueOrderEntry) -> bool {
    value matches JsonSpec::Object(members) && {
        &&& member(members, "by"@) == Some(JsonSpec::Text(entry.by@))
        &&& match entry.direction {
            ValueOrderDirection::Descending => member(members, "dir"@) == Some(
                JsonSpec::Text("desc"@),
            ),
            ValueOrderDirection::Ascending => member(members, "dir"@) is None || member(
                members,
                "dir"@,
            ) == Some(JsonSpec::Text("asc"@)),
        }
        &&& entry.strict <==> member(members, "strict"@) == Some(JsonSpec::Bool(true))
    }
}

/// An entry of a value order is read from the value that declares it.
pub proof fn orders_are_read_from_their_declaration(value: JsonSpec, entry: ValueOrderEntry)
    requires
        entry_of(value) == Some(entry@),
    ensures
        declares_order(value, entry),
{
    let members = value->Object_0;
    let faults = entry_faults(value);
    assert(faults.len() == 0);
    assert(by_faults(members).len() == 0);
    assert(direction_of(members) is Some);
    assert(strict_of(members) is Some);
}

proof fn orders_without_errors_are_entries(
    places: PlacesSpec,
    rule: (Seq<RuleIndex>, RuleIndex),
    values: Seq<JsonSpec>,
    captures: Option<Seq<(Seq<char>, ValueType)>>,
    cardinality: Option<Cardinality>,
    count: int,
)
    requires
        0 <= count <= values.len(),
        entry_list_errors(places, rule, values, captures, cardinality, count).len() == 0,
    ensures
        forall|at: int| 0 <= at < count ==> entry_of(#[trigger] values[at]) is Some,
    decreases count,
{
    if count > 0 {
        orders_without_errors_are_entries(
            places,
            rule,
            values,
            captures,
            cardinality,
            count - 1,
        );
        let value = values[count - 1];
        if entry_of(value) is None {
            assert(faults_at(values, captures, cardinality, count - 1) == entry_faults(value));
            assert(entry_faults(value).len() > 0);
        }
    }
}

/// The entries of an order, in the order of their declarations.
pub open spec fn declare_orders(value: Option<JsonSpec>, entries: Seq<ValueOrderEntry>) -> bool {
    match value {
        Some(JsonSpec::Array(values)) => {
            &&& values.len() == entries.len()
            &&& forall|at: int|
                0 <= at < entries.len() ==> declares_order(values[at], #[trigger] entries[at])
        },
        _ => entries.len() == 0,
    }
}

/// The value orders of a rule are those that its declaration lists.
pub proof fn orders_follow_their_declaration(
    places: PlacesSpec,
    rule: (Seq<RuleIndex>, RuleIndex),
    value: Option<JsonSpec>,
    captures: Option<Seq<(Seq<char>, ValueType)>>,
    cardinality: Option<Cardinality>,
    entries: Seq<ValueOrderEntry>,
)
    requires
        order_build(places, rule, value, captures, cardinality).entries == Some(
            order_specs(entries),
        ),
    ensures
        declare_orders(value, entries),
{
    assert(order_specs(entries).len() == entries.len());
    if let Some(JsonSpec::Array(values)) = value {
        orders_without_errors_are_entries(
            places,
            rule,
            values,
            captures,
            cardinality,
            values.len() as int,
        );
        assert forall|at: int| 0 <= at < entries.len() implies declares_order(
            values[at],
            #[trigger] entries[at],
        ) by {
            assert(order_specs(entries)[at] == entries[at]@);
            assert(entry_of(values[at]) is Some);
            orders_are_read_from_their_declaration(values[at], entries[at]);
        }
    }
}

/// Whether members declare a cardinality: `required: true` asks for one,
/// `required: false` admits one, `repeat` spells it, and without either one is
/// asked for, where that goes without saying.
pub open spec fn declares_cardinality(
    members: Members,
    implicit: bool,
    cardinality: Cardinality,
) -> bool {
    if member(members, "required"@) == Some(JsonSpec::Bool(true)) {
        cardinality.min == 1 && cardinality.max == UpperBound::Bounded(1)
    } else if member(members, "required"@) == Some(JsonSpec::Bool(false)) {
        cardinality.min == 0 && cardinality.max == UpperBound::Bounded(1)
    } else if let Some(JsonSpec::Text(repeat)) = member(members, "repeat"@) {
        spells_cardinality(repeat, cardinality)
    } else {
        implicit && cardinality.min == 1 && cardinality.max == UpperBound::Bounded(1)
    }
}

/// A cardinality is built from the members that declare it.
pub proof fn cardinalities_follow_their_declaration(
    members: Members,
    implicit: bool,
    range: SourceRange,
    cardinality: Cardinality,
)
    requires
        cardinality_of(
            bool_field(members, "required"@),
            text_field(members, "repeat"@),
            implicit,
            range,
        ) == Ok::<Cardinality, ErrorSpec>(cardinality),
    ensures
        declares_cardinality(members, implicit, cardinality),
{
    if let Some(JsonSpec::Text(repeat)) = member(members, "repeat"@) {
        repeats_are_read_as_they_are_spelled(repeat, cardinality);
    }
}

/// Whether a value declares captures: a mapping from their names to the names
/// of their types, where every capture is of a group that takes part in every
/// match of the regular expression that the rule matches.
pub open spec fn declare_captures(
    value: Option<JsonSpec>,
    matcher: Option<MatcherSpec>,
    groups: Option<Seq<(Seq<char>, GroupFacts)>>,
    captures: Seq<(String, ValueType)>,
) -> bool {
    match value {
        Some(JsonSpec::Object(members)) => {
            &&& members.len() == captures.len()
            &&& matcher matches Some(MatcherSpec::Regex(_))
            &&& forall|at: int|
                0 <= at < captures.len() ==> {
                    &&& members[at].0 == (#[trigger] captures[at]).0@
                    &&& (members[at].1 matches JsonSpec::Text(name) && spells_type(
                        name,
                        captures[at].1,
                    ))
                    &&& (groups matches Some(groups) && takes_part(groups, captures[at].0@))
                }
        },
        _ => captures.len() == 0,
    }
}

/// Whether a group of a regular expression takes part in every match.
pub open spec fn takes_part(groups: Seq<(Seq<char>, GroupFacts)>, name: Seq<char>) -> bool {
    exists|at: int|
        0 <= at < groups.len() && (#[trigger] groups[at]).0 == name && !groups[at].1.alternation
            && !groups[at].1.min_zero_repetition
}

proof fn groups_are_found(groups: Seq<(Seq<char>, GroupFacts)>, name: Seq<char>, from: int)
    requires
        0 <= from,
        group_from(groups, name, from) is Some,
    ensures
        exists|at: int|
            0 <= at < groups.len() && (#[trigger] groups[at]).0 == name && groups[at].1
                == group_from(groups, name, from)->0,
    decreases groups.len() - from,
{
    if groups[from].0 != name {
        groups_are_found(groups, name, from + 1);
    } else {
        assert(groups[from].1 == group_from(groups, name, from)->0);
    }
}

/// The captures of a rule are those that its declaration names.
pub proof fn captures_follow_their_declaration(
    context: CaptureContext,
    value: Option<JsonSpec>,
    captures: Seq<(String, ValueType)>,
)
    requires
        captures_build(context, value).captures == Some(capture_specs(captures)),
    ensures
        declare_captures(value, context.matcher, context.groups, captures),
{
    assert(capture_specs(captures).len() == captures.len());
    if let Some(JsonSpec::Object(members)) = value {
        let built = captures_of(context, members);
        assert(built.len() == members.len());
        assert(context.verdict(members[0]) is Typed);
        assert forall|at: int| 0 <= at < captures.len() implies ({
            &&& members[at].0 == (#[trigger] captures[at]).0@
            &&& (members[at].1 matches JsonSpec::Text(name) && spells_type(name, captures[at].1))
            &&& (context.groups matches Some(groups) && takes_part(groups, captures[at].0@))
        }) by {
            assert(capture_specs(captures)[at] == (captures[at].0@, captures[at].1));
            assert(built[at] == (members[at].0, context.verdict(members[at])->Typed_0));
            assert(context.verdict(members[at]) is Typed);
            let name = members[at].1->Text_0;
            types_are_read_and_written_by_name(name, captures[at].1);
            groups_are_found(context.groups->0, members[at].0, 0);
        }
    }
}

/// Whether members declare the kind of a list.
pub open spec fn declares_list_kind(members: Members, kind: Option<ListKind>) -> bool {
    match kind {
        Some(ListKind::Bullet) => member(members, "list_kind"@) == Some(
            JsonSpec::Text("bullet"@),
        ),
        Some(ListKind::Ordered) => member(members, "list_kind"@) == Some(
            JsonSpec::Text("ordered"@),
        ),
        None => member(members, "list_kind"@) is None || member(members, "list_kind"@) == Some(
            JsonSpec::Text("any"@),
        ),
    }
}

/// Whether a value declares an alternative for a block.
pub open spec fn declares_block(value: JsonSpec, block: BlockMatcher) -> bool {
    value matches JsonSpec::Object(members) && match block {
        BlockMatcher::Paragraph => member(members, "block"@) == Some(JsonSpec::Text("p"@)),
        BlockMatcher::List { list_kind } => member(members, "block"@) == Some(
            JsonSpec::Text("list"@),
        ) && declares_list_kind(members, list_kind),
        BlockMatcher::Any => member(members, "block"@) == Some(JsonSpec::Text("any"@)),
    }
}

/// An alternative is read from the value that declares it.
pub proof fn alternatives_are_read_from_their_declaration(
    places: PlacesSpec,
    owner: ContentOwnerSpec,
    place: ContentPlace,
    value: JsonSpec,
    block: BlockMatcher,
)
    requires
        alternative_read(places, owner, place, value).block == Some(block),
    ensures
        declares_block(value, block),
        alternative_read(places, owner, place, value).errors.len() == 0,
{
}

proof fn choices_are_read_in_order(
    places: PlacesSpec,
    owner: ContentOwnerSpec,
    rule: usize,
    values: Seq<JsonSpec>,
    count: int,
)
    requires
        0 <= count <= values.len(),
        choice_read(places, owner, rule, values, count).errors.len() == 0,
    ensures
        ({
            let read = choice_read(places, owner, rule, values, count);
            &&& read.blocks.len() == count
            &&& forall|at: int|
                0 <= at < count ==> declares_block(values[at], (#[trigger] read.blocks[at]).0)
        }),
    decreases count,
{
    if count > 0 {
        let before = choice_read(places, owner, rule, values, count - 1);
        let place = ContentPlace::Alternative(rule, (count - 1) as usize);
        let read = alternative_read(places, owner, place, values[count - 1]);
        assert(before.errors.len() == 0);
        choices_are_read_in_order(places, owner, rule, values, count - 1);
        if let Some(block) = read.block {
            alternatives_are_read_from_their_declaration(
                places,
                owner,
                place,
                values[count - 1],
                block,
            );
        }
    }
}

/// Whether members declare an id, and it is this one.
pub open spec fn declares_own_id(members: Members, id: Option<RuleId>) -> bool {
    match member(members, "id"@) {
        Some(JsonSpec::Text(text)) => id matches Some(id) && id.0@ == text,
        _ => id is None,
    }
}

/// Whether a value declares a rule on the items of a list.
pub open spec fn declares_item(value: JsonSpec, rule: ItemRule) -> bool {
    value matches JsonSpec::Object(members) && {
        &&& member(members, "match"@) is Some
        &&& spells_matcher(text_of_member(member(members, "match"@)), rule.matcher)
        &&& declares_own_id(members, rule.id)
        &&& declares_cardinality(members, rule.matcher is Exact, rule.cardinality)
    }
}

/// A rule on items is read from the value that declares it.
pub proof fn items_are_read_from_their_declaration(
    places: PlacesSpec,
    owner: ContentOwnerSpec,
    place: ContentPlace,
    value: JsonSpec,
    match_case: bool,
    rule: ItemRule,
)
    requires
        place is Item,
        item_errors(places, owner, place, value, match_case).len() == 0,
        item_value(places, owner, place, value, match_case) == rule@,
    ensures
        declares_item(value, rule),
{
    reveal(match_shape_errors);
    reveal(item_matcher);
    if !(value is Object) {
        assert(item_errors(places, owner, place, value, match_case).len() == 1);
    }
    let members = value->Object_0;
    let fields = all_field_errors(places, owner, place, false, members);
    let ids = id_errors(places, owner, place, members);
    let shape = match_shape_errors(places, owner, place, members);
    let matcher = item_matcher(places, owner, place, members, match_case);
    let cardinality = item_cardinality(places, owner, place, members, match_case);
    assert(item_errors(places, owner, place, value, match_case) == fields + ids + shape
        + matcher.1 + cardinality.errors);
    assert(ids.len() == 0 && shape.len() == 0 && matcher.1.len() == 0 && cardinality.errors.len()
        == 0);
    assert(member(members, "match"@) matches Some(JsonSpec::Text(_)));
    let source = member(members, "match"@)->0->Text_0;
    assert(text_field(members, "match"@) == Some(source));
    assert(matcher.0 is Some);
    assert(matcher.0 == Some(rule.matcher@));
    let counted = cardinality_shape_errors(places, owner, place, members);
    assert(counted.len() == 0);
    assert(cardinality.value is Some);
    matchers_are_built_from_their_spelling(
        source,
        match_case,
        value_range(places, owner, place, "match"@),
        rule.matcher,
    );
    cardinalities_follow_their_declaration(
        members,
        rule.matcher is Exact,
        cardinality_range(
            places,
            owner,
            place,
            members,
            value_range(places, owner, place, "match"@),
        ),
        rule.cardinality,
    );
}

/// Whether a value lists rules on items, one by one in the same order.
pub open spec fn declare_items(value: Option<JsonSpec>, items: ItemScope) -> bool {
    match items {
        ItemScope::Omitted => value is None,
        ItemScope::Declared(rules) => value matches Some(JsonSpec::Array(values)) && {
            &&& values.len() == rules@.len()
            &&& forall|at: int|
                0 <= at < values.len() ==> declares_item(values[at], #[trigger] rules@[at])
        },
    }
}

proof fn items_have_no_errors(
    places: PlacesSpec,
    owner: ContentOwnerSpec,
    rule: usize,
    values: Seq<JsonSpec>,
    match_case: bool,
    count: int,
    at: int,
)
    requires
        0 <= at < count <= values.len(),
        item_list_errors(places, owner, rule, values, match_case, count).len() == 0,
    ensures
        item_errors(
            places,
            owner,
            ContentPlace::Item(rule, at as usize),
            values[at],
            match_case,
        ).len() == 0,
    decreases count,
{
    if at < count - 1 {
        items_have_no_errors(places, owner, rule, values, match_case, count - 1, at);
    }
}

/// Whether a value declares a rule on content: `block: p` a paragraph,
/// `block: list` a list of the kind under `list_kind` with the rules under
/// `items`, `block: any` any block, and `one_of` a choice between blocks.
pub open spec fn declares_content(value: JsonSpec, rule: ContentRule) -> bool {
    value matches JsonSpec::Object(members) && match rule {
        ContentRule::Paragraph { id, cardinality } => {
            &&& member(members, "block"@) == Some(JsonSpec::Text("p"@))
            &&& member(members, "one_of"@) is None
            &&& declares_own_id(members, id)
            &&& declares_cardinality(members, true, cardinality)
        },
        ContentRule::List { id, cardinality, list_kind, items } => {
            &&& member(members, "block"@) == Some(JsonSpec::Text("list"@))
            &&& member(members, "one_of"@) is None
            &&& declares_own_id(members, id)
            &&& declares_cardinality(members, true, cardinality)
            &&& declares_list_kind(members, list_kind)
            &&& declare_items(member(members, "items"@), items)
        },
        ContentRule::Any { id, cardinality } => {
            &&& member(members, "block"@) == Some(JsonSpec::Text("any"@))
            &&& member(members, "one_of"@) is None
            &&& declares_own_id(members, id)
            &&& declares_cardinality(members, true, cardinality)
        },
        ContentRule::OneOf { id, cardinality, alternatives } => {
            &&& member(members, "block"@) is None
            &&& declares_own_id(members, id)
            &&& declares_cardinality(members, true, cardinality)
            &&& (member(members, "one_of"@) matches Some(JsonSpec::Array(values)) && {
                &&& values.len() == alternatives.all().len()
                &&& forall|at: int|
                    0 <= at < values.len() ==> declares_block(
                        values[at],
                        #[trigger] alternatives.all()[at],
                    )
            })
        },
    }
}

/// A rule on content is read from the value that declares it.
pub proof fn content_is_read_from_its_declaration(
    places: PlacesSpec,
    owner: ContentOwnerSpec,
    index: usize,
    value: JsonSpec,
    match_case: bool,
    rule: ContentRule,
)
    requires
        content_errors(places, owner, index, value, match_case).len() == 0,
        content_value(places, owner, index, value, match_case) == rule@,
    ensures
        declares_content(value, rule),
{
    reveal(content_errors);
    reveal(content_value);
    if !(value is Object) {
        assert(content_errors(places, owner, index, value, match_case).len() == 1);
    }
    let members = value->Object_0;
    let place = ContentPlace::Rule(index);
    let body = body_errors(places, owner, index, members, match_case);
    assert(content_errors(places, owner, index, value, match_case)
        == all_field_errors(places, owner, place, false, members) + body);
    assert(body.len() == 0);
    let head = head_of(places, owner, place, members);
    let labels = label_errors(places, owner, index, members);
    let ids = id_errors(places, owner, place, members);
    let cardinality = content_cardinality(places, owner, index, members);
    assert(labels == ids + cardinality.errors);
    let misplaced = misplaced_errors(places, owner, index, members);
    let kinds = list_kind_errors(places, owner, place, members);
    let items = item_scope_errors(places, owner, index, members, match_case);
    match head {
        Head::Refused(_) => {},
        Head::Block(Block::List) => {
            assert(body == labels + kinds + items);
            assert(labels.len() == 0 && kinds.len() == 0 && items.len() == 0);
        },
        Head::Block(_) => {
            assert(body == misplaced + labels);
            assert(labels.len() == 0);
        },
        Head::Choice(values) => {
            let choice = choice_errors(places, owner, index, values);
            assert(body == misplaced + labels + choice);
            assert(labels.len() == 0 && choice.len() == 0);
        },
    }
    assert(ids.len() == 0 && cardinality.errors.len() == 0);
    let counted = cardinality_shape_errors(places, owner, place, members);
    assert(counted.len() == 0);
    assert(cardinality.value is Some);
    assert(cardinality.value == Some(rule@.cardinality));
    let range = cardinality_range(
        places,
        owner,
        place,
        members,
        whole_range(places, owner, place),
    );
    cardinalities_follow_their_declaration(members, true, range, rule@.cardinality);
    match rule {
        ContentRule::Paragraph { .. } => {},
        ContentRule::Any { .. } => {},
        ContentRule::List { list_kind, items, .. } => {
            if let ItemScope::Declared(rules) = items {
                let values = member(members, "items"@)->0->Array_0;
                let scope = item_scope_of(places, owner, index, members, match_case)->0;
                assert(item_rule_specs(rules@).len() == rules@.len());
                assert forall|at: int| 0 <= at < values.len() implies declares_item(
                    values[at],
                    #[trigger] rules@[at],
                ) by {
                    items_have_no_errors(
                        places,
                        owner,
                        index,
                        values,
                        match_case,
                        values.len() as int,
                        at,
                    );
                    assert(item_rule_specs(rules@)[at] == rules@[at]@);
                    assert(scope[at] == rules@[at]@);
                    items_are_read_from_their_declaration(
                        places,
                        owner,
                        ContentPlace::Item(index, at as usize),
                        values[at],
                        match_case,
                        rules@[at],
                    );
                }
            }
        },
        ContentRule::OneOf { alternatives, .. } => {
            let values = member(members, "one_of"@)->0->Array_0;
            let count = values.len() as int;
            let read = choice_read(places, owner, index, values, count);
            choices_are_read_in_order(places, owner, index, values, count);
            let choice = choice_of(places, owner, index, values);
            assert(choice == alternatives.all());
            assert forall|at: int| 0 <= at < values.len() implies declares_block(
                values[at],
                #[trigger] alternatives.all()[at],
            ) by {
                assert(choice[at] == read.blocks[at].0);
            }
        },
    }
}

/// Whether a value lists rules on content, one by one in the same order.
pub open spec fn declare_content(value: Option<JsonSpec>, content: ContentScope) -> bool {
    match content {
        ContentScope::Omitted => value is None,
        ContentScope::Declared(rules) => value matches Some(JsonSpec::Array(values)) && {
            &&& values.len() == rules@.len()
            &&& forall|at: int|
                0 <= at < values.len() ==> declares_content(values[at], #[trigger] rules@[at])
        },
    }
}

proof fn content_lists_are_read_in_order(
    places: PlacesSpec,
    raw_owner: ContentOwnerSpec,
    owner: ContentOwnerSpec,
    values: Seq<JsonSpec>,
    match_case: bool,
    count: int,
)
    requires
        0 <= count <= values.len(),
        content_list_build(places, raw_owner, owner, values, match_case, count).errors.len() == 0,
    ensures
        ({
            let build = content_list_build(places, raw_owner, owner, values, match_case, count);
            &&& build.rules is Some
            &&& build.rules->0.len() == count
            &&& forall|at: int|
                0 <= at < count ==> {
                    &&& #[trigger] build.rules->0[at] == content_value(
                        places,
                        raw_owner,
                        at as usize,
                        values[at],
                        match_case,
                    )
                    &&& content_errors(
                        places,
                        raw_owner,
                        at as usize,
                        values[at],
                        match_case,
                    ).len() == 0
                }
        }),
    decreases count,
{
    if count > 0 {
        let before = content_list_build(places, raw_owner, owner, values, match_case, count - 1);
        let errors = content_errors(
            places,
            raw_owner,
            (count - 1) as usize,
            values[count - 1],
            match_case,
        );
        assert(before.errors.len() == 0 && errors.len() == 0);
        content_lists_are_read_in_order(
            places,
            raw_owner,
            owner,
            values,
            match_case,
            count - 1,
        );
    }
}

/// The rules on content are those that the declaration lists, in its order,
/// and left out where it is.
pub proof fn content_follows_its_declaration(
    places: PlacesSpec,
    raw_owner: ContentOwnerSpec,
    owner: ContentOwnerSpec,
    value: Option<JsonSpec>,
    match_case: bool,
    content: ContentScope,
)
    requires
        content_scope_build(places, raw_owner, owner, value, match_case).errors.len() == 0,
        content_scope_build(places, raw_owner, owner, value, match_case).rules == content@,
    ensures
        declare_content(value, content),
{
    if let Some(JsonSpec::Array(values)) = value {
        let count = values.len() as int;
        content_lists_are_read_in_order(places, raw_owner, owner, values, match_case, count);
        let build = content_list_build(places, raw_owner, owner, values, match_case, count);
        let rules = content->Declared_0;
        assert(content_rule_specs(rules@).len() == rules@.len());
        assert forall|at: int| 0 <= at < values.len() implies declares_content(
            values[at],
            #[trigger] rules@[at],
        ) by {
            assert(content_rule_specs(rules@)[at] == rules@[at]@);
            assert(build.rules->0[at] == rules@[at]@);
            content_is_read_from_its_declaration(
                places,
                raw_owner,
                at as usize,
                values[at],
                match_case,
                rules@[at],
            );
        }
    }
}

} // verus!
