//! The JSON value domain that schema documents are validated in.

use vstd::prelude::*;

use crate::text::{same_text, text_less, text_order};

verus! {

/// A JSON value. An object keeps its members ordered by name, each name once.
#[derive(Debug, PartialEq, Eq)]
pub enum Json {
    /// `null`
    Null,
    /// `true` or `false`
    Bool(bool),
    /// A number, in its exact spelling.
    Number(String),
    /// A string.
    Text(String),
    /// An array.
    Array(Vec<Json>),
    /// An object.
    Object(Vec<(String, Json)>),
}

/// What a JSON value is.
#[verifier::ext_equal]
pub enum JsonSpec {
    /// See [`Json::Null`].
    Null,
    /// See [`Json::Bool`].
    Bool(bool),
    /// See [`Json::Number`].
    Number(Seq<char>),
    /// See [`Json::Text`].
    Text(Seq<char>),
    /// See [`Json::Array`].
    Array(Seq<JsonSpec>),
    /// See [`Json::Object`].
    Object(Seq<(Seq<char>, JsonSpec)>),
}

impl View for Json {
    type V = JsonSpec;

    open spec fn view(&self) -> JsonSpec {
        json_spec(*self)
    }
}

/// What `value` is.
pub open spec fn json_spec(value: Json) -> JsonSpec
    decreases value,
{
    match value {
        Json::Null => JsonSpec::Null,
        Json::Bool(value) => JsonSpec::Bool(value),
        Json::Number(spelling) => JsonSpec::Number(spelling@),
        Json::Text(text) => JsonSpec::Text(text@),
        Json::Array(items) => JsonSpec::Array(item_specs(items@)),
        Json::Object(members) => JsonSpec::Object(member_specs(members@)),
    }
}

/// What the items of an array are.
pub open spec fn item_specs(items: Seq<Json>) -> Seq<JsonSpec>
    decreases items,
{
    Seq::new(
        items.len(),
        |at: int|
            if 0 <= at < items.len() {
                json_spec(items[at])
            } else {
                JsonSpec::Null
            },
    )
}

/// What the members of an object are.
pub open spec fn member_specs(members: Seq<(String, Json)>) -> Seq<(Seq<char>, JsonSpec)>
    decreases members,
{
    Seq::new(
        members.len(),
        |at: int|
            if 0 <= at < members.len() {
                (members[at].0@, json_spec(members[at].1))
            } else {
                (Seq::empty(), JsonSpec::Null)
            },
    )
}

/// The members of an object value.
pub open spec fn members_of(value: JsonSpec) -> Seq<(Seq<char>, JsonSpec)> {
    match value {
        JsonSpec::Object(members) => members,
        _ => Seq::empty(),
    }
}

/// Where the member called `name` stands, from `from` on.
pub open spec fn member_index(
    members: Seq<(Seq<char>, JsonSpec)>,
    name: Seq<char>,
    from: int,
) -> Option<int>
    decreases members.len() - from,
{
    if from < 0 || from >= members.len() {
        None
    } else if members[from].0 == name {
        Some(from)
    } else {
        member_index(members, name, from + 1)
    }
}

/// The value of the member called `name`.
pub open spec fn member(members: Seq<(Seq<char>, JsonSpec)>, name: Seq<char>) -> Option<JsonSpec> {
    match member_index(members, name, 0) {
        None => None,
        Some(at) => Some(members[at].1),
    }
}

/// A found member stands where it was found, under its name.
pub proof fn member_index_bounds(members: Seq<(Seq<char>, JsonSpec)>, name: Seq<char>, from: int)
    requires
        0 <= from <= members.len(),
    ensures
        member_index(members, name, from) matches Some(at) ==> from <= at < members.len()
            && members[at].0 == name,
        member_index(members, name, from) is None ==> forall|at: int|
            from <= at < members.len() ==> (#[trigger] members[at]).0 != name,
    decreases members.len() - from,
{
    if from < members.len() && members[from].0 != name {
        member_index_bounds(members, name, from + 1);
    }
}

/// The position at which a member called `name` keeps the members ordered.
pub open spec fn place_for(members: Seq<(Seq<char>, JsonSpec)>, name: Seq<char>) -> int
    decreases members.len(),
{
    if members.len() == 0 {
        0
    } else if text_order(name, members.last().0) {
        place_for(members.drop_last(), name)
    } else {
        members.len() as int
    }
}

/// The members with one more, in its place.
pub open spec fn with_member(
    members: Seq<(Seq<char>, JsonSpec)>,
    name: Seq<char>,
    value: JsonSpec,
) -> Seq<(Seq<char>, JsonSpec)> {
    members.insert(place_for(members, name), (name, value))
}

impl Json {
    /// The members, if this is an object.
    pub fn as_object(&self) -> (members: Option<&Vec<(String, Json)>>)
        ensures
            members is Some <==> self@ is Object,
            members matches Some(members) ==> self@ == JsonSpec::Object(member_specs(members@)),
    {
        match self {
            Json::Object(members) => Some(members),
            _ => None,
        }
    }

    /// The items, if this is an array.
    pub fn as_array(&self) -> (items: Option<&Vec<Json>>)
        ensures
            items is Some <==> self@ is Array,
            items matches Some(items) ==> self@ == JsonSpec::Array(item_specs(items@)),
    {
        match self {
            Json::Array(items) => Some(items),
            _ => None,
        }
    }

    /// The text, if this is a string.
    pub fn as_str(&self) -> (text: Option<&str>)
        ensures
            text is Some <==> self@ is Text,
            text matches Some(text) ==> self@ == JsonSpec::Text(text@),
    {
        match self {
            Json::Text(text) => Some(text.as_str()),
            _ => None,
        }
    }

    /// Whether this is a boolean.
    pub fn is_boolean(&self) -> (boolean: bool)
        ensures
            boolean == (self@ is Bool),
    {
        matches!(self, Json::Bool(_))
    }

    /// The boolean, if this is one.
    pub fn as_bool(&self) -> (value: Option<bool>)
        ensures
            value == match self@ {
                JsonSpec::Bool(value) => Some(value),
                _ => None,
            },
    {
        match self {
            Json::Bool(value) => Some(*value),
            _ => None,
        }
    }

    /// A copy of the value.
    pub fn copy(&self) -> (value: Json)
        ensures
            value@ == self@,
        decreases self,
    {
        match self {
            Json::Null => Json::Null,
            Json::Bool(value) => Json::Bool(*value),
            Json::Number(spelling) => Json::Number(spelling.clone()),
            Json::Text(text) => Json::Text(text.clone()),
            Json::Array(items) => Json::Array(copy_items(items)),
            Json::Object(members) => Json::Object(copy_members(members)),
        }
    }
}

fn copy_items(items: &Vec<Json>) -> (copies: Vec<Json>)
    ensures
        item_specs(copies@) == item_specs(items@),
    decreases items,
{
    let mut copies: Vec<Json> = Vec::new();
    let mut at: usize = 0;
    while at < items.len()
        invariant
            at <= items@.len(),
            copies@.len() == at,
            forall|k: int| 0 <= k < at ==> (#[trigger] copies@[k])@ == items@[k]@,
        decreases items.len() - at,
    {
        copies.push(items[at].copy());
        at += 1;
    }
    assert(item_specs(copies@) =~= item_specs(items@));
    copies
}

fn copy_members(members: &Vec<(String, Json)>) -> (copies: Vec<(String, Json)>)
    ensures
        member_specs(copies@) == member_specs(members@),
    decreases members,
{
    let mut copies: Vec<(String, Json)> = Vec::new();
    let mut at: usize = 0;
    while at < members.len()
        invariant
            at <= members@.len(),
            copies@.len() == at,
            forall|k: int|
                0 <= k < at ==> (#[trigger] copies@[k]).0@ == members@[k].0@ && copies@[k].1@
                    == members@[k].1@,
        decreases members.len() - at,
    {
        copies.push((members[at].0.clone(), members[at].1.copy()));
        at += 1;
    }
    assert(member_specs(copies@) =~= member_specs(members@));
    copies
}

impl Clone for Json {
    fn clone(&self) -> (value: Self)
        ensures
            value@ == self@,
    {
        self.copy()
    }
}

/// The value of the member called `name`.
pub fn get_member<'j>(members: &'j Vec<(String, Json)>, name: &str) -> (value: Option<&'j Json>)
    ensures
        value is Some <==> member(member_specs(members@), name@) is Some,
        value matches Some(value) ==> member(member_specs(members@), name@) == Some(value@)
            && exists|at: int| 0 <= at < members@.len() && members@[at].1 == *value,
{
    let ghost specs = member_specs(members@);
    let mut at: usize = 0;
    while at < members.len()
        invariant
            at <= members@.len(),
            specs == member_specs(members@),
            member_index(specs, name@, 0) == member_index(specs, name@, at as int),
        decreases members.len() - at,
    {
        if same_text(members[at].0.as_str(), name) {
            assert(members@[at as int].1 == members[at as int].1);
            return Some(&members[at].1);
        }
        at += 1;
    }
    None
}

/// Adds a member in its place.
pub fn insert_member(members: &mut Vec<(String, Json)>, name: String, value: Json)
    ensures
        member_specs(final(members)@) == with_member(
            member_specs(old(members)@),
            name@,
            value@,
        ),
{
    let ghost specs = member_specs(members@);
    let mut at: usize = members.len();
    assert(specs.take(specs.len() as int) =~= specs);
    while at > 0 && text_less(name.as_str(), members[at - 1].0.as_str())
        invariant
            at <= members@.len(),
            members@ == old(members)@,
            specs == member_specs(members@),
            place_for(specs, name@) == place_for(specs.take(at as int), name@),
        decreases at,
    {
        proof {
            assert(specs.take(at as int).drop_last() =~= specs.take(at - 1));
        }
        at -= 1;
    }
    proof {
        if at > 0 {
            assert(specs.take(at as int).last() == specs[at - 1]);
        }
    }
    members.insert(at, (name, value));
    assert(member_specs(members@) =~= specs.insert(at as int, (name@, value@)));
}

/// Members in strictly increasing order of their names.
pub open spec fn ordered(members: Seq<(Seq<char>, JsonSpec)>) -> bool {
    forall|left: int, right: int|
        0 <= left < right < members.len() ==> text_order(
            (#[trigger] members[left]).0,
            (#[trigger] members[right]).0,
        )
}

/// A new member keeps the members ordered, and its name single.
pub proof fn with_member_keeps_order(
    members: Seq<(Seq<char>, JsonSpec)>,
    name: Seq<char>,
    value: JsonSpec,
)
    requires
        ordered(members),
        member(members, name) is None,
    ensures
        ordered(with_member(members, name, value)),
        member(with_member(members, name, value), name) == Some(value),
{
    member_index_bounds(members, name, 0);
    let place = place_for(members, name);
    place_for_splits(members, name);
    let after = with_member(members, name, value);
    assert forall|left: int, right: int|
        0 <= left < right < after.len() implies text_order(
        (#[trigger] after[left]).0,
        (#[trigger] after[right]).0,
    ) by {
        if left == place {
            assert(after[right] == members[right - 1]);
            assert(text_order(name, members[right - 1].0));
        } else if right == place {
            assert(after[left] == members[left]);
            crate::text::text_order_is_total(members[left].0, name);
        } else {
            let l = if left < place {
                left
            } else {
                left - 1
            };
            let r = if right < place {
                right
            } else {
                right - 1
            };
            assert(after[left] == members[l]);
            assert(after[right] == members[r]);
        }
    }
    member_index_bounds(after, name, 0);
    assert(after[place].0 == name);
    if let Some(at) = member_index(after, name, 0) {
        if at != place {
            let before = if at < place {
                at
            } else {
                at - 1
            };
            assert(after[at] == members[before]);
        }
    }
}

proof fn place_for_splits(members: Seq<(Seq<char>, JsonSpec)>, name: Seq<char>)
    ensures
        0 <= place_for(members, name) <= members.len(),
        forall|at: int|
            place_for(members, name) <= at < members.len() ==> text_order(
                name,
                (#[trigger] members[at]).0,
            ),
        ordered(members) ==> forall|at: int|
            0 <= at < place_for(members, name) ==> !text_order(name, (#[trigger] members[at]).0),
    decreases members.len(),
{
    if members.len() > 0 {
        let before = members.drop_last();
        if text_order(name, members.last().0) {
            place_for_splits(before, name);
            assert forall|at: int|
                place_for(members, name) <= at < members.len() implies text_order(
                name,
                (#[trigger] members[at]).0,
            ) by {
                if at < before.len() {
                    assert(before[at] == members[at]);
                }
            }
            if ordered(members) {
                assert(ordered(before)) by {
                    assert forall|left: int, right: int|
                        0 <= left < right < before.len() implies text_order(
                        (#[trigger] before[left]).0,
                        (#[trigger] before[right]).0,
                    ) by {
                        assert(before[left] == members[left]);
                        assert(before[right] == members[right]);
                    }
                }
                assert forall|at: int|
                    0 <= at < place_for(members, name) implies !text_order(
                    name,
                    (#[trigger] members[at]).0,
                ) by {
                    assert(before[at] == members[at]);
                }
            }
        } else if ordered(members) {
            assert forall|at: int| 0 <= at < members.len() implies !text_order(
                name,
                (#[trigger] members[at]).0,
            ) by {
                if text_order(name, members[at].0) && at < members.len() - 1 {
                    assert(text_order(members[at].0, members[members.len() - 1].0));
                    crate::text::text_order_is_transitive(
                        name,
                        members[at].0,
                        members.last().0,
                    );
                }
            }
        }
    }
}

/// The number of values in a JSON value, itself and all below it.
pub open spec fn json_weight(value: JsonSpec) -> nat
    decreases value, 0int,
{
    match value {
        JsonSpec::Array(items) => 1 + items_weight(items, items.len() as int),
        JsonSpec::Object(members) => 1 + members_weight(members, members.len() as int),
        _ => 1,
    }
}

/// The number of values in the first `count` items of an array.
pub open spec fn items_weight(items: Seq<JsonSpec>, count: int) -> nat
    decreases items, count,
{
    if count <= 0 || count > items.len() {
        0
    } else {
        items_weight(items, count - 1) + json_weight(items[count - 1])
    }
}

/// The number of values in the first `count` members of an object.
pub open spec fn members_weight(members: Seq<(Seq<char>, JsonSpec)>, count: int) -> nat
    decreases members, count,
{
    if count <= 0 || count > members.len() {
        0
    } else {
        members_weight(members, count - 1) + json_weight(members[count - 1].1)
    }
}

/// An item weighs no more than the items together.
pub proof fn item_weight_bound(items: Seq<JsonSpec>, count: int, at: int)
    requires
        0 <= at < count <= items.len(),
    ensures
        json_weight(items[at]) <= items_weight(items, count),
    decreases count,
{
    if at < count - 1 {
        item_weight_bound(items, count - 1, at);
    }
}

/// A member weighs no more than the members together.
pub proof fn member_weight_bound(members: Seq<(Seq<char>, JsonSpec)>, count: int, at: int)
    requires
        0 <= at < count <= members.len(),
    ensures
        json_weight(members[at].1) <= members_weight(members, count),
    decreases count,
{
    if at < count - 1 {
        member_weight_bound(members, count - 1, at);
    }
}

} // verus!
