//! What scalars, YAML values and references of JSON Schemas are read as.

use vstd::prelude::*;

use crate::json::{
    json_weight, member, member_index, member_index_bounds, place_for, with_member, Json, JsonSpec,
};
use crate::json_value::{
    both, external_references, inner_references, keyword_references, keyword_schemas,
    keywords_schemas, logical_base_of, subschemas, subschemas_weigh_less, uri_resolved,
    without_fragment,
};
use crate::load_result::{kind_spelling, SchemaErrorKind};
use crate::scalar::{
    canonical_float_of, canonical_integer_of, natural, natural_of_decimal, radix_digit,
    radix_of, radix_value, scalar_of, unsigned, without_plus, FrontmatterScalar,
};
use crate::text::{decimal, decimal_is_canonical, find_either_is, is_digit};
use crate::yaml::convert::{
    items_json, json_of, key_name, members_json, scalar_json, YamlValueError,
};
use crate::yaml::reader::YamlFault;
use crate::yaml::tree::{ScalarText, Tree, TreeKind};

verus! {

proof fn words_differ()
    ensures
        ""@.len() == 0,
        "~"@.len() == 1,
        "null"@.len() == 4 && "null"@[0] == 'n',
        "Null"@.len() == 4 && "Null"@[0] == 'N',
        "NULL"@.len() == 4 && "NULL"@[0] == 'N',
        "true"@.len() == 4 && "true"@[0] == 't',
        "True"@.len() == 4 && "True"@[0] == 'T',
        "TRUE"@.len() == 4 && "TRUE"@[0] == 'T',
        "false"@.len() == 5 && "False"@.len() == 5 && "FALSE"@.len() == 5,
{
    reveal_strlit("");
    reveal_strlit("~");
    reveal_strlit("null");
    reveal_strlit("Null");
    reveal_strlit("NULL");
    reveal_strlit("true");
    reveal_strlit("True");
    reveal_strlit("TRUE");
    reveal_strlit("false");
    reveal_strlit("False");
    reveal_strlit("FALSE");
}

/// Whether a text spells null.
pub open spec fn spells_null(text: Seq<char>) -> bool {
    text == ""@ || text == "~"@ || text == "null"@ || text == "Null"@ || text == "NULL"@
}

/// Whether a text spells a truth value.
pub open spec fn spells_truth(text: Seq<char>, value: bool) -> bool {
    if value {
        text == "true"@ || text == "True"@ || text == "TRUE"@
    } else {
        text == "false"@ || text == "False"@ || text == "FALSE"@
    }
}

/// A scalar is of the kind that its text spells: null, a truth value, a number,
/// or else the text itself.
pub proof fn scalars_are_of_the_kind_they_spell(text: Seq<char>, scalar: FrontmatterScalar)
    requires
        scalar@ == scalar_of(text),
    ensures
        scalar is Null <==> spells_null(text),
        scalar == FrontmatterScalar::Boolean(true) <==> spells_truth(text, true),
        scalar == FrontmatterScalar::Boolean(false) <==> spells_truth(text, false),
        match scalar {
            FrontmatterScalar::String(own) => own@ == text && canonical_integer_of(text) is None
                && canonical_float_of(text) is None,
            FrontmatterScalar::Integer(number) => canonical_integer_of(text) == Some(number.0@),
            FrontmatterScalar::Float(number) => canonical_float_of(text) == Some(number.0@)
                && canonical_integer_of(text) is None,
            _ => true,
        },
{
    words_differ();
}

/// A decimal numeral is read as itself, a plus before it does not count, and a
/// minus stays, but before zero.
pub proof fn decimal_integers_keep_their_value(value: nat)
    ensures
        canonical_integer_of(decimal(value)) == Some(decimal(value)),
        canonical_integer_of("+"@ + decimal(value)) == Some(decimal(value)),
        canonical_integer_of("-"@ + decimal(value)) == Some(
            if value == 0 {
                decimal(value)
            } else {
                "-"@ + decimal(value)
            },
        ),
{
    reveal_strlit("+");
    reveal_strlit("-");
    let digits = decimal(value);
    decimal_is_canonical(value);
    natural_of_decimal(digits);
    assert(is_digit(digits[0]));
    if digits.len() >= 2 {
        assert(is_digit(digits[1]));
    }
    assert(radix_of(digits) == (10nat, digits));
    assert(unsigned(digits) == digits);
    assert(unsigned("+"@ + digits) =~= digits);
    assert(unsigned("-"@ + digits) =~= digits);
    assert(decimal(0) =~= seq!['0']);
    assert(seq!['-'] + digits =~= "-"@ + digits);
    assert(Seq::<char>::empty() + digits =~= digits);
}

/// The value of a digit, in letters behind the nine.
pub open spec fn digit_of(character: char) -> int {
    if '0' <= character <= '9' {
        character as int - '0' as int
    } else if 'a' <= character <= 'z' {
        10 + character as int - 'a' as int
    } else if 'A' <= character <= 'Z' {
        10 + character as int - 'A' as int
    } else {
        36
    }
}

/// The prefix of integers in base eight or sixteen.
pub open spec fn base_prefix(base: int) -> Seq<char> {
    if base == 8 {
        "0o"@
    } else {
        "0x"@
    }
}

proof fn based_integers_are_natural(base: int, digits: Seq<char>)
    requires
        base == 8 || base == 16,
    ensures
        canonical_integer_of(base_prefix(base) + digits) is Some <==> digits.len() > 0 && natural(
            digits,
            base as nat,
        ) is Some,
        canonical_integer_of(base_prefix(base) + digits) matches Some(numeral) ==> numeral
            == decimal(natural(digits, base as nat)->0),
{
    reveal_strlit("0o");
    reveal_strlit("0x");
    let text = base_prefix(base) + digits;
    assert(text[0] == '0');
    assert(unsigned(text) == text);
    assert(text.skip(2) =~= digits);
    assert(decimal(0) =~= seq!['0']);
    if let Some(value) = natural(digits, base as nat) {
        assert(Seq::<char>::empty() + decimal(value) =~= decimal(value));
    }
}

/// An integer behind `0o` or `0x` is read by its digits in base eight or
/// sixteen: one digit counts itself, and every further one moves the others up.
pub proof fn based_integers_grow_by_their_digits(
    base: int,
    digits: Seq<char>,
    digit: char,
    value: nat,
)
    requires
        base == 8 || base == 16,
        digit_of(digit) < base,
    ensures
        canonical_integer_of(base_prefix(base) + seq![digit]) == Some(
            decimal(digit_of(digit) as nat),
        ),
        canonical_integer_of(base_prefix(base) + digits) == Some(decimal(value))
            ==> canonical_integer_of(base_prefix(base) + digits.push(digit)) == Some(
            decimal((base * value + digit_of(digit)) as nat),
        ),
{
    let one = seq![digit];
    based_integers_are_natural(base, one);
    assert(without_plus(one) == one);
    assert(one.drop_last() =~= Seq::empty());
    assert(radix_value(one.drop_last(), base as nat) == 0);
    assert(base as nat * 0 == 0) by (nonlinear_arith);
    assert(natural(one, base as nat) == Some(digit_of(digit) as nat));
    if canonical_integer_of(base_prefix(base) + digits) == Some(decimal(value)) {
        based_integers_are_natural(base, digits);
        based_integers_are_natural(base, digits.push(digit));
        let read = natural(digits, base as nat)->0;
        decimal_is_canonical(value);
        decimal_is_canonical(read);
        assert(read == value);
        let own = without_plus(digits);
        let more = without_plus(digits.push(digit));
        assert(more =~= own.push(digit));
        assert(more.drop_last() =~= own);
        assert forall|at: int| 0 <= at < more.len() implies (#[trigger] more[at]) == '_'
            || radix_digit(more[at]) < base as nat by {
            if at < own.len() {
                assert(own[at] == more[at]);
            }
        }
        assert(more[0] == own[0]);
    }
}

/// A YAML scalar in quotes is a text; a plain one is what its text spells, and a
/// tagged one is of the kind of its tag.
pub proof fn yaml_scalars_are_of_the_kind_they_spell(scalar: ScalarText, value: Json)
    requires
        scalar_json(scalar) == Ok::<JsonSpec, YamlValueError>(value@),
    ensures
        match scalar.tag {
            None => if scalar.style == 0 {
                &&& value is Null <==> spells_null(scalar.value)
                &&& value == Json::Bool(true) <==> spells_truth(scalar.value, true)
                &&& value == Json::Bool(false) <==> spells_truth(scalar.value, false)
                &&& value matches Json::Text(text) ==> text@ == scalar.value
                &&& value matches Json::Number(number) ==> {
                    ||| canonical_integer_of(scalar.value) == Some(number@)
                    ||| canonical_float_of(scalar.value) == Some(number@)
                }
                &&& value is Number <==> !spells_null(scalar.value) && !spells_truth(
                    scalar.value,
                    true,
                ) && !spells_truth(scalar.value, false) && (canonical_integer_of(
                    scalar.value,
                ) is Some || canonical_float_of(scalar.value) is Some)
            } else {
                value matches Json::Text(text) && text@ == scalar.value
            },
            Some(tag) => match value {
                Json::Null => tag.suffix == "null"@ && spells_null(scalar.value),
                Json::Bool(truth) => tag.suffix == "bool"@ && spells_truth(scalar.value, truth),
                Json::Number(number) => (tag.suffix == "int"@ || tag.suffix == "float"@) && {
                    ||| canonical_integer_of(scalar.value) == Some(number@)
                    ||| tag.suffix == "float"@ && canonical_float_of(scalar.value) == Some(number@)
                },
                Json::Text(text) => tag.suffix == "str"@ && text@ == scalar.value,
                _ => false,
            },
        },
{
    words_differ();
}

/// The values of a YAML sequence are those of its items, in order.
pub proof fn sequences_hold_the_values_of_their_items(items: Seq<Tree>, values: Seq<JsonSpec>)
    requires
        items_json(items) == Ok::<Seq<JsonSpec>, YamlFault>(values),
    ensures
        values.len() == items.len(),
        forall|at: int|
            0 <= at < items.len() ==> json_of(#[trigger] items[at]) == Ok::<JsonSpec, YamlFault>(
                values[at],
            ),
    decreases items.len(),
{
    if items.len() > 0 {
        let before = values.drop_last();
        let earlier = items_json(items.drop_last())->Ok_0;
        assert(values == earlier.push(values.last()));
        assert(before =~= earlier);
        sequences_hold_the_values_of_their_items(items.drop_last(), before);
        assert forall|at: int| 0 <= at < items.len() implies json_of(#[trigger] items[at]) == Ok::<
            JsonSpec,
            YamlFault,
        >(values[at]) by {
            if at < items.len() - 1 {
                assert(items.drop_last()[at] == items[at]);
            }
        }
    }
}

proof fn places_are_inside(members: Seq<(Seq<char>, JsonSpec)>, name: Seq<char>)
    ensures
        0 <= place_for(members, name) <= members.len(),
    decreases members.len(),
{
    if members.len() > 0 {
        places_are_inside(members.drop_last(), name);
    }
}

pub(crate) proof fn first_members_are_found(
    members: Seq<(Seq<char>, JsonSpec)>,
    name: Seq<char>,
    from: int,
    at: int,
)
    requires
        0 <= from <= at < members.len(),
        members[at].0 == name,
        forall|k: int| from <= k < at ==> (#[trigger] members[k]).0 != name,
    ensures
        member_index(members, name, from) == Some(at),
    decreases at - from,
{
    if from < at {
        first_members_are_found(members, name, from + 1, at);
    }
}

pub(crate) proof fn first_members_come_first(
    members: Seq<(Seq<char>, JsonSpec)>,
    name: Seq<char>,
    from: int,
    at: int,
)
    requires
        0 <= from <= at,
        member_index(members, name, from) == Some(at),
    ensures
        forall|k: int| from <= k < at ==> (#[trigger] members[k]).0 != name,
    decreases at - from,
{
    if from < members.len() && members[from].0 != name {
        if from < at {
            first_members_come_first(members, name, from + 1, at);
        }
    }
}

pub(crate) proof fn new_members_are_found(
    members: Seq<(Seq<char>, JsonSpec)>,
    name: Seq<char>,
    value: JsonSpec,
    other: Seq<char>,
)
    requires
        member(members, name) is None,
    ensures
        ({
            let after = with_member(members, name, value);
            &&& after.len() == members.len() + 1
            &&& member(after, name) == Some(value)
            &&& other != name ==> member(after, other) == member(members, other)
        }),
{
    places_are_inside(members, name);
    let place = place_for(members, name);
    let after = with_member(members, name, value);
    member_index_bounds(members, name, 0);
    assert forall|k: int| 0 <= k < place implies (#[trigger] after[k]).0 != name by {
        assert(after[k] == members[k]);
    }
    first_members_are_found(after, name, 0, place);
    if other != name {
        member_index_bounds(members, other, 0);
        member_index_bounds(after, other, 0);
        match member_index(members, other, 0) {
            Some(at) => {
                first_members_come_first(members, other, 0, at);
                let moved = if at < place {
                    at
                } else {
                    at + 1
                };
                assert(after[moved] == members[at]);
                assert forall|k: int| 0 <= k < moved implies (#[trigger] after[k]).0 != other by {
                    if k < place {
                        assert(after[k] == members[k]);
                    } else if k > place {
                        assert(after[k] == members[k - 1]);
                    }
                }
                first_members_are_found(after, other, 0, moved);
            },
            None => {
                if let Some(at) = member_index(after, other, 0) {
                    if at < place {
                        assert(after[at] == members[at]);
                    } else if at > place {
                        assert(after[at] == members[at - 1]);
                    }
                }
            },
        }
    }
}

/// The members of a YAML mapping are those that its entries name, each with the
/// value of its entry.
pub proof fn mappings_hold_the_values_of_their_entries(
    entries: Seq<(Tree, Tree)>,
    members: Seq<(Seq<char>, JsonSpec)>,
)
    requires
        members_json(entries) == Ok::<Seq<(Seq<char>, JsonSpec)>, YamlFault>(members),
    ensures
        members.len() == entries.len(),
        forall|at: int|
            0 <= at < entries.len() ==> {
                let entry = #[trigger] entries[at];
                &&& key_name(entry.0) is Ok
                &&& json_of(entry.1) is Ok
                &&& member(members, key_name(entry.0)->Ok_0) == Some(json_of(entry.1)->Ok_0)
            },
    decreases entries.len(),
{
    if entries.len() > 0 {
        let rest = entries.drop_last();
        let before = members_json(rest)->Ok_0;
        mappings_hold_the_values_of_their_entries(rest, before);
        let name = key_name(entries.last().0)->Ok_0;
        let value = json_of(entries.last().1)->Ok_0;
        new_members_are_found(before, name, value, name);
        assert forall|at: int| 0 <= at < entries.len() implies ({
            let entry = #[trigger] entries[at];
            &&& key_name(entry.0) is Ok
            &&& json_of(entry.1) is Ok
            &&& member(members, key_name(entry.0)->Ok_0) == Some(json_of(entry.1)->Ok_0)
        }) by {
            if at < rest.len() {
                assert(rest[at] == entries[at]);
                let other = key_name(entries[at].0)->Ok_0;
                new_members_are_found(before, name, value, other);
            }
        }
    }
}

/// The key of a YAML mapping is a text: in quotes as it stands, and plain where
/// it spells nothing else.
pub proof fn keys_are_texts(key: Tree, name: Seq<char>)
    requires
        key_name(key) == Ok::<Seq<char>, YamlFault>(name),
    ensures
        key.kind matches TreeKind::Scalar(scalar) && scalar.value == name,
{
}

proof fn schema_keywords_differ()
    ensures
        "additionalProperties"@.len() == 20,
        "contains"@.len() == 8,
        "contentSchema"@.len() == 13,
        "else"@.len() == 4,
        "if"@.len() == 2,
        "items"@.len() == 5,
        "not"@.len() == 3,
        "propertyNames"@.len() == 13,
        "then"@.len() == 4,
        "unevaluatedItems"@.len() == 16,
        "unevaluatedProperties"@.len() == 21,
        "allOf"@.len() == 5,
        "anyOf"@.len() == 5,
        "oneOf"@.len() == 5,
        "prefixItems"@.len() == 11,
        "$defs"@.len() == 5,
        "definitions"@.len() == 11,
        "dependentSchemas"@.len() == 16,
        "patternProperties"@.len() == 17,
        "properties"@.len() == 10,
        "items"@[0] == 'i' && "allOf"@[0] == 'a' && "anyOf"@[0] == 'a' && "oneOf"@[0] == 'o',
        "$defs"@[0] == '$' && "dependentSchemas"@[0] == 'd' && "unevaluatedItems"@[0] == 'u',
{
    reveal_strlit("additionalProperties");
    reveal_strlit("contains");
    reveal_strlit("contentSchema");
    reveal_strlit("else");
    reveal_strlit("if");
    reveal_strlit("items");
    reveal_strlit("not");
    reveal_strlit("propertyNames");
    reveal_strlit("then");
    reveal_strlit("unevaluatedItems");
    reveal_strlit("unevaluatedProperties");
    reveal_strlit("allOf");
    reveal_strlit("anyOf");
    reveal_strlit("oneOf");
    reveal_strlit("prefixItems");
    reveal_strlit("$defs");
    reveal_strlit("definitions");
    reveal_strlit("dependentSchemas");
    reveal_strlit("patternProperties");
    reveal_strlit("properties");
}

/// A schema stands below another under every keyword that holds one, lists
/// some or names some.
pub proof fn schemas_stand_below_their_keywords(
    members: Seq<(Seq<char>, JsonSpec)>,
    at: int,
    below: JsonSpec,
)
    requires
        0 <= at < members.len(),
        ({
            let (keyword, value) = members[at];
            ||| {
                &&& value == below
                &&& {
                    ||| keyword == "additionalProperties"@
                    ||| keyword == "contains"@
                    ||| keyword == "contentSchema"@
                    ||| keyword == "else"@
                    ||| keyword == "if"@
                    ||| keyword == "items"@
                    ||| keyword == "not"@
                    ||| keyword == "propertyNames"@
                    ||| keyword == "then"@
                    ||| keyword == "unevaluatedItems"@
                    ||| keyword == "unevaluatedProperties"@
                }
            }
            ||| {
                &&& value matches JsonSpec::Array(items) && items.contains(below)
                &&& {
                    ||| keyword == "allOf"@
                    ||| keyword == "anyOf"@
                    ||| keyword == "oneOf"@
                    ||| keyword == "prefixItems"@
                }
            }
            ||| {
                &&& value matches JsonSpec::Object(named) && exists|k: int|
                    0 <= k < named.len() && (#[trigger] named[k]).1 == below
                &&& {
                    ||| keyword == "$defs"@
                    ||| keyword == "definitions"@
                    ||| keyword == "dependentSchemas"@
                    ||| keyword == "patternProperties"@
                    ||| keyword == "properties"@
                }
            }
        }),
    ensures
        subschemas(JsonSpec::Object(members)).contains(below),
{
    schema_keywords_differ();
    let (keyword, value) = members[at];
    let own = keyword_schemas(keyword, value);
    assert(own.contains(below)) by {
        if value == below && own.len() == 1 {
            assert(own[0] == below);
        }
        if let JsonSpec::Object(named) = value {
            if own.len() == named.len() && exists|k: int|
                0 <= k < named.len() && (#[trigger] named[k]).1 == below {
                let k = choose|k: int| 0 <= k < named.len() && (#[trigger] named[k]).1 == below;
                assert(own[k] == below || own.contains(below));
            }
        }
    }
    keywords_keep_their_schemas(members, members.len() as int, at, below);
}

proof fn keywords_keep_their_schemas(
    members: Seq<(Seq<char>, JsonSpec)>,
    count: int,
    at: int,
    below: JsonSpec,
)
    requires
        0 <= at < count <= members.len(),
        keyword_schemas(members[at].0, members[at].1).contains(below),
    ensures
        keywords_schemas(members, count).contains(below),
    decreases count,
{
    let before = keywords_schemas(members, count - 1);
    let own = keyword_schemas(members[count - 1].0, members[count - 1].1);
    let all = keywords_schemas(members, count);
    assert(all == before + own);
    if at < count - 1 {
        keywords_keep_their_schemas(members, count - 1, at, below);
        let k = choose|k: int| 0 <= k < before.len() && before[k] == below;
        assert(all[k] == below);
    } else {
        let k = choose|k: int| 0 <= k < own.len() && own[k] == below;
        assert(all[before.len() + k] == below);
    }
}

/// What stands before the first `#` of a URI is left without its fragment.
pub proof fn fragments_start_at_the_first_sign(before: Seq<char>, rest: Seq<char>)
    requires
        !before.contains('#'),
    ensures
        without_fragment(before) == before,
        without_fragment(before + "#"@ + rest) == before,
{
    reveal_strlit("#");
    let whole = before + "#"@ + rest;
    let sign = before.len() as int;
    assert forall|at: int| 0 <= at < sign implies before[at] != '#' by {
        assert(before.contains(before[at]));
    }
    find_either_is(before, '#', '#', 0, sign);
    assert(before.take(sign) =~= before);
    assert forall|at: int| 0 <= at < sign implies whole[at] != '#' by {
        assert(whole[at] == before[at]);
    }
    assert(whole[sign] == '#');
    find_either_is(whole, '#', '#', 0, sign);
    assert(whole.take(sign) =~= before);
}

/// The base against which the references of a schema are resolved: its own
/// `$id`, resolved against that of the schema around it.
pub open spec fn base_below(content: JsonSpec, inherited: Seq<char>, base: Seq<char>) -> bool {
    match content {
        JsonSpec::Object(members) => match member(members, "$id"@) {
            Some(JsonSpec::Text(identifier)) => uri_resolved(inherited, identifier) == Ok::<
                Seq<char>,
                Seq<char>,
            >(base),
            _ => base == inherited,
        },
        _ => base == inherited,
    }
}

/// The references of a schema hold what its `$ref` and `$dynamicRef` lead to,
/// with their fragments left out, and the references of all schemas below it.
pub proof fn references_hold_those_of_every_schema(
    members: Seq<(Seq<char>, JsonSpec)>,
    physical: Seq<char>,
    inherited: Seq<char>,
    base: Seq<char>,
    references: Seq<(Seq<char>, Seq<char>)>,
    keyword: Seq<char>,
    reference: Seq<char>,
    below: JsonSpec,
)
    requires
        base_below(JsonSpec::Object(members), inherited, base),
        external_references(JsonSpec::Object(members), physical, inherited) == Ok::<
            Seq<(Seq<char>, Seq<char>)>,
            Seq<char>,
        >(references),
        keyword == "$ref"@ || keyword == "$dynamicRef"@,
    ensures
        member(members, keyword) == Some(JsonSpec::Text(reference)) ==> {
            let near = uri_resolved(physical, reference);
            let far = uri_resolved(base, reference);
            &&& near is Ok && far is Ok
            &&& without_fragment(near->Ok_0).len() > 0 && without_fragment(far->Ok_0).len() > 0
                ==> references.contains(
                (without_fragment(near->Ok_0), without_fragment(far->Ok_0)),
            )
        },
        subschemas(JsonSpec::Object(members)).contains(below) ==> {
            &&& external_references(below, physical, base) is Ok
            &&& forall|at: int|
                0 <= at < external_references(below, physical, base)->Ok_0.len()
                    ==> references.contains(
                    #[trigger] external_references(below, physical, base)->Ok_0[at],
                )
        },
{
    let content = JsonSpec::Object(members);
    assert(logical_base_of(content, inherited) == Ok::<Seq<char>, Seq<char>>(base));
    let first = keyword_references(content, "$ref"@, physical, base);
    let second = keyword_references(content, "$dynamicRef"@, physical, base);
    let schemas = subschemas(content);
    let count = schemas.len() as int;
    let inner = inner_references(schemas, physical, base, count, json_weight(content));
    assert(external_references(content, physical, inherited) == both(both(first, second), inner));
    assert(references == first->Ok_0 + second->Ok_0 + inner->Ok_0);
    if member(members, keyword) == Some(JsonSpec::Text(reference)) {
        let near = uri_resolved(physical, reference);
        let far = uri_resolved(base, reference);
        assert(near is Ok && far is Ok);
        let pair = (without_fragment(near->Ok_0), without_fragment(far->Ok_0));
        if pair.0.len() > 0 && pair.1.len() > 0 {
            if keyword == "$ref"@ {
                assert(first->Ok_0[0] == pair);
                assert(references[0] == pair);
            } else {
                assert(second->Ok_0[0] == pair);
                assert(references[first->Ok_0.len() as int] == pair);
            }
        }
    }
    if schemas.contains(below) {
        let at = choose|at: int| 0 <= at < schemas.len() && schemas[at] == below;
        assert forall|k: int| 0 <= k < schemas.len() implies json_weight(#[trigger] schemas[k])
            < json_weight(content) by {
            subschemas_weigh_less(content, k);
        }
        inner_references_hold(schemas, physical, base, count, json_weight(content), at);
        let own = external_references(below, physical, base)->Ok_0;
        assert forall|k: int| 0 <= k < own.len() implies references.contains(
            #[trigger] own[k],
        ) by {
            assert(inner->Ok_0.contains(own[k]));
            let j = choose|j: int| 0 <= j < inner->Ok_0.len() && inner->Ok_0[j] == own[k];
            assert(references[first->Ok_0.len() + second->Ok_0.len() + j] == own[k]);
        }
    }
}

proof fn inner_references_hold(
    schemas: Seq<JsonSpec>,
    physical: Seq<char>,
    logical: Seq<char>,
    count: int,
    bound: nat,
    at: int,
)
    requires
        0 <= at < count <= schemas.len(),
        inner_references(schemas, physical, logical, count, bound) is Ok,
        forall|k: int| 0 <= k < schemas.len() ==> json_weight(#[trigger] schemas[k]) < bound,
    ensures
        external_references(schemas[at], physical, logical) is Ok,
        forall|k: int|
            0 <= k < external_references(schemas[at], physical, logical)->Ok_0.len()
                ==> inner_references(schemas, physical, logical, count, bound)->Ok_0.contains(
                #[trigger] external_references(schemas[at], physical, logical)->Ok_0[k],
            ),
    decreases count,
{
    let before = inner_references(schemas, physical, logical, count - 1, bound);
    let last = external_references(schemas[count - 1], physical, logical);
    let all = inner_references(schemas, physical, logical, count, bound);
    assert(json_weight(schemas[count - 1]) < bound);
    assert(all == both(before, last));
    assert(all->Ok_0 == before->Ok_0 + last->Ok_0);
    if at < count - 1 {
        inner_references_hold(schemas, physical, logical, count - 1, bound, at);
    }
    let own = external_references(schemas[at], physical, logical)->Ok_0;
    assert forall|k: int| 0 <= k < own.len() implies all->Ok_0.contains(#[trigger] own[k]) by {
        if at < count - 1 {
            let j = choose|j: int| 0 <= j < before->Ok_0.len() && before->Ok_0[j] == own[k];
            assert(all->Ok_0[j] == own[k]);
        } else {
            assert(all->Ok_0[before->Ok_0.len() + k] == own[k]);
        }
    }
}

/// The kinds of errors have stable names.
pub proof fn error_kinds_have_stable_names(kind: SchemaErrorKind)
    ensures
        kind_spelling(kind) == match kind {
            SchemaErrorKind::Syntax => "syntax"@,
            SchemaErrorKind::InvalidDocumentShape => "invalid-document-shape"@,
            SchemaErrorKind::UnsupportedVersion => "unsupported-version"@,
            SchemaErrorKind::DuplicateId => "duplicate-id"@,
            SchemaErrorKind::UnresolvedRef => "unresolved-ref"@,
            SchemaErrorKind::ForbiddenRef => "forbidden-ref"@,
            SchemaErrorKind::DuplicateRef => "duplicate-ref"@,
            SchemaErrorKind::ReservedId => "reserved-id"@,
            SchemaErrorKind::InvalidMatcher => "invalid-matcher"@,
            SchemaErrorKind::InvalidRepeat => "invalid-repeat"@,
            SchemaErrorKind::MissingCardinality => "missing-cardinality"@,
            SchemaErrorKind::InvalidCapture => "invalid-capture"@,
            SchemaErrorKind::InvalidOrder => "invalid-order"@,
            SchemaErrorKind::InvalidContentRule => "invalid-content-rule"@,
            SchemaErrorKind::UnreachableRule => "unreachable-rule"@,
            SchemaErrorKind::OrderedScopeMismatch => "ordered-scope-mismatch"@,
            SchemaErrorKind::ConflictingCardinality => "conflicting-cardinality"@,
            SchemaErrorKind::ConflictingFrontmatter => "conflicting-frontmatter"@,
            SchemaErrorKind::ConflictingOutline => "conflicting-outline"@,
            SchemaErrorKind::InvalidFrontmatterSchema => "invalid-frontmatter-schema"@,
        },
{
}

} // verus!
