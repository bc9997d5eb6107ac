//! Text primitives shared by the other modules: characters, decimal numerals,
//! and comparison of strings.

use vstd::prelude::*;

verus! {

/// `String::push` appends one character.
pub assume_specification[ std::string::String::push ](
    string: &mut std::string::String,
    character: char,
)
    ensures
        final(string)@ == old(string)@.push(character),
;

/// `==` on `str` compares the characters.
pub assume_specification[ <str as PartialEq>::eq ](left: &str, right: &str) -> (equal: bool)
    ensures
        equal == (left@ == right@),
;

/// Whether two texts hold the same characters.
pub fn same_text(left: &str, right: &str) -> (same: bool)
    ensures
        same == (left@ == right@),
{
    <str as PartialEq>::eq(left, right)
}

/// The ASCII lowercase letters.
pub open spec fn is_lower(character: char) -> bool {
    'a' <= character <= 'z'
}

/// The ASCII decimal digits.
pub open spec fn is_digit(character: char) -> bool {
    '0' <= character <= '9'
}

/// The characters of `text`, in order.
pub fn chars_of(text: &str) -> (chars: Vec<char>)
    ensures
        chars@ == text@,
{
    let mut chars: Vec<char> = Vec::new();
    for character in iter: text.chars()
        invariant
            chars@ == iter.seq().take(iter.index()),
            iter.seq() == text@,
    {
        chars.push(character);
    }
    chars
}

/// The text made of the characters `chars[from..to]`.
pub fn text_of(chars: &[char], from: usize, to: usize) -> (text: String)
    requires
        from <= to <= chars@.len(),
    ensures
        text@ == chars@.subrange(from as int, to as int),
{
    let mut text = String::new();
    let mut at: usize = from;
    while at < to
        invariant
            from <= at <= to <= chars@.len(),
            text@ == chars@.subrange(from as int, at as int),
        decreases to - at,
    {
        text.push(chars[at]);
        at += 1;
    }
    text
}

/// The value of the decimal digit `character`.
pub open spec fn digit_value(character: char) -> nat
    recommends
        is_digit(character),
{
    (character as int - '0' as int) as nat
}

/// The value of a run of decimal digits, most significant first.
pub open spec fn decimal_value(digits: Seq<char>) -> nat
    decreases digits.len(),
{
    if digits.len() == 0 {
        0
    } else {
        10 * decimal_value(digits.drop_last()) + digit_value(digits.last())
    }
}

/// The digit character of `value`.
pub open spec fn digit_char(value: nat) -> char
    recommends
        value < 10,
{
    ('0' as int + value) as char
}

/// The decimal numeral of `value`, without leading zeros.
pub open spec fn decimal(value: nat) -> Seq<char>
    decreases value,
{
    if value < 10 {
        seq![digit_char(value)]
    } else {
        decimal(value / 10).push(digit_char(value % 10))
    }
}

/// Every character of `text` is a decimal digit.
pub open spec fn all_digits(text: Seq<char>) -> bool {
    forall|at: int| 0 <= at < text.len() ==> is_digit(#[trigger] text[at])
}

/// A numeral is a non-empty run of digits without a leading zero, and its
/// value is the number it was made from.
pub proof fn decimal_is_canonical(value: nat)
    ensures
        decimal(value).len() > 0,
        all_digits(decimal(value)),
        decimal(value).len() > 1 ==> decimal(value)[0] != '0',
        decimal_value(decimal(value)) == value,
    decreases value,
{
    if value < 10 {
        let digits = decimal(value);
        assert(digits.drop_last() =~= Seq::empty());
        assert(decimal_value(digits.drop_last()) == 0);
        assert(digits.last() == digit_char(value));
    } else {
        decimal_is_canonical(value / 10);
        let digits = decimal(value);
        assert(digits.drop_last() =~= decimal(value / 10));
        assert(digits.last() == digit_char(value % 10));
        assert(digits[0] == decimal(value / 10)[0]);
        if decimal(value / 10).len() == 1 {
            assert(value / 10 < 10) by {
                if value / 10 >= 10 {
                    decimal_is_canonical(value / 10 / 10);
                }
            }
            assert(decimal(value / 10)[0] == digit_char(value / 10));
        }
    }
}

proof fn leading_digit_counts(digits: Seq<char>)
    requires
        digits.len() > 0,
        all_digits(digits),
        digits[0] != '0',
    ensures
        decimal_value(digits) > 0,
    decreases digits.len(),
{
    assert(is_digit(digits[0]));
    if digits.len() > 1 {
        let shorter = digits.drop_last();
        assert forall|at: int| 0 <= at < shorter.len() implies is_digit(#[trigger] shorter[at]) by {
            assert(shorter[at] == digits[at]);
        }
        assert(shorter[0] == digits[0]);
        leading_digit_counts(shorter);
    }
}

/// Digits without a leading zero are the numeral of their value.
pub proof fn numeral_of_its_value(digits: Seq<char>)
    requires
        digits.len() > 0,
        all_digits(digits),
        digits.len() > 1 ==> digits[0] != '0',
    ensures
        decimal(decimal_value(digits)) == digits,
    decreases digits.len(),
{
    let last = digits.last();
    assert(is_digit(digits[digits.len() - 1]));
    let shorter = digits.drop_last();
    assert(digit_char(digit_value(last)) == last);
    if digits.len() == 1 {
        assert(shorter =~= Seq::empty());
        assert(decimal_value(shorter) == 0);
        assert(digits =~= seq![last]);
    } else {
        assert forall|at: int| 0 <= at < shorter.len() implies is_digit(#[trigger] shorter[at]) by {
            assert(shorter[at] == digits[at]);
        }
        assert(shorter[0] == digits[0]);
        leading_digit_counts(shorter);
        numeral_of_its_value(shorter);
        let value = decimal_value(digits);
        assert(value == 10 * decimal_value(shorter) + digit_value(last));
        assert(value / 10 == decimal_value(shorter));
        assert(value % 10 == digit_value(last));
        assert(shorter.push(last) =~= digits);
    }
}

/// A digit run read from the left never exceeds its whole value.
pub proof fn decimal_value_grows(digits: Seq<char>, at: int)
    requires
        0 <= at <= digits.len(),
    ensures
        decimal_value(digits.take(at)) <= decimal_value(digits),
    decreases digits.len() - at,
{
    if at < digits.len() {
        decimal_value_grows(digits, at + 1);
        assert(digits.take(at + 1).drop_last() =~= digits.take(at));
    } else {
        assert(digits.take(at) =~= digits);
    }
}

/// Writes `value` as a decimal numeral.
pub fn decimal_text(value: usize) -> (text: String)
    ensures
        text@ == decimal(value as nat),
{
    decimal_u64(value as u64)
}

/// Writes `value` as a decimal numeral.
pub fn decimal_u64(value: u64) -> (text: String)
    ensures
        text@ == decimal(value as nat),
    decreases value,
{
    if value < 10 {
        let mut text = String::new();
        text.push(digit_of(value));
        assert(text@ =~= decimal(value as nat));
        text
    } else {
        let mut text = decimal_u64(value / 10);
        text.push(digit_of(value % 10));
        text
    }
}

/// The digit character of a one-digit number.
fn digit_of(value: u64) -> (character: char)
    requires
        value < 10,
    ensures
        character == digit_char(value as nat),
{
    match value {
        0 => '0',
        1 => '1',
        2 => '2',
        3 => '3',
        4 => '4',
        5 => '5',
        6 => '6',
        7 => '7',
        8 => '8',
        _ => '9',
    }
}

/// Reads the digit run `chars[from..to]` as a `usize`, or `None` when its
/// value is too large for one.
pub fn parse_decimal(chars: &[char], from: usize, to: usize) -> (value: Option<usize>)
    requires
        from <= to <= chars@.len(),
        all_digits(chars@.subrange(from as int, to as int)),
    ensures
        ({
            let number = decimal_value(chars@.subrange(from as int, to as int));
            value == if number <= usize::MAX { Some(number as usize) } else { None }
        }),
{
    let ghost digits = chars@.subrange(from as int, to as int);
    let mut value: usize = 0;
    let mut at: usize = from;
    while at < to
        invariant
            from <= at <= to <= chars@.len(),
            digits == chars@.subrange(from as int, to as int),
            all_digits(digits),
            value == decimal_value(digits.take(at - from)),
        decreases to - at,
    {
        proof {
            decimal_value_grows(digits, at - from + 1);
            assert(digits.take(at - from + 1).drop_last() =~= digits.take(at - from));
            assert(digits[at - from] == chars@[at as int]);
        }
        let digit: usize = (chars[at] as u32 - '0' as u32) as usize;
        match value.checked_mul(10) {
            None => {
                return None;
            },
            Some(shifted) => {
                match shifted.checked_add(digit) {
                    None => {
                        return None;
                    },
                    Some(next) => {
                        value = next;
                    },
                }
            },
        }
        at += 1;
    }
    assert(digits.take(to - from) =~= digits);
    Some(value)
}

/// The order of texts by their characters.
pub open spec fn text_order(left: Seq<char>, right: Seq<char>) -> bool
    decreases left.len(),
{
    if right.len() == 0 {
        false
    } else if left.len() == 0 {
        true
    } else if left[0] != right[0] {
        left[0] < right[0]
    } else {
        text_order(left.skip(1), right.skip(1))
    }
}

/// Of two different texts, one comes before the other.
pub proof fn text_order_is_total(left: Seq<char>, right: Seq<char>)
    ensures
        left == right || text_order(left, right) || text_order(right, left),
    decreases left.len(),
{
    if left.len() > 0 && right.len() > 0 && left[0] == right[0] {
        text_order_is_total(left.skip(1), right.skip(1));
        if left.skip(1) == right.skip(1) {
            assert(left =~= seq![left[0]] + left.skip(1));
            assert(right =~= seq![right[0]] + right.skip(1));
        }
    } else if left.len() == 0 && right.len() == 0 {
        assert(left =~= right);
    }
}

/// The order of texts is transitive.
pub proof fn text_order_is_transitive(left: Seq<char>, middle: Seq<char>, right: Seq<char>)
    requires
        text_order(left, middle),
        text_order(middle, right),
    ensures
        text_order(left, right),
    decreases left.len(),
{
    if left.len() > 0 && left[0] == middle[0] && middle[0] == right[0] {
        text_order_is_transitive(left.skip(1), middle.skip(1), right.skip(1));
    }
}

/// Whether `left` comes before `right`.
pub fn text_less(left: &str, right: &str) -> (less: bool)
    ensures
        less == text_order(left@, right@),
{
    let one = chars_of(left);
    let two = chars_of(right);
    let mut at: usize = 0;
    assert(one@.skip(0) =~= one@);
    assert(two@.skip(0) =~= two@);
    while at < one.len() && at < two.len() && one[at] == two[at]
        invariant
            at <= one@.len(),
            at <= two@.len(),
            text_order(one@.skip(at as int), two@.skip(at as int)) == text_order(one@, two@),
        decreases one.len() - at,
    {
        assert(one@.skip(at as int).skip(1) =~= one@.skip(at + 1));
        assert(two@.skip(at as int).skip(1) =~= two@.skip(at + 1));
        at += 1;
    }
    if at == two.len() {
        false
    } else if at == one.len() {
        true
    } else {
        one[at] < two[at]
    }
}

/// The first position from `from` on at which `one` or `two` stands, or the
/// end of the text.
pub open spec fn find_either(text: Seq<char>, one: char, two: char, from: int) -> int
    decreases text.len() - from,
{
    if from < 0 || from >= text.len() {
        text.len() as int
    } else if text[from] == one || text[from] == two {
        from
    } else {
        find_either(text, one, two, from + 1)
    }
}

/// A found position lies in the text, and nothing sought stands before it.
pub proof fn find_either_bounds(text: Seq<char>, one: char, two: char, from: int)
    requires
        0 <= from <= text.len(),
    ensures
        from <= find_either(text, one, two, from) <= text.len(),
        find_either(text, one, two, from) < text.len() ==> (text[find_either(text, one, two, from)]
            == one || text[find_either(text, one, two, from)] == two),
        forall|at: int|
            from <= at < find_either(text, one, two, from) ==> (#[trigger] text[at]) != one
                && text[at] != two,
    decreases text.len() - from,
{
    if from < text.len() && text[from] != one && text[from] != two {
        find_either_bounds(text, one, two, from + 1);
    }
}

/// A position at which something sought stands, with nothing sought before
/// it, is the first.
pub proof fn find_either_is(text: Seq<char>, one: char, two: char, from: int, found: int)
    requires
        0 <= from <= found <= text.len(),
        forall|at: int| from <= at < found ==> (#[trigger] text[at]) != one && text[at] != two,
        found < text.len() ==> text[found] == one || text[found] == two,
    ensures
        find_either(text, one, two, from) == found,
    decreases found - from,
{
    if from < found {
        assert(text[from] != one && text[from] != two);
        find_either_is(text, one, two, from + 1, found);
    }
}

/// Finds the first `one` or `two` from `from` on.
pub fn position_of(chars: &[char], one: char, two: char, from: usize) -> (found: usize)
    requires
        from <= chars@.len(),
    ensures
        found == find_either(chars@, one, two, from as int),
        from <= found <= chars@.len(),
{
    let mut at: usize = from;
    while at < chars.len() && chars[at] != one && chars[at] != two
        invariant
            from <= at <= chars@.len(),
            find_either(chars@, one, two, at as int) == find_either(chars@, one, two, from as int),
        decreases chars.len() - at,
    {
        at += 1;
    }
    at
}

/// Whether `chars[from..to]` holds digits only.
pub fn digits_only(chars: &[char], from: usize, to: usize) -> (only: bool)
    requires
        from <= to <= chars@.len(),
    ensures
        only == all_digits(chars@.subrange(from as int, to as int)),
{
    let ghost part = chars@.subrange(from as int, to as int);
    let mut at: usize = from;
    while at < to
        invariant
            from <= at <= to <= chars@.len(),
            part == chars@.subrange(from as int, to as int),
            forall|k: int| 0 <= k < at - from ==> is_digit(#[trigger] part[k]),
        decreases to - at,
    {
        let character = chars[at];
        if !('0' <= character && character <= '9') {
            assert(!is_digit(part[at - from]));
            return false;
        }
        assert(is_digit(part[at - from]));
        at += 1;
    }
    true
}

/// The text that starts with `prefix` goes on behind it.
pub open spec fn starts_with(text: Seq<char>, prefix: Seq<char>) -> bool {
    text.len() >= prefix.len() && text.take(prefix.len() as int) == prefix
}

/// Whether `text` starts with `prefix`.
pub fn has_prefix(text: &str, prefix: &str) -> (has: bool)
    ensures
        has == starts_with(text@, prefix@),
{
    let whole = chars_of(text);
    let start = chars_of(prefix);
    if whole.len() < start.len() {
        return false;
    }
    let mut at: usize = 0;
    while at < start.len()
        invariant
            at <= start@.len() <= whole@.len(),
            start@ == prefix@,
            whole@ == text@,
            forall|k: int| 0 <= k < at ==> whole@[k] == #[trigger] start@[k],
        decreases start.len() - at,
    {
        if whole[at] != start[at] {
            assert(text@.take(prefix@.len() as int)[at as int] != prefix@[at as int]);
            return false;
        }
        at += 1;
    }
    assert(text@.take(prefix@.len() as int) =~= prefix@);
    true
}

/// Joins two texts.
pub fn join2(left: &str, right: &str) -> (joined: String)
    ensures
        joined@ == left@ + right@,
{
    let mut joined = left.to_owned();
    joined.append(right);
    joined
}

/// Joins three texts.
pub fn join3(first: &str, second: &str, third: &str) -> (joined: String)
    ensures
        joined@ == first@ + second@ + third@,
{
    let mut joined = first.to_owned();
    joined.append(second);
    joined.append(third);
    joined
}

/// Joins five texts.
pub fn join5(first: &str, second: &str, third: &str, fourth: &str, fifth: &str) -> (joined: String)
    ensures
        joined@ == first@ + second@ + third@ + fourth@ + fifth@,
{
    let mut joined = first.to_owned();
    joined.append(second);
    joined.append(third);
    joined.append(fourth);
    joined.append(fifth);
    joined
}

/// Reads the digit run `chars[from..to]` as a `u64`, or `None` when its value
/// is too large for one.
pub fn parse_u64(chars: &[char], from: usize, to: usize) -> (value: Option<u64>)
    requires
        from <= to <= chars@.len(),
        all_digits(chars@.subrange(from as int, to as int)),
    ensures
        ({
            let number = decimal_value(chars@.subrange(from as int, to as int));
            value == if number <= u64::MAX { Some(number as u64) } else { None }
        }),
{
    let ghost digits = chars@.subrange(from as int, to as int);
    let mut value: u64 = 0;
    let mut at: usize = from;
    while at < to
        invariant
            from <= at <= to <= chars@.len(),
            digits == chars@.subrange(from as int, to as int),
            all_digits(digits),
            value == decimal_value(digits.take(at - from)),
        decreases to - at,
    {
        proof {
            decimal_value_grows(digits, at - from + 1);
            assert(digits.take(at - from + 1).drop_last() =~= digits.take(at - from));
            assert(digits[at - from] == chars@[at as int]);
        }
        let digit: u64 = (chars[at] as u32 - '0' as u32) as u64;
        match value.checked_mul(10) {
            None => {
                return None;
            },
            Some(shifted) => {
                match shifted.checked_add(digit) {
                    None => {
                        return None;
                    },
                    Some(next) => {
                        value = next;
                    },
                }
            },
        }
        at += 1;
    }
    assert(digits.take(to - from) =~= digits);
    Some(value)
}

/// The integer that a run of digits with an optional `-` spells.
pub open spec fn plain_integer(text: Seq<char>) -> Option<int> {
    if text.len() > 0 && text[0] == '-' {
        if text.len() > 1 && all_digits(text.skip(1)) {
            Some(-(decimal_value(text.skip(1)) as int))
        } else {
            None
        }
    } else if text.len() > 0 && all_digits(text) {
        Some(decimal_value(text) as int)
    } else {
        None
    }
}

/// Reads a run of digits with an optional `-`, if its magnitude fits 64 bits.
pub fn parse_plain_integer(text: &str) -> (value: Option<i128>)
    ensures
        value matches Some(value) ==> plain_integer(text@) == Some(value as int) && -u64::MAX
            <= value <= u64::MAX,
        value is None ==> plain_integer(text@) is None || !(-u64::MAX <= plain_integer(text@)->0
            <= u64::MAX),
{
    let chars = chars_of(text);
    let negative = chars.len() > 0 && chars[0] == '-';
    let from: usize = if negative {
        1
    } else {
        0
    };
    assert(text@.skip(1) =~= text@.subrange(1, text@.len() as int));
    assert(text@ =~= text@.subrange(0, text@.len() as int));
    if from >= chars.len() || !digits_only(chars.as_slice(), from, chars.len()) {
        return None;
    }
    match parse_u64(chars.as_slice(), from, chars.len()) {
        None => None,
        Some(value) => Some(
            if negative {
                -(value as i128)
            } else {
                value as i128
            },
        ),
    }
}

} // verus!
