//! YAML core-schema scalars and their canonical spellings.

use num_bigint::{BigInt, BigUint};
use vstd::prelude::*;

use crate::text::{
    all_digits, chars_of, decimal, decimal_is_canonical, decimal_value, digits_only,
    find_either, find_either_is, is_digit, position_of, same_text, text_of,
};

verus! {

/// The value of one digit of a number in some radix of at most 36.
pub open spec fn radix_digit(character: char) -> nat {
    if '0' <= character <= '9' {
        (character as int - '0' as int) as nat
    } else if 'a' <= character <= 'z' {
        (character as int - 'a' as int + 10) as nat
    } else if 'A' <= character <= 'Z' {
        (character as int - 'A' as int + 10) as nat
    } else {
        36
    }
}

/// The value of digits in `radix`, most significant first; underscores between
/// them count for nothing.
pub open spec fn radix_value(digits: Seq<char>, radix: nat) -> nat
    decreases digits.len(),
{
    if digits.len() == 0 {
        0
    } else if digits.last() == '_' {
        radix_value(digits.drop_last(), radix)
    } else {
        radix * radix_value(digits.drop_last(), radix) + radix_digit(digits.last())
    }
}

/// `text` without a single leading `+`.
pub open spec fn without_plus(text: Seq<char>) -> Seq<char> {
    if text.len() > 0 && text[0] == '+' && !(text.len() > 1 && text[1] == '+') {
        text.skip(1)
    } else {
        text
    }
}

/// The natural number that `text` spells in `radix`: an optional `+`, then
/// digits, the first of which is no underscore.
pub open spec fn natural(text: Seq<char>, radix: nat) -> Option<nat> {
    let digits = without_plus(text);
    if digits.len() > 0 && digits[0] != '_' && (forall|at: int|
        0 <= at < digits.len() ==> (#[trigger] digits[at]) == '_' || radix_digit(digits[at])
            < radix) {
        Some(radix_value(digits, radix))
    } else {
        None
    }
}

/// The integer that `text` spells: an optional sign, then decimal digits.
pub open spec fn integer(text: Seq<char>) -> Option<int> {
    if text.len() > 0 && text[0] == '-' {
        match natural(text.skip(1), 10) {
            Some(value) => if text.len() > 1 && text[1] == '+' {
                None
            } else {
                Some(-(value as int))
            },
            None => None,
        }
    } else {
        match natural(text, 10) {
            Some(value) => Some(value as int),
            None => None,
        }
    }
}

/// The decimal numeral of an integer.
pub open spec fn integer_numeral(value: int) -> Seq<char> {
    if value < 0 {
        seq!['-'] + decimal((-value) as nat)
    } else {
        decimal(value as nat)
    }
}

/// `num_bigint::BigUint::parse_bytes` reads a natural number of any size in a
/// radix, and `Display` writes it as a decimal numeral.
#[verifier::external_body]
pub(crate) fn parse_natural(text: &str, radix: u32) -> (numeral: Option<String>)
    requires
        2 <= radix <= 36,
    ensures
        numeral is Some <==> natural(text@, radix as nat) is Some,
        numeral matches Some(numeral) ==> numeral@ == decimal(natural(text@, radix as nat)->0),
{
    BigUint::parse_bytes(text.as_bytes(), radix).map(|value| value.to_string())
}

/// `str::parse::<num_bigint::BigInt>` reads an integer of any size; `-` and
/// `+` on `BigInt` subtract and add; `Display` writes a decimal numeral.
#[verifier::external_body]
fn adjust_integer(text: &str, subtract: usize, plus: usize) -> (numeral: Option<String>)
    ensures
        numeral is Some <==> integer(text@) is Some,
        numeral matches Some(numeral) ==> numeral@ == integer_numeral(
            integer(text@)->0 - subtract + plus,
        ),
{
    let value = text.parse::<BigInt>().ok()?;
    Some((value - BigInt::from(subtract) + BigInt::from(plus)).to_string())
}

/// Whether a sign leads `text`, and whether it is negative.
pub open spec fn is_negative(text: Seq<char>) -> bool {
    text.len() > 0 && text[0] == '-'
}

/// `text` without its sign.
pub open spec fn unsigned(text: Seq<char>) -> Seq<char> {
    if text.len() > 0 && (text[0] == '-' || text[0] == '+') {
        text.skip(1)
    } else {
        text
    }
}

/// The spelling of a sign.
pub open spec fn sign_text(negative: bool) -> Seq<char> {
    if negative {
        seq!['-']
    } else {
        Seq::empty()
    }
}

/// The radix that the prefix of an unsigned integer names, and its digits.
pub open spec fn radix_of(text: Seq<char>) -> (nat, Seq<char>) {
    if text.len() >= 2 && text[0] == '0' && text[1] == 'o' {
        (8, text.skip(2))
    } else if text.len() >= 2 && text[0] == '0' && text[1] == 'x' {
        (16, text.skip(2))
    } else {
        (10, text)
    }
}

/// The canonical spelling of the integer that `text` spells, if it spells one:
/// decimal digits without leading zeros, and `-` before a negative number.
pub open spec fn canonical_integer_of(text: Seq<char>) -> Option<Seq<char>> {
    let (radix, digits) = radix_of(unsigned(text));
    if digits.len() == 0 {
        None
    } else {
        match natural(digits, radix) {
            None => None,
            Some(value) => Some(
                if value == 0 {
                    seq!['0']
                } else {
                    sign_text(is_negative(text)) + decimal(value)
                },
            ),
        }
    }
}

/// The number of leading zeros.
pub open spec fn leading_zeros(digits: Seq<char>) -> nat
    decreases digits.len(),
{
    if digits.len() > 0 && digits[0] == '0' {
        1 + leading_zeros(digits.skip(1))
    } else {
        0
    }
}

/// The number of trailing zeros.
pub open spec fn trailing_zeros(digits: Seq<char>) -> nat
    decreases digits.len(),
{
    if digits.len() > 0 && digits.last() == '0' {
        1 + trailing_zeros(digits.drop_last())
    } else {
        0
    }
}

/// The canonical spelling of a decimal number given by its digits and its
/// exponent: the digits without zeros at either end, and the exponent that
/// this leaves.
pub open spec fn scientific(negative: bool, digits: Seq<char>, exponent: int) -> Seq<char> {
    let significant = digits.skip(leading_zeros(digits) as int);
    let trailing = trailing_zeros(significant);
    if significant.len() == 0 {
        "0e0"@
    } else {
        sign_text(negative) + significant.take(significant.len() - trailing) + seq!['e']
            + integer_numeral(exponent + trailing)
    }
}

/// The canonical spelling of the finite number with a fraction or an exponent
/// that the unsigned `text` spells.
pub open spec fn canonical_finite(negative: bool, text: Seq<char>) -> Option<Seq<char>> {
    let marker = find_either(text, 'e', 'E', 0);
    let mantissa = text.take(marker);
    let exponent = if marker < text.len() {
        integer(text.skip(marker + 1))
    } else {
        Some(0)
    };
    let point = find_either(mantissa, '.', '.', 0);
    let whole = mantissa.take(point);
    let fraction = if point < mantissa.len() {
        mantissa.skip(point + 1)
    } else {
        Seq::empty()
    };
    if marker == text.len() && point == mantissa.len() {
        None
    } else if exponent is None {
        None
    } else if whole.len() == 0 && fraction.len() == 0 {
        None
    } else if !all_digits(whole) || !all_digits(fraction) {
        None
    } else {
        Some(scientific(negative, whole + fraction, exponent->0 - fraction.len()))
    }
}

/// The canonical spelling of the float that `text` spells, if it spells one.
pub open spec fn canonical_float_of(text: Seq<char>) -> Option<Seq<char>> {
    let negative = is_negative(text);
    let body = unsigned(text);
    if body == ".inf"@ || body == ".Inf"@ || body == ".INF"@ {
        Some(
            if negative {
                "-inf"@
            } else {
                "inf"@
            },
        )
    } else if body == ".nan"@ || body == ".NaN"@ || body == ".NAN"@ {
        if text == body {
            Some("nan"@)
        } else {
            None
        }
    } else {
        canonical_finite(negative, body)
    }
}

/// An integer in its canonical spelling.
#[derive(Clone, Debug, PartialEq, Eq, Hash)]
pub struct CanonicalInteger(pub String);

/// A float in its canonical spelling.
#[derive(Clone, Debug, PartialEq, Eq, Hash)]
pub struct CanonicalFloat(pub String);

/// A scalar that a frontmatter reference compares with.
#[derive(Debug, PartialEq, Eq, Hash)]
pub enum FrontmatterScalar {
    /// A null.
    Null,
    /// A boolean.
    Boolean(bool),
    /// An integer of any size.
    Integer(CanonicalInteger),
    /// A float.
    Float(CanonicalFloat),
    /// Any other text.
    String(String),
}

/// What a frontmatter scalar is.
pub enum ScalarSpec {
    /// See [`FrontmatterScalar::Null`].
    Null,
    /// See [`FrontmatterScalar::Boolean`].
    Boolean(bool),
    /// See [`FrontmatterScalar::Integer`].
    Integer(Seq<char>),
    /// See [`FrontmatterScalar::Float`].
    Float(Seq<char>),
    /// See [`FrontmatterScalar::String`].
    Text(Seq<char>),
}

impl View for FrontmatterScalar {
    type V = ScalarSpec;

    open spec fn view(&self) -> ScalarSpec {
        match *self {
            FrontmatterScalar::Null => ScalarSpec::Null,
            FrontmatterScalar::Boolean(value) => ScalarSpec::Boolean(value),
            FrontmatterScalar::Integer(value) => ScalarSpec::Integer(value.0@),
            FrontmatterScalar::Float(value) => ScalarSpec::Float(value.0@),
            FrontmatterScalar::String(value) => ScalarSpec::Text(value@),
        }
    }
}

impl FrontmatterScalar {
    /// A copy of the scalar.
    pub fn copy(&self) -> (scalar: Self)
        ensures
            scalar@ == self@,
    {
        match self {
            FrontmatterScalar::Null => FrontmatterScalar::Null,
            FrontmatterScalar::Boolean(value) => FrontmatterScalar::Boolean(*value),
            FrontmatterScalar::Integer(value) => FrontmatterScalar::Integer(
                CanonicalInteger(value.0.clone()),
            ),
            FrontmatterScalar::Float(value) => FrontmatterScalar::Float(
                CanonicalFloat(value.0.clone()),
            ),
            FrontmatterScalar::String(value) => FrontmatterScalar::String(value.clone()),
        }
    }

    /// Whether two scalars are the same.
    pub fn same(&self, other: &Self) -> (same: bool)
        ensures
            same == (self@ == other@),
    {
        match (self, other) {
            (FrontmatterScalar::Null, FrontmatterScalar::Null) => true,
            (FrontmatterScalar::Boolean(left), FrontmatterScalar::Boolean(right)) => *left
                == *right,
            (FrontmatterScalar::Integer(left), FrontmatterScalar::Integer(right)) => same_text(
                left.0.as_str(),
                right.0.as_str(),
            ),
            (FrontmatterScalar::Float(left), FrontmatterScalar::Float(right)) => same_text(
                left.0.as_str(),
                right.0.as_str(),
            ),
            (FrontmatterScalar::String(left), FrontmatterScalar::String(right)) => same_text(
                left.as_str(),
                right.as_str(),
            ),
            _ => false,
        }
    }
}

/// The spellings of null.
pub open spec fn is_null_text(text: Seq<char>) -> bool {
    text == ""@ || text == "~"@ || text == "null"@ || text == "Null"@ || text == "NULL"@
}

/// The spellings of true.
pub open spec fn is_true_text(text: Seq<char>) -> bool {
    text == "true"@ || text == "True"@ || text == "TRUE"@
}

/// The spellings of false.
pub open spec fn is_false_text(text: Seq<char>) -> bool {
    text == "false"@ || text == "False"@ || text == "FALSE"@
}

/// The scalar that a plain spelling means.
pub open spec fn scalar_of(text: Seq<char>) -> ScalarSpec {
    if is_null_text(text) {
        ScalarSpec::Null
    } else if is_true_text(text) {
        ScalarSpec::Boolean(true)
    } else if is_false_text(text) {
        ScalarSpec::Boolean(false)
    } else if canonical_integer_of(text) is Some {
        ScalarSpec::Integer(canonical_integer_of(text)->0)
    } else if canonical_float_of(text) is Some {
        ScalarSpec::Float(canonical_float_of(text)->0)
    } else {
        ScalarSpec::Text(text)
    }
}

/// Whether `text` is one of five alternatives.
fn is_one_of(text: &str, one: &str, two: &str, three: &str) -> (found: bool)
    ensures
        found == (text@ == one@ || text@ == two@ || text@ == three@),
{
    same_text(text, one) || same_text(text, two) || same_text(text, three)
}

/// Whether `text` spells null.
pub fn spells_null(text: &str) -> (null: bool)
    ensures
        null == is_null_text(text@),
{
    same_text(text, "") || same_text(text, "~") || is_one_of(text, "null", "Null", "NULL")
}

/// The boolean that `text` spells.
pub fn spelled_bool(text: &str) -> (value: Option<bool>)
    ensures
        value == if is_true_text(text@) {
            Some(true)
        } else if is_false_text(text@) {
            Some(false)
        } else {
            None
        },
{
    if is_one_of(text, "true", "True", "TRUE") {
        Some(true)
    } else if is_one_of(text, "false", "False", "FALSE") {
        Some(false)
    } else {
        None
    }
}

/// The scalar that a plain spelling means.
pub fn parse_frontmatter_scalar(source: &str) -> (scalar: FrontmatterScalar)
    ensures
        scalar@ == scalar_of(source@),
{
    if spells_null(source) {
        return FrontmatterScalar::Null;
    }
    if let Some(value) = spelled_bool(source) {
        return FrontmatterScalar::Boolean(value);
    }
    if let Some(integer) = canonical_integer(source) {
        FrontmatterScalar::Integer(CanonicalInteger(integer))
    } else if let Some(float) = canonical_float(source) {
        FrontmatterScalar::Float(CanonicalFloat(float))
    } else {
        FrontmatterScalar::String(source.to_owned())
    }
}

/// Splits a leading sign off: whether it is negative, and what follows it.
fn strip_sign(source: &str) -> (split: (bool, String))
    ensures
        split.0 == is_negative(source@),
        split.1@ == unsigned(source@),
{
    let chars = chars_of(source);
    if chars.len() > 0 && (chars[0] == '-' || chars[0] == '+') {
        let rest = text_of(chars.as_slice(), 1, chars.len());
        assert(source@.skip(1) =~= source@.subrange(1, source@.len() as int));
        (chars[0] == '-', rest)
    } else {
        (false, source.to_owned())
    }
}

/// The canonical spelling of the integer that `source` spells.
pub fn canonical_integer(source: &str) -> (canonical: Option<String>)
    ensures
        canonical is Some <==> canonical_integer_of(source@) is Some,
        canonical matches Some(canonical) ==> Some(canonical@) == canonical_integer_of(source@),
{
    let (negative, body) = strip_sign(source);
    let chars = chars_of(body.as_str());
    let prefixed = chars.len() >= 2 && chars[0] == '0';
    let (base, from): (u32, usize) = if prefixed && chars[1] == 'o' {
        (8, 2)
    } else if prefixed && chars[1] == 'x' {
        (16, 2)
    } else {
        (10, 0)
    };
    let digits = text_of(chars.as_slice(), from, chars.len());
    proof {
        assert(body@.skip(2) =~= body@.subrange(2, body@.len() as int));
        assert(body@ =~= body@.subrange(0, body@.len() as int));
        assert(radix_of(body@) == (base as nat, digits@));
    }
    if from == chars.len() {
        return None;
    }
    match parse_natural(digits.as_str(), base) {
        None => None,
        Some(numeral) => {
            proof {
                let value = natural(digits@, base as nat)->0;
                decimal_is_canonical(value);
                decimal_is_canonical(0);
                assert(decimal(0) =~= seq!['0']);
                reveal_strlit("0");
                assert("0"@ =~= seq!['0']);
            }
            if same_text(numeral.as_str(), "0") {
                Some(numeral)
            } else if negative {
                let mut signed = String::new();
                signed.push('-');
                signed.append(numeral.as_str());
                assert(signed@ =~= seq!['-'] + numeral@);
                Some(signed)
            } else {
                assert(sign_text(false) + numeral@ =~= numeral@);
                Some(numeral)
            }
        },
    }
}

/// The canonical spelling of the float that `source` spells.
#[verifier::rlimit(60)]
#[verifier::spinoff_prover]
pub fn canonical_float(source: &str) -> (canonical: Option<String>)
    ensures
        canonical is Some <==> canonical_float_of(source@) is Some,
        canonical matches Some(canonical) ==> Some(canonical@) == canonical_float_of(source@),
{
    let (negative, body) = strip_sign(source);
    if is_one_of(body.as_str(), ".inf", ".Inf", ".INF") {
        return Some(
            if negative {
                "-inf".to_owned()
            } else {
                "inf".to_owned()
            },
        );
    }
    if is_one_of(body.as_str(), ".nan", ".NaN", ".NAN") {
        return if same_text(source, body.as_str()) {
            Some("nan".to_owned())
        } else {
            None
        };
    }
    let chars = chars_of(body.as_str());
    let marker = position_of(chars.as_slice(), 'e', 'E', 0);
    let mantissa = text_of(chars.as_slice(), 0, marker);
    let digits = chars_of(mantissa.as_str());
    let point = position_of(digits.as_slice(), '.', '.', 0);
    let ghost text = body@;
    let ghost spec_mantissa = text.take(marker as int);
    assert(spec_mantissa =~= text.subrange(0, marker as int));
    if marker == chars.len() && point == digits.len() {
        return None;
    }
    let exponent = if marker < chars.len() {
        let written = text_of(chars.as_slice(), marker + 1, chars.len());
        assert(text.skip(marker + 1) =~= written@);
        written
    } else {
        "0".to_owned()
    };
    proof {
        reveal_strlit("0");
        assert("0"@ =~= decimal(0));
        decimal_is_canonical(0);
        integer_of_numeral(0);
    }
    let fraction_from = if point < digits.len() {
        point + 1
    } else {
        point
    };
    let fraction_len = digits.len() - fraction_from;
    let ghost whole = spec_mantissa.take(point as int);
    let ghost fraction = spec_mantissa.subrange(fraction_from as int, spec_mantissa.len() as int);
    assert(whole =~= digits@.subrange(0, point as int));
    assert(point < digits@.len() ==> spec_mantissa.skip(point + 1) =~= fraction);
    assert(point == digits@.len() ==> fraction =~= Seq::empty());
    // The exponent is read first: a number without a readable exponent is no
    // number, whatever its digits.
    if adjust_integer(exponent.as_str(), 0, 0).is_none() {
        return None;
    }
    if point == 0 && fraction_len == 0 {
        return None;
    }
    if !digits_only(digits.as_slice(), 0, point) || !digits_only(
        digits.as_slice(),
        fraction_from,
        digits.len(),
    ) {
        return None;
    }
    let mut joined = text_of(digits.as_slice(), 0, point);
    joined.append(text_of(digits.as_slice(), fraction_from, digits.len()).as_str());
    let ghost all = whole + fraction;
    assert(joined@ == all);
    let all_chars = chars_of(joined.as_str());
    let mut start: usize = 0;
    assert(all.skip(0) =~= all);
    while start < all_chars.len() && all_chars[start] == '0'
        invariant
            start <= all_chars@.len(),
            all_chars@ == all,
            leading_zeros(all) == start + leading_zeros(all.skip(start as int)),
        decreases all_chars.len() - start,
    {
        assert(all.skip(start as int).skip(1) =~= all.skip(start + 1));
        start += 1;
    }
    let ghost significant = all.skip(start as int);
    assert(leading_zeros(significant) == 0);
    if start == all_chars.len() {
        return Some("0e0".to_owned());
    }
    let mut end: usize = all_chars.len();
    assert(significant.take(significant.len() as int) =~= significant);
    while end > start && all_chars[end - 1] == '0'
        invariant
            start <= end <= all_chars@.len(),
            all_chars@ == all,
            significant == all.skip(start as int),
            trailing_zeros(significant) == (all.len() - end) + trailing_zeros(
                significant.take(end - start),
            ),
        decreases end,
    {
        proof {
            let taken = significant.take(end - start);
            assert(taken.last() == all[end - 1]);
            assert(taken.drop_last() =~= significant.take(end - start - 1));
        }
        end -= 1;
    }
    let trailing = all_chars.len() - end;
    proof {
        if end > start {
            assert(significant.take(end - start).last() == all[end - 1]);
        }
        assert(trailing_zeros(significant.take(end - start)) == 0);
        assert(trailing == trailing_zeros(significant));
    }
    let coefficient = text_of(all_chars.as_slice(), start, end);
    assert(coefficient@ =~= significant.take(significant.len() - trailing));
    match adjust_integer(exponent.as_str(), fraction_len, trailing) {
        None => None,
        Some(adjusted) => {
            let mut canonical = String::new();
            if negative {
                canonical.push('-');
            }
            canonical.append(coefficient.as_str());
            canonical.push('e');
            canonical.append(adjusted.as_str());
            assert(canonical@ =~= scientific(
                negative,
                all,
                integer(exponent@)->0 - fraction.len(),
            ));
            Some(canonical)
        },
    }
}

/// Reading digits that are a decimal numeral gives its number.
pub(crate) proof fn natural_of_decimal(digits: Seq<char>)
    requires
        digits.len() > 0,
        all_digits(digits),
    ensures
        natural(digits, 10) == Some(decimal_value(digits)),
{
    assert(is_digit(digits[0]));
    assert(without_plus(digits) == digits);
    assert forall|at: int| 0 <= at < digits.len() implies (#[trigger] digits[at]) == '_'
        || radix_digit(digits[at]) < 10 by {
        assert(is_digit(digits[at]));
    }
    radix_value_of_decimal(digits);
}

proof fn radix_value_of_decimal(digits: Seq<char>)
    requires
        all_digits(digits),
    ensures
        radix_value(digits, 10) == decimal_value(digits),
    decreases digits.len(),
{
    if digits.len() > 0 {
        assert(is_digit(digits[digits.len() - 1]));
        assert(all_digits(digits.drop_last())) by {
            assert forall|at: int| 0 <= at < digits.len() - 1 implies is_digit(
                #[trigger] digits.drop_last()[at],
            ) by {
                assert(is_digit(digits[at]));
            }
        }
        radix_value_of_decimal(digits.drop_last());
    }
}

/// Reading an integer numeral gives its integer.
pub(crate) proof fn integer_of_numeral(value: int)
    ensures
        integer(integer_numeral(value)) == Some(value),
{
    if value < 0 {
        let digits = decimal((-value) as nat);
        decimal_is_canonical((-value) as nat);
        assert(integer_numeral(value).skip(1) =~= digits);
        assert(integer_numeral(value)[1] == digits[0]);
        assert(is_digit(digits[0]));
        natural_of_decimal(digits);
    } else {
        decimal_is_canonical(value as nat);
        assert(is_digit(decimal(value as nat)[0]));
        natural_of_decimal(decimal(value as nat));
    }
}

/// A canonical integer spelling is its own canonical spelling.
pub proof fn canonical_integers_are_fixed(text: Seq<char>)
    requires
        canonical_integer_of(text) is Some,
    ensures
        canonical_integer_of(canonical_integer_of(text)->0) == canonical_integer_of(text),
{
    let canonical = canonical_integer_of(text)->0;
    let value = natural(radix_of(unsigned(text)).1, radix_of(unsigned(text)).0)->0;
    let digits = decimal(value);
    decimal_is_canonical(value);
    natural_of_decimal(digits);
    if value == 0 {
        assert(digits =~= seq!['0']);
        assert(unsigned(canonical) =~= digits);
    } else {
        assert(is_digit(digits[0]));
        assert(canonical[0] == if is_negative(text) {
            '-'
        } else {
            digits[0]
        });
        assert(unsigned(canonical) =~= digits);
        assert(is_negative(canonical) == is_negative(text));
    }
    if digits.len() >= 2 {
        assert(is_digit(digits[1]));
    }
    assert(radix_of(digits) == (10nat, digits));
}

pub(crate) proof fn leading_zeros_end(digits: Seq<char>)
    ensures
        leading_zeros(digits) <= digits.len(),
        leading_zeros(digits) < digits.len() ==> digits[leading_zeros(digits) as int] != '0',
    decreases digits.len(),
{
    if digits.len() > 0 && digits[0] == '0' {
        leading_zeros_end(digits.skip(1));
    }
}

pub(crate) proof fn trailing_zeros_end(digits: Seq<char>)
    ensures
        trailing_zeros(digits) <= digits.len(),
        trailing_zeros(digits) < digits.len() ==> digits[digits.len() - trailing_zeros(digits) - 1]
            != '0',
        digits.len() > 0 && digits[0] != '0' ==> trailing_zeros(digits) < digits.len(),
    decreases digits.len(),
{
    if digits.len() > 0 && digits.last() == '0' {
        trailing_zeros_end(digits.drop_last());
    }
}

/// The canonical spelling of a finite float is its own canonical spelling.
pub proof fn canonical_floats_are_fixed(negative: bool, text: Seq<char>)
    requires
        canonical_finite(negative, text) is Some,
    ensures
        canonical_float_of(canonical_finite(negative, text)->0) == canonical_finite(
            negative,
            text,
        ),
{
    let marker = find_either(text, 'e', 'E', 0);
    let mantissa = text.take(marker);
    let point = find_either(mantissa, '.', '.', 0);
    let whole = mantissa.take(point);
    let fraction = if point < mantissa.len() {
        mantissa.skip(point + 1)
    } else {
        Seq::empty()
    };
    let exponent = if marker < text.len() {
        integer(text.skip(marker + 1))->0
    } else {
        0
    };
    let digits = whole + fraction;
    let significant = digits.skip(leading_zeros(digits) as int);
    leading_zeros_end(digits);
    if significant.len() == 0 {
        reveal_strlit("0e0");
        assert("0e0"@ =~= seq!['0'] + seq!['e'] + seq!['0']);
        assert(integer_numeral(0) =~= seq!['0']);
        let zero = seq!['0'];
        assert(sign_text(false) + zero + seq!['e'] + integer_numeral(0) =~= "0e0"@);
        assert(zero.skip(1) =~= Seq::empty());
        assert(leading_zeros(zero.skip(1)) == 0);
        assert(leading_zeros(zero) == 1);
        scientific_is_fixed(false, zero, 0);
    } else {
        let trailing = trailing_zeros(significant);
        trailing_zeros_end(significant);
        let coefficient = significant.take(significant.len() - trailing);
        assert forall|at: int| 0 <= at < coefficient.len() implies is_digit(
            #[trigger] coefficient[at],
        ) by {
            let inside = at + leading_zeros(digits);
            assert(coefficient[at] == digits[inside]);
            if inside < whole.len() {
                assert(digits[inside] == whole[inside]);
            } else {
                assert(digits[inside] == fraction[inside - whole.len()]);
            }
        }
        let adjusted = exponent - fraction.len() + trailing;
        scientific_is_fixed(negative, coefficient, adjusted);
        assert(coefficient[0] == significant[0]);
        assert(coefficient.skip(0) =~= coefficient);
        assert(coefficient.last() == significant[significant.len() - trailing - 1]);
        assert(leading_zeros(coefficient) == 0);
        assert(trailing_zeros(coefficient) == 0);
        assert(coefficient.take(coefficient.len() as int) =~= coefficient);
    }
}

/// Reading a coefficient and an exponent back gives the same digits and the
/// same exponent.
proof fn scientific_is_fixed(negative: bool, coefficient: Seq<char>, exponent: int)
    requires
        coefficient.len() > 0,
        all_digits(coefficient),
    ensures
        canonical_float_of(
            sign_text(negative) + coefficient + seq!['e'] + integer_numeral(exponent),
        ) == Some(scientific(negative, coefficient, exponent)),
{
    let numeral = integer_numeral(exponent);
    let body = coefficient + seq!['e'] + numeral;
    let text = sign_text(negative) + coefficient + seq!['e'] + numeral;
    assert(is_digit(coefficient[0]));
    assert(text[0] == if negative {
        '-'
    } else {
        coefficient[0]
    });
    assert(unsigned(text) =~= body);
    assert(is_negative(text) == negative);
    reveal_strlit(".inf");
    reveal_strlit(".Inf");
    reveal_strlit(".INF");
    reveal_strlit(".nan");
    reveal_strlit(".NaN");
    reveal_strlit(".NAN");
    assert(body[0] == coefficient[0]);
    let marker = coefficient.len() as int;
    assert forall|at: int| 0 <= at < marker implies (#[trigger] body[at]) != 'e' && body[at]
        != 'E' by {
        assert(body[at] == coefficient[at]);
        assert(is_digit(coefficient[at]));
    }
    assert(body[marker] == 'e');
    find_either_is(body, 'e', 'E', 0, marker);
    assert(body.take(marker) =~= coefficient);
    assert(body.skip(marker + 1) =~= numeral);
    integer_of_numeral(exponent);
    assert forall|at: int| 0 <= at < coefficient.len() implies (#[trigger] coefficient[at])
        != '.' by {
        assert(is_digit(coefficient[at]));
    }
    find_either_is(coefficient, '.', '.', 0, coefficient.len() as int);
    assert(coefficient.take(coefficient.len() as int) =~= coefficient);
    assert(coefficient + Seq::<char>::empty() =~= coefficient);
    assert(all_digits(Seq::<char>::empty()));
}

} // verus!
