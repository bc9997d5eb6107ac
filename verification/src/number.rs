//! The numbers that floats denote.

use vstd::arithmetic::power::{lemma_pow0, lemma_pow_adds, lemma_pow_positive, pow};
use vstd::prelude::*;

use crate::scalar::{
    canonical_finite, canonical_float_of, integer, integer_numeral, integer_of_numeral,
    is_negative, leading_zeros, leading_zeros_end, scientific, sign_text, trailing_zeros,
    trailing_zeros_end, unsigned,
};
use crate::text::{
    all_digits, decimal_value, find_either, find_either_is, is_digit, numeral_of_its_value,
};

verus! {

/// The digits of the finite number that the unsigned `text` spells, and the
/// power of ten that their value is multiplied by.
pub open spec fn finite_parts(text: Seq<char>) -> (Seq<char>, int) {
    let marker = find_either(text, 'e', 'E', 0);
    let mantissa = text.take(marker);
    let exponent = if marker < text.len() {
        integer(text.skip(marker + 1))->0
    } else {
        0
    };
    let point = find_either(mantissa, '.', '.', 0);
    let whole = mantissa.take(point);
    let fraction = if point < mantissa.len() {
        mantissa.skip(point + 1)
    } else {
        Seq::empty()
    };
    (whole + fraction, exponent - fraction.len())
}

/// What a float denotes.
pub enum Number {
    /// No number.
    Nan,
    /// An infinity, the negative one if so.
    Infinite(bool),
    /// The first number, times ten to the power of the second.
    Finite(int, int),
}

/// A value with a sign.
pub open spec fn signed(negative: bool, value: nat) -> int {
    if negative {
        -(value as int)
    } else {
        value as int
    }
}

/// What the float that `text` spells denotes.
pub open spec fn number_of(text: Seq<char>) -> Number {
    let body = unsigned(text);
    if body == ".inf"@ || body == ".Inf"@ || body == ".INF"@ {
        Number::Infinite(is_negative(text))
    } else if body == ".nan"@ || body == ".NaN"@ || body == ".NAN"@ {
        Number::Nan
    } else {
        let (digits, exponent) = finite_parts(body);
        Number::Finite(signed(is_negative(text), decimal_value(digits)), exponent)
    }
}

/// Whether two numbers are the same: finite ones after bringing both to the
/// smaller power of ten.
pub open spec fn same_number(one: Number, two: Number) -> bool {
    match (one, two) {
        (Number::Nan, Number::Nan) => true,
        (Number::Infinite(first), Number::Infinite(second)) => first == second,
        (Number::Finite(first, upper), Number::Finite(second, lower)) => if upper >= lower {
            first * pow(10, (upper - lower) as nat) == second
        } else {
            first == second * pow(10, (lower - upper) as nat)
        },
        _ => false,
    }
}

proof fn zeros_in_front_count_nothing(digits: Seq<char>)
    requires
        digits.len() > 0,
        digits[0] == '0',
    ensures
        decimal_value(digits) == decimal_value(digits.skip(1)),
    decreases digits.len(),
{
    let rest = digits.skip(1);
    if digits.len() == 1 {
        assert(digits.drop_last() =~= Seq::empty());
        assert(decimal_value(digits.drop_last()) == 0);
        assert(rest =~= Seq::empty());
    } else {
        let shorter = digits.drop_last();
        zeros_in_front_count_nothing(shorter);
        assert(rest.drop_last() =~= shorter.skip(1));
        assert(rest.last() == digits.last());
    }
}

proof fn leading_zeros_count_nothing(digits: Seq<char>)
    ensures
        decimal_value(digits) == decimal_value(digits.skip(leading_zeros(digits) as int)),
    decreases digits.len(),
{
    leading_zeros_end(digits);
    if digits.len() > 0 && digits[0] == '0' {
        zeros_in_front_count_nothing(digits);
        let rest = digits.skip(1);
        leading_zeros_end(rest);
        leading_zeros_count_nothing(rest);
        assert(rest.skip(leading_zeros(rest) as int) =~= digits.skip(
            leading_zeros(digits) as int,
        ));
    } else {
        assert(digits.skip(0) =~= digits);
    }
}

proof fn trailing_zeros_multiply(digits: Seq<char>)
    ensures
        decimal_value(digits) == decimal_value(
            digits.take(digits.len() - trailing_zeros(digits)),
        ) * pow(10, trailing_zeros(digits)),
    decreases digits.len(),
{
    trailing_zeros_end(digits);
    let zeros = trailing_zeros(digits);
    let kept = decimal_value(digits.take(digits.len() - zeros)) as int;
    if digits.len() > 0 && digits.last() == '0' {
        let shorter = digits.drop_last();
        trailing_zeros_multiply(shorter);
        trailing_zeros_end(shorter);
        assert(shorter.take(shorter.len() - trailing_zeros(shorter)) =~= digits.take(
            digits.len() - zeros,
        ));
        assert(decimal_value(digits) == 10 * decimal_value(shorter));
        vstd::arithmetic::power::lemma_pow1(10);
        lemma_pow_adds(10, 1, trailing_zeros(shorter));
        let power = pow(10, trailing_zeros(shorter));
        assert(10 * (kept * power) == kept * (10 * power)) by (nonlinear_arith);
    } else {
        lemma_pow0(10);
        assert(digits.take(digits.len() as int) =~= digits);
        assert(kept * 1 == kept);
    }
}

/// The digits without zeros at either end.
spec fn core_of(digits: Seq<char>) -> Seq<char> {
    let significant = digits.skip(leading_zeros(digits) as int);
    significant.take(significant.len() - trailing_zeros(significant))
}

/// The zeros at the end.
spec fn zeros_of(digits: Seq<char>) -> nat {
    trailing_zeros(digits.skip(leading_zeros(digits) as int))
}

proof fn digits_and_core(digits: Seq<char>)
    requires
        all_digits(digits),
    ensures
        decimal_value(digits) == decimal_value(core_of(digits)) * pow(10, zeros_of(digits)),
        all_digits(core_of(digits)),
        core_of(digits).len() == 0 <==> leading_zeros(digits) == digits.len(),
        core_of(digits).len() > 0 ==> core_of(digits)[0] != '0',
        core_of(digits).len() > 0 ==> decimal_value(core_of(digits)) % 10 != 0,
{
    let significant = digits.skip(leading_zeros(digits) as int);
    let core = core_of(digits);
    leading_zeros_end(digits);
    leading_zeros_count_nothing(digits);
    trailing_zeros_end(significant);
    trailing_zeros_multiply(significant);
    assert forall|at: int| 0 <= at < core.len() implies is_digit(#[trigger] core[at]) by {
        assert(core[at] == digits[at + leading_zeros(digits)]);
    }
    if core.len() > 0 {
        assert(core[0] == significant[0]);
        assert(core.last() == significant[significant.len() - zeros_of(digits) - 1]);
        assert(is_digit(core[core.len() - 1]));
    }
}

proof fn finite_is_scientific(negative: bool, text: Seq<char>)
    requires
        canonical_finite(negative, text) is Some,
    ensures
        canonical_finite(negative, text) == Some(
            scientific(negative, finite_parts(text).0, finite_parts(text).1),
        ),
        all_digits(finite_parts(text).0),
{
    let marker = find_either(text, 'e', 'E', 0);
    let mantissa = text.take(marker);
    let point = find_either(mantissa, '.', '.', 0);
    let whole = mantissa.take(point);
    let fraction = if point < mantissa.len() {
        mantissa.skip(point + 1)
    } else {
        Seq::empty()
    };
    let digits = whole + fraction;
    assert forall|at: int| 0 <= at < digits.len() implies is_digit(#[trigger] digits[at]) by {
        if at < whole.len() {
            assert(digits[at] == whole[at]);
        } else {
            assert(digits[at] == fraction[at - whole.len()]);
        }
    }
}

/// A sign, digits, and an exponent.
spec fn spelled(negative: bool, core: Seq<char>, exponent: int) -> Seq<char> {
    sign_text(negative) + core + seq!['e'] + integer_numeral(exponent)
}

proof fn spelled_parts(negative: bool, core: Seq<char>, exponent: int)
    requires
        core.len() > 0,
        all_digits(core),
    ensures
        ({
            let text = spelled(negative, core, exponent);
            let body = unsigned(text);
            let marker = find_either(body, 'e', 'E', 0);
            &&& is_negative(text) == negative
            &&& body[0] == core[0]
            &&& body.take(marker) == core
            &&& integer(body.skip(marker + 1)) == Some(exponent)
        }),
{
    let text = spelled(negative, core, exponent);
    let numeral = integer_numeral(exponent);
    let body = core + seq!['e'] + numeral;
    assert(is_digit(core[0]));
    assert(text[0] == if negative {
        '-'
    } else {
        core[0]
    });
    assert(unsigned(text) =~= body);
    let marker = core.len() as int;
    assert forall|at: int| 0 <= at < marker implies (#[trigger] body[at]) != 'e' && body[at]
        != 'E' by {
        assert(body[at] == core[at]);
        assert(is_digit(core[at]));
    }
    assert(body[marker] == 'e');
    find_either_is(body, 'e', 'E', 0, marker);
    assert(body.take(marker) =~= core);
    assert(body.skip(marker + 1) =~= numeral);
    integer_of_numeral(exponent);
}

/// A number brought to a smaller power of ten.
spec fn scaled(value: int, exponent: int, to: int) -> int {
    value * pow(10, (exponent - to) as nat)
}

proof fn scaling_tells_numbers_apart(one: int, upper: int, two: int, lower: int, to: int)
    requires
        to <= upper,
        to <= lower,
    ensures
        same_number(Number::Finite(one, upper), Number::Finite(two, lower)) <==> scaled(
            one,
            upper,
            to,
        ) == scaled(two, lower, to),
{
    if upper >= lower {
        scaling_step(one, upper, two, lower, to);
    } else {
        scaling_step(two, lower, one, upper, to);
    }
}

proof fn scaling_step(one: int, upper: int, two: int, lower: int, to: int)
    requires
        to <= lower <= upper,
    ensures
        one * pow(10, (upper - lower) as nat) == two <==> scaled(one, upper, to) == scaled(
            two,
            lower,
            to,
        ),
{
    let gap = (upper - lower) as nat;
    let rest = (lower - to) as nat;
    lemma_pow_adds(10, gap, rest);
    lemma_pow_positive(10, rest);
    assert(gap + rest == (upper - to) as nat);
    let wide = pow(10, gap);
    let narrow = pow(10, rest);
    assert(one * (wide * narrow) == (one * wide) * narrow) by (nonlinear_arith);
    assert((one * wide) * narrow == two * narrow ==> one * wide == two) by (nonlinear_arith)
        requires
            narrow > 0,
    ;
}

proof fn scaling_keeps_zeros(value: int, zeros: nat, exponent: int, to: int)
    requires
        to <= exponent,
    ensures
        scaled(value * pow(10, zeros), exponent, to) == scaled(value, exponent + zeros, to),
{
    let rest = (exponent - to) as nat;
    lemma_pow_adds(10, zeros, rest);
    assert(zeros + rest == (exponent + zeros - to) as nat);
    let wide = pow(10, zeros);
    let narrow = pow(10, rest);
    assert((value * wide) * narrow == value * (wide * narrow)) by (nonlinear_arith);
}

proof fn signed_product(negative: bool, core: nat, power: int)
    requires
        power > 0,
    ensures
        signed(negative, (core * power) as nat) == signed(negative, core) * power,
{
    assert(core * power >= 0) by (nonlinear_arith)
        requires
            power > 0,
            core >= 0,
    ;
    assert(-(core as int) * power == -(core * power)) by (nonlinear_arith);
}

/// Two numbers without a factor of ten are the same only if their powers of
/// ten are.
proof fn normal_forms_are_unique(one: int, upper: int, two: int, lower: int)
    requires
        one % 10 != 0,
        two % 10 != 0,
    ensures
        same_number(Number::Finite(one, upper), Number::Finite(two, lower)) <==> one == two
            && upper == lower,
{
    lemma_pow0(10);
    if upper > lower {
        factor_of_ten(one, (upper - lower) as nat);
    } else if lower > upper {
        factor_of_ten(two, (lower - upper) as nat);
    }
}

proof fn factor_of_ten(value: int, exponent: nat)
    requires
        exponent > 0,
    ensures
        (value * pow(10, exponent)) % 10 == 0,
{
    vstd::arithmetic::power::lemma_pow1(10);
    lemma_pow_adds(10, 1, (exponent - 1) as nat);
    let rest = pow(10, (exponent - 1) as nat);
    assert(value * (10 * rest) == 10 * (value * rest)) by (nonlinear_arith);
}

proof fn finite_floats_agree(one_negative: bool, one: Seq<char>, two_negative: bool, two: Seq<char>)
    requires
        canonical_finite(one_negative, one) is Some,
        canonical_finite(two_negative, two) is Some,
    ensures
        canonical_finite(one_negative, one) == canonical_finite(two_negative, two) <==> same_number(
            Number::Finite(
                signed(one_negative, decimal_value(finite_parts(one).0)),
                finite_parts(one).1,
            ),
            Number::Finite(
                signed(two_negative, decimal_value(finite_parts(two).0)),
                finite_parts(two).1,
            ),
        ),
{
    finite_is_scientific(one_negative, one);
    finite_is_scientific(two_negative, two);
    let (first, upper) = finite_parts(one);
    let (second, lower) = finite_parts(two);
    scientific_agrees(one_negative, first, upper, two_negative, second, lower);
}

proof fn cores_tell_numbers_apart(
    one_negative: bool,
    first: Seq<char>,
    upper: int,
    two_negative: bool,
    second: Seq<char>,
    lower: int,
)
    requires
        all_digits(first),
        all_digits(second),
    ensures
        same_number(
            Number::Finite(signed(one_negative, decimal_value(first)), upper),
            Number::Finite(signed(two_negative, decimal_value(second)), lower),
        ) <==> same_number(
            Number::Finite(
                signed(one_negative, decimal_value(core_of(first))),
                upper + zeros_of(first),
            ),
            Number::Finite(
                signed(two_negative, decimal_value(core_of(second))),
                lower + zeros_of(second),
            ),
        ),
{
    let to = if upper <= lower {
        upper
    } else {
        lower
    };
    core_is_scaled(one_negative, first, upper, to);
    core_is_scaled(two_negative, second, lower, to);
    scaling_tells_numbers_apart(
        signed(one_negative, decimal_value(first)),
        upper,
        signed(two_negative, decimal_value(second)),
        lower,
        to,
    );
    scaling_tells_numbers_apart(
        signed(one_negative, decimal_value(core_of(first))),
        upper + zeros_of(first),
        signed(two_negative, decimal_value(core_of(second))),
        lower + zeros_of(second),
        to,
    );
}

proof fn core_is_scaled(negative: bool, digits: Seq<char>, exponent: int, to: int)
    requires
        all_digits(digits),
        to <= exponent,
    ensures
        scaled(signed(negative, decimal_value(digits)), exponent, to) == scaled(
            signed(negative, decimal_value(core_of(digits))),
            exponent + zeros_of(digits),
            to,
        ),
{
    digits_and_core(digits);
    let core = decimal_value(core_of(digits));
    let power = pow(10, zeros_of(digits));
    lemma_pow_positive(10, zeros_of(digits));
    signed_product(negative, core, power);
    scaling_keeps_zeros(signed(negative, core), zeros_of(digits), exponent, to);
}

proof fn scientific_spells_the_core(negative: bool, digits: Seq<char>, exponent: int)
    requires
        all_digits(digits),
    ensures
        scientific(negative, digits, exponent) == if core_of(digits).len() > 0 {
            spelled(negative, core_of(digits), exponent + zeros_of(digits))
        } else {
            "0e0"@
        },
        core_of(digits).len() == 0 ==> decimal_value(core_of(digits)) == 0,
        core_of(digits).len() > 0 ==> decimal_value(core_of(digits)) != 0,
{
    digits_and_core(digits);
    leading_zeros_end(digits);
    trailing_zeros_end(digits.skip(leading_zeros(digits) as int));
}

proof fn spellings_agree(
    one_negative: bool,
    left: Seq<char>,
    upper: int,
    two_negative: bool,
    right: Seq<char>,
    lower: int,
)
    requires
        left.len() > 0,
        right.len() > 0,
        all_digits(left),
        all_digits(right),
        left[0] != '0',
        right[0] != '0',
        decimal_value(left) % 10 != 0,
        decimal_value(right) % 10 != 0,
    ensures
        spelled(one_negative, left, upper) == spelled(two_negative, right, lower) <==> same_number(
            Number::Finite(signed(one_negative, decimal_value(left)), upper),
            Number::Finite(signed(two_negative, decimal_value(right)), lower),
        ),
{
    spelled_parts(one_negative, left, upper);
    spelled_parts(two_negative, right, lower);
    numeral_of_its_value(left);
    numeral_of_its_value(right);
    normal_forms_are_unique(
        signed(one_negative, decimal_value(left)),
        upper,
        signed(two_negative, decimal_value(right)),
        lower,
    );
}

proof fn no_spelling_is_zero(negative: bool, core: Seq<char>, exponent: int)
    requires
        core.len() > 0,
        all_digits(core),
        core[0] != '0',
    ensures
        spelled(negative, core, exponent) != "0e0"@,
{
    reveal_strlit("0e0");
    spelled_parts(negative, core, exponent);
    assert(unsigned("0e0"@)[0] == '0');
}

proof fn scientific_agrees(
    one_negative: bool,
    first: Seq<char>,
    upper: int,
    two_negative: bool,
    second: Seq<char>,
    lower: int,
)
    requires
        all_digits(first),
        all_digits(second),
    ensures
        scientific(one_negative, first, upper) == scientific(two_negative, second, lower)
            <==> same_number(
            Number::Finite(signed(one_negative, decimal_value(first)), upper),
            Number::Finite(signed(two_negative, decimal_value(second)), lower),
        ),
{
    cores_tell_numbers_apart(one_negative, first, upper, two_negative, second, lower);
    scientific_spells_the_core(one_negative, first, upper);
    scientific_spells_the_core(two_negative, second, lower);
    digits_and_core(first);
    digits_and_core(second);
    let left = core_of(first);
    let right = core_of(second);
    let left_exponent = upper + zeros_of(first);
    let right_exponent = lower + zeros_of(second);
    if left.len() > 0 && right.len() > 0 {
        spellings_agree(
            one_negative,
            left,
            left_exponent,
            two_negative,
            right,
            right_exponent,
        );
    } else if left.len() > 0 {
        no_spelling_is_zero(one_negative, left, left_exponent);
        zero_differs(
            signed(one_negative, decimal_value(left)),
            left_exponent,
            right_exponent,
        );
    } else if right.len() > 0 {
        no_spelling_is_zero(two_negative, right, right_exponent);
        zero_differs(
            signed(two_negative, decimal_value(right)),
            right_exponent,
            left_exponent,
        );
    } else {
        zeros_are_the_same(left_exponent, right_exponent);
        assert(signed(one_negative, decimal_value(left)) == 0);
        assert(signed(two_negative, decimal_value(right)) == 0);
    }
}

proof fn zeros_are_the_same(upper: int, lower: int)
    ensures
        same_number(Number::Finite(0, upper), Number::Finite(0, lower)),
{
    if upper >= lower {
        assert(0 * pow(10, (upper - lower) as nat) == 0);
    } else {
        assert(0 * pow(10, (lower - upper) as nat) == 0);
    }
}

proof fn zero_differs(value: int, upper: int, lower: int)
    requires
        value != 0,
    ensures
        !same_number(Number::Finite(value, upper), Number::Finite(0, lower)),
        !same_number(Number::Finite(0, lower), Number::Finite(value, upper)),
{
    if upper >= lower {
        let power = pow(10, (upper - lower) as nat);
        lemma_pow_positive(10, (upper - lower) as nat);
        assert(value * power != 0) by (nonlinear_arith)
            requires
                value != 0,
                power > 0,
        ;
    }
}

/// Two floats have the same canonical spelling if and only if they denote the
/// same number. The sign of a zero does not matter.
pub proof fn canonical_floats_agree_on_the_same_number(one: Seq<char>, two: Seq<char>)
    requires
        canonical_float_of(one) is Some,
        canonical_float_of(two) is Some,
    ensures
        canonical_float_of(one) == canonical_float_of(two) <==> same_number(
            number_of(one),
            number_of(two),
        ),
{
    reveal_strlit("inf");
    reveal_strlit("-inf");
    reveal_strlit("nan");
    if number_of(one) is Finite && number_of(two) is Finite {
        finite_floats_agree(is_negative(one), unsigned(one), is_negative(two), unsigned(two));
    } else if number_of(one) is Finite {
        finite_is_a_number(is_negative(one), unsigned(one));
    } else if number_of(two) is Finite {
        finite_is_a_number(is_negative(two), unsigned(two));
    } else {
        assert("inf"@ != "-inf"@) by {
            assert("inf"@[0] != "-inf"@[0]);
        }
        assert("nan"@ != "-inf"@) by {
            assert("nan"@[0] != "-inf"@[0]);
        }
        assert("nan"@ != "inf"@) by {
            assert("nan"@[0] != "inf"@[0]);
        }
    }
}

proof fn finite_is_a_number(negative: bool, text: Seq<char>)
    requires
        canonical_finite(negative, text) is Some,
    ensures
        canonical_finite(negative, text)->0 != "inf"@,
        canonical_finite(negative, text)->0 != "-inf"@,
        canonical_finite(negative, text)->0 != "nan"@,
{
    reveal_strlit("inf");
    reveal_strlit("-inf");
    reveal_strlit("nan");
    reveal_strlit("0e0");
    finite_is_scientific(negative, text);
    let (digits, exponent) = finite_parts(text);
    digits_and_core(digits);
    let core = core_of(digits);
    leading_zeros_end(digits);
    trailing_zeros_end(digits.skip(leading_zeros(digits) as int));
    let canonical = canonical_finite(negative, text)->0;
    if core.len() > 0 {
        spelled_parts(negative, core, exponent + zeros_of(digits));
        assert(canonical == spelled(negative, core, exponent + zeros_of(digits)));
        assert(is_digit(core[0]));
        let body = unsigned(canonical);
        assert(body[0] == core[0]);
        assert(unsigned("inf"@)[0] == 'i');
        assert(unsigned("-inf"@)[0] == 'i');
        assert(unsigned("nan"@)[0] == 'n');
    } else {
        assert(canonical == "0e0"@);
        assert("0e0"@[0] == '0');
        assert("inf"@[0] == 'i');
        assert("-inf"@[0] == '-');
        assert("nan"@[0] == 'n');
    }
}

} // verus!
