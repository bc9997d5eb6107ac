//! The cardinality that a rule declares.

use vstd::prelude::*;

use crate::load_result::{error_specs, ErrorSpec, SchemaError, SchemaErrorKind, SourceRange};
use crate::loader::places::{error_at, plain_error};
use crate::loader::rules::{parse_repeat, repeat_of, text_spec};
use crate::schema::{Cardinality, UpperBound};
use crate::text::join3;

verus! {

/// Exactly one.
pub open spec fn exactly_one() -> Cardinality {
    Cardinality { min: 1, max: UpperBound::Bounded(1) }
}

/// The cardinality that `required` or `repeat` declares, or the error in it.
/// With neither, a rule matches exactly once where `implicit` says so.
pub open spec fn cardinality_of(
    required: Option<bool>,
    repeat: Option<Seq<char>>,
    implicit: bool,
    range: SourceRange,
) -> Result<Cardinality, ErrorSpec> {
    match (required, repeat) {
        (Some(_), Some(_)) => Err(
            plain_error(
                SchemaErrorKind::ConflictingCardinality,
                range,
                "required and repeat cannot both be declared"@,
            ),
        ),
        (Some(true), None) => Ok(exactly_one()),
        (Some(false), None) => Ok(Cardinality { min: 0, max: UpperBound::Bounded(1) }),
        (None, Some(repeat)) => match repeat_of(repeat) {
            Some(cardinality) => Ok(cardinality),
            None => Err(
                plain_error(
                    SchemaErrorKind::InvalidRepeat,
                    range,
                    "invalid repeat `"@ + repeat + "`"@,
                ),
            ),
        },
        (None, None) => if implicit {
            Ok(exactly_one())
        } else {
            Err(
                plain_error(
                    SchemaErrorKind::MissingCardinality,
                    range,
                    "regex, glob, and wildcard rules must declare `required` or `repeat`"@,
                ),
            )
        },
    }
}

/// Builds the cardinality that a rule declares.
pub fn build_cardinality(
    required: Option<bool>,
    repeat: Option<&str>,
    implicit: bool,
    range: SourceRange,
    errors: &mut Vec<SchemaError>,
) -> (cardinality: Option<Cardinality>)
    ensures
        match cardinality_of(required, text_spec(repeat), implicit, range) {
            Ok(expected) => cardinality == Some(expected) && error_specs(final(errors)@)
                == error_specs(old(errors)@),
            Err(error) => cardinality is None && error_specs(final(errors)@) == error_specs(
                old(errors)@,
            ).push(error),
        },
{
    match (required, repeat) {
        (Some(_), Some(_)) => {
            error_at(
                errors,
                SchemaErrorKind::ConflictingCardinality,
                range,
                "required and repeat cannot both be declared".to_owned(),
            );
            None
        },
        (Some(true), None) => Some(Cardinality { min: 1, max: UpperBound::Bounded(1) }),
        (Some(false), None) => Some(Cardinality { min: 0, max: UpperBound::Bounded(1) }),
        (None, Some(repeat)) => match parse_repeat(repeat) {
            Some(cardinality) => Some(cardinality),
            None => {
                error_at(
                    errors,
                    SchemaErrorKind::InvalidRepeat,
                    range,
                    join3("invalid repeat `", repeat, "`"),
                );
                None
            },
        },
        (None, None) => {
            if implicit {
                Some(Cardinality { min: 1, max: UpperBound::Bounded(1) })
            } else {
                error_at(
                    errors,
                    SchemaErrorKind::MissingCardinality,
                    range,
                    "regex, glob, and wildcard rules must declare `required` or `repeat`".to_owned(),
                );
                None
            }
        },
    }
}

/// A cardinality that a rule declares can be met: its bounds admit a match.
pub proof fn declared_cardinalities_can_be_met(
    required: Option<bool>,
    repeat: Option<Seq<char>>,
    implicit: bool,
    range: SourceRange,
)
    ensures
        cardinality_of(required, repeat, implicit, range) matches Ok(cardinality)
            ==> match cardinality.max {
            UpperBound::Bounded(max) => cardinality.min <= max && max > 0,
            UpperBound::Unbounded => true,
        },
{
}

/// The product of two upper bounds. What exceeds the range of a bound is
/// unbounded, and unbounded it stays.
pub open spec fn maximum_product(left: UpperBound, right: UpperBound) -> UpperBound {
    match (left, right) {
        (UpperBound::Bounded(left), UpperBound::Bounded(right)) => {
            if left * right <= u32::MAX {
                UpperBound::Bounded((left * right) as u32)
            } else {
                UpperBound::Unbounded
            }
        },
        _ => UpperBound::Unbounded,
    }
}

/// The product of two upper bounds.
pub fn effective_maximum(left: UpperBound, right: UpperBound) -> (product: UpperBound)
    ensures
        product == maximum_product(left, right),
{
    match (left, right) {
        (UpperBound::Bounded(left), UpperBound::Bounded(right)) => match left.checked_mul(right) {
            Some(product) => UpperBound::Bounded(product),
            None => UpperBound::Unbounded,
        },
        _ => UpperBound::Unbounded,
    }
}

/// Whether an upper bound admits one match at most.
pub open spec fn is_singular(maximum: UpperBound) -> bool {
    maximum matches UpperBound::Bounded(max) && max <= 1
}

/// Whether an upper bound admits one match at most.
pub fn is_singular_maximum(maximum: UpperBound) -> (singular: bool)
    ensures
        singular == is_singular(maximum),
{
    match maximum {
        UpperBound::Bounded(max) => max <= 1,
        UpperBound::Unbounded => false,
    }
}

/// Bounds multiply in any order: singular bounds stay singular, a factor of
/// one changes nothing, and what is unbounded stays so.
pub proof fn bounds_multiply(left: UpperBound, right: UpperBound)
    ensures
        is_singular(left) && is_singular(right) ==> is_singular(maximum_product(left, right)),
        maximum_product(left, right) == maximum_product(right, left),
        maximum_product(left, UpperBound::Bounded(1)) == left,
        maximum_product(left, UpperBound::Unbounded) == UpperBound::Unbounded,
{
    if let (UpperBound::Bounded(left), UpperBound::Bounded(right)) = (left, right) {
        assert(left * right == right * left) by (nonlinear_arith);
        if left <= 1 && right <= 1 {
            assert(left * right <= 1) by (nonlinear_arith)
                requires
                    left <= 1,
                    right <= 1,
            ;
        }
    }
}

} // verus!
