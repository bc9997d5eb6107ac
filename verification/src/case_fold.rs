//! Unicode case folding for comparisons that do not match case.

use vstd::prelude::*;

use crate::text::chars_of;

verus! {

/// The Unicode simple case fold of a character.
pub uninterp spec fn folded_char(character: char) -> char;

/// `casefold::simple_fold_char` folds one character to one character, by the
/// simple mappings of the Unicode case folding data. Not stated: the mappings
/// themselves.
#[verifier::external_body]
fn fold_char(character: char) -> (folded: char)
    ensures
        folded == folded_char(character),
{
    casefold::simple_fold_char(character)
}

/// The Unicode default simple fold of a text: every character folded by
/// itself, without normalization or multi-code-point expansion.
pub open spec fn folded(text: Seq<char>) -> Seq<char> {
    text.map_values(|character: char| folded_char(character))
}

/// Folds a text.
pub fn simple_fold(value: &str) -> (text: String)
    ensures
        text@ == folded(value@),
{
    let chars = chars_of(value);
    let mut text = String::new();
    let mut at: usize = 0;
    while at < chars.len()
        invariant
            at <= chars@.len(),
            chars@ == value@,
            text@ == folded(value@).take(at as int),
        decreases chars.len() - at,
    {
        text.push(fold_char(chars[at]));
        assert(text@ =~= folded(value@).take(at + 1));
        at += 1;
    }
    assert(folded(value@).take(at as int) =~= folded(value@));
    text
}

/// Compares two texts under Unicode default simple case folding, without
/// making folded copies.
pub fn simple_eq(left: &str, right: &str) -> (equal: bool)
    ensures
        equal == (folded(left@) == folded(right@)),
{
    let left_chars = chars_of(left);
    let right_chars = chars_of(right);
    if left_chars.len() != right_chars.len() {
        assert(folded(left@).len() != folded(right@).len());
        return false;
    }
    let mut at: usize = 0;
    while at < left_chars.len()
        invariant
            at <= left_chars@.len() == right_chars@.len(),
            left_chars@ == left@,
            right_chars@ == right@,
            forall|k: int| 0 <= k < at ==> #[trigger] folded(left@)[k] == folded(right@)[k],
        decreases left_chars.len() - at,
    {
        if fold_char(left_chars[at]) != fold_char(right_chars[at]) {
            assert(folded(left@)[at as int] != folded(right@)[at as int]);
            return false;
        }
        at += 1;
    }
    assert(folded(left@) =~= folded(right@));
    true
}

/// Folding works character by character: the fold of a joined text is the
/// joined folds.
pub proof fn folding_distributes(left: Seq<char>, right: Seq<char>)
    ensures
        folded(left + right) == folded(left) + folded(right),
{
    assert(folded(left + right) =~= folded(left) + folded(right));
}

} // verus!
