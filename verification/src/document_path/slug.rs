//! Heading slugs: the names of sections in a document path.

use unicode_normalization::UnicodeNormalization;
use vstd::prelude::*;

use crate::text::{chars_of, is_digit, is_lower};

verus! {

/// The compatibility decomposition (NFKD) of a text.
pub uninterp spec fn nfkd(text: Seq<char>) -> Seq<char>;

/// The lowercase mapping of one character.
pub uninterp spec fn char_lowercase(character: char) -> Seq<char>;

/// Whether a character is a combining mark.
pub uninterp spec fn combining_mark(character: char) -> bool;

/// `unicode_normalization::UnicodeNormalization::nfkd` yields the NFKD
/// decomposition of the text; ASCII characters stand for themselves in it.
#[verifier::external_body]
fn nfkd_chars(text: &str) -> (chars: Vec<char>)
    ensures
        chars@ == nfkd(text@),
        vstd::utf8::is_ascii_chars(text@) ==> chars@ == text@,
{
    UnicodeNormalization::nfkd(text).collect()
}

/// `char::to_lowercase` yields the lowercase mapping of a character, which is
/// the character itself where it has no such mapping.
#[verifier::external_body]
fn lowercase_chars(character: char) -> (chars: Vec<char>)
    ensures
        chars@ == char_lowercase(character),
        is_slug_char(character) || character == '-' ==> chars@ == seq![character],
{
    character.to_lowercase().collect()
}

/// `unicode_normalization::char::is_combining_mark` tells combining marks
/// from other characters; no ASCII character is one.
pub assume_specification[ unicode_normalization::char::is_combining_mark ](
    c: char,
) -> (marked: bool)
    ensures
        marked == combining_mark(c),
        c <= '\u{7f}' ==> !marked,
;

/// A character that a slug keeps.
pub open spec fn is_slug_char(character: char) -> bool {
    is_lower(character) || is_digit(character)
}

/// The slug form `[a-z0-9]+(-[a-z0-9]+)*`: kept characters and single hyphens
/// between them.
pub open spec fn has_slug_form(text: Seq<char>) -> bool {
    &&& text.len() > 0
    &&& forall|at: int|
        0 <= at < text.len() ==> is_slug_char(#[trigger] text[at]) || {
            &&& text[at] == '-'
            &&& 0 < at < text.len() - 1
            &&& is_slug_char(text[at - 1])
        }
}

/// The lowercase mappings of `chars`, joined in order.
pub open spec fn lowered(chars: Seq<char>) -> Seq<char>
    decreases chars.len(),
{
    if chars.len() == 0 {
        Seq::empty()
    } else {
        lowered(chars.drop_last()) + char_lowercase(chars.last())
    }
}

/// One step of slug building: the slug so far, and whether a separator is due
/// before the next kept character.
pub open spec fn slug_step(state: (Seq<char>, bool), character: char) -> (Seq<char>, bool) {
    if is_slug_char(character) {
        (
            if state.1 && state.0.len() > 0 {
                state.0.push('-').push(character)
            } else {
                state.0.push(character)
            },
            false,
        )
    } else if combining_mark(character) {
        state
    } else {
        (state.0, true)
    }
}

/// The slug of `chars`: kept characters, with one hyphen for every run of
/// other characters between two of them. Combining marks leave no trace.
pub open spec fn slug_scan(chars: Seq<char>) -> (Seq<char>, bool)
    decreases chars.len(),
{
    if chars.len() == 0 {
        (Seq::empty(), false)
    } else {
        slug_step(slug_scan(chars.drop_last()), chars.last())
    }
}

/// The slug that names a heading with the given text, if anything remains of
/// it.
pub open spec fn slug_of(text: Seq<char>) -> Option<Seq<char>> {
    let slug = slug_scan(lowered(nfkd(text))).0;
    if slug.len() == 0 {
        None
    } else {
        Some(slug)
    }
}

/// A slug under construction has the slug form once it holds anything.
pub proof fn slug_scan_has_slug_form(chars: Seq<char>)
    ensures
        slug_scan(chars).0.len() == 0 || has_slug_form(slug_scan(chars).0),
        slug_scan(chars).0.len() > 0 ==> is_slug_char(slug_scan(chars).0.last()),
    decreases chars.len(),
{
    if chars.len() > 0 {
        slug_scan_has_slug_form(chars.drop_last());
        let before = slug_scan(chars.drop_last());
        let after = slug_scan(chars);
        if is_slug_char(chars.last()) {
            assert forall|at: int| 0 <= at < after.0.len() implies is_slug_char(
                #[trigger] after.0[at],
            ) || {
                &&& after.0[at] == '-'
                &&& 0 < at < after.0.len() - 1
                &&& is_slug_char(after.0[at - 1])
            } by {
                if at < before.0.len() {
                    assert(after.0[at] == before.0[at]);
                    if at > 0 {
                        assert(after.0[at - 1] == before.0[at - 1]);
                    }
                }
            }
        }
    }
}

/// Every slug that a heading derives has the slug form.
pub proof fn derived_slugs_have_slug_form(text: Seq<char>)
    ensures
        slug_of(text) is Some ==> has_slug_form(slug_of(text)->0),
{
    slug_scan_has_slug_form(lowered(nfkd(text)));
}

/// A heading slug in the form `[a-z0-9]+(-[a-z0-9]+)*`.
///
/// Construction is restricted to [`heading_slug`], which derives a slug from
/// heading text, and to [`HeadingSlug::parse`], which accepts only text that
/// already has the slug form. A value therefore always spells a valid named
/// section segment.
#[derive(Debug, PartialEq, Eq, PartialOrd, Ord, Hash)]
pub struct HeadingSlug {
    text: String,
}

impl View for HeadingSlug {
    type V = Seq<char>;

    closed spec fn view(&self) -> Seq<char> {
        self.text@
    }
}

impl Clone for HeadingSlug {
    fn clone(&self) -> (copy: Self)
        ensures
            copy == *self,
    {
        proof {
            use_type_invariant(self);
        }
        HeadingSlug { text: self.text.clone() }
    }
}

impl HeadingSlug {
    #[verifier::type_invariant]
    spec fn well_formed(self) -> bool {
        has_slug_form(self.text@)
    }

    /// Accepts `text` as a slug when it already has the slug form.
    ///
    /// Unlike [`heading_slug`], this performs no normalization: `Rollback
    /// Plan` is rejected rather than turned into `rollback-plan`.
    pub fn parse(text: &str) -> (slug: Option<Self>)
        ensures
            slug is Some <==> has_slug_form(text@),
            slug is Some ==> slug->0@ == text@,
    {
        let chars = chars_of(text);
        let mut previous_hyphen = true;
        let mut at: usize = 0;
        while at < chars.len()
            invariant
                at <= chars@.len(),
                chars@ == text@,
                previous_hyphen == (at == 0 || chars@[at - 1] == '-'),
                forall|before: int|
                    0 <= before < at ==> is_slug_char(#[trigger] chars@[before]) || {
                        &&& chars@[before] == '-'
                        &&& 0 < before
                        &&& is_slug_char(chars@[before - 1])
                    },
            decreases chars.len() - at,
        {
            let character = chars[at];
            if ('a' <= character && character <= 'z') || ('0' <= character && character <= '9') {
                previous_hyphen = false;
            } else if character == '-' && !previous_hyphen {
                previous_hyphen = true;
            } else {
                assert(!is_slug_char(text@[at as int]));
                return None;
            }
            at += 1;
        }
        if previous_hyphen {
            proof {
                if has_slug_form(text@) {
                    assert(is_slug_char(text@[text@.len() - 1]));
                }
            }
            None
        } else {
            Some(HeadingSlug { text: text.to_owned() })
        }
    }

    /// Returns the slug text, which has the slug form.
    pub fn as_str(&self) -> (text: &str)
        ensures
            text@ == self@,
            has_slug_form(self@),
    {
        proof {
            use_type_invariant(self);
        }
        self.text.as_str()
    }

    /// Consumes the slug, yielding its text without copying it.
    pub(crate) fn into_string(self) -> (text: String)
        ensures
            text@ == self@,
    {
        self.text
    }

    /// The slug spelled by `chars[from..to]`, which has the slug form.
    pub(crate) fn from_chars(chars: &[char], from: usize, to: usize) -> (slug: Self)
        requires
            from <= to <= chars@.len(),
            has_slug_form(chars@.subrange(from as int, to as int)),
        ensures
            slug@ == chars@.subrange(from as int, to as int),
    {
        HeadingSlug { text: crate::text::text_of(chars, from, to) }
    }

    /// Whether two slugs spell the same text.
    pub fn same(&self, other: &HeadingSlug) -> (same: bool)
        ensures
            same == (self@ == other@),
    {
        self.text == other.text
    }
}

/// Derives the slug that names a heading in a document path.
///
/// The text is NFKD-decomposed and lowercased; ASCII letters and digits are
/// kept, combining marks are discarded so that `Mälardalen` becomes
/// `malardalen` rather than `m-lardalen`, and every other run of characters
/// becomes a single `-`. Leading and trailing separators are dropped. Returns
/// `None` when nothing remains, in which case the heading can only be
/// addressed positionally. Text that has the slug form already is its own
/// slug.
pub fn heading_slug(text: &str) -> (slug: Option<HeadingSlug>)
    ensures
        slug is Some <==> slug_of(text@) is Some,
        slug is Some ==> slug->0@ == slug_of(text@)->0,
        has_slug_form(text@) ==> slug is Some && slug->0@ == text@,
{
    let decomposed = nfkd_chars(text);
    proof {
        if has_slug_form(text@) {
            assert forall|at: int| 0 <= at < text@.len() implies '\0' <= #[trigger] text@[at]
                <= '\u{7f}' by {
                assert(is_slug_char(text@[at]) || text@[at] == '-');
            }
        }
    }
    slug_of_decomposed(decomposed.as_slice())
}

/// Derives a slug from text that is already NFKD-decomposed.
pub fn slug_of_decomposed(decomposed: &[char]) -> (slug: Option<HeadingSlug>)
    ensures
        slug is Some <==> slug_scan(lowered(decomposed@)).0.len() > 0,
        slug is Some ==> slug->0@ == slug_scan(lowered(decomposed@)).0,
        has_slug_form(decomposed@) ==> slug is Some && slug->0@ == decomposed@,
{
    let mut result = String::new();
    let mut separator_pending = false;
    let mut at: usize = 0;
    while at < decomposed.len()
        invariant
            at <= decomposed@.len(),
            (result@, separator_pending) == slug_scan(lowered(decomposed@.take(at as int))),
            has_slug_form(decomposed@) ==> {
                &&& separator_pending == (at > 0 && decomposed@[at - 1] == '-')
                &&& result@ == decomposed@.take(if separator_pending { at - 1 } else { at as int })
            },
        decreases decomposed.len() - at,
    {
        let lower = lowercase_chars(decomposed[at]);
        let ghost result_before = result@;
        let ghost pending_before = separator_pending;
        let ghost before = lowered(decomposed@.take(at as int));
        let mut next: usize = 0;
        assert(before + lower@.take(0) =~= before);
        while next < lower.len()
            invariant
                next <= lower@.len(),
                (result@, separator_pending) == slug_scan(before + lower@.take(next as int)),
                forall|seen: int|
                    0 <= seen < next && #[trigger] lower@[seen] == '-' ==> !combining_mark('-'),
            decreases lower.len() - next,
        {
            let character = lower[next];
            proof {
                let taken = before + lower@.take(next + 1);
                assert(taken.drop_last() =~= before + lower@.take(next as int));
                assert(taken.last() == character);
            }
            if ('a' <= character && character <= 'z') || ('0' <= character && character <= '9') {
                if separator_pending && !result.as_str().is_empty() {
                    result.push('-');
                }
                result.push(character);
                separator_pending = false;
            } else if unicode_normalization::char::is_combining_mark(character) {
                // NFKD splits letters such as `ä` into an ASCII base followed
                // by a combining mark. The mark modifies that base; it is not
                // a word boundary and must not introduce a separator.
            } else {
                separator_pending = true;
            }
            next += 1;
        }
        proof {
            let taken = decomposed@.take(at + 1);
            assert(taken.drop_last() =~= decomposed@.take(at as int));
            assert(lower@.take(lower@.len() as int) =~= lower@);
            assert(lowered(taken) == before + lower@);
            if has_slug_form(decomposed@) {
                let character = decomposed@[at as int];
                assert(is_slug_char(character) || character == '-');
                assert(lower@ == seq![character]);
                let whole = before + lower@;
                assert(whole.drop_last() =~= before);
                assert(whole.last() == character);
                assert(lower@[0] == character);
                assert((result@, separator_pending) == slug_step(
                    (result_before, pending_before),
                    character,
                ));
                if pending_before {
                    assert(is_slug_char(character));
                    assert(result_before.len() > 0);
                    assert(result@ =~= taken);
                } else if character == '-' {
                    assert(result@ =~= decomposed@.take(at as int));
                } else {
                    assert(result@ =~= taken);
                }
            }
        }
        at += 1;
    }
    assert(decomposed@.take(decomposed@.len() as int) =~= decomposed@);
    proof {
        slug_scan_has_slug_form(lowered(decomposed@));
        if has_slug_form(decomposed@) {
            assert(is_slug_char(decomposed@[decomposed@.len() - 1]));
        }
    }
    if result.as_str().is_empty() {
        None
    } else {
        Some(HeadingSlug { text: result })
    }
}

} // verus!
