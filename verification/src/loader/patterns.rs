//! What the texts of rules spell: regular expressions, matchers and repeats.

use vstd::prelude::*;

use super::rules::{
    find_dots, matcher_of, regex_body_of, repeat_of, repeat_spelling, repeat_spellings_parse_back,
    with_escaped_delimiters,
};
use crate::load_result::{ErrorSpec, SourceRange};
use crate::matcher::{glob_body, regex_escaped, regex_fault};
use crate::schema::{Cardinality, Matcher, MatcherSpec, UpperBound};
use crate::text::{decimal, find_either, find_either_bounds, find_either_is, numeral_of_its_value};

verus! {

/// Whether no delimiter of regular expressions occurs in a text.
pub open spec fn is_free_of_delimiters(text: Seq<char>) -> bool {
    forall|at: int| 0 <= at < text.len() ==> #[trigger] text[at] != '/'
}

/// A text without delimiters is its own regular expression body, whatever
/// escapes it holds.
pub proof fn bodies_without_delimiters_stay(source: Seq<char>)
    requires
        is_free_of_delimiters(source),
    ensures
        regex_body_of(source) == Some(source),
    decreases source.len(),
{
    if source.len() > 0 {
        assert(source[0] != '/');
        let step: int = if source[0] == '\\' && source.len() > 1 {
            2
        } else {
            1
        };
        let rest = source.skip(step);
        assert forall|at: int| 0 <= at < rest.len() implies #[trigger] rest[at] != '/' by {
            assert(rest[at] == source[at + step]);
        }
        bodies_without_delimiters_stay(rest);
        if step == 2 {
            assert(source[1] != '/');
            assert(seq!['\\', source[1]] + rest =~= source);
        } else if source[0] != '\\' {
            assert(seq![source[0]] + rest =~= source);
        }
    } else {
        assert(source =~= Seq::empty());
    }
}

/// Only the backslashes before delimiters are taken out of a body: escaping
/// its delimiters again gives back the text that it was read from.
pub proof fn bodies_lose_only_the_escapes_of_delimiters(source: Seq<char>)
    ensures
        regex_body_of(source) matches Some(body) ==> with_escaped_delimiters(body) == source,
    decreases source.len(),
{
    if regex_body_of(source) is Some && source.len() > 0 {
        let body = regex_body_of(source)->0;
        if source[0] != '\\' {
            let rest = regex_body_of(source.skip(1))->0;
            bodies_lose_only_the_escapes_of_delimiters(source.skip(1));
            assert(body.skip(1) =~= rest);
            assert(seq![source[0]] + source.skip(1) =~= source);
        } else if source.len() == 1 {
            assert(body.skip(1) =~= Seq::empty());
            assert(with_escaped_delimiters(body.skip(1)) =~= Seq::empty());
            assert(seq![source[0]] + Seq::<char>::empty() =~= source);
        } else {
            let rest = regex_body_of(source.skip(2))->0;
            bodies_lose_only_the_escapes_of_delimiters(source.skip(2));
            if source[1] == '/' {
                assert(body.skip(1) =~= rest);
                assert(seq!['\\', '/'] + source.skip(2) =~= source);
            } else {
                assert(body.skip(1).skip(1) =~= rest);
                assert(body.skip(1)[0] == source[1]);
                assert(with_escaped_delimiters(body.skip(1)) == seq![source[1]]
                    + source.skip(2));
                assert(seq!['\\'] + (seq![source[1]] + source.skip(2)) =~= source);
            }
        }
    } else if source.len() == 0 {
        assert(source =~= Seq::empty());
    }
}

/// Escaping the delimiters of a text puts a backslash before each of them and
/// changes nothing else.
pub proof fn delimiters_are_escaped_one_by_one(before: Seq<char>, rest: Seq<char>)
    requires
        is_free_of_delimiters(before),
    ensures
        with_escaped_delimiters(before) == before,
        with_escaped_delimiters(before + "/"@ + rest) == before + "\\/"@
            + with_escaped_delimiters(rest),
    decreases before.len(),
{
    reveal_strlit("/");
    reveal_strlit("\\/");
    let whole = before + "/"@ + rest;
    if before.len() == 0 {
        assert(whole.skip(1) =~= rest);
        assert(before =~= Seq::empty());
        assert(seq!['\\', '/'] + with_escaped_delimiters(rest) =~= before + "\\/"@
            + with_escaped_delimiters(rest));
    } else {
        let tail = before.skip(1);
        assert forall|at: int| 0 <= at < tail.len() implies #[trigger] tail[at] != '/' by {
            assert(tail[at] == before[at + 1]);
        }
        delimiters_are_escaped_one_by_one(tail, rest);
        assert(before[0] != '/');
        assert(whole[0] == before[0]);
        assert(whole.skip(1) =~= tail + "/"@ + rest);
        assert(seq![before[0]] + tail =~= before);
        assert(seq![before[0]] + (tail + "\\/"@ + with_escaped_delimiters(rest)) =~= before
            + "\\/"@ + with_escaped_delimiters(rest));
    }
}

/// How many backslashes stand directly before a position.
pub open spec fn backslashes_before(text: Seq<char>, at: int) -> nat
    decreases at,
{
    if 0 < at <= text.len() && text[at - 1] == '\\' {
        1 + backslashes_before(text, at - 1)
    } else {
        0
    }
}

proof fn pairs_keep_escapes(text: Seq<char>, at: int)
    requires
        2 <= at <= text.len(),
        text[0] == '\\',
    ensures
        backslashes_before(text, at) % 2 == backslashes_before(text.skip(2), at - 2) % 2,
    decreases at,
{
    if at == 2 {
        assert(backslashes_before(text, 0) == 0);
        assert(backslashes_before(text, 1) == 1);
    } else {
        pairs_keep_escapes(text, at - 1);
        assert(text.skip(2)[at - 3] == text[at - 1]);
    }
}

proof fn plain_characters_keep_escapes(text: Seq<char>, at: int)
    requires
        1 <= at <= text.len(),
        text[0] != '\\',
    ensures
        backslashes_before(text, at) == backslashes_before(text.skip(1), at - 1),
    decreases at,
{
    if at > 1 {
        plain_characters_keep_escapes(text, at - 1);
        assert(text.skip(1)[at - 2] == text[at - 1]);
    }
}

/// Whether every delimiter in a text is escaped: an odd number of backslashes
/// stands before it.
pub open spec fn escapes_its_delimiters(text: Seq<char>) -> bool {
    forall|at: int|
        0 <= at < text.len() && #[trigger] text[at] == '/' ==> backslashes_before(text, at) % 2
            == 1
}

/// A text is read as a regular expression body where every delimiter in it is
/// escaped, and only there.
#[verifier::rlimit(40)]
pub proof fn bodies_have_no_bare_delimiters(source: Seq<char>)
    ensures
        regex_body_of(source) is Some <==> escapes_its_delimiters(source),
    decreases source.len(),
{
    if source.len() == 0 {
    } else if source[0] == '/' {
        assert(backslashes_before(source, 0) == 0);
    } else if source[0] != '\\' {
        let rest = source.skip(1);
        bodies_have_no_bare_delimiters(rest);
        assert forall|at: int| 0 <= at < rest.len() implies backslashes_before(rest, at)
            == backslashes_before(source, at + 1) && #[trigger] rest[at] == source[at + 1] by {
            plain_characters_keep_escapes(source, at + 1);
        }
        if escapes_its_delimiters(source) {
            assert forall|at: int| 0 <= at < rest.len() && #[trigger] rest[at]
                == '/' implies backslashes_before(rest, at) % 2 == 1 by {
                assert(source[at + 1] == '/');
            }
        }
        if escapes_its_delimiters(rest) {
            assert forall|at: int| 0 <= at < source.len() && #[trigger] source[at]
                == '/' implies backslashes_before(source, at) % 2 == 1 by {
                assert(rest[at - 1] == '/');
            }
        }
    } else if source.len() == 1 {
        assert(escapes_its_delimiters(source));
    } else {
        let rest = source.skip(2);
        bodies_have_no_bare_delimiters(rest);
        assert forall|at: int| 0 <= at < rest.len() implies backslashes_before(rest, at) % 2
            == backslashes_before(source, at + 2) % 2 && #[trigger] rest[at] == source[at + 2] by {
            pairs_keep_escapes(source, at + 2);
        }
        if escapes_its_delimiters(source) {
            assert forall|at: int| 0 <= at < rest.len() && #[trigger] rest[at]
                == '/' implies backslashes_before(rest, at) % 2 == 1 by {
                assert(source[at + 2] == '/');
            }
        }
        if escapes_its_delimiters(rest) {
            assert forall|at: int| 0 <= at < source.len() && #[trigger] source[at]
                == '/' implies backslashes_before(source, at) % 2 == 1 by {
                if at == 1 {
                    assert(backslashes_before(source, 0) == 0);
                    assert(backslashes_before(source, 1) == 1);
                } else {
                    assert(rest[at - 2] == '/');
                }
            }
        }
    }
}

/// Whether a text stands between the delimiters of a regular expression.
pub open spec fn is_delimited(source: Seq<char>) -> bool {
    source.len() >= 2 && source[0] == '/' && source.last() == '/'
}

/// Whether a text spells a matcher: `*` any heading; a text between delimiters
/// the regular expression there, with its delimiters escaped; another text with
/// a `*` the pattern that it is; and any other text itself.
pub open spec fn spells_matcher(source: Seq<char>, matcher: Matcher) -> bool {
    match matcher {
        Matcher::Any => source == "*"@,
        Matcher::Regex(pattern) => {
            let inner = source.subrange(1, source.len() - 1);
            &&& is_delimited(source)
            &&& escapes_its_delimiters(inner)
            &&& inner == with_escaped_delimiters(pattern.0@)
            &&& is_free_of_delimiters(inner) ==> pattern.0@ == inner
        },
        Matcher::Glob(pattern) => {
            &&& pattern.0@ == source
            &&& source != "*"@
            &&& source.contains('*')
            &&& !is_delimited(source)
        },
        Matcher::Exact(text) => {
            &&& text.0@ == source
            &&& !source.contains('*')
            &&& !is_delimited(source)
        },
    }
}

/// A matcher is built from the text that spells it.
pub proof fn matchers_are_built_from_their_spelling(
    source: Seq<char>,
    match_case: bool,
    range: SourceRange,
    matcher: Matcher,
)
    requires
        matcher_of(source, match_case, range) == Ok::<MatcherSpec, ErrorSpec>(matcher@),
    ensures
        spells_matcher(source, matcher),
{
    reveal_strlit("*");
    if is_delimited(source) {
        let inner = source.subrange(1, source.len() - 1);
        assert("*"@[0] == '*');
        bodies_have_no_bare_delimiters(inner);
        bodies_lose_only_the_escapes_of_delimiters(inner);
        if is_free_of_delimiters(inner) {
            bodies_without_delimiters_stay(inner);
        }
    } else if source == "*"@ {
    } else if source.len() == 1 && source[0] == '/' {
        assert(source.last() == '/');
    }
}

/// A plain text always spells a matcher; a regular expression and a glob do
/// where the pattern that they stand for compiles as the match of a whole
/// heading, with or without case.
pub proof fn matchers_are_refused_for_their_pattern_alone(
    source: Seq<char>,
    match_case: bool,
    range: SourceRange,
)
    ensures
        source == "*"@ ==> matcher_of(source, match_case, range) is Ok,
        source == "/"@ ==> matcher_of(source, match_case, range) is Err,
        !source.contains('*') && !is_delimited(source) && source != "/"@ ==> matcher_of(
            source,
            match_case,
            range,
        ) is Ok,
        is_delimited(source) ==> ({
            let inner = source.subrange(1, source.len() - 1);
            matcher_of(source, match_case, range) is Ok <==> escapes_its_delimiters(inner)
                && regex_fault("\\A(?:"@ + regex_body_of(inner)->0 + ")\\z"@, !match_case) is None
        }),
        source.contains('*') && source != "*"@ && !is_delimited(source) ==> (matcher_of(
            source,
            match_case,
            range,
        ) is Ok <==> regex_fault("\\A(?:"@ + glob_body(source, 0) + ")\\z"@, !match_case)
            is None),
{
    reveal_strlit("*");
    reveal_strlit("/");
    assert("*"@[0] == '*');
    if is_delimited(source) {
        bodies_have_no_bare_delimiters(source.subrange(1, source.len() - 1));
    }
    if source.len() == 1 && source[0] == '/' {
        assert(source =~= "/"@);
    }
}

proof fn globs_start_anywhere(source: Seq<char>, from: int)
    requires
        0 <= from <= source.len(),
    ensures
        glob_body(source, from) == glob_body(source.skip(from), 0),
    decreases source.len() - from,
{
    let rest = source.skip(from);
    let star = find_either(source, '*', '*', from);
    find_either_bounds(source, '*', '*', from);
    assert forall|at: int| 0 <= at < star - from implies rest[at] != '*' by {
        assert(rest[at] == source[at + from]);
    }
    if star < source.len() {
        assert(rest[star - from] == source[star]);
    }
    find_either_is(rest, '*', '*', 0, star - from);
    assert(source.subrange(from, star) =~= rest.subrange(0, star - from));
    if star < source.len() {
        globs_start_anywhere(source, star + 1);
        globs_start_anywhere(rest, star - from + 1);
        assert(rest.skip(star - from + 1) =~= source.skip(star + 1));
    }
}

/// A glob matches its text literally, and any text where a `*` stands.
pub proof fn globs_are_literal_but_for_stars(before: Seq<char>, rest: Seq<char>)
    requires
        !before.contains('*'),
    ensures
        glob_body(before, 0) == regex_escaped(before),
        glob_body(before + "*"@ + rest, 0) == regex_escaped(before) + "(?s:.*)"@ + glob_body(
            rest,
            0,
        ),
{
    reveal_strlit("*");
    let whole = before + "*"@ + rest;
    let star = before.len() as int;
    assert forall|at: int| 0 <= at < star implies before[at] != '*' by {
        assert(before.contains(before[at]));
    }
    find_either_is(before, '*', '*', 0, star);
    assert(before.subrange(0, star) =~= before);
    assert forall|at: int| 0 <= at < star implies whole[at] != '*' by {
        assert(whole[at] == before[at]);
    }
    assert(whole[star] == '*');
    find_either_is(whole, '*', '*', 0, star);
    assert(whole.subrange(0, star) =~= before);
    globs_start_anywhere(whole, star + 1);
    assert(whole.skip(star + 1) =~= rest);
}

proof fn dots_are_found(text: Seq<char>, from: int)
    requires
        0 <= from,
    ensures
        find_dots(text, from) < text.len() ==> ({
            let dots = find_dots(text, from);
            &&& from <= dots
            &&& dots + 1 < text.len()
            &&& text[dots] == '.'
            &&& text[dots + 1] == '.'
        }),
    decreases text.len() - from,
{
    if from + 1 < text.len() && !(text[from] == '.' && text[from + 1] == '.') {
        dots_are_found(text, from + 1);
    }
}

/// Whether a text spells a cardinality: the fewest in decimal, two dots, and
/// the most in decimal or `n`, where that can be met by one section or more.
pub open spec fn spells_cardinality(source: Seq<char>, cardinality: Cardinality) -> bool {
    match cardinality.max {
        UpperBound::Unbounded => source == decimal(cardinality.min as nat) + ".."@ + "n"@,
        UpperBound::Bounded(max) => {
            &&& source == decimal(cardinality.min as nat) + ".."@ + decimal(max as nat)
            &&& cardinality.min <= max
            &&& 0 < max
        },
    }
}

/// A repeat is read as the cardinality that it spells, and refused where it
/// spells none.
pub proof fn repeats_are_read_as_they_are_spelled(source: Seq<char>, cardinality: Cardinality)
    ensures
        repeat_of(source) == Some(cardinality) <==> spells_cardinality(source, cardinality),
{
    reveal_strlit("..");
    assert(".."@ =~= seq!['.', '.']);
    if spells_cardinality(source, cardinality) {
        assert(source == repeat_spelling(cardinality));
        repeat_spellings_parse_back(cardinality);
    }
    if repeat_of(source) == Some(cardinality) {
        let dots = find_dots(source, 0);
        dots_are_found(source, 0);
        let min = source.take(dots);
        let max = source.skip(dots + 2);
        numeral_of_its_value(min);
        if max != "n"@ {
            numeral_of_its_value(max);
        }
        assert(source =~= min + ".."@ + max);
    }
}

} // verus!
