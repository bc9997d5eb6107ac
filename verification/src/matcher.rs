//! The regular expressions that matchers compile to.

use regex::RegexBuilder;
use vstd::prelude::*;

use crate::text::{chars_of, find_either, join3, position_of, text_of};

verus! {

/// Why a regular expression does not compile, if it does not.
pub uninterp spec fn regex_fault(pattern: Seq<char>, ignore_case: bool) -> Option<Seq<char>>;

/// A text with the meta characters of regular expressions escaped.
pub uninterp spec fn regex_escaped(text: Seq<char>) -> Seq<char>;

/// `regex::RegexBuilder::build` compiles a pattern within its size limits, or
/// tells why it does not. Not stated: which patterns compile, and the wording
/// of the fault.
#[verifier::external_body]
fn compile_regex(pattern: &str, ignore_case: bool) -> (fault: Option<String>)
    ensures
        fault is Some <==> regex_fault(pattern@, ignore_case) is Some,
        fault matches Some(fault) ==> regex_fault(pattern@, ignore_case) == Some(fault@),
{
    let mut builder = RegexBuilder::new(pattern);
    builder.case_insensitive(ignore_case).build().err().map(|error| error.to_string())
}

/// `regex::escape` makes a literal of a text. Not stated: which characters it
/// escapes.
#[verifier::external_body]
fn escape_literal(text: &str) -> (escaped: String)
    ensures
        escaped@ == regex_escaped(text@),
{
    regex::escape(text)
}

/// The pattern that matches whole texts that `body` matches.
pub open spec fn anchored(body: Seq<char>) -> Seq<char> {
    "\\A(?:"@ + body + ")\\z"@
}

/// The pattern of a glob from `from` on: literal text, and any text for every
/// `*`.
pub open spec fn glob_body(source: Seq<char>, from: int) -> Seq<char>
    decreases source.len() - from,
{
    let star = find_either(source, '*', '*', from);
    let literal = regex_escaped(source.subrange(from, star));
    if from < 0 || star < from || star >= source.len() {
        literal
    } else {
        literal + "(?s:.*)"@ + glob_body(source, star + 1)
    }
}

/// Compiles a regular expression that must match as a whole; the fault, if it
/// does not compile.
pub fn compile_anchored_pattern(body: &str, match_case: bool) -> (fault: Option<String>)
    ensures
        fault is Some <==> regex_fault(anchored(body@), !match_case) is Some,
        fault matches Some(fault) ==> regex_fault(anchored(body@), !match_case) == Some(fault@),
{
    compile_regex(join3("\\A(?:", body, ")\\z").as_str(), !match_case)
}

/// Compiles a glob; the fault, if it does not compile.
pub fn compile_glob_pattern(source: &str, match_case: bool) -> (fault: Option<String>)
    ensures
        fault is Some <==> regex_fault(anchored(glob_body(source@, 0)), !match_case) is Some,
        fault matches Some(fault) ==> regex_fault(anchored(glob_body(source@, 0)), !match_case)
            == Some(fault@),
{
    let chars = chars_of(source);
    let mut body = String::new();
    let mut from: usize = 0;
    assert(body@ + glob_body(source@, 0) =~= glob_body(source@, 0));
    loop
        invariant
            chars@ == source@,
            from <= chars@.len(),
            body@ + glob_body(source@, from as int) == glob_body(source@, 0),
        decreases chars.len() - from,
    {
        let star = position_of(chars.as_slice(), '*', '*', from);
        let ghost before = body@;
        body.append(escape_literal(text_of(chars.as_slice(), from, star).as_str()).as_str());
        if star == chars.len() {
            return compile_anchored_pattern(body.as_str(), match_case);
        }
        body.append("(?s:.*)");
        assert(body@ + glob_body(source@, star + 1) =~= before + glob_body(source@, from as int));
        from = star + 1;
    }
}

} // verus!
