//! Building section rules out of their declarations.

use vstd::prelude::*;

use super::places::{
    error_at, error_with_related_at, known_range, plain_error, range_for, shape_error,
    shape_error_at, Places, PlacesSpec,
};
use super::ranges::{KeySpec, RangeKey};
use super::shape::{member_at, Members};
use crate::document_path::slug::{
    derived_slugs_have_slug_form, has_slug_form, heading_slug, slug_of, HeadingSlug,
};
use crate::json::{
    get_member, item_specs, member, member_index_bounds, member_specs, members_of, Json,
    JsonSpec,
};
use crate::load_result::{
    error_specs, ErrorSpec, FoundNodes, NodeAddress, RelatedLocation, RelatedSpec, RuleIndex,
    RulePath, SchemaError, SchemaErrorKind, SchemaNode, ScopePath, SourceRange,
};
use crate::matcher::{
    anchored, compile_anchored_pattern, compile_glob_pattern, glob_body, regex_fault,
};
use crate::schema::{
    constraint_specs, id_spec, rule_spec, rule_specs, Cardinality, ExactText, GlobPattern,
    Matcher, MatcherSpec, Options, RegexPattern, RuleId, RuleOutcome, RuleSpec, SectionRule,
    UpperBound,
};
use crate::text::{
    all_digits, chars_of, decimal, decimal_is_canonical, decimal_text, decimal_value, digits_only,
    find_either_bounds, is_digit, join2, join3, parse_u64, position_of, same_text, text_of,
};

verus! {

/// The body of a regular expression between its delimiters: `\/` stands for
/// `/`, every other escape stays as it is, and a bare `/` is none.
pub open spec fn regex_body_of(source: Seq<char>) -> Option<Seq<char>>
    decreases source.len(),
{
    if source.len() == 0 {
        Some(Seq::empty())
    } else if source[0] == '/' {
        None
    } else if source[0] != '\\' {
        match regex_body_of(source.skip(1)) {
            None => None,
            Some(rest) => Some(seq![source[0]] + rest),
        }
    } else if source.len() == 1 {
        Some(source)
    } else {
        match regex_body_of(source.skip(2)) {
            None => None,
            Some(rest) => Some(
                (if source[1] == '/' {
                    seq!['/']
                } else {
                    seq!['\\', source[1]]
                }) + rest,
            ),
        }
    }
}

/// The body of a regular expression between its delimiters.
pub fn regex_body(source: &str) -> (body: Option<String>)
    ensures
        body is Some <==> regex_body_of(source@) is Some,
        body matches Some(body) ==> regex_body_of(source@) == Some(body@),
{
    let chars = chars_of(source);
    let mut body = String::new();
    let mut at: usize = 0;
    assert(source@.skip(0) =~= source@);
    while at < chars.len()
        invariant
            at <= chars@.len(),
            chars@ == source@,
            match regex_body_of(source@.skip(at as int)) {
                None => regex_body_of(source@) is None,
                Some(rest) => regex_body_of(source@) == Some(body@ + rest),
            },
        decreases chars.len() - at,
    {
        let ghost rest = source@.skip(at as int);
        let character = chars[at];
        if character == '/' {
            return None;
        }
        let ghost before = body@;
        if character != '\\' {
            body.push(character);
            proof {
                assert(rest.skip(1) =~= source@.skip(at + 1));
                if let Some(tail) = regex_body_of(source@.skip(at + 1)) {
                    assert(body@ + tail =~= before + (seq![character] + tail));
                }
            }
            at += 1;
        } else if at + 1 == chars.len() {
            body.push('\\');
            proof {
                assert(rest =~= seq!['\\']);
                assert(source@.skip(at + 1) =~= Seq::empty());
                assert(before + rest =~= body@ + Seq::<char>::empty());
            }
            at += 1;
        } else {
            let next = chars[at + 1];
            if next != '/' {
                body.push('\\');
            }
            body.push(next);
            proof {
                assert(rest.skip(2) =~= source@.skip(at + 2));
                assert(rest[1] == next);
                if let Some(tail) = regex_body_of(source@.skip(at + 2)) {
                    let piece = if next == '/' {
                        seq!['/']
                    } else {
                        seq!['\\', next]
                    };
                    assert(body@ + tail =~= before + (piece + tail));
                }
            }
            at += 2;
        }
    }
    assert(source@.skip(at as int) =~= Seq::empty());
    assert(body@ + Seq::<char>::empty() =~= body@);
    Some(body)
}

/// Escapes the delimiters in a regular expression body.
pub open spec fn with_escaped_delimiters(body: Seq<char>) -> Seq<char>
    decreases body.len(),
{
    if body.len() == 0 {
        Seq::empty()
    } else {
        (if body[0] == '/' {
            seq!['\\', '/']
        } else {
            seq![body[0]]
        }) + with_escaped_delimiters(body.skip(1))
    }
}

/// A body without escapes of its own is read back from its delimited spelling.
pub proof fn escaped_delimiters_are_undone(body: Seq<char>)
    requires
        forall|at: int| 0 <= at < body.len() ==> #[trigger] body[at] != '\\',
    ensures
        regex_body_of(with_escaped_delimiters(body)) == Some(body),
    decreases body.len(),
{
    let source = with_escaped_delimiters(body);
    if body.len() > 0 {
        let tail = with_escaped_delimiters(body.skip(1));
        assert forall|at: int| 0 <= at < body.skip(1).len() implies #[trigger] body.skip(1)[at]
            != '\\' by {
            assert(body.skip(1)[at] == body[at + 1]);
        }
        escaped_delimiters_are_undone(body.skip(1));
        if body[0] == '/' {
            assert(source.skip(2) =~= tail);
            assert(seq!['/'] + body.skip(1) =~= body);
        } else {
            assert(source.skip(1) =~= tail);
            assert(seq![body[0]] + body.skip(1) =~= body);
        }
    } else {
        assert(body =~= Seq::empty());
    }
}

/// A decimal numeral without leading zeros.
pub open spec fn is_numeral(text: Seq<char>) -> bool {
    &&& text.len() > 0
    &&& all_digits(text)
    &&& text.len() == 1 || text[0] != '0'
}

/// The first `..` from `from` on, or the end of the text.
pub open spec fn find_dots(text: Seq<char>, from: int) -> int
    decreases text.len() - from,
{
    if from < 0 || from + 1 >= text.len() {
        text.len() as int
    } else if text[from] == '.' && text[from + 1] == '.' {
        from
    } else {
        find_dots(text, from + 1)
    }
}

/// The cardinality that a repeat spells: `min..max`, or `min..n` without an
/// upper bound.
pub open spec fn repeat_of(source: Seq<char>) -> Option<Cardinality> {
    let dots = find_dots(source, 0);
    let min = source.take(dots);
    let max = source.skip(dots + 2);
    if dots >= source.len() || !is_numeral(min) || decimal_value(min) > u32::MAX {
        None
    } else if max == "n"@ {
        Some(Cardinality { min: decimal_value(min) as u32, max: UpperBound::Unbounded })
    } else if !is_numeral(max) || decimal_value(max) > u32::MAX || decimal_value(max)
        < decimal_value(min) || decimal_value(max) == 0 {
        None
    } else {
        Some(
            Cardinality {
                min: decimal_value(min) as u32,
                max: UpperBound::Bounded(decimal_value(max) as u32),
            },
        )
    }
}

fn valid_decimal(chars: &[char], from: usize, to: usize) -> (valid: bool)
    requires
        from <= to <= chars@.len(),
    ensures
        valid == is_numeral(chars@.subrange(from as int, to as int)),
{
    let ghost part = chars@.subrange(from as int, to as int);
    if from == to || !digits_only(chars, from, to) {
        return false;
    }
    assert(part[0] == chars@[from as int]);
    to - from == 1 || chars[from] != '0'
}

/// Reads a numeral that fits 32 bits.
fn parse_u32(chars: &[char], from: usize, to: usize) -> (value: Option<u32>)
    requires
        from <= to <= chars@.len(),
        all_digits(chars@.subrange(from as int, to as int)),
    ensures
        ({
            let number = decimal_value(chars@.subrange(from as int, to as int));
            value == if number <= u32::MAX { Some(number as u32) } else { None }
        }),
{
    match parse_u64(chars, from, to) {
        None => None,
        Some(value) => if value <= 4294967295 {
            Some(value as u32)
        } else {
            None
        },
    }
}

/// The cardinality that a repeat spells.
pub fn parse_repeat(source: &str) -> (cardinality: Option<Cardinality>)
    ensures
        cardinality == repeat_of(source@),
{
    let chars = chars_of(source);
    let mut dots: usize = 0;
    while dots < chars.len() && dots + 1 < chars.len() && !(chars[dots] == '.' && chars[dots + 1]
        == '.')
        invariant
            dots <= chars@.len(),
            chars@ == source@,
            find_dots(source@, dots as int) == find_dots(source@, 0),
        decreases chars.len() - dots,
    {
        dots += 1;
    }
    if dots >= chars.len() || dots + 1 >= chars.len() {
        return None;
    }
    assert(source@.take(dots as int) =~= source@.subrange(0, dots as int));
    assert(source@.skip(dots + 2) =~= source@.subrange(dots + 2, source@.len() as int));
    if !valid_decimal(chars.as_slice(), 0, dots) {
        return None;
    }
    let min = match parse_u32(chars.as_slice(), 0, dots) {
        Some(min) => min,
        None => {
            return None;
        },
    };
    let written = text_of(chars.as_slice(), dots + 2, chars.len());
    if same_text(written.as_str(), "n") {
        return Some(Cardinality { min, max: UpperBound::Unbounded });
    }
    if !valid_decimal(chars.as_slice(), dots + 2, chars.len()) {
        return None;
    }
    let max = match parse_u32(chars.as_slice(), dots + 2, chars.len()) {
        Some(max) => max,
        None => {
            return None;
        },
    };
    if max < min || max == 0 {
        return None;
    }
    Some(Cardinality { min, max: UpperBound::Bounded(max) })
}

/// The spelling of a cardinality.
pub open spec fn repeat_spelling(cardinality: Cardinality) -> Seq<char> {
    decimal(cardinality.min as nat) + seq!['.', '.'] + match cardinality.max {
        UpperBound::Unbounded => "n"@,
        UpperBound::Bounded(max) => decimal(max as nat),
    }
}

/// Every cardinality that can be met is read back from its spelling.
pub proof fn repeat_spellings_parse_back(cardinality: Cardinality)
    requires
        cardinality.max matches UpperBound::Bounded(max) ==> max >= cardinality.min && max > 0,
    ensures
        repeat_of(repeat_spelling(cardinality)) == Some(cardinality),
{
    let source = repeat_spelling(cardinality);
    let min = decimal(cardinality.min as nat);
    decimal_is_canonical(cardinality.min as nat);
    let dots = min.len() as int;
    assert(source[dots] == '.');
    assert(source[dots + 1] == '.');
    assert forall|at: int| 0 <= at < dots implies #[trigger] source[at] != '.' by {
        assert(source[at] == min[at]);
        assert(is_digit(min[at]));
    }
    find_dots_is(source, 0, dots);
    assert(source.take(dots) =~= min);
    reveal_strlit("n");
    match cardinality.max {
        UpperBound::Unbounded => {
            assert(source.skip(dots + 2) =~= "n"@);
        },
        UpperBound::Bounded(max) => {
            decimal_is_canonical(max as nat);
            assert(source.skip(dots + 2) =~= decimal(max as nat));
            assert(is_digit(decimal(max as nat)[0]));
            assert("n"@[0] == 'n');
            assert(decimal(max as nat) != "n"@);
        },
    }
}

proof fn find_dots_is(text: Seq<char>, from: int, found: int)
    requires
        0 <= from <= found,
        found + 1 < text.len(),
        text[found] == '.' && text[found + 1] == '.',
        forall|at: int| from <= at < found ==> #[trigger] text[at] != '.',
    ensures
        find_dots(text, from) == found,
    decreases found - from,
{
    if from < found {
        assert(text[from] != '.');
        find_dots_is(text, from + 1, found);
    }
}

/// What building a part of a schema leaves behind, besides its result.
pub struct Findings<'j> {
    /// The errors.
    pub errors: Vec<SchemaError>,
    /// The ranges of the nodes that were built.
    pub nodes: FoundNodes,
    /// The constraints that scopes declare, to be built when all rules are.
    pub constraints: Vec<Declared<'j>>,
}

/// The constraints that one scope declares.
pub struct Declared<'j> {
    /// The scope.
    pub scope: ScopePath,
    /// Its constraints, if it lists any.
    pub values: Option<&'j Vec<Json>>,
}

impl<'j> View for Declared<'j> {
    type V = (Seq<RuleIndex>, Seq<JsonSpec>);

    open spec fn view(&self) -> (Seq<RuleIndex>, Seq<JsonSpec>) {
        (
            self.scope@,
            match self.values {
                None => Seq::empty(),
                Some(values) => item_specs(values@),
            },
        )
    }
}

/// What findings are.
#[verifier::ext_equal]
pub struct FindingsSpec {
    /// See [`Findings::errors`].
    pub errors: Seq<ErrorSpec>,
    /// See [`Findings::nodes`].
    pub nodes: Seq<(NodeAddress, SourceRange)>,
    /// See [`Findings::constraints`].
    pub constraints: Seq<(Seq<RuleIndex>, Seq<JsonSpec>)>,
}

impl<'j> View for Findings<'j> {
    type V = FindingsSpec;

    open spec fn view(&self) -> FindingsSpec {
        FindingsSpec {
            errors: error_specs(self.errors@),
            nodes: self.nodes@,
            constraints: self.constraints@.map_values(|declared: Declared<'j>| declared@),
        }
    }
}

impl FindingsSpec {
    /// These findings, and then more.
    pub open spec fn plus(self, more: FindingsSpec) -> FindingsSpec {
        FindingsSpec {
            errors: self.errors + more.errors,
            nodes: self.nodes + more.nodes,
            constraints: self.constraints + more.constraints,
        }
    }

    /// These findings, and then more errors.
    pub open spec fn plus_errors(self, errors: Seq<ErrorSpec>) -> FindingsSpec {
        FindingsSpec { errors: self.errors + errors, ..self }
    }
}

/// No findings.
pub open spec fn nothing_found() -> FindingsSpec {
    FindingsSpec { errors: Seq::empty(), nodes: Seq::empty(), constraints: Seq::empty() }
}

/// The text of the string member called `name`.
pub open spec fn text_field(members: Members, name: Seq<char>) -> Option<Seq<char>> {
    match member(members, name) {
        Some(JsonSpec::Text(text)) => Some(text),
        _ => None,
    }
}

/// The value of the boolean member called `name`.
pub open spec fn bool_field(members: Members, name: Seq<char>) -> Option<bool> {
    match member(members, name) {
        Some(JsonSpec::Bool(value)) => Some(value),
        _ => None,
    }
}

/// The items of the array member called `name`.
pub open spec fn list_field(members: Members, name: Seq<char>) -> Seq<JsonSpec> {
    match member(members, name) {
        Some(JsonSpec::Array(items)) => items,
        _ => Seq::empty(),
    }
}

/// The text of the string member called `name`.
pub fn get_text<'j>(members: &'j Vec<(String, Json)>, name: &str) -> (text: Option<&'j str>)
    ensures
        text is Some <==> text_field(member_specs(members@), name@) is Some,
        text matches Some(text) ==> text_field(member_specs(members@), name@) == Some(text@),
{
    match get_member(members, name) {
        Some(value) => value.as_str(),
        None => None,
    }
}

/// The value of the boolean member called `name`.
pub fn get_bool(members: &Vec<(String, Json)>, name: &str) -> (value: Option<bool>)
    ensures
        value == bool_field(member_specs(members@), name@),
{
    match get_member(members, name) {
        Some(value) => value.as_bool(),
        None => None,
    }
}

/// The items of the array member called `name`.
pub fn get_list<'j>(members: &'j Vec<(String, Json)>, name: &str) -> (items: Option<&'j Vec<Json>>)
    ensures
        items matches Some(items) ==> {
            &&& list_field(member_specs(members@), name@) == item_specs(items@)
            &&& exists|at: int|
                0 <= at < members@.len() && (#[trigger] members@[at]).1 == Json::Array(*items)
        },
        items is None ==> list_field(member_specs(members@), name@) == Seq::<JsonSpec>::empty(),
{
    match get_member(members, name) {
        Some(value) => match value {
            Json::Array(items) => {
                assert(exists|at: int|
                    0 <= at < members@.len() && (#[trigger] members@[at]).1 == Json::Array(*items));
                Some(items)
            },
            _ => None,
        },
        None => None,
    }
}

/// How a matcher is spelled.
pub enum SpellingSpec {
    /// `*`
    Any,
    /// A regular expression between its delimiters.
    Regex(Seq<char>),
    /// A single delimiter.
    LoneDelimiter,
    /// A regular expression with a bare delimiter inside.
    BareDelimiter,
    /// A text with a `*`.
    Glob,
    /// Any other text.
    Exact,
}

/// How `source` spells a matcher.
pub open spec fn spelling_of(source: Seq<char>) -> SpellingSpec {
    if source == "*"@ {
        SpellingSpec::Any
    } else if source.len() > 0 && source[0] == '/' && source.last() == '/' {
        if source.len() == 1 {
            SpellingSpec::LoneDelimiter
        } else {
            match regex_body_of(source.subrange(1, source.len() - 1)) {
                None => SpellingSpec::BareDelimiter,
                Some(body) => SpellingSpec::Regex(body),
            }
        }
    } else if source.contains('*') {
        SpellingSpec::Glob
    } else {
        SpellingSpec::Exact
    }
}

/// The pattern that a spelling compiles to, if it does.
pub open spec fn pattern_of(source: Seq<char>) -> Option<Seq<char>> {
    match spelling_of(source) {
        SpellingSpec::Regex(body) => Some(anchored(body)),
        SpellingSpec::Glob => Some(anchored(glob_body(source, 0))),
        _ => None,
    }
}

/// The matcher that `source` spells, or the error in it, given why its pattern
/// does not compile, if it does not.
pub open spec fn compiled_matcher(
    source: Seq<char>,
    fault: Option<Seq<char>>,
    range: SourceRange,
) -> Result<MatcherSpec, ErrorSpec> {
    match spelling_of(source) {
        SpellingSpec::Any => Ok(MatcherSpec::Any),
        SpellingSpec::LoneDelimiter => Err(
            plain_error(
                SchemaErrorKind::InvalidMatcher,
                range,
                "a regex matcher needs separate opening and closing `/` delimiters"@,
            ),
        ),
        SpellingSpec::BareDelimiter => Err(
            plain_error(
                SchemaErrorKind::InvalidMatcher,
                range,
                "regex matcher `"@ + source + "` contains an unescaped `/`"@,
            ),
        ),
        SpellingSpec::Regex(body) => match fault {
            Some(fault) => Err(
                plain_error(
                    SchemaErrorKind::InvalidMatcher,
                    range,
                    "invalid regex matcher `"@ + source + "`: "@ + fault,
                ),
            ),
            None => Ok(MatcherSpec::Regex(body)),
        },
        SpellingSpec::Glob => match fault {
            Some(fault) => Err(
                plain_error(
                    SchemaErrorKind::InvalidMatcher,
                    range,
                    "invalid glob matcher `"@ + source + "`: "@ + fault,
                ),
            ),
            None => Ok(MatcherSpec::Glob(source)),
        },
        SpellingSpec::Exact => Ok(MatcherSpec::Exact(source)),
    }
}

/// The matcher that `source` spells, or the error in it.
pub open spec fn matcher_of(source: Seq<char>, match_case: bool, range: SourceRange) -> Result<
    MatcherSpec,
    ErrorSpec,
> {
    compiled_matcher(
        source,
        match pattern_of(source) {
            Some(pattern) => regex_fault(pattern, !match_case),
            None => None,
        },
        range,
    )
}

/// How a matcher is spelled.
enum Spelling {
    Any,
    Regex(String),
    LoneDelimiter,
    BareDelimiter,
    Glob,
    Exact,
}

spec fn spelling_spec(spelling: Spelling) -> SpellingSpec {
    match spelling {
        Spelling::Any => SpellingSpec::Any,
        Spelling::Regex(body) => SpellingSpec::Regex(body@),
        Spelling::LoneDelimiter => SpellingSpec::LoneDelimiter,
        Spelling::BareDelimiter => SpellingSpec::BareDelimiter,
        Spelling::Glob => SpellingSpec::Glob,
        Spelling::Exact => SpellingSpec::Exact,
    }
}

fn read_spelling(source: &str) -> (spelling: Spelling)
    ensures
        spelling_spec(spelling) == spelling_of(source@),
{
    if same_text(source, "*") {
        return Spelling::Any;
    }
    let chars = chars_of(source);
    let count = chars.len();
    if count > 0 && chars[0] == '/' && chars[count - 1] == '/' {
        if count == 1 {
            return Spelling::LoneDelimiter;
        }
        return match regex_body(text_of(chars.as_slice(), 1, count - 1).as_str()) {
            Some(body) => Spelling::Regex(body),
            None => Spelling::BareDelimiter,
        };
    }
    let star = position_of(chars.as_slice(), '*', '*', 0);
    proof {
        find_either_bounds(source@, '*', '*', 0);
    }
    if star < count {
        assert(source@[star as int] == '*');
        Spelling::Glob
    } else {
        Spelling::Exact
    }
}

/// Builds the matcher that `source` spells, given why its pattern does not
/// compile, if it does not.
pub fn settle_matcher(
    source: &str,
    fault: Option<String>,
    range: SourceRange,
    errors: &mut Vec<SchemaError>,
) -> (matcher: Option<Matcher>)
    ensures
        match compiled_matcher(source@, string_spec(fault), range) {
            Ok(expected) => matcher is Some && matcher->0@ == expected && error_specs(
                final(errors)@,
            ) == error_specs(old(errors)@),
            Err(error) => matcher is None && error_specs(final(errors)@) == error_specs(
                old(errors)@,
            ).push(error),
        },
{
    let message = match read_spelling(source) {
        Spelling::Any => {
            return Some(Matcher::Any);
        },
        Spelling::Exact => {
            return Some(Matcher::Exact(ExactText(source.to_owned())));
        },
        Spelling::LoneDelimiter => "a regex matcher needs separate opening and closing `/` delimiters".to_owned(),
        Spelling::BareDelimiter => join3(
            "regex matcher `",
            source,
            "` contains an unescaped `/`",
        ),
        Spelling::Regex(body) => match fault {
            None => {
                return Some(Matcher::Regex(RegexPattern(body)));
            },
            Some(fault) => join2(
                join3("invalid regex matcher `", source, "`: ").as_str(),
                fault.as_str(),
            ),
        },
        Spelling::Glob => match fault {
            None => {
                return Some(Matcher::Glob(GlobPattern(source.to_owned())));
            },
            Some(fault) => join2(
                join3("invalid glob matcher `", source, "`: ").as_str(),
                fault.as_str(),
            ),
        },
    };
    error_at(errors, SchemaErrorKind::InvalidMatcher, range, message);
    None
}

/// What an optional text is.
pub open spec fn string_spec(text: Option<String>) -> Option<Seq<char>> {
    match text {
        None => None,
        Some(text) => Some(text@),
    }
}

/// Builds the matcher that `source` spells.
pub fn build_matcher(
    source: &str,
    match_case: bool,
    range: SourceRange,
    errors: &mut Vec<SchemaError>,
) -> (matcher: Option<Matcher>)
    ensures
        match matcher_of(source@, match_case, range) {
            Ok(expected) => matcher is Some && matcher->0@ == expected && error_specs(
                final(errors)@,
            ) == error_specs(old(errors)@),
            Err(error) => matcher is None && error_specs(final(errors)@) == error_specs(
                old(errors)@,
            ).push(error),
        },
{
    let fault = match read_spelling(source) {
        Spelling::Regex(body) => compile_anchored_pattern(body.as_str(), match_case),
        Spelling::Glob => compile_glob_pattern(source, match_case),
        _ => None,
    };
    settle_matcher(source, fault, range, errors)
}

/// The id of a rule: the declared one, or the slug of an exact matcher's text.
pub open spec fn rule_id_of(explicit: Option<Seq<char>>, matcher: Option<MatcherSpec>) -> Option<
    Seq<char>,
> {
    match explicit {
        Some(id) => if has_slug_form(id) {
            Some(id)
        } else {
            None
        },
        None => match matcher {
            Some(MatcherSpec::Exact(text)) => slug_of(text),
            _ => None,
        },
    }
}

/// The errors in the id of a rule.
pub open spec fn rule_id_errors(
    explicit: Option<Seq<char>>,
    matcher: Option<MatcherSpec>,
    top_level: bool,
    range: SourceRange,
) -> Seq<ErrorSpec> {
    let reserved = top_level && rule_id_of(explicit, matcher) == Some("fm"@);
    match explicit {
        Some(id) => if !has_slug_form(id) {
            seq![shape_error(range, "rule id `"@ + id + "` is not a lowercase slug"@)]
        } else if reserved {
            seq![
                plain_error(
                    SchemaErrorKind::ReservedId,
                    range,
                    "top-level rule id `fm` is reserved for frontmatter refs"@,
                ),
            ]
        } else {
            Seq::empty()
        },
        None => if reserved {
            seq![
                plain_error(
                    SchemaErrorKind::ReservedId,
                    range,
                    "top-level auto-generated rule id `fm` is reserved for frontmatter refs"@,
                ),
            ]
        } else {
            Seq::empty()
        },
    }
}

/// What an optional matcher is.
pub open spec fn matcher_spec(matcher: Option<Matcher>) -> Option<MatcherSpec> {
    match matcher {
        None => None,
        Some(matcher) => Some(matcher@),
    }
}

/// What an optional text is.
pub open spec fn text_spec(text: Option<&str>) -> Option<Seq<char>> {
    match text {
        None => None,
        Some(text) => Some(text@),
    }
}

/// Builds the id of a rule.
pub fn build_rule_id(
    explicit: Option<&str>,
    matcher: &Option<Matcher>,
    top_level: bool,
    range: SourceRange,
    errors: &mut Vec<SchemaError>,
) -> (id: Option<RuleId>)
    ensures
        id_spec(id) == rule_id_of(text_spec(explicit), matcher_spec(*matcher)),
        error_specs(final(errors)@) == error_specs(old(errors)@) + rule_id_errors(
            text_spec(explicit),
            matcher_spec(*matcher),
            top_level,
            range,
        ),
{
    let id = match explicit {
        Some(id) => {
            if HeadingSlug::parse(id).is_none() {
                shape_error_at(
                    errors,
                    range,
                    join3("rule id `", id, "` is not a lowercase slug"),
                );
                None
            } else {
                if top_level && same_text(id, "fm") {
                    error_at(
                        errors,
                        SchemaErrorKind::ReservedId,
                        range,
                        "top-level rule id `fm` is reserved for frontmatter refs".to_owned(),
                    );
                }
                Some(RuleId(id.to_owned()))
            }
        },
        None => match matcher {
            Some(Matcher::Exact(text)) => match heading_slug(text.0.as_str()) {
                Some(slug) => {
                    let generated = slug.into_string();
                    if top_level && same_text(generated.as_str(), "fm") {
                        error_at(
                            errors,
                            SchemaErrorKind::ReservedId,
                            range,
                            "top-level auto-generated rule id `fm` is reserved for frontmatter refs".to_owned(),
                        );
                    }
                    Some(RuleId(generated))
                },
                None => None,
            },
            _ => None,
        },
    };
    assert(error_specs(errors@) =~= error_specs(old(errors)@) + rule_id_errors(
        text_spec(explicit),
        matcher_spec(*matcher),
        top_level,
        range,
    ));
    id
}

/// The outcome that a rule declares, or the error in it.
pub open spec fn outcome_of(
    allow: bool,
    required: Option<bool>,
    repeat: Option<Seq<char>>,
    range: SourceRange,
) -> Result<RuleOutcome, ErrorSpec> {
    if required is Some && repeat is Some {
        Err(
            plain_error(
                SchemaErrorKind::ConflictingCardinality,
                range,
                "required and repeat cannot both be declared"@,
            ),
        )
    } else if !allow && (required is Some || repeat is Some) {
        Err(
            plain_error(
                SchemaErrorKind::ConflictingCardinality,
                range,
                "allow: false cannot be combined with required or repeat"@,
            ),
        )
    } else if !allow {
        Ok(RuleOutcome::Deny)
    } else {
        match repeat {
            Some(repeat) => match repeat_of(repeat) {
                Some(cardinality) => Ok(RuleOutcome::Allow(cardinality)),
                None => Err(
                    plain_error(
                        SchemaErrorKind::InvalidRepeat,
                        range,
                        "invalid repeat `"@ + repeat + "`"@,
                    ),
                ),
            },
            None => match required {
                Some(required) => Ok(
                    RuleOutcome::Allow(
                        Cardinality {
                            min: if required {
                                1
                            } else {
                                0
                            },
                            max: UpperBound::Bounded(1),
                        },
                    ),
                ),
                None => Ok(
                    RuleOutcome::Allow(Cardinality { min: 0, max: UpperBound::Unbounded }),
                ),
            },
        }
    }
}

/// Builds the outcome that a rule declares.
pub fn build_outcome(
    allow: bool,
    required: Option<bool>,
    repeat: Option<&str>,
    range: SourceRange,
    errors: &mut Vec<SchemaError>,
) -> (outcome: Option<RuleOutcome>)
    ensures
        match outcome_of(allow, required, text_spec(repeat), range) {
            Ok(expected) => outcome == Some(expected) && error_specs(final(errors)@)
                == error_specs(old(errors)@),
            Err(error) => outcome is None && error_specs(final(errors)@) == error_specs(
                old(errors)@,
            ).push(error),
        },
{
    if required.is_some() && repeat.is_some() {
        error_at(
            errors,
            SchemaErrorKind::ConflictingCardinality,
            range,
            "required and repeat cannot both be declared".to_owned(),
        );
        return None;
    }
    if !allow && (required.is_some() || repeat.is_some()) {
        error_at(
            errors,
            SchemaErrorKind::ConflictingCardinality,
            range,
            "allow: false cannot be combined with required or repeat".to_owned(),
        );
        return None;
    }
    if !allow {
        return Some(RuleOutcome::Deny);
    }
    let cardinality = match repeat {
        Some(repeat) => match parse_repeat(repeat) {
            Some(cardinality) => cardinality,
            None => {
                error_at(
                    errors,
                    SchemaErrorKind::InvalidRepeat,
                    range,
                    join3("invalid repeat `", repeat, "`"),
                );
                return None;
            },
        },
        None => match required {
            Some(true) => Cardinality { min: 1, max: UpperBound::Bounded(1) },
            Some(false) => Cardinality { min: 0, max: UpperBound::Bounded(1) },
            None => Cardinality { min: 0, max: UpperBound::Unbounded },
        },
    };
    Some(RuleOutcome::Allow(cardinality))
}

/// The field that a rule's cardinality is reported at.
pub open spec fn cardinality_field(members: Members) -> Seq<char> {
    if text_field(members, "repeat"@) is Some {
        "repeat"@
    } else if bool_field(members, "required"@) is Some {
        "required"@
    } else {
        "allow"@
    }
}

/// The value of a flag that holds unless it is declared otherwise.
pub open spec fn flag_or(flag: Option<bool>, otherwise: bool) -> bool {
    match flag {
        Some(flag) => flag,
        None => otherwise,
    }
}

/// The value of a flag that holds unless it is declared otherwise.
pub fn get_flag(members: &Vec<(String, Json)>, name: &str, otherwise: bool) -> (flag: bool)
    ensures
        flag == flag_or(bool_field(member_specs(members@), name@), otherwise),
{
    match get_bool(members, name) {
        Some(flag) => flag,
        None => otherwise,
    }
}

/// The matcher that a rule declares, or the error in it.
pub open spec fn declared_matcher(
    places: PlacesSpec,
    members: Members,
    scope: Seq<RuleIndex>,
    index: usize,
    match_case: bool,
) -> Result<MatcherSpec, ErrorSpec> {
    matcher_of(
        match text_field(members, "match"@) {
            Some(source) => source,
            None => Seq::empty(),
        },
        match_case,
        range_for(places, KeySpec::RuleField(scope, RuleIndex(index), "match"@)),
    )
}

/// The outcome that a rule declares, or the error in it.
pub open spec fn declared_outcome(
    places: PlacesSpec,
    members: Members,
    scope: Seq<RuleIndex>,
    index: usize,
) -> Result<RuleOutcome, ErrorSpec> {
    outcome_of(
        flag_or(bool_field(members, "allow"@), true),
        bool_field(members, "required"@),
        text_field(members, "repeat"@),
        range_for(
            places,
            KeySpec::RuleField(scope, RuleIndex(index), cardinality_field(members)),
        ),
    )
}

/// The value of a result that may have failed.
pub open spec fn value_of<T>(result: Result<T, ErrorSpec>) -> Option<T> {
    match result {
        Ok(value) => Some(value),
        Err(_) => None,
    }
}

/// The error of a result that may have failed.
pub open spec fn error_of<T>(result: Result<T, ErrorSpec>) -> Seq<ErrorSpec> {
    match result {
        Ok(_) => Seq::empty(),
        Err(error) => seq![error],
    }
}

/// What a rule leaves behind by itself, without its child rules.
pub open spec fn own_findings(
    places: PlacesSpec,
    members: Members,
    scope: Seq<RuleIndex>,
    index: usize,
    match_case: bool,
) -> FindingsSpec {
    let matcher = declared_matcher(places, members, scope, index, match_case);
    FindingsSpec {
        errors: error_of(matcher) + declared_id_errors(
            places,
            members,
            value_of(matcher),
            scope,
            index,
        ) + error_of(declared_outcome(places, members, scope, index)),
        nodes: seq![
            (
                NodeAddress::Rule(scope, RuleIndex(index)),
                range_for(places, KeySpec::Rule(scope, RuleIndex(index))),
            ),
        ],
        constraints: seq![(scope.push(RuleIndex(index)), list_field(members, "constraints"@))],
    }
}

/// What building one rule yields.
#[verifier::ext_equal]
pub struct RuleBuild {
    /// The rule, if it could be built.
    pub rule: Option<RuleSpec>,
    /// What building it left behind.
    pub findings: FindingsSpec,
}

/// What building the rules of a scope yields.
#[verifier::ext_equal]
pub struct ScopeBuild {
    /// The rules, if all could be built and their ids differ.
    pub rules: Option<Seq<RuleSpec>>,
    /// What building them left behind.
    pub findings: FindingsSpec,
}

/// What building a prefix of the rules of a scope yields.
#[verifier::ext_equal]
pub struct ListBuild {
    /// The rules that could be built, with their positions.
    pub built: Seq<(usize, RuleSpec)>,
    /// Whether all could be built.
    pub complete: bool,
    /// What building them left behind.
    pub findings: FindingsSpec,
}

/// What building the rule that `value` declares yields.
pub open spec fn rule_build(
    places: PlacesSpec,
    value: JsonSpec,
    scope: Seq<RuleIndex>,
    index: usize,
    match_case: bool,
) -> RuleBuild
    decreases value, 0int,
{
    match value {
        JsonSpec::Object(members) => {
            let child_scope = scope.push(RuleIndex(index));
            let children = match member_at(members, "sections"@) {
                Some(at) => if 0 <= at < members.len() {
                    match members[at].1 {
                        JsonSpec::Array(rules) => scope_build(
                            places,
                            rules,
                            child_scope,
                            match_case,
                        ),
                        _ => no_rules(),
                    }
                } else {
                    no_rules()
                },
                None => no_rules(),
            };
            let matcher = declared_matcher(places, members, scope, index, match_case);
            let outcome = declared_outcome(places, members, scope, index);
            RuleBuild {
                rule: match (matcher, outcome, children.rules) {
                    (Ok(matcher), Ok(outcome), Some(sections)) => Some(
                        RuleSpec {
                            id: rule_id_of(text_field(members, "id"@), Some(matcher)),
                            matcher,
                            outcome,
                            strict: flag_or(bool_field(members, "strict"@), false),
                            sections,
                            constraints: Seq::empty(),
                        },
                    ),
                    _ => None,
                },
                findings: own_findings(places, members, scope, index, match_case).plus(
                    children.findings,
                ),
            }
        },
        _ => RuleBuild { rule: None, findings: nothing_found() },
    }
}

/// What building an empty list of rules yields.
pub open spec fn no_rules() -> ScopeBuild {
    ScopeBuild { rules: Some(Seq::empty()), findings: nothing_found() }
}

/// What building the first `count` rules of a scope yields.
pub open spec fn list_build(
    places: PlacesSpec,
    rules: Seq<JsonSpec>,
    scope: Seq<RuleIndex>,
    match_case: bool,
    count: int,
) -> ListBuild
    decreases rules, count,
{
    if count <= 0 || count > rules.len() {
        ListBuild { built: Seq::empty(), complete: true, findings: nothing_found() }
    } else {
        let before = list_build(places, rules, scope, match_case, count - 1);
        let index = (count - 1) as usize;
        let last = rule_build(places, rules[count - 1], scope, index, match_case);
        ListBuild {
            built: match last.rule {
                Some(rule) => before.built.push((index, rule)),
                None => before.built,
            },
            complete: before.complete && last.rule is Some,
            findings: before.findings.plus(last.findings),
        }
    }
}

/// The position of the first rule with the given id.
pub open spec fn first_declaration(built: Seq<(usize, RuleSpec)>, id: Seq<char>) -> Option<usize>
    decreases built.len(),
{
    if built.len() == 0 {
        None
    } else {
        match first_declaration(built.drop_last(), id) {
            Some(index) => Some(index),
            None => if built.last().1.id == Some(id) {
                Some(built.last().0)
            } else {
                None
            },
        }
    }
}

/// Where a rule's id is spelled: its `id`, else its `match`, else the rule.
pub open spec fn id_range_of(places: PlacesSpec, scope: Seq<RuleIndex>, index: usize) -> SourceRange {
    match known_range(places, KeySpec::RuleField(scope, RuleIndex(index), "id"@)) {
        Some(range) => range,
        None => match known_range(places, KeySpec::RuleField(scope, RuleIndex(index), "match"@)) {
            Some(range) => range,
            None => range_for(places, KeySpec::Rule(scope, RuleIndex(index))),
        },
    }
}

/// An error for every rule whose id an earlier sibling has, in order.
pub open spec fn duplicate_id_errors(
    places: PlacesSpec,
    scope: Seq<RuleIndex>,
    built: Seq<(usize, RuleSpec)>,
) -> Seq<ErrorSpec>
    decreases built.len(),
{
    if built.len() == 0 {
        Seq::empty()
    } else {
        let before = duplicate_id_errors(places, scope, built.drop_last());
        match built.last().1.id {
            None => before,
            Some(id) => match first_declaration(built.drop_last(), id) {
                None => before,
                Some(first) => before.push(
                    ErrorSpec {
                        kind: SchemaErrorKind::DuplicateId,
                        range: id_range_of(places, scope, built.last().0),
                        related: seq![
                            RelatedSpec {
                                range: id_range_of(places, scope, first),
                                message: "first declared by sibling rule "@ + decimal(
                                    first as nat,
                                ),
                            },
                        ],
                        message: "duplicate rule id `"@ + id + "` in one scope"@,
                    },
                ),
            },
        }
    }
}

/// What building the rules of a scope yields.
pub open spec fn scope_build(
    places: PlacesSpec,
    rules: Seq<JsonSpec>,
    scope: Seq<RuleIndex>,
    match_case: bool,
) -> ScopeBuild
    decreases rules, rules.len() + 1,
{
    let list = list_build(places, rules, scope, match_case, rules.len() as int);
    let duplicates = duplicate_id_errors(places, scope, list.built);
    ScopeBuild {
        rules: if list.complete && duplicates.len() == 0 {
            Some(list.built.map_values(|entry: (usize, RuleSpec)| entry.1))
        } else {
            None
        },
        findings: list.findings.plus_errors(duplicates),
    }
}

/// The range at which a rule's id is spelled.
fn rule_id_range(places: &Places, scope: &ScopePath, index: usize) -> (range: SourceRange)
    ensures
        range == id_range_of(places@, scope@, index),
{
    if let Some(range) = places.find(
        RangeKey::RuleField(scope.clone(), RuleIndex(index), "id".to_owned()),
    ) {
        return range;
    }
    if let Some(range) = places.find(
        RangeKey::RuleField(scope.clone(), RuleIndex(index), "match".to_owned()),
    ) {
        return range;
    }
    places.range(RangeKey::Rule(scope.clone(), RuleIndex(index)))
}

/// Builds the rules of a scope, and all rules below them.
pub fn build_scope<'j>(
    places: &Places,
    rules: &'j Vec<Json>,
    scope: &ScopePath,
    match_case: bool,
    findings: &mut Findings<'j>,
) -> (built: Option<Vec<SectionRule>>)
    ensures
        ({
            let build = scope_build(places@, item_specs(rules@), scope@, match_case);
            &&& built is Some <==> build.rules is Some
            &&& built matches Some(built) ==> build.rules == Some(rule_specs(built@))
            &&& final(findings)@ == old(findings)@.plus(build.findings)
        }),
    decreases rules,
{
    let ghost before = findings@;
    let ghost values = item_specs(rules@);
    let mut semantic: Vec<SectionRule> = Vec::new();
    let mut indices: Vec<usize> = Vec::new();
    let mut complete = true;
    let mut at: usize = 0;
    assert(findings@ =~= before.plus(nothing_found()));
    assert(positioned(indices@, semantic@) =~= Seq::empty());
    while at < rules.len()
        invariant
            at <= rules@.len(),
            values == item_specs(rules@),
            indices@.len() == semantic@.len(),
            ({
                let list = list_build(places@, values, scope@, match_case, at as int);
                &&& list.built == positioned(indices@, semantic@)
                &&& list.complete == complete
                &&& findings@ == before.plus(list.findings)
            }),
        decreases rules.len() - at,
    {
        assert(decreases_to!(*rules => rules@[at as int]));
        let ghost list = list_build(places@, values, scope@, match_case, at as int);
        let ghost next = list_build(places@, values, scope@, match_case, at + 1);
        let ghost last = rule_build(places@, values[at as int], scope@, at, match_case);
        let ghost entries = positioned(indices@, semantic@);
        let rule = build_rule(places, &rules[at], scope, at, match_case, findings);
        assert(findings@ =~= before.plus(next.findings));
        match rule {
            Some(rule) => {
                indices.push(at);
                semantic.push(rule);
                assert(positioned(indices@, semantic@) =~= entries.push((at, rule_spec(rule))));
            },
            None => {
                complete = false;
            },
        }
        at += 1;
    }
    let ghost list = list_build(places@, values, scope@, match_case, at as int);
    let distinct = check_ids(places, scope, &indices, &semantic, &mut findings.errors);
    assert(findings@ =~= before.plus(
        scope_build(places@, values, scope@, match_case).findings,
    ));
    assert(list.built.map_values(|entry: (usize, RuleSpec)| entry.1) =~= rule_specs(semantic@));
    if complete && distinct {
        Some(semantic)
    } else {
        None
    }
}

/// Rules with their positions.
spec fn positioned(indices: Seq<usize>, rules: Seq<SectionRule>) -> Seq<(usize, RuleSpec)> {
    Seq::new(indices.len(), |at: int| (indices[at], rule_spec(rules[at])))
}

/// Reports every rule whose id an earlier sibling has; whether there is none.
fn check_ids(
    places: &Places,
    scope: &ScopePath,
    indices: &Vec<usize>,
    rules: &Vec<SectionRule>,
    errors: &mut Vec<SchemaError>,
) -> (distinct: bool)
    requires
        indices@.len() == rules@.len(),
    ensures
        ({
            let duplicates = duplicate_id_errors(
                places@,
                scope@,
                positioned(indices@, rules@),
            );
            &&& distinct == (duplicates.len() == 0)
            &&& error_specs(final(errors)@) == error_specs(old(errors)@) + duplicates
        }),
{
    let ghost built = positioned(indices@, rules@);
    let mut distinct = true;
    let mut at: usize = 0;
    assert(error_specs(errors@) =~= error_specs(old(errors)@) + duplicate_id_errors(
        places@,
        scope@,
        built.take(0),
    ));
    while at < rules.len()
        invariant
            at <= rules@.len(),
            indices@.len() == rules@.len(),
            built == positioned(indices@, rules@),
            distinct == (duplicate_id_errors(places@, scope@, built.take(at as int)).len() == 0),
            error_specs(errors@) == error_specs(old(errors)@) + duplicate_id_errors(
                places@,
                scope@,
                built.take(at as int),
            ),
        decreases rules.len() - at,
    {
        proof {
            assert(built.take(at + 1).drop_last() =~= built.take(at as int));
            assert(built.take(at + 1).last() == built[at as int]);
        }
        if let Some(id) = &rules[at].id {
            if let Some(first) = find_id(indices, rules, id.0.as_str(), at) {
                let related = RelatedLocation {
                    range: rule_id_range(places, scope, first),
                    message: join2("first declared by sibling rule ", decimal_text(first).as_str()),
                };
                error_with_related_at(
                    errors,
                    SchemaErrorKind::DuplicateId,
                    rule_id_range(places, scope, indices[at]),
                    join3("duplicate rule id `", id.0.as_str(), "` in one scope"),
                    related,
                );
                distinct = false;
            }
        }
        assert(error_specs(errors@) =~= error_specs(old(errors)@) + duplicate_id_errors(
            places@,
            scope@,
            built.take(at + 1),
        ));
        at += 1;
    }
    assert(built.take(at as int) =~= built);
    distinct
}

/// The position of the first of `count` rules with the given id.
fn find_id(
    indices: &Vec<usize>,
    rules: &Vec<SectionRule>,
    id: &str,
    count: usize,
) -> (first: Option<usize>)
    requires
        indices@.len() == rules@.len(),
        count <= rules@.len(),
    ensures
        first == first_declaration(positioned(indices@, rules@).take(count as int), id@),
{
    let ghost built = positioned(indices@, rules@);
    let mut found: Option<usize> = None;
    let mut at: usize = 0;
    while at < count
        invariant
            at <= count <= rules@.len(),
            indices@.len() == rules@.len(),
            built == positioned(indices@, rules@),
            found == first_declaration(built.take(at as int), id@),
        decreases count - at,
    {
        proof {
            assert(built.take(at + 1).drop_last() =~= built.take(at as int));
            assert(built.take(at + 1).last() == built[at as int]);
        }
        if found.is_none() {
            if let Some(candidate) = &rules[at].id {
                if same_text(candidate.0.as_str(), id) {
                    found = Some(indices[at]);
                }
            }
        }
        at += 1;
    }
    found
}

/// What building the rules of an `outline` list yields.
pub open spec fn outline_build(
    places: PlacesSpec,
    rules: Seq<JsonSpec>,
    match_case: bool,
) -> ScopeBuild {
    if rules.len() == 0 {
        ScopeBuild {
            rules: None,
            findings: nothing_found().plus_errors(
                seq![
                    shape_error(
                        range_for(places, KeySpec::DocumentField("outline"@)),
                        "outline must declare at least one rule; a document with no h1 headers is declared with `title: null`"@,
                    ),
                ],
            ),
        }
    } else {
        scope_build(places, rules, Seq::empty(), match_case)
    }
}

/// Builds the general `outline` form: the canonical list of first-level rules.
///
/// Outline rules are ordinary rules, so the list is built by the same scope
/// builder, at the empty scope that the rules semantically live in. An empty
/// outline is refused rather than accepted as vacuous: it would constrain
/// nothing, while who writes it almost certainly means "this document has no
/// `h1`", which `title: null` declares.
pub fn build_outline_scope<'j>(
    places: &Places,
    rules: &'j Vec<Json>,
    match_case: bool,
    findings: &mut Findings<'j>,
) -> (built: Option<Vec<SectionRule>>)
    ensures
        ({
            let build = outline_build(places@, item_specs(rules@), match_case);
            &&& built is Some <==> build.rules is Some
            &&& built matches Some(built) ==> build.rules == Some(rule_specs(built@))
            &&& final(findings)@ == old(findings)@.plus(build.findings)
        }),
{
    let ghost build = outline_build(places@, item_specs(rules@), match_case);
    if rules.len() == 0 {
        shape_error_at(
            &mut findings.errors,
            places.range(RangeKey::DocumentField("outline".to_owned())),
            "outline must declare at least one rule; a document with no h1 headers is declared with `title: null`".to_owned(),
        );
        assert(findings@ =~= old(findings)@.plus(build.findings));
        return None;
    }
    build_scope(places, rules, &ScopePath::root(), match_case, findings)
}

/// The options that the document declares.
pub open spec fn declared_options(members: Members) -> Options {
    let options = match member(members, "options"@) {
        Some(value) => members_of(value),
        None => Seq::empty(),
    };
    Options {
        match_case: flag_or(bool_field(options, "match_case"@), false),
        strip_inline_markup: flag_or(bool_field(options, "strip_inline_markup"@), true),
        allow_skipped_levels: flag_or(bool_field(options, "allow_skipped_levels"@), false),
    }
}

/// Builds the options that the document declares.
pub fn build_options(members: &Vec<(String, Json)>) -> (options: Options)
    ensures
        options == declared_options(member_specs(members@)),
{
    let empty: Vec<(String, Json)> = Vec::new();
    let declared = match get_member(members, "options") {
        Some(value) => match value.as_object() {
            Some(options) => options,
            None => &empty,
        },
        None => &empty,
    };
    assert(member_specs(empty@) =~= Seq::empty());
    Options {
        match_case: get_flag(declared, "match_case", false),
        strip_inline_markup: get_flag(declared, "strip_inline_markup", true),
        allow_skipped_levels: get_flag(declared, "allow_skipped_levels", false),
    }
}

/// The parts of a rule besides its child rules.
struct OwnParts {
    matcher: Option<Matcher>,
    id: Option<RuleId>,
    outcome: Option<RuleOutcome>,
    strict: bool,
}

fn build_declared_matcher(
    places: &Places,
    members: &Vec<(String, Json)>,
    scope: &ScopePath,
    index: usize,
    match_case: bool,
    errors: &mut Vec<SchemaError>,
) -> (matcher: Option<Matcher>)
    ensures
        ({
            let declared = declared_matcher(
                places@,
                member_specs(members@),
                scope@,
                index,
                match_case,
            );
            &&& matcher_spec(matcher) == value_of(declared)
            &&& error_specs(final(errors)@) == error_specs(old(errors)@) + error_of(declared)
        }),
{
    let range = places.range(
        RangeKey::RuleField(scope.clone(), RuleIndex(index), "match".to_owned()),
    );
    let source = match get_text(members, "match") {
        Some(source) => source,
        None => "",
    };
    proof {
        reveal_strlit("");
        assert(""@ =~= Seq::empty());
    }
    let matcher = build_matcher(source, match_case, range, errors);
    assert(error_specs(errors@) =~= error_specs(old(errors)@) + error_of(
        declared_matcher(places@, member_specs(members@), scope@, index, match_case),
    ));
    matcher
}

fn build_declared_outcome(
    places: &Places,
    members: &Vec<(String, Json)>,
    scope: &ScopePath,
    index: usize,
    errors: &mut Vec<SchemaError>,
) -> (outcome: Option<RuleOutcome>)
    ensures
        ({
            let declared = declared_outcome(places@, member_specs(members@), scope@, index);
            &&& outcome == value_of(declared)
            &&& error_specs(final(errors)@) == error_specs(old(errors)@) + error_of(declared)
        }),
{
    let repeat = get_text(members, "repeat");
    let required = get_bool(members, "required");
    let field = if repeat.is_some() {
        "repeat"
    } else if required.is_some() {
        "required"
    } else {
        "allow"
    };
    let range = places.range(
        RangeKey::RuleField(scope.clone(), RuleIndex(index), field.to_owned()),
    );
    let allow = get_flag(members, "allow", true);
    let outcome = build_outcome(allow, required, repeat, range, errors);
    assert(error_specs(errors@) =~= error_specs(old(errors)@) + error_of(
        declared_outcome(places@, member_specs(members@), scope@, index),
    ));
    outcome
}

/// The errors in the id that a rule declares.
pub open spec fn declared_id_errors(
    places: PlacesSpec,
    members: Members,
    matcher: Option<MatcherSpec>,
    scope: Seq<RuleIndex>,
    index: usize,
) -> Seq<ErrorSpec> {
    let explicit = text_field(members, "id"@);
    rule_id_errors(
        explicit,
        matcher,
        scope.len() == 0,
        range_for(
            places,
            KeySpec::RuleField(
                scope,
                RuleIndex(index),
                if explicit is Some {
                    "id"@
                } else {
                    "match"@
                },
            ),
        ),
    )
}

fn build_declared_id(
    places: &Places,
    members: &Vec<(String, Json)>,
    matcher: &Option<Matcher>,
    scope: &ScopePath,
    index: usize,
    errors: &mut Vec<SchemaError>,
) -> (id: Option<RuleId>)
    ensures
        id_spec(id) == rule_id_of(
            text_field(member_specs(members@), "id"@),
            matcher_spec(*matcher),
        ),
        error_specs(final(errors)@) == error_specs(old(errors)@) + declared_id_errors(
            places@,
            member_specs(members@),
            matcher_spec(*matcher),
            scope@,
            index,
        ),
{
    let explicit = get_text(members, "id");
    let field = if explicit.is_some() {
        "id"
    } else {
        "match"
    };
    let range = places.range(
        RangeKey::RuleField(scope.clone(), RuleIndex(index), field.to_owned()),
    );
    build_rule_id(explicit, matcher, scope.0.len() == 0, range, errors)
}

/// Builds the parts of a rule besides its child rules.
fn build_own<'j>(
    places: &Places,
    members: &'j Vec<(String, Json)>,
    scope: &ScopePath,
    index: usize,
    match_case: bool,
    findings: &mut Findings<'j>,
) -> (own: OwnParts)
    ensures
        ({
            let specs = member_specs(members@);
            let matcher = declared_matcher(places@, specs, scope@, index, match_case);
            &&& matcher_spec(own.matcher) == value_of(matcher)
            &&& id_spec(own.id) == rule_id_of(text_field(specs, "id"@), value_of(matcher))
            &&& own.outcome == value_of(declared_outcome(places@, specs, scope@, index))
            &&& own.strict == flag_or(bool_field(specs, "strict"@), false)
            &&& final(findings)@ == old(findings)@.plus(
                own_findings(places@, specs, scope@, index, match_case),
            )
        }),
{
    let ghost before = findings@;
    findings.nodes.record(
        SchemaNode::Rule(RulePath { scope: scope.clone(), index: RuleIndex(index) }),
        places.range(RangeKey::Rule(scope.clone(), RuleIndex(index))),
    );
    let declared = Declared {
        scope: scope.child(index),
        values: get_list(members, "constraints"),
    };
    findings.constraints.push(declared);
    let errors = &mut findings.errors;
    let matcher = build_declared_matcher(places, members, scope, index, match_case, errors);
    let id = build_declared_id(places, members, &matcher, scope, index, errors);
    let outcome = build_declared_outcome(places, members, scope, index, errors);
    proof {
        let own = own_findings(places@, member_specs(members@), scope@, index, match_case);
        assert(error_specs(findings.errors@) =~= before.errors + own.errors);
        assert(findings@.constraints =~= before.constraints + own.constraints);
        assert(findings@ =~= before.plus(own));
    }
    OwnParts { matcher, id, outcome, strict: get_flag(members, "strict", false) }
}

/// What building the child rules that `members` declare yields.
pub open spec fn children_build(
    places: PlacesSpec,
    members: Members,
    child_scope: Seq<RuleIndex>,
    match_case: bool,
) -> ScopeBuild {
    scope_build(places, list_field(members, "sections"@), child_scope, match_case)
}

pub(crate) proof fn children_are_built(
    places: PlacesSpec,
    value: JsonSpec,
    scope: Seq<RuleIndex>,
    index: usize,
    match_case: bool,
)
    requires
        value is Object,
    ensures
        ({
            let members = members_of(value);
            let children = children_build(
                places,
                members,
                scope.push(RuleIndex(index)),
                match_case,
            );
            let matcher = declared_matcher(places, members, scope, index, match_case);
            let outcome = declared_outcome(places, members, scope, index);
            let build = rule_build(places, value, scope, index, match_case);
            &&& build.findings == own_findings(places, members, scope, index, match_case).plus(
                children.findings,
            )
            &&& build.rule is Some <==> matcher is Ok && outcome is Ok && children.rules is Some
            &&& build.rule is Some ==> build.rule->0 == RuleSpec {
                id: rule_id_of(text_field(members, "id"@), Some(matcher->Ok_0)),
                matcher: matcher->Ok_0,
                outcome: outcome->Ok_0,
                strict: flag_or(bool_field(members, "strict"@), false),
                sections: children.rules->0,
                constraints: Seq::empty(),
            }
        }),
{
    let members = members_of(value);
    member_index_bounds(members, "sections"@, 0);
    let none = scope_build(places, Seq::empty(), scope.push(RuleIndex(index)), match_case);
    assert(none.findings =~= nothing_found());
    assert(none.rules->0 =~= Seq::empty());
}

/// Builds a rule, and its child rules with it.
#[verifier::rlimit(60)]
#[verifier::spinoff_prover]
fn build_rule<'j>(
    places: &Places,
    value: &'j Json,
    scope: &ScopePath,
    index: usize,
    match_case: bool,
    findings: &mut Findings<'j>,
) -> (rule: Option<SectionRule>)
    ensures
        ({
            let build = rule_build(places@, value@, scope@, index, match_case);
            &&& rule is Some <==> build.rule is Some
            &&& rule matches Some(rule) ==> build.rule == Some(rule_spec(rule))
            &&& final(findings)@ == old(findings)@.plus(build.findings)
        }),
    decreases value,
{
    let ghost before = findings@;
    match value {
        Json::Object(members) => {
            let own = build_own(places, members, scope, index, match_case, findings);
            proof {
                children_are_built(places@, value@, scope@, index, match_case);
            }
            let children = match get_list(members, "sections") {
                Some(rules) => {
                    proof {
                        let at = choose|at: int|
                            0 <= at < members@.len() && (#[trigger] members@[at]).1 == Json::Array(
                                *rules,
                            );
                        assert(decreases_to!(*value => members@[at].1));
                        assert(decreases_to!(members@[at].1 => members@[at].1->Array_0));
                    }
                    build_scope(places, rules, &scope.child(index), match_case, findings)
                },
                None => {
                    proof {
                        let none = scope_build(
                            places@,
                            Seq::empty(),
                            scope@.push(RuleIndex(index)),
                            match_case,
                        );
                        assert(none.findings =~= nothing_found());
                        assert(none.rules->0 =~= rule_specs(Seq::empty()));
                    }
                    Some(Vec::new())
                },
            };
            assert(findings@ =~= before.plus(
                rule_build(places@, value@, scope@, index, match_case).findings,
            ));
            match (own.matcher, own.outcome, children) {
                (Some(matcher), Some(outcome), Some(sections)) => {
                    let rule = SectionRule {
                        id: own.id,
                        matcher,
                        outcome,
                        strict: own.strict,
                        sections,
                        constraints: Vec::new(),
                    };
                    assert(constraint_specs(rule.constraints@) =~= Seq::empty());
                    Some(rule)
                },
                _ => None,
            }
        },
        _ => {
            assert(findings@ =~= before.plus(nothing_found()));
            None
        },
    }
}

/// A rule that can be met: its id is a slug, its cardinality admits some number
/// of sections, and so for the rules below it.
pub open spec fn sound_rule(rule: RuleSpec) -> bool
    decreases rule,
{
    &&& rule.id matches Some(id) ==> has_slug_form(id)
    &&& rule.outcome matches RuleOutcome::Allow(cardinality) ==> match cardinality.max {
        UpperBound::Unbounded => true,
        UpperBound::Bounded(max) => cardinality.min <= max && max > 0,
    }
    &&& sound_rules(rule.sections)
}

/// Sound rules of one scope, with distinct ids.
pub open spec fn sound_rules(rules: Seq<RuleSpec>) -> bool
    decreases rules,
{
    &&& forall|at: int| 0 <= at < rules.len() ==> sound_rule(#[trigger] rules[at])
    &&& forall|one: int, two: int|
        0 <= one < two < rules.len() && (#[trigger] rules[one]).id is Some ==> rules[one].id != (
        #[trigger] rules[two]).id
}

/// Rules that were built are sound: in every scope the ids are slugs and
/// differ, and every cardinality can be met.
pub proof fn built_rules_are_sound(
    places: PlacesSpec,
    rules: Seq<JsonSpec>,
    scope: Seq<RuleIndex>,
    match_case: bool,
)
    ensures
        scope_build(places, rules, scope, match_case).rules matches Some(built) ==> sound_rules(
            built,
        ),
    decreases rules, rules.len() + 1,
{
    let list = list_build(places, rules, scope, match_case, rules.len() as int);
    list_is_sound(places, rules, scope, match_case, rules.len() as int);
    if let Some(built) = scope_build(places, rules, scope, match_case).rules {
        ids_are_distinct(places, scope, list.built);
        assert forall|at: int| 0 <= at < built.len() implies sound_rule(#[trigger] built[at]) by {
            assert(built[at] == list.built[at].1);
        }
    }
}

proof fn list_is_sound(
    places: PlacesSpec,
    rules: Seq<JsonSpec>,
    scope: Seq<RuleIndex>,
    match_case: bool,
    count: int,
)
    ensures
        forall|at: int|
            0 <= at < list_build(places, rules, scope, match_case, count).built.len()
                ==> sound_rule(
                (#[trigger] list_build(places, rules, scope, match_case, count).built[at]).1,
            ),
    decreases rules, count,
{
    if 0 < count <= rules.len() {
        list_is_sound(places, rules, scope, match_case, count - 1);
        rule_is_sound(places, rules[count - 1], scope, (count - 1) as usize, match_case);
        let before = list_build(places, rules, scope, match_case, count - 1).built;
        let built = list_build(places, rules, scope, match_case, count).built;
        assert forall|at: int| 0 <= at < built.len() implies sound_rule(
            (#[trigger] built[at]).1,
        ) by {
            if at < before.len() {
                assert(built[at] == before[at]);
            }
        }
    }
}

proof fn rule_is_sound(
    places: PlacesSpec,
    value: JsonSpec,
    scope: Seq<RuleIndex>,
    index: usize,
    match_case: bool,
)
    ensures
        rule_build(places, value, scope, index, match_case).rule matches Some(rule) ==> sound_rule(
            rule,
        ),
    decreases value, 0int,
{
    if let JsonSpec::Object(members) = value {
        if let Some(at) = member_at(members, "sections"@) {
            if 0 <= at < members.len() {
                if let JsonSpec::Array(rules) = members[at].1 {
                    built_rules_are_sound(
                        places,
                        rules,
                        scope.push(RuleIndex(index)),
                        match_case,
                    );
                }
            }
        }
        if let Ok(MatcherSpec::Exact(text)) = declared_matcher(
            places,
            members,
            scope,
            index,
            match_case,
        ) {
            derived_slugs_have_slug_form(text);
        }
    }
}

proof fn ids_are_distinct(
    places: PlacesSpec,
    scope: Seq<RuleIndex>,
    built: Seq<(usize, RuleSpec)>,
)
    requires
        duplicate_id_errors(places, scope, built).len() == 0,
    ensures
        forall|one: int, two: int|
            0 <= one < two < built.len() && (#[trigger] built[one]).1.id is Some
                ==> built[one].1.id != (#[trigger] built[two]).1.id,
    decreases built.len(),
{
    if built.len() > 0 {
        let before = built.drop_last();
        ids_are_distinct(places, scope, before);
        assert forall|one: int, two: int|
            0 <= one < two < built.len() && (#[trigger] built[one]).1.id is Some implies built[one].1.id
            != (#[trigger] built[two]).1.id by {
            assert(built[one] == before[one]);
            if two < before.len() {
                assert(built[two] == before[two]);
            } else {
                earlier_declarations_are_found(before, built[one].1.id->0, one);
            }
        }
    }
}

proof fn earlier_declarations_are_found(built: Seq<(usize, RuleSpec)>, id: Seq<char>, at: int)
    requires
        0 <= at < built.len(),
        built[at].1.id == Some(id),
    ensures
        first_declaration(built, id) is Some,
    decreases built.len(),
{
    if at < built.len() - 1 {
        earlier_declarations_are_found(built.drop_last(), id, at);
    }
}

} // verus!
