//! The document path grammar and its parser.

use vstd::prelude::*;

use super::slug::{has_slug_form, is_slug_char};
use super::{
    block_spelling, blocks_spelling, index_spelling, item_follows_list, items_follow_lists,
    keyword_of, optional_index_spelling, path_spelling, path_well_formed, sections_spelling,
    step_spelling, step_well_formed, BlockPathKind, BlockStep, DocumentPath,
    DocumentPathSyntaxError, HeadingSlug, PathSpec, SectionStep, StepSpec,
};
use crate::load_result::ByteOffset;
use crate::text::{
    chars_of, decimal, decimal_is_canonical, decimal_value, is_digit, is_lower, parse_decimal,
    text_of,
};

verus! {

/// How `{:?}` formats a character.
pub uninterp spec fn char_debug(character: char) -> Seq<char>;

/// `format!` with `{:?}` writes the debug form of a character.
#[verifier::external_body]
fn debug_char(character: char) -> (text: String)
    ensures
        text@ == char_debug(character),
{
    format!("{character:?}")
}

/// The character classes that the grammar takes runs of.
#[derive(Clone, Copy, PartialEq, Eq, Structural)]
pub enum CharClass {
    /// `[a-z0-9]`
    Slug,
    /// `[a-z]`
    Keyword,
    /// `[0-9]`
    Index,
}

/// Whether `character` belongs to `class`.
pub open spec fn in_class(class: CharClass, character: char) -> bool {
    match class {
        CharClass::Slug => is_slug_char(character),
        CharClass::Keyword => is_lower(character),
        CharClass::Index => is_digit(character),
    }
}

/// Where the run of `class` characters that starts at `from` ends.
pub open spec fn run_end(source: Seq<char>, from: int, class: CharClass) -> int
    decreases source.len() - from,
{
    if 0 <= from < source.len() && in_class(class, source[from]) {
        run_end(source, from + 1, class)
    } else {
        from
    }
}

/// `expected` stands at `at`.
pub open spec fn stands(source: Seq<char>, at: int, expected: char) -> bool {
    0 <= at < source.len() && source[at] == expected
}

/// Why a spelling is not a path, and where.
#[verifier::ext_equal]
pub struct PathFault {
    /// The offset at which the spelling stops being valid.
    pub offset: int,
    /// What was expected there.
    pub message: Seq<char>,
}

/// The message for a step that names no section.
pub open spec fn expected_slug() -> Seq<char> {
    "expected a heading slug (`[a-z0-9]+(-[a-z0-9]+)*`) or a `[index]` position"@
}

/// The message for a `..` that names no section.
pub open spec fn expected_descendant_slug() -> Seq<char> {
    "expected a heading slug (`[a-z0-9]+(-[a-z0-9]+)*`) after `..`"@
}

/// The message for a block step that names no kind.
pub open spec fn expected_kind() -> Seq<char> {
    "expected a block kind: `p`, `list`, `item`, `table`, `row`, `cell`, `col`, `code`, `quote`, `html`, or `break`"@
}

/// The end of a slug of which `source[..at]` holds the runs so far.
pub open spec fn slug_tail(source: Seq<char>, at: int) -> Result<int, PathFault>
    decreases source.len() - at,
{
    if stands(source, at, '-') {
        let end = run_end(source, at + 1, CharClass::Slug);
        if end <= at + 1 {
            Err(
                PathFault {
                    offset: at + 1,
                    message: "expected a letter or digit after `-` in a heading slug"@,
                },
            )
        } else {
            proof {
                run_end_bounds(source, at + 1, CharClass::Slug);
            }
            slug_tail(source, end)
        }
    } else {
        Ok(at)
    }
}

/// The end of the slug that starts at `from`: runs joined by single hyphens.
/// A `-` without a following letter or digit fails after the `-`, not at the
/// start of the segment.
pub open spec fn slug_end(source: Seq<char>, from: int, expected: Seq<char>) -> Result<
    int,
    PathFault,
> {
    let end = run_end(source, from, CharClass::Slug);
    if end == from {
        Err(PathFault { offset: from, message: expected })
    } else {
        slug_tail(source, end)
    }
}

/// The index whose digits start at `from`, and the position after its `]`.
pub open spec fn index_at(source: Seq<char>, from: int) -> Result<(usize, int), PathFault> {
    let end = run_end(source, from, CharClass::Index);
    let value = decimal_value(source.subrange(from, end));
    if end == from {
        Err(PathFault { offset: from, message: "expected a zero-based index"@ })
    } else if end - from > 1 && source[from] == '0' {
        Err(PathFault { offset: from, message: "an index has no leading zero"@ })
    } else if value > usize::MAX {
        Err(PathFault { offset: from, message: "index is too large"@ })
    } else if !stands(source, end, ']') {
        Err(PathFault { offset: end, message: "expected `]` after the index"@ })
    } else {
        Ok((value as usize, end + 1))
    }
}

/// The optional index at `from`.
pub open spec fn optional_index_at(source: Seq<char>, from: int) -> Result<
    (Option<usize>, int),
    PathFault,
> {
    if stands(source, from, '[') {
        match index_at(source, from + 1) {
            Err(fault) => Err(fault),
            Ok((index, end)) => Ok((Some(index), end)),
        }
    } else {
        Ok((None, from))
    }
}

/// The section step whose `.` stands before `from`.
pub open spec fn section_step_at(source: Seq<char>, from: int) -> Result<
    (StepSpec, int),
    PathFault,
> {
    if stands(source, from, '[') {
        match index_at(source, from + 1) {
            Err(fault) => Err(fault),
            Ok((index, end)) => Ok((StepSpec::Position(index), end)),
        }
    } else if stands(source, from, '.') {
        match slug_end(source, from + 1, expected_descendant_slug()) {
            Err(fault) => Err(fault),
            Ok(end) => match optional_index_at(source, end) {
                Err(fault) => Err(fault),
                Ok((index, next)) => Ok(
                    (StepSpec::Descendant(source.subrange(from + 1, end), index), next),
                ),
            },
        }
    } else {
        match slug_end(source, from, expected_slug()) {
            Err(fault) => Err(fault),
            Ok(end) => match optional_index_at(source, end) {
                Err(fault) => Err(fault),
                Ok((index, next)) => Ok((StepSpec::Named(source.subrange(from, end), index), next)),
            },
        }
    }
}

/// The block step whose `/` stands before `from` and that follows `previous`.
pub open spec fn block_step_at(
    source: Seq<char>,
    from: int,
    previous: Option<BlockPathKind>,
) -> Result<(BlockStep, int), PathFault> {
    let end = run_end(source, from, CharClass::Keyword);
    let keyword = source.subrange(from, end);
    if !exists|kind: BlockPathKind| keyword_of(kind) == keyword {
        Err(PathFault { offset: from, message: expected_kind() })
    } else {
        let kind = choose|kind: BlockPathKind| keyword_of(kind) == keyword;
        if kind == BlockPathKind::Item && previous != Some(BlockPathKind::List) {
            Err(PathFault { offset: from, message: "`item` must directly follow a `list` step"@ })
        } else {
            match optional_index_at(source, end) {
                Err(fault) => Err(fault),
                Ok((index, next)) => Ok(
                    (
                        BlockStep {
                            kind,
                            index: match index {
                                Some(index) => index,
                                None => 0,
                            },
                        },
                        next,
                    ),
                ),
            }
        }
    }
}

/// The section steps from `at` on, after those in `before`, and where they
/// end.
pub open spec fn sections_from(source: Seq<char>, at: int, before: Seq<StepSpec>) -> Result<
    (Seq<StepSpec>, int),
    PathFault,
>
    decreases source.len() - at,
{
    if stands(source, at, '.') {
        match section_step_at(source, at + 1) {
            Err(fault) => Err(fault),
            Ok((step, next)) => {
                proof {
                    section_step_bounds(source, at + 1);
                }
                sections_from(source, next, before.push(step))
            },
        }
    } else {
        Ok((before, at))
    }
}

/// The kind of the last step, if there is one.
pub open spec fn last_kind(steps: Seq<BlockStep>) -> Option<BlockPathKind> {
    if steps.len() == 0 {
        None
    } else {
        Some(steps.last().kind)
    }
}

/// The block steps from `at` on, after those in `before`, and where they end.
pub open spec fn blocks_from(source: Seq<char>, at: int, before: Seq<BlockStep>) -> Result<
    (Seq<BlockStep>, int),
    PathFault,
>
    decreases source.len() - at,
{
    if stands(source, at, '/') {
        match block_step_at(source, at + 1, last_kind(before)) {
            Err(fault) => Err(fault),
            Ok((step, next)) => {
                proof {
                    block_step_bounds(source, at + 1, last_kind(before));
                }
                blocks_from(source, next, before.push(step))
            },
        }
    } else {
        Ok((before, at))
    }
}

/// What ends a path that should go on differently at `at`.
pub open spec fn unexpected(source: Seq<char>, at: int, in_blocks: bool) -> PathFault {
    PathFault {
        offset: at,
        message: "unexpected "@ + char_debug(source[at]) + if in_blocks {
            "; expected `/` or the end of the path"@
        } else {
            "; expected `.`, `/`, or the end of the path"@
        },
    }
}

/// The path that `source` spells, or the first place at which it stops being
/// a path.
pub open spec fn parsed_path(source: Seq<char>) -> Result<PathSpec, PathFault> {
    if !stands(source, 0, '$') {
        Err(PathFault { offset: 0, message: "a document path starts with `$`"@ })
    } else {
        match sections_from(source, 1, Seq::empty()) {
            Err(fault) => Err(fault),
            Ok((sections, middle)) => match blocks_from(source, middle, Seq::empty()) {
                Err(fault) => Err(fault),
                Ok((blocks, end)) => if end < source.len() {
                    Err(unexpected(source, end, blocks.len() > 0))
                } else {
                    Ok(PathSpec { sections, blocks })
                },
            },
        }
    }
}

/// A run ends between its start and the end of the text, and holds only its
/// class.
pub proof fn run_end_bounds(source: Seq<char>, from: int, class: CharClass)
    requires
        0 <= from <= source.len(),
    ensures
        from <= run_end(source, from, class) <= source.len(),
        forall|at: int|
            from <= at < run_end(source, from, class) ==> in_class(class, #[trigger] source[at]),
        run_end(source, from, class) < source.len() ==> !in_class(
            class,
            source[run_end(source, from, class)],
        ),
    decreases source.len() - from,
{
    if from < source.len() && in_class(class, source[from]) {
        run_end_bounds(source, from + 1, class);
    }
}

/// A run of one class that a character of none follows ends there.
pub(crate) proof fn run_end_is(source: Seq<char>, from: int, end: int, class: CharClass)
    requires
        0 <= from <= end <= source.len(),
        forall|at: int| from <= at < end ==> in_class(class, #[trigger] source[at]),
        end < source.len() ==> !in_class(class, source[end]),
    ensures
        run_end(source, from, class) == end,
    decreases end - from,
{
    if from < end {
        assert(in_class(class, source[from]));
        run_end_is(source, from + 1, end, class);
    }
}

pub(crate) proof fn slug_tail_bounds(source: Seq<char>, at: int)
    requires
        0 <= at <= source.len(),
    ensures
        slug_tail(source, at) is Ok ==> at <= slug_tail(source, at)->Ok_0 <= source.len(),
        slug_tail(source, at) is Err ==> at <= slug_tail(source, at)->Err_0.offset <= source.len(),
    decreases source.len() - at,
{
    if stands(source, at, '-') {
        run_end_bounds(source, at + 1, CharClass::Slug);
        let end = run_end(source, at + 1, CharClass::Slug);
        if end > at + 1 {
            slug_tail_bounds(source, end);
        }
    }
}

pub(crate) proof fn slug_end_bounds(source: Seq<char>, from: int, expected: Seq<char>)
    requires
        0 <= from <= source.len(),
    ensures
        ({
            let end = slug_end(source, from, expected);
            &&& end is Ok ==> from < end->Ok_0 <= source.len()
            &&& end is Err ==> from <= end->Err_0.offset <= source.len()
        }),
{
    run_end_bounds(source, from, CharClass::Slug);
    let end = run_end(source, from, CharClass::Slug);
    if end != from {
        slug_tail_bounds(source, end);
    }
}

pub(crate) proof fn optional_index_bounds(source: Seq<char>, from: int)
    requires
        0 <= from <= source.len(),
    ensures
        ({
            let end = optional_index_at(source, from);
            &&& end is Ok ==> from <= end->Ok_0.1 <= source.len()
            &&& end is Ok && stands(source, from, '[') ==> from < end->Ok_0.1
            &&& end is Err ==> from <= end->Err_0.offset <= source.len()
        }),
{
    if from < source.len() {
        run_end_bounds(source, from + 1, CharClass::Index);
    }
}

/// A section step consumes text, and fails within it.
pub proof fn section_step_bounds(source: Seq<char>, from: int)
    requires
        0 <= from <= source.len(),
    ensures
        ({
            let end = section_step_at(source, from);
            &&& end is Ok ==> from < end->Ok_0.1 <= source.len()
            &&& end is Err ==> from <= end->Err_0.offset <= source.len()
        }),
{
    optional_index_bounds(source, from);
    if stands(source, from, '.') {
        slug_end_bounds(source, from + 1, expected_descendant_slug());
        let end = slug_end(source, from + 1, expected_descendant_slug());
        if end is Ok {
            optional_index_bounds(source, end->Ok_0);
        }
    } else if !stands(source, from, '[') {
        slug_end_bounds(source, from, expected_slug());
        let end = slug_end(source, from, expected_slug());
        if end is Ok {
            optional_index_bounds(source, end->Ok_0);
        }
    }
}

/// A block step consumes no more than there is, and fails within it.
pub proof fn block_step_bounds(source: Seq<char>, from: int, previous: Option<BlockPathKind>)
    requires
        0 <= from <= source.len(),
    ensures
        ({
            let end = block_step_at(source, from, previous);
            &&& end is Ok ==> from <= end->Ok_0.1 <= source.len()
            &&& end is Err ==> from <= end->Err_0.offset <= source.len()
        }),
{
    run_end_bounds(source, from, CharClass::Keyword);
    optional_index_bounds(source, run_end(source, from, CharClass::Keyword));
}

/// What a syntax error says.
pub open spec fn fault_of(error: DocumentPathSyntaxError) -> PathFault {
    PathFault { offset: error.offset.0 as int, message: error.message@ }
}

/// A cursor over the characters of a path spelling.
///
/// Every token of the grammar is ASCII, so the characters before the position
/// take one byte each and the position is a byte offset into the text.
struct PathParser {
    source: Vec<char>,
    position: usize,
}

impl PathParser {
    spec fn well_formed(&self) -> bool {
        self.position <= self.source@.len()
    }

    fn new(source: &str) -> (parser: Self)
        ensures
            parser.source@ == source@,
            parser.position == 0,
    {
        PathParser { source: chars_of(source), position: 0 }
    }

    fn eat(&mut self, expected: char) -> (eaten: bool)
        requires
            old(self).well_formed(),
        ensures
            final(self).well_formed(),
            final(self).source == old(self).source,
            eaten == stands(old(self).source@, old(self).position as int, expected),
            final(self).position == old(self).position + if eaten { 1int } else { 0 },
    {
        if self.position < self.source.len() && self.source[self.position] == expected {
            self.position += 1;
            true
        } else {
            false
        }
    }

    /// Consumes one run of `class` characters.
    fn take_while(&mut self, class: CharClass)
        requires
            old(self).well_formed(),
        ensures
            final(self).well_formed(),
            final(self).source == old(self).source,
            final(self).position == run_end(old(self).source@, old(self).position as int, class),
    {
        while self.position < self.source.len() && PathParser::accepts(
            class,
            self.source[self.position],
        )
            invariant
                self.well_formed(),
                self.source == old(self).source,
                run_end(self.source@, self.position as int, class) == run_end(
                    old(self).source@,
                    old(self).position as int,
                    class,
                ),
            decreases self.source.len() - self.position,
        {
            self.position += 1;
        }
    }

    fn accepts(class: CharClass, character: char) -> (accepted: bool)
        ensures
            accepted == in_class(class, character),
    {
        let lower = 'a' <= character && character <= 'z';
        let digit = '0' <= character && character <= '9';
        match class {
            CharClass::Slug => lower || digit,
            CharClass::Keyword => lower,
            CharClass::Index => digit,
        }
    }

    fn error(&self, message: &str) -> (error: DocumentPathSyntaxError)
        ensures
            fault_of(error) == (PathFault { offset: self.position as int, message: message@ }),
    {
        self.error_at(self.position, message)
    }

    fn error_at(&self, offset: usize, message: &str) -> (error: DocumentPathSyntaxError)
        ensures
            fault_of(error) == (PathFault { offset: offset as int, message: message@ }),
    {
        DocumentPathSyntaxError { offset: ByteOffset(offset), message: message.to_owned() }
    }

    fn path(self) -> (path: Result<DocumentPath, DocumentPathSyntaxError>)
        requires
            self.position == 0,
        ensures
            path matches Ok(path) ==> parsed_path(self.source@) == Ok::<PathSpec, PathFault>(
                path@,
            ),
            path matches Err(error) ==> parsed_path(self.source@) == Err::<PathSpec, PathFault>(
                fault_of(error),
            ),
    {
        let mut parser = self;
        let ghost source = parser.source@;
        if !parser.eat('$') {
            return Err(parser.error("a document path starts with `$`"));
        }
        let mut path = DocumentPath::root();
        while parser.eat('.')
            invariant
                parser.well_formed(),
                parser.source@ == source,
                source == self.source@,
                parser.position > 0,
                path@.blocks == Seq::<BlockStep>::empty(),
                sections_from(source, parser.position as int, path@.sections) == sections_from(
                    source,
                    1,
                    Seq::empty(),
                ),
                stands(source, 0, '$'),
            decreases source.len() - parser.position,
        {
            proof {
                section_step_bounds(source, parser.position as int);
            }
            let step = match parser.section_step() {
                Ok(step) => step,
                Err(error) => {
                    return Err(error);
                },
            };
            path = match path.with_section(step) {
                Some(longer) => longer,
                None => DocumentPath::root(),
            };
        }
        let ghost middle = parser.position as int;
        let ghost sections = path@.sections;
        while parser.eat('/')
            invariant
                parser.well_formed(),
                parser.source@ == source,
                source == self.source@,
                path@.sections == sections,
                blocks_from(source, parser.position as int, path@.blocks) == blocks_from(
                    source,
                    middle,
                    Seq::empty(),
                ),
                sections_from(source, 1, Seq::empty()) == Ok::<(Seq<StepSpec>, int), PathFault>(
                    (sections, middle),
                ),
                stands(source, 0, '$'),
            decreases source.len() - parser.position,
        {
            let previous = if path.blocks().len() > 0 {
                Some(path.blocks()[path.blocks().len() - 1].kind)
            } else {
                None
            };
            proof {
                block_step_bounds(source, parser.position as int, previous);
            }
            let step = match parser.block_step(previous) {
                Ok(step) => step,
                Err(error) => {
                    return Err(error);
                },
            };
            path = match path.with_block(step) {
                Some(longer) => longer,
                None => DocumentPath::root(),
            };
        }
        if parser.position == parser.source.len() {
            Ok(path)
        } else {
            let mut message = "unexpected ".to_owned();
            message.append(debug_char(parser.source[parser.position]).as_str());
            if path.blocks().len() == 0 {
                message.append("; expected `.`, `/`, or the end of the path");
            } else {
                message.append("; expected `/` or the end of the path");
            }
            Err(parser.error(message.as_str()))
        }
    }

    fn section_step(&mut self) -> (step: Result<SectionStep, DocumentPathSyntaxError>)
        requires
            old(self).well_formed(),
        ensures
            final(self).well_formed(),
            final(self).source == old(self).source,
            step matches Ok(step) ==> section_step_at(
                old(self).source@,
                old(self).position as int,
            ) == Ok::<(StepSpec, int), PathFault>((step@, final(self).position as int)),
            step matches Err(error) ==> section_step_at(
                old(self).source@,
                old(self).position as int,
            ) == Err::<(StepSpec, int), PathFault>(fault_of(error)),
    {
        if self.eat('[') {
            return match self.index() {
                Ok(index) => Ok(SectionStep::Position(index)),
                Err(error) => Err(error),
            };
        }
        let descendant = self.eat('.');
        let slug = match self.slug(descendant) {
            Ok(slug) => slug,
            Err(error) => {
                return Err(error);
            },
        };
        let index = match self.optional_index() {
            Ok(index) => index,
            Err(error) => {
                return Err(error);
            },
        };
        Ok(
            if descendant {
                SectionStep::Descendant { slug, index }
            } else {
                SectionStep::Named { slug, index }
            },
        )
    }

    /// Parses a slug one run at a time so that the error offset points at the
    /// character that broke the form: a `-` without a following letter or
    /// digit fails after the `-`, not at the start of the segment.
    fn slug(&mut self, descendant: bool) -> (slug: Result<HeadingSlug, DocumentPathSyntaxError>)
        requires
            old(self).well_formed(),
        ensures
            final(self).well_formed(),
            final(self).source == old(self).source,
            ({
                let expected = if descendant {
                    expected_descendant_slug()
                } else {
                    expected_slug()
                };
                let from = old(self).position as int;
                let source = old(self).source@;
                &&& slug matches Ok(slug) ==> slug_end(source, from, expected) == Ok::<
                    int,
                    PathFault,
                >(final(self).position as int) && slug@ == source.subrange(
                    from,
                    final(self).position as int,
                )
                &&& slug matches Err(error) ==> slug_end(source, from, expected) == Err::<
                    int,
                    PathFault,
                >(fault_of(error))
            }),
    {
        let start = self.position;
        let ghost source = self.source@;
        let ghost expected = if descendant {
            expected_descendant_slug()
        } else {
            expected_slug()
        };
        proof {
            run_end_bounds(source, start as int, CharClass::Slug);
        }
        self.take_while(CharClass::Slug);
        if self.position == start {
            return Err(
                if descendant {
                    self.error("expected a heading slug (`[a-z0-9]+(-[a-z0-9]+)*`) after `..`")
                } else {
                    self.error(
                        "expected a heading slug (`[a-z0-9]+(-[a-z0-9]+)*`) or a `[index]` position",
                    )
                },
            );
        }
        assert forall|at: int|
            0 <= at < self.position - start implies #[trigger] source.subrange(
            start as int,
            self.position as int,
        )[at] == source[start + at] by {}
        while self.eat('-')
            invariant
                self.well_formed(),
                self.source@ == source,
                self.source == old(self).source,
                start == old(self).position,
                start < self.position,
                slug_tail(source, self.position as int) == slug_end(source, start as int, expected),
                has_slug_form(source.subrange(start as int, self.position as int)),
                is_slug_char(source[self.position - 1]),
            decreases source.len() - self.position,
        {
            let run = self.position;
            proof {
                run_end_bounds(source, run as int, CharClass::Slug);
            }
            self.take_while(CharClass::Slug);
            if self.position == run {
                return Err(self.error("expected a letter or digit after `-` in a heading slug"));
            }
            proof {
                slug_form_extends(source, start as int, run - 1, self.position as int);
            }
        }
        // Each run is non-empty and the runs are joined by single hyphens,
        // which is exactly the slug form.
        Ok(HeadingSlug::from_chars(self.source.as_slice(), start, self.position))
    }

    fn block_step(&mut self, previous: Option<BlockPathKind>) -> (step: Result<
        BlockStep,
        DocumentPathSyntaxError,
    >)
        requires
            old(self).well_formed(),
        ensures
            final(self).well_formed(),
            final(self).source == old(self).source,
            step matches Ok(step) ==> block_step_at(
                old(self).source@,
                old(self).position as int,
                previous,
            ) == Ok::<(BlockStep, int), PathFault>((step, final(self).position as int)),
            step matches Err(error) ==> block_step_at(
                old(self).source@,
                old(self).position as int,
                previous,
            ) == Err::<(BlockStep, int), PathFault>(fault_of(error)),
    {
        let start = self.position;
        proof {
            run_end_bounds(self.source@, start as int, CharClass::Keyword);
            keywords_differ();
        }
        self.take_while(CharClass::Keyword);
        let keyword = text_of(self.source.as_slice(), start, self.position);
        let kind = match BlockPathKind::from_keyword(keyword.as_str()) {
            Some(kind) => kind,
            None => {
                return Err(
                    self.error_at(
                        start,
                        "expected a block kind: `p`, `list`, `item`, `table`, `row`, `cell`, `col`, `code`, `quote`, `html`, or `break`",
                    ),
                );
            },
        };
        assert(keyword_of(kind) == self.source@.subrange(start as int, self.position as int));
        let follows_list = match previous {
            Some(before) => before == BlockPathKind::List,
            None => false,
        };
        if kind == BlockPathKind::Item && !follows_list {
            return Err(self.error_at(start, "`item` must directly follow a `list` step"));
        }
        let index = match self.optional_index() {
            Ok(Some(index)) => index,
            Ok(None) => 0,
            Err(error) => {
                return Err(error);
            },
        };
        Ok(BlockStep { kind, index })
    }

    fn optional_index(&mut self) -> (index: Result<Option<usize>, DocumentPathSyntaxError>)
        requires
            old(self).well_formed(),
        ensures
            final(self).well_formed(),
            final(self).source == old(self).source,
            index matches Ok(index) ==> optional_index_at(
                old(self).source@,
                old(self).position as int,
            ) == Ok::<(Option<usize>, int), PathFault>((index, final(self).position as int)),
            index matches Err(error) ==> optional_index_at(
                old(self).source@,
                old(self).position as int,
            ) == Err::<(Option<usize>, int), PathFault>(fault_of(error)),
    {
        if self.eat('[') {
            match self.index() {
                Ok(index) => Ok(Some(index)),
                Err(error) => Err(error),
            }
        } else {
            Ok(None)
        }
    }

    /// Parses the digits and closing bracket of an index whose `[` has been
    /// consumed.
    fn index(&mut self) -> (index: Result<usize, DocumentPathSyntaxError>)
        requires
            old(self).well_formed(),
        ensures
            final(self).well_formed(),
            final(self).source == old(self).source,
            index matches Ok(index) ==> index_at(old(self).source@, old(self).position as int)
                == Ok::<(usize, int), PathFault>((index, final(self).position as int)),
            index matches Err(error) ==> index_at(old(self).source@, old(self).position as int)
                == Err::<(usize, int), PathFault>(fault_of(error)),
    {
        let start = self.position;
        proof {
            run_end_bounds(self.source@, start as int, CharClass::Index);
        }
        self.take_while(CharClass::Index);
        let end = self.position;
        let ghost digits = self.source@.subrange(start as int, end as int);
        assert forall|at: int| 0 <= at < digits.len() implies is_digit(#[trigger] digits[at]) by {
            assert(digits[at] == self.source@[start + at]);
        }
        if end == start {
            return Err(self.error_at(start, "expected a zero-based index"));
        }
        if end - start > 1 && self.source[start] == '0' {
            return Err(self.error_at(start, "an index has no leading zero"));
        }
        let index = match parse_decimal(self.source.as_slice(), start, end) {
            Some(index) => index,
            None => {
                return Err(self.error_at(start, "index is too large"));
            },
        };
        if !self.eat(']') {
            return Err(self.error("expected `]` after the index"));
        }
        Ok(index)
    }
}

/// Two kinds have two keywords, and a keyword is a non-empty run of lowercase
/// letters.
pub proof fn keywords_differ()
    ensures
        forall|left: BlockPathKind, right: BlockPathKind| #[trigger]
            keyword_of(left) == #[trigger] keyword_of(right) ==> left == right,
        forall|kind: BlockPathKind| (#[trigger] keyword_of(kind)).len() > 0,
        forall|kind: BlockPathKind, at: int|
            0 <= at < keyword_of(kind).len() ==> is_lower(#[trigger] keyword_of(kind)[at]),
{
    reveal_strlit("p");
    reveal_strlit("list");
    reveal_strlit("item");
    reveal_strlit("table");
    reveal_strlit("row");
    reveal_strlit("cell");
    reveal_strlit("col");
    reveal_strlit("code");
    reveal_strlit("quote");
    reveal_strlit("html");
    reveal_strlit("break");
    assert forall|left: BlockPathKind, right: BlockPathKind| #[trigger]
        keyword_of(left) == #[trigger] keyword_of(right) implies left == right by {
        let one = keyword_of(left);
        let two = keyword_of(right);
        assert(one[0] == two[0] && one.len() == two.len());
        assert(one[1] == two[1]);
        assert(one[2] == two[2]);
    }
}

/// `piece` stands at `from`.
spec fn occurs(source: Seq<char>, from: int, piece: Seq<char>) -> bool {
    &&& 0 <= from
    &&& from + piece.len() <= source.len()
    &&& forall|at: int| 0 <= at < piece.len() ==> source[from + at] == #[trigger] piece[at]
}

/// A path can go on or end at `at`.
pub open spec fn at_boundary(source: Seq<char>, at: int) -> bool {
    at == source.len() || stands(source, at, '.') || stands(source, at, '/')
}

proof fn index_parses(source: Seq<char>, from: int, index: usize)
    requires
        occurs(source, from, index_spelling(index)),
    ensures
        index_at(source, from + 1) == Ok::<(usize, int), PathFault>(
            (index, from + index_spelling(index).len()),
        ),
{
    let digits = decimal(index as nat);
    let whole = index_spelling(index);
    let end = from + 1 + digits.len();
    decimal_is_canonical(index as nat);
    assert(whole.len() == digits.len() + 2);
    assert forall|at: int| from + 1 <= at < end implies in_class(
        CharClass::Index,
        #[trigger] source[at],
    ) by {
        assert(source[from + (at - from)] == whole[at - from]);
        assert(whole[at - from] == digits[at - from - 1]);
    }
    assert(source[from + (digits.len() + 1)] == whole[digits.len() as int + 1]);
    run_end_is(source, from + 1, end, CharClass::Index);
    assert(source.subrange(from + 1, end) =~= digits) by {
        assert forall|at: int| 0 <= at < digits.len() implies #[trigger] digits[at] == source[from
            + 1 + at] by {
            assert(source[from + (at + 1)] == whole[at + 1]);
        }
    }
    assert(source[from + 1] == digits[0]) by {
        assert(source[from + 1] == whole[1]);
    }
}

proof fn optional_index_parses(source: Seq<char>, from: int, index: Option<usize>)
    requires
        occurs(source, from, optional_index_spelling(index)),
        at_boundary(source, from + optional_index_spelling(index).len()),
    ensures
        optional_index_at(source, from) == Ok::<(Option<usize>, int), PathFault>(
            (index, from + optional_index_spelling(index).len()),
        ),
{
    if let Some(value) = index {
        index_parses(source, from, value);
        assert(source[from + 0] == index_spelling(value)[0]);
    }
}

proof fn slug_tail_parses(source: Seq<char>, from: int, slug: Seq<char>, at: int)
    requires
        occurs(source, from, slug),
        has_slug_form(slug),
        from < at <= from + slug.len(),
        is_slug_char(source[at - 1]),
        at == from + slug.len() || source[at] == '-',
        from + slug.len() < source.len() ==> !is_slug_char(source[from + slug.len()])
            && source[from + slug.len()] != '-',
    ensures
        slug_tail(source, at) == Ok::<int, PathFault>(from + slug.len()),
    decreases from + slug.len() - at,
{
    let end = from + slug.len();
    if at < end {
        assert(slug[at - from] == source[from + (at - from)]);
        let next = run_end(source, at + 1, CharClass::Slug);
        run_end_bounds(source, at + 1, CharClass::Slug);
        assert(slug[at - from + 1] == source[from + (at - from + 1)]);
        assert(next > at + 1);
        assert(next <= end);
        if next < end {
            assert(slug[next - from] == source[from + (next - from)]);
        }
        slug_tail_parses(source, from, slug, next);
    }
}

proof fn slug_parses(source: Seq<char>, from: int, slug: Seq<char>, expected: Seq<char>)
    requires
        occurs(source, from, slug),
        has_slug_form(slug),
        from + slug.len() < source.len() ==> !is_slug_char(source[from + slug.len()])
            && source[from + slug.len()] != '-',
    ensures
        slug_end(source, from, expected) == Ok::<int, PathFault>(from + slug.len()),
        source.subrange(from, from + slug.len()) == slug,
{
    let end = from + slug.len();
    let next = run_end(source, from, CharClass::Slug);
    run_end_bounds(source, from, CharClass::Slug);
    assert(slug[0] == source[from + 0]);
    assert(next > from && next <= end);
    if next < end {
        assert(slug[next - from] == source[from + (next - from)]);
    }
    slug_tail_parses(source, from, slug, next);
    assert(source.subrange(from, end) =~= slug);
}

proof fn section_step_parses(source: Seq<char>, at: int, step: StepSpec)
    requires
        occurs(source, at, step_spelling(step)),
        step_well_formed(step),
        at_boundary(source, at + step_spelling(step).len()),
    ensures
        stands(source, at, '.'),
        section_step_at(source, at + 1) == Ok::<(StepSpec, int), PathFault>(
            (step, at + step_spelling(step).len()),
        ),
{
    let whole = step_spelling(step);
    assert(source[at + 0] == whole[0]);
    match step {
        StepSpec::Position(index) => {
            assert(occurs(source, at + 1, index_spelling(index))) by {
                assert forall|k: int| 0 <= k < index_spelling(index).len() implies source[at + 1
                    + k] == #[trigger] index_spelling(index)[k] by {
                    assert(source[at + (k + 1)] == whole[k + 1]);
                }
            }
            index_parses(source, at + 1, index);
            assert(source[at + 1 + 0] == index_spelling(index)[0]);
        },
        StepSpec::Named(slug, index) => {
            assert(whole.skip(1) =~= slug + optional_index_spelling(index));
            named_parses(source, at + 1, slug, index, whole, 1, expected_slug());
            assert(source[at + 1] == whole[1] && whole[1] == slug[0]);
            assert(is_slug_char(slug[0]));
        },
        StepSpec::Descendant(slug, index) => {
            assert(whole.skip(2) =~= slug + optional_index_spelling(index));
            named_parses(source, at + 2, slug, index, whole, 2, expected_descendant_slug());
            assert(source[at + 1] == whole[1]);
        },
    }
}

/// The slug and the optional index behind the dots of a step.
proof fn named_parses(
    source: Seq<char>,
    from: int,
    slug: Seq<char>,
    index: Option<usize>,
    whole: Seq<char>,
    dots: int,
    expected: Seq<char>,
)
    requires
        0 <= dots <= whole.len(),
        occurs(source, from - dots, whole),
        whole.skip(dots) == slug + optional_index_spelling(index),
        has_slug_form(slug),
        at_boundary(source, from - dots + whole.len()),
    ensures
        slug_end(source, from, expected) == Ok::<int, PathFault>(from + slug.len()),
        source.subrange(from, from + slug.len()) == slug,
        optional_index_at(source, from + slug.len()) == Ok::<(Option<usize>, int), PathFault>(
            (index, from - dots + whole.len()),
        ),
{
    let tail = optional_index_spelling(index);
    let rest = whole.skip(dots);
    assert(rest.len() == slug.len() + tail.len());
    assert(whole.len() == dots + slug.len() + tail.len());
    assert forall|k: int| 0 <= k < slug.len() implies source[from + k] == #[trigger] slug[k] by {
        assert(source[from - dots + (k + dots)] == whole[k + dots]);
        assert(rest[k] == whole[k + dots]);
    }
    let end = from + slug.len();
    assert forall|k: int| 0 <= k < tail.len() implies source[end + k] == #[trigger] tail[k] by {
        let inside = k + dots + slug.len();
        assert(source[from - dots + inside] == whole[inside]);
        assert(rest[k + slug.len()] == whole[inside]);
    }
    optional_index_parses(source, end, index);
    if tail.len() > 0 {
        assert(source[end + 0] == tail[0]);
    }
    slug_parses(source, from, slug, expected);
}

proof fn sections_parse(
    source: Seq<char>,
    at: int,
    before: Seq<StepSpec>,
    rest: Seq<StepSpec>,
)
    requires
        occurs(source, at, sections_spelling(rest)),
        forall|k: int| 0 <= k < rest.len() ==> step_well_formed(#[trigger] rest[k]),
        at_boundary(source, at + sections_spelling(rest).len()),
        !stands(source, at + sections_spelling(rest).len(), '.'),
    ensures
        sections_from(source, at, before) == Ok::<(Seq<StepSpec>, int), PathFault>(
            (before + rest, at + sections_spelling(rest).len()),
        ),
    decreases rest.len(),
{
    let whole = sections_spelling(rest);
    if rest.len() == 0 {
        assert(before + rest =~= before);
    } else {
        let head = step_spelling(rest[0]);
        let tail = sections_spelling(rest.skip(1));
        assert(whole =~= head + tail);
        let middle = at + head.len();
        assert forall|k: int| 0 <= k < head.len() implies source[at + k] == #[trigger] head[k] by {
            assert(source[at + k] == whole[k]);
        }
        assert forall|k: int| 0 <= k < tail.len() implies source[middle + k] == #[trigger] tail[k]
            by {
            assert(source[at + (k + head.len())] == whole[k + head.len()]);
        }
        if rest.len() > 1 {
            let second = rest.skip(1)[0];
            assert(step_spelling(second)[0] == '.');
            assert(tail[0] == '.');
            assert(source[middle + 0] == tail[0]);
        } else {
            assert(tail.len() == 0);
        }
        section_step_parses(source, at, rest[0]);
        assert forall|k: int| 0 <= k < rest.skip(1).len() implies step_well_formed(
            #[trigger] rest.skip(1)[k],
        ) by {
            assert(rest.skip(1)[k] == rest[k + 1]);
        }
        sections_parse(source, middle, before.push(rest[0]), rest.skip(1));
        assert(before.push(rest[0]) + rest.skip(1) =~= before + rest);
    }
}

proof fn block_step_parses(
    source: Seq<char>,
    at: int,
    step: BlockStep,
    previous: Option<BlockPathKind>,
)
    requires
        occurs(source, at, block_spelling(step)),
        step.kind == BlockPathKind::Item ==> previous == Some(BlockPathKind::List),
        at_boundary(source, at + block_spelling(step).len()),
    ensures
        stands(source, at, '/'),
        block_step_at(source, at + 1, previous) == Ok::<(BlockStep, int), PathFault>(
            (step, at + block_spelling(step).len()),
        ),
{
    keywords_differ();
    let whole = block_spelling(step);
    let keyword = keyword_of(step.kind);
    let index = index_spelling(step.index);
    let end = at + 1 + keyword.len();
    assert(source[at + 0] == whole[0]);
    assert forall|k: int| at + 1 <= k < end implies in_class(
        CharClass::Keyword,
        #[trigger] source[k],
    ) && source[k] == keyword[k - at - 1] by {
        assert(source[at + (k - at)] == whole[k - at]);
        assert(whole[k - at] == keyword[k - at - 1]);
    }
    assert forall|k: int| 0 <= k < index.len() implies source[end + k] == #[trigger] index[k] by {
        let inside = k + 1 + keyword.len();
        assert(source[at + inside] == whole[inside]);
        assert(whole[inside] == index[k]);
    }
    assert(source[end + 0] == index[0]);
    run_end_is(source, at + 1, end, CharClass::Keyword);
    assert(source.subrange(at + 1, end) =~= keyword);
    assert(optional_index_spelling(Some(step.index)) == index);
    optional_index_parses(source, end, Some(step.index));
    let chosen = choose|kind: BlockPathKind| keyword_of(kind) == keyword;
    assert(keyword_of(chosen) == keyword);
}

proof fn blocks_parse(source: Seq<char>, at: int, before: Seq<BlockStep>, rest: Seq<BlockStep>)
    requires
        occurs(source, at, blocks_spelling(rest)),
        items_follow_lists(before + rest),
        at + blocks_spelling(rest).len() == source.len(),
    ensures
        blocks_from(source, at, before) == Ok::<(Seq<BlockStep>, int), PathFault>(
            (before + rest, source.len() as int),
        ),
    decreases rest.len(),
{
    let whole = blocks_spelling(rest);
    if rest.len() == 0 {
        assert(before + rest =~= before);
    } else {
        let head = block_spelling(rest[0]);
        let tail = blocks_spelling(rest.skip(1));
        assert(whole =~= head + tail);
        let middle = at + head.len();
        assert forall|k: int| 0 <= k < head.len() implies source[at + k] == #[trigger] head[k] by {
            assert(source[at + k] == whole[k]);
        }
        assert forall|k: int| 0 <= k < tail.len() implies source[middle + k] == #[trigger] tail[k]
            by {
            assert(source[at + (k + head.len())] == whole[k + head.len()]);
        }
        if rest.len() > 1 {
            let second = rest.skip(1)[0];
            assert(block_spelling(second)[0] == '/');
            assert(tail[0] == '/');
            assert(source[middle + 0] == tail[0]);
        } else {
            assert(tail.len() == 0);
        }
        assert(item_follows_list(before + rest, before.len() as int));
        assert((before + rest)[before.len() as int] == rest[0]);
        if before.len() > 0 {
            assert((before + rest)[before.len() - 1] == before.last());
        }
        block_step_parses(source, at, rest[0], last_kind(before));
        assert(before.push(rest[0]) + rest.skip(1) =~= before + rest);
        blocks_parse(source, middle, before.push(rest[0]), rest.skip(1));
    }
}

/// Every path is parsed back from its canonical spelling.
pub proof fn canonical_spelling_parses_back(path: PathSpec)
    requires
        path_well_formed(path),
    ensures
        parsed_path(path_spelling(path)) == Ok::<PathSpec, PathFault>(path),
{
    let source = path_spelling(path);
    let sections = sections_spelling(path.sections);
    let blocks = blocks_spelling(path.blocks);
    let middle: int = 1 + sections.len() as int;
    assert(source.len() == middle + blocks.len());
    assert forall|k: int| 0 <= k < sections.len() implies source[1 + k] == #[trigger] sections[k] by {}
    assert forall|k: int| 0 <= k < blocks.len() implies source[middle + k] == #[trigger] blocks[k]
        by {}
    if path.blocks.len() > 0 {
        assert(block_spelling(path.blocks[0])[0] == '/');
        assert(blocks[0] == '/');
        assert(source[middle + 0] == blocks[0]);
    } else {
        assert(blocks.len() == 0);
    }
    sections_parse(source, 1, Seq::empty(), path.sections);
    assert(Seq::<StepSpec>::empty() + path.sections =~= path.sections);
    assert(Seq::<BlockStep>::empty() + path.blocks =~= path.blocks);
    blocks_parse(source, middle, Seq::empty(), path.blocks);
}

/// The characters in `from..to` are ASCII.
spec fn ascii_between(source: Seq<char>, from: int, to: int) -> bool {
    forall|at: int| from <= at < to ==> #[trigger] source[at] <= '\u{7f}'
}

proof fn run_is_ascii(source: Seq<char>, from: int, class: CharClass)
    requires
        0 <= from <= source.len(),
    ensures
        ascii_between(source, from, run_end(source, from, class)),
        from <= run_end(source, from, class) <= source.len(),
{
    run_end_bounds(source, from, class);
    assert forall|at: int| from <= at < run_end(
        source,
        from,
        class,
    ) implies #[trigger] source[at] <= '\u{7f}' by {
        assert(in_class(class, source[at]));
    }
}

proof fn slug_tail_is_ascii(source: Seq<char>, at: int)
    requires
        0 <= at <= source.len(),
    ensures
        slug_tail(source, at) matches Ok(end) ==> ascii_between(source, at, end),
        slug_tail(source, at) matches Err(fault) ==> ascii_between(source, at, fault.offset),
    decreases source.len() - at,
{
    if stands(source, at, '-') {
        run_is_ascii(source, at + 1, CharClass::Slug);
        let end = run_end(source, at + 1, CharClass::Slug);
        if end > at + 1 {
            slug_tail_is_ascii(source, end);
        }
    }
}

proof fn slug_is_ascii(source: Seq<char>, from: int, expected: Seq<char>)
    requires
        0 <= from <= source.len(),
    ensures
        slug_end(source, from, expected) matches Ok(end) ==> ascii_between(source, from, end),
        slug_end(source, from, expected) matches Err(fault) ==> ascii_between(
            source,
            from,
            fault.offset,
        ),
{
    run_is_ascii(source, from, CharClass::Slug);
    slug_tail_is_ascii(source, run_end(source, from, CharClass::Slug));
}

proof fn optional_index_is_ascii(source: Seq<char>, from: int)
    requires
        0 <= from <= source.len(),
    ensures
        optional_index_at(source, from) matches Ok((_, end)) ==> ascii_between(source, from, end),
        optional_index_at(source, from) matches Err(fault) ==> ascii_between(
            source,
            from,
            fault.offset,
        ),
{
    if stands(source, from, '[') {
        run_is_ascii(source, from + 1, CharClass::Index);
    }
}

proof fn section_step_is_ascii(source: Seq<char>, from: int)
    requires
        0 <= from <= source.len(),
    ensures
        section_step_at(source, from) matches Ok((_, end)) ==> ascii_between(source, from, end),
        section_step_at(source, from) matches Err(fault) ==> ascii_between(
            source,
            from,
            fault.offset,
        ),
{
    optional_index_is_ascii(source, from);
    if stands(source, from, '.') {
        slug_end_bounds(source, from + 1, expected_descendant_slug());
        slug_is_ascii(source, from + 1, expected_descendant_slug());
        if let Ok(end) = slug_end(source, from + 1, expected_descendant_slug()) {
            optional_index_is_ascii(source, end);
        }
    } else if !stands(source, from, '[') {
        slug_end_bounds(source, from, expected_slug());
        slug_is_ascii(source, from, expected_slug());
        if let Ok(end) = slug_end(source, from, expected_slug()) {
            optional_index_is_ascii(source, end);
        }
    }
}

proof fn sections_are_ascii(source: Seq<char>, at: int, before: Seq<StepSpec>)
    requires
        0 <= at <= source.len(),
        ascii_between(source, 0, at),
    ensures
        sections_from(source, at, before) matches Ok((_, end)) ==> ascii_between(source, 0, end)
            && 0 <= end <= source.len(),
        sections_from(source, at, before) matches Err(fault) ==> ascii_between(
            source,
            0,
            fault.offset,
        ) && 0 <= fault.offset <= source.len(),
    decreases source.len() - at,
{
    if stands(source, at, '.') {
        section_step_bounds(source, at + 1);
        section_step_is_ascii(source, at + 1);
        if let Ok((step, next)) = section_step_at(source, at + 1) {
            sections_are_ascii(source, next, before.push(step));
        }
    }
}

proof fn blocks_are_ascii(source: Seq<char>, at: int, before: Seq<BlockStep>)
    requires
        0 <= at <= source.len(),
        ascii_between(source, 0, at),
    ensures
        blocks_from(source, at, before) matches Ok((_, end)) ==> ascii_between(source, 0, end)
            && 0 <= end <= source.len(),
        blocks_from(source, at, before) matches Err(fault) ==> ascii_between(
            source,
            0,
            fault.offset,
        ) && 0 <= fault.offset <= source.len(),
    decreases source.len() - at,
{
    if stands(source, at, '/') {
        let previous = last_kind(before);
        block_step_bounds(source, at + 1, previous);
        run_is_ascii(source, at + 1, CharClass::Keyword);
        let keyword_end = run_end(source, at + 1, CharClass::Keyword);
        optional_index_bounds(source, keyword_end);
        optional_index_is_ascii(source, keyword_end);
        if let Ok((step, next)) = block_step_at(source, at + 1, previous) {
            blocks_are_ascii(source, next, before.push(step));
        }
    }
}

proof fn char_is_not_negative(character: char)
    ensures
        '\0' <= character,
{
}

/// The offset of a syntax error lies within the spelling, and counts the UTF-8
/// bytes before the place at which the spelling stops being a path.
pub proof fn error_offset_is_a_byte_offset(source: Seq<char>)
    requires
        parsed_path(source) is Err,
    ensures
        ({
            let offset = parsed_path(source)->Err_0.offset;
            &&& 0 <= offset <= source.len()
            &&& vstd::utf8::encode_utf8(source.take(offset)).len() == offset
        }),
{
    let offset = parsed_path(source)->Err_0.offset;
    if stands(source, 0, '$') {
        sections_are_ascii(source, 1, Seq::empty());
        if let Ok((_, middle)) = sections_from(source, 1, Seq::empty()) {
            blocks_are_ascii(source, middle, Seq::empty());
        }
    }
    let prefix = source.take(offset);
    assert(ascii_between(source, 0, offset));
    assert forall|at: int| 0 <= at < prefix.len() implies '\0' <= #[trigger] prefix[at] && prefix[at]
        <= '\u{7f}' by {
        let character = source[at];
        assert(prefix[at] == character);
        assert(character <= '\u{7f}');
        char_is_not_negative(character);
    }
    vstd::utf8::is_ascii_chars_encode_utf8(prefix);
}

pub(crate) proof fn sections_well_formed(source: Seq<char>, at: int, before: Seq<StepSpec>)
    requires
        0 <= at <= source.len(),
        forall|k: int| 0 <= k < before.len() ==> step_well_formed(#[trigger] before[k]),
    ensures
        sections_from(source, at, before) matches Ok((steps, end)) ==> 0 <= end <= source.len()
            && forall|k: int| 0 <= k < steps.len() ==> step_well_formed(#[trigger] steps[k]),
    decreases source.len() - at,
{
    if stands(source, at, '.') {
        section_step_bounds(source, at + 1);
        if let Ok((step, next)) = section_step_at(source, at + 1) {
            section_step_well_formed(source, at + 1);
            sections_well_formed(source, next, before.push(step));
        }
    }
}

pub(crate) proof fn section_step_well_formed(source: Seq<char>, from: int)
    requires
        0 <= from <= source.len(),
    ensures
        section_step_at(source, from) matches Ok((step, _)) ==> step_well_formed(step),
{
    if stands(source, from, '.') {
        slug_end_has_form(source, from + 1, expected_descendant_slug());
    } else if !stands(source, from, '[') {
        slug_end_has_form(source, from, expected_slug());
    }
}

pub(crate) proof fn slug_end_has_form(source: Seq<char>, from: int, expected: Seq<char>)
    requires
        0 <= from <= source.len(),
    ensures
        slug_end(source, from, expected) matches Ok(end) ==> has_slug_form(
            source.subrange(from, end),
        ),
{
    run_end_bounds(source, from, CharClass::Slug);
    let end = run_end(source, from, CharClass::Slug);
    if end > from {
        assert forall|at: int| 0 <= at < end - from implies is_slug_char(
            #[trigger] source.subrange(from, end)[at],
        ) by {
            assert(in_class(CharClass::Slug, source[from + at]));
        }
        slug_tail_has_form(source, from, end);
    }
}

proof fn slug_tail_has_form(source: Seq<char>, from: int, at: int)
    requires
        0 <= from < at <= source.len(),
        has_slug_form(source.subrange(from, at)),
        is_slug_char(source[at - 1]),
    ensures
        slug_tail(source, at) matches Ok(end) ==> has_slug_form(source.subrange(from, end)),
    decreases source.len() - at,
{
    if stands(source, at, '-') {
        run_end_bounds(source, at + 1, CharClass::Slug);
        let end = run_end(source, at + 1, CharClass::Slug);
        if end > at + 1 {
            slug_form_extends(source, from, at, end);
            assert(in_class(CharClass::Slug, source[end - 1]));
            slug_tail_has_form(source, from, end);
        }
    }
}

/// A slug followed by `-` and a run is a longer slug.
proof fn slug_form_extends(source: Seq<char>, from: int, at: int, end: int)
    requires
        0 <= from < at,
        at + 1 < end <= source.len(),
        has_slug_form(source.subrange(from, at)),
        is_slug_char(source[at - 1]),
        source[at] == '-',
        forall|k: int| at < k < end ==> is_slug_char(#[trigger] source[k]),
    ensures
        has_slug_form(source.subrange(from, end)),
{
    let before = source.subrange(from, at);
    let after = source.subrange(from, end);
    assert forall|k: int| 0 <= k < after.len() implies is_slug_char(#[trigger] after[k]) || {
        &&& after[k] == '-'
        &&& 0 < k < after.len() - 1
        &&& is_slug_char(after[k - 1])
    } by {
        assert(after[k] == source[from + k]);
        if k < before.len() {
            assert(after[k] == before[k]);
            if k > 0 {
                assert(after[k - 1] == before[k - 1]);
            }
        } else if k == before.len() {
            assert(after[k - 1] == source[at - 1]);
        }
    }
}

pub(crate) proof fn blocks_well_formed(source: Seq<char>, at: int, before: Seq<BlockStep>)
    requires
        0 <= at <= source.len(),
        items_follow_lists(before),
    ensures
        blocks_from(source, at, before) matches Ok((steps, end)) ==> items_follow_lists(steps),
    decreases source.len() - at,
{
    if stands(source, at, '/') {
        let previous = last_kind(before);
        block_step_bounds(source, at + 1, previous);
        if let Ok((step, next)) = block_step_at(source, at + 1, previous) {
            let after = before.push(step);
            assert forall|k: int| 0 <= k < after.len() implies #[trigger] item_follows_list(
                after,
                k,
            ) by {
                if k < before.len() {
                    assert(item_follows_list(before, k));
                }
            }
            blocks_well_formed(source, next, after);
        }
    }
}

/// Every parsed path has a canonical spelling that parses to the same path:
/// a spelling and its canonical form name the same node.
pub proof fn canonicalizing_keeps_the_path(source: Seq<char>)
    requires
        parsed_path(source) is Ok,
    ensures
        path_well_formed(parsed_path(source)->Ok_0),
        parsed_path(path_spelling(parsed_path(source)->Ok_0)) == parsed_path(source),
{
    sections_well_formed(source, 1, Seq::empty());
    let sections = sections_from(source, 1, Seq::empty());
    blocks_well_formed(source, sections->Ok_0.1, Seq::empty());
    canonical_spelling_parses_back(parsed_path(source)->Ok_0);
}

impl DocumentPath {
    /// Parses the textual spelling of a path.
    ///
    /// # Errors
    ///
    /// Returns a [`DocumentPathSyntaxError`] positioned at the first byte that
    /// cannot continue a valid path.
    pub fn parse(source: &str) -> (path: Result<Self, DocumentPathSyntaxError>)
        ensures
            path matches Ok(path) ==> parsed_path(source@) == Ok::<PathSpec, PathFault>(path@),
            path matches Err(error) ==> parsed_path(source@) == Err::<PathSpec, PathFault>(
                fault_of(error),
            ),
    {
        PathParser::new(source).path()
    }
}

impl std::str::FromStr for DocumentPath {
    type Err = DocumentPathSyntaxError;

    fn from_str(source: &str) -> (path: Result<Self, DocumentPathSyntaxError>)
        ensures
            path matches Ok(path) ==> parsed_path(source@) == Ok::<PathSpec, PathFault>(path@),
            path matches Err(error) ==> parsed_path(source@) == Err::<PathSpec, PathFault>(
                fault_of(error),
            ),
    {
        DocumentPath::parse(source)
    }
}

} // verus!
