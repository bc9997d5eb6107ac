//! What stands before a syntax error in a path can be continued to a path.

use vstd::prelude::*;

use super::slug::is_slug_char;
use super::syntax::{
    at_boundary, block_step_at, block_step_bounds, blocks_from, error_offset_is_a_byte_offset,
    expected_descendant_slug, expected_slug, in_class, index_at, keywords_differ, last_kind,
    optional_index_at, optional_index_bounds, parsed_path, run_end, run_end_bounds, run_end_is,
    section_step_at, section_step_bounds, sections_from, slug_end, slug_end_bounds, slug_tail,
    slug_tail_bounds, stands, CharClass, PathFault,
};
use super::{keyword_of, BlockPathKind, BlockStep, StepSpec};
use crate::text::decimal_value;

verus! {

/// Both texts begin with the same `count` characters.
spec fn agree(left: Seq<char>, right: Seq<char>, count: int) -> bool {
    &&& count <= left.len()
    &&& count <= right.len()
    &&& forall|at: int| 0 <= at < count ==> #[trigger] left[at] == right[at]
}

/// No slug goes on at `at`.
spec fn slug_stops(source: Seq<char>, at: int) -> bool {
    at >= source.len() || (!is_slug_char(source[at]) && source[at] != '-')
}

proof fn same_run(left: Seq<char>, right: Seq<char>, from: int, class: CharClass, count: int)
    requires
        agree(left, right, count),
        0 <= from <= run_end(left, from, class) <= count,
        run_end(left, from, class) < right.len() ==> !in_class(
            class,
            right[run_end(left, from, class)],
        ),
    ensures
        run_end(right, from, class) == run_end(left, from, class),
{
    run_end_bounds(left, from, class);
    let end = run_end(left, from, class);
    assert forall|at: int| from <= at < end implies in_class(class, #[trigger] right[at]) by {
        assert(in_class(class, left[at]));
    }
    run_end_is(right, from, end, class);
}

proof fn same_slug_tail(left: Seq<char>, right: Seq<char>, at: int, count: int)
    requires
        agree(left, right, count),
        0 <= at <= left.len(),
        slug_tail(left, at) is Ok,
        slug_tail(left, at)->Ok_0 <= count,
        slug_stops(right, slug_tail(left, at)->Ok_0),
    ensures
        slug_tail(right, at) == slug_tail(left, at),
    decreases left.len() - at,
{
    slug_tail_bounds(left, at);
    if stands(left, at, '-') {
        run_end_bounds(left, at + 1, CharClass::Slug);
        let end = run_end(left, at + 1, CharClass::Slug);
        slug_tail_bounds(left, end);
        same_run(left, right, at + 1, CharClass::Slug, count);
        same_slug_tail(left, right, end, count);
    }
}

proof fn same_slug(left: Seq<char>, right: Seq<char>, from: int, expected: Seq<char>, count: int)
    requires
        agree(left, right, count),
        0 <= from <= left.len(),
        slug_end(left, from, expected) is Ok,
        slug_end(left, from, expected)->Ok_0 <= count,
        slug_stops(right, slug_end(left, from, expected)->Ok_0),
    ensures
        slug_end(right, from, expected) == slug_end(left, from, expected),
{
    run_end_bounds(left, from, CharClass::Slug);
    let end = run_end(left, from, CharClass::Slug);
    slug_tail_bounds(left, end);
    same_run(left, right, from, CharClass::Slug, count);
    same_slug_tail(left, right, end, count);
}

proof fn same_index(left: Seq<char>, right: Seq<char>, from: int, count: int)
    requires
        agree(left, right, count),
        0 <= from <= left.len(),
        index_at(left, from) is Ok,
        index_at(left, from)->Ok_0.1 <= count,
    ensures
        index_at(right, from) == index_at(left, from),
{
    run_end_bounds(left, from, CharClass::Index);
    let end = run_end(left, from, CharClass::Index);
    same_run(left, right, from, CharClass::Index, count);
    assert(left.subrange(from, end) =~= right.subrange(from, end));
}

proof fn same_optional_index(left: Seq<char>, right: Seq<char>, from: int, count: int)
    requires
        agree(left, right, count),
        0 <= from <= left.len(),
        optional_index_at(left, from) is Ok,
        optional_index_at(left, from)->Ok_0.1 <= count,
        at_boundary(right, optional_index_at(left, from)->Ok_0.1),
    ensures
        optional_index_at(right, from) == optional_index_at(left, from),
{
    if stands(left, from, '[') {
        optional_index_bounds(left, from);
        same_index(left, right, from + 1, count);
    }
}

/// A slug and the optional index behind it.
proof fn same_named(left: Seq<char>, right: Seq<char>, from: int, expected: Seq<char>, count: int)
    requires
        agree(left, right, count),
        0 <= from <= left.len(),
        slug_end(left, from, expected) is Ok,
        optional_index_at(left, slug_end(left, from, expected)->Ok_0) is Ok,
        optional_index_at(left, slug_end(left, from, expected)->Ok_0)->Ok_0.1 <= count,
        at_boundary(
            right,
            optional_index_at(left, slug_end(left, from, expected)->Ok_0)->Ok_0.1,
        ),
    ensures
        slug_end(right, from, expected) == slug_end(left, from, expected),
        optional_index_at(right, slug_end(left, from, expected)->Ok_0) == optional_index_at(
            left,
            slug_end(left, from, expected)->Ok_0,
        ),
        left.subrange(from, slug_end(left, from, expected)->Ok_0) == right.subrange(
            from,
            slug_end(left, from, expected)->Ok_0,
        ),
{
    slug_end_bounds(left, from, expected);
    let end = slug_end(left, from, expected)->Ok_0;
    optional_index_bounds(left, end);
    if stands(left, end, '[') {
        assert(right[end] == left[end]);
    }
    same_slug(left, right, from, expected, count);
    same_optional_index(left, right, end, count);
    assert(left.subrange(from, end) =~= right.subrange(from, end));
}

proof fn same_section_step(left: Seq<char>, right: Seq<char>, from: int, count: int)
    requires
        agree(left, right, count),
        0 <= from <= left.len(),
        section_step_at(left, from) is Ok,
        section_step_at(left, from)->Ok_0.1 <= count,
        at_boundary(right, section_step_at(left, from)->Ok_0.1),
    ensures
        section_step_at(right, from) == section_step_at(left, from),
{
    section_step_bounds(left, from);
    assert(left[from] == right[from]);
    if stands(left, from, '[') {
        same_index(left, right, from + 1, count);
    } else if stands(left, from, '.') {
        same_named(left, right, from + 1, expected_descendant_slug(), count);
    } else {
        same_named(left, right, from, expected_slug(), count);
    }
}

proof fn same_block_step(
    left: Seq<char>,
    right: Seq<char>,
    from: int,
    previous: Option<BlockPathKind>,
    count: int,
)
    requires
        agree(left, right, count),
        0 <= from <= left.len(),
        block_step_at(left, from, previous) is Ok,
        block_step_at(left, from, previous)->Ok_0.1 <= count,
        at_boundary(right, block_step_at(left, from, previous)->Ok_0.1),
    ensures
        block_step_at(right, from, previous) == block_step_at(left, from, previous),
{
    run_end_bounds(left, from, CharClass::Keyword);
    let end = run_end(left, from, CharClass::Keyword);
    optional_index_bounds(left, end);
    if stands(left, end, '[') {
        assert(right[end] == left[end]);
    }
    same_run(left, right, from, CharClass::Keyword, count);
    assert(left.subrange(from, end) =~= right.subrange(from, end));
    same_optional_index(left, right, end, count);
}

proof fn sections_bounds(source: Seq<char>, at: int, before: Seq<StepSpec>)
    requires
        0 <= at <= source.len(),
    ensures
        sections_from(source, at, before) matches Ok((_, end)) ==> at <= end <= source.len(),
        sections_from(source, at, before) matches Err(fault) ==> at < fault.offset
            <= source.len() && stands(source, at, '.'),
    decreases source.len() - at,
{
    if stands(source, at, '.') {
        section_step_bounds(source, at + 1);
        if let Ok((step, next)) = section_step_at(source, at + 1) {
            sections_bounds(source, next, before.push(step));
        }
    }
}

proof fn same_sections(
    left: Seq<char>,
    right: Seq<char>,
    at: int,
    before: Seq<StepSpec>,
    count: int,
)
    requires
        agree(left, right, count),
        0 <= at <= left.len(),
        sections_from(left, at, before) is Ok,
        sections_from(left, at, before)->Ok_0.1 <= count,
        at_boundary(right, sections_from(left, at, before)->Ok_0.1),
        !stands(right, sections_from(left, at, before)->Ok_0.1, '.'),
    ensures
        sections_from(right, at, before) == sections_from(left, at, before),
    decreases left.len() - at,
{
    sections_bounds(left, at, before);
    if stands(left, at, '.') {
        section_step_bounds(left, at + 1);
        let (step, next) = section_step_at(left, at + 1)->Ok_0;
        sections_bounds(left, next, before.push(step));
        if stands(left, next, '.') {
            section_step_bounds(left, next + 1);
            let (later, end) = section_step_at(left, next + 1)->Ok_0;
            sections_bounds(left, end, before.push(step).push(later));
        }
        same_section_step(left, right, at + 1, count);
        same_sections(left, right, next, before.push(step), count);
    }
}

pub(crate) proof fn blocks_bounds(source: Seq<char>, at: int, before: Seq<BlockStep>)
    requires
        0 <= at <= source.len(),
    ensures
        blocks_from(source, at, before) matches Ok((_, end)) ==> at <= end <= source.len(),
        blocks_from(source, at, before) matches Err(fault) ==> at < fault.offset <= source.len()
            && stands(source, at, '/'),
    decreases source.len() - at,
{
    if stands(source, at, '/') {
        block_step_bounds(source, at + 1, last_kind(before));
        if let Ok((step, next)) = block_step_at(source, at + 1, last_kind(before)) {
            blocks_bounds(source, next, before.push(step));
        }
    }
}

proof fn same_blocks(left: Seq<char>, right: Seq<char>, at: int, before: Seq<BlockStep>, count: int)
    requires
        agree(left, right, count),
        0 <= at <= left.len(),
        blocks_from(left, at, before) is Ok,
        blocks_from(left, at, before)->Ok_0.1 == count,
        right.len() == count,
    ensures
        blocks_from(right, at, before) == blocks_from(left, at, before),
    decreases left.len() - at,
{
    blocks_bounds(left, at, before);
    if stands(left, at, '/') {
        block_step_bounds(left, at + 1, last_kind(before));
        let (step, next) = block_step_at(left, at + 1, last_kind(before))->Ok_0;
        blocks_bounds(left, next, before.push(step));
        if stands(left, next, '/') {
            block_step_bounds(left, next + 1, last_kind(before.push(step)));
            let (later, end) = block_step_at(left, next + 1, last_kind(before.push(step)))->Ok_0;
            blocks_bounds(left, end, before.push(step).push(later));
        }
        same_block_step(left, right, at + 1, last_kind(before), count);
        same_blocks(left, right, next, before.push(step), count);
    }
}

proof fn index_goes_on(source: Seq<char>, from: int) -> (rest: Seq<char>)
    requires
        0 <= from <= source.len(),
        index_at(source, from) is Err,
    ensures
        ({
            let offset = index_at(source, from)->Err_0.offset;
            let whole = source.take(offset) + rest;
            &&& from <= offset <= source.len()
            &&& index_at(whole, from) is Ok
            &&& index_at(whole, from)->Ok_0.1 == whole.len()
        }),
{
    run_end_bounds(source, from, CharClass::Index);
    let end = run_end(source, from, CharClass::Index);
    let offset = index_at(source, from)->Err_0.offset;
    if offset == from {
        let rest = seq!['0', ']'];
        let whole = source.take(offset) + rest;
        run_end_is(whole, from, from + 1, CharClass::Index);
        let digits = whole.subrange(from, from + 1);
        assert(digits =~= seq!['0']);
        assert(digits.drop_last() =~= Seq::empty());
        assert(decimal_value(digits.drop_last()) == 0);
        rest
    } else {
        let rest = seq![']'];
        let whole = source.take(offset) + rest;
        same_run(source, whole, from, CharClass::Index, offset);
        assert(source.subrange(from, end) =~= whole.subrange(from, end));
        rest
    }
}

proof fn optional_index_goes_on(source: Seq<char>, from: int) -> (rest: Seq<char>)
    requires
        0 <= from <= source.len(),
        optional_index_at(source, from) is Err,
    ensures
        ({
            let offset = optional_index_at(source, from)->Err_0.offset;
            let whole = source.take(offset) + rest;
            &&& from < offset <= source.len()
            &&& optional_index_at(whole, from) is Ok
            &&& optional_index_at(whole, from)->Ok_0.1 == whole.len()
        }),
{
    index_goes_on(source, from + 1)
}

proof fn slug_tail_goes_on(source: Seq<char>, at: int)
    requires
        0 <= at <= source.len(),
        slug_tail(source, at) is Err,
    ensures
        ({
            let offset = slug_tail(source, at)->Err_0.offset;
            let whole = source.take(offset) + seq!['a'];
            &&& at < offset <= source.len()
            &&& slug_tail(whole, at) == Ok::<int, PathFault>(whole.len() as int)
        }),
    decreases source.len() - at,
{
    reveal_with_fuel(slug_tail, 2);
    slug_tail_bounds(source, at);
    let offset = slug_tail(source, at)->Err_0.offset;
    let whole = source.take(offset) + seq!['a'];
    run_end_bounds(source, at + 1, CharClass::Slug);
    let end = run_end(source, at + 1, CharClass::Slug);
    if end <= at + 1 {
        run_end_is(whole, at + 1, at + 2, CharClass::Slug);
    } else {
        slug_tail_goes_on(source, end);
        assert(whole[end] == source[end]);
        same_run(source, whole, at + 1, CharClass::Slug, offset);
    }
}

/// A slug and the optional index behind it.
proof fn named_goes_on(source: Seq<char>, from: int, expected: Seq<char>) -> (rest: Seq<char>)
    requires
        0 <= from <= source.len(),
        slug_end(source, from, expected) matches Ok(end) ==> optional_index_at(source, end) is Err,
    ensures
        ({
            let offset = match slug_end(source, from, expected) {
                Ok(end) => optional_index_at(source, end)->Err_0.offset,
                Err(fault) => fault.offset,
            };
            let whole = source.take(offset) + rest;
            let end = slug_end(whole, from, expected);
            &&& from <= offset <= source.len()
            &&& end is Ok
            &&& from < end->Ok_0
            &&& optional_index_at(whole, end->Ok_0) is Ok
            &&& optional_index_at(whole, end->Ok_0)->Ok_0.1 == whole.len()
            &&& offset == from ==> rest.len() > 0 && is_slug_char(rest[0])
        }),
{
    slug_end_bounds(source, from, expected);
    match slug_end(source, from, expected) {
        Ok(end) => {
            let rest = optional_index_goes_on(source, end);
            let offset = optional_index_at(source, end)->Err_0.offset;
            let whole = source.take(offset) + rest;
            assert(whole[end] == source[end]);
            same_slug(source, whole, from, expected, offset);
            rest
        },
        Err(fault) => {
            let rest = seq!['a'];
            let whole = source.take(fault.offset) + rest;
            run_end_bounds(source, from, CharClass::Slug);
            let end = run_end(source, from, CharClass::Slug);
            if end == from {
                run_end_is(whole, from, from + 1, CharClass::Slug);
            } else {
                slug_tail_goes_on(source, end);
                assert(whole[end] == source[end]);
                same_run(source, whole, from, CharClass::Slug, fault.offset);
                slug_tail_bounds(whole, end);
            }
            rest
        },
    }
}

proof fn section_step_goes_on(source: Seq<char>, from: int) -> (rest: Seq<char>)
    requires
        0 <= from <= source.len(),
        section_step_at(source, from) is Err,
    ensures
        ({
            let offset = section_step_at(source, from)->Err_0.offset;
            let whole = source.take(offset) + rest;
            &&& from <= offset <= source.len()
            &&& section_step_at(whole, from) is Ok
            &&& section_step_at(whole, from)->Ok_0.1 == whole.len()
        }),
{
    section_step_bounds(source, from);
    let offset = section_step_at(source, from)->Err_0.offset;
    if stands(source, from, '[') {
        let rest = index_goes_on(source, from + 1);
        assert((source.take(offset) + rest)[from] == source[from]);
        rest
    } else if stands(source, from, '.') {
        let rest = named_goes_on(source, from + 1, expected_descendant_slug());
        assert((source.take(offset) + rest)[from] == source[from]);
        rest
    } else {
        let rest = named_goes_on(source, from, expected_slug());
        let whole = source.take(offset) + rest;
        if offset > from {
            assert(whole[from] == source[from]);
        } else {
            assert(whole[from] == rest[0]);
        }
        rest
    }
}

proof fn block_step_goes_on(source: Seq<char>, from: int, previous: Option<BlockPathKind>) -> (rest:
    Seq<char>)
    requires
        0 <= from <= source.len(),
        block_step_at(source, from, previous) is Err,
    ensures
        ({
            let offset = block_step_at(source, from, previous)->Err_0.offset;
            let whole = source.take(offset) + rest;
            &&& from <= offset <= source.len()
            &&& block_step_at(whole, from, previous) is Ok
            &&& block_step_at(whole, from, previous)->Ok_0.1 == whole.len()
        }),
{
    block_step_bounds(source, from, previous);
    run_end_bounds(source, from, CharClass::Keyword);
    let end = run_end(source, from, CharClass::Keyword);
    let offset = block_step_at(source, from, previous)->Err_0.offset;
    let keyword = source.subrange(from, end);
    let known = exists|kind: BlockPathKind| keyword_of(kind) == keyword;
    let kind = choose|kind: BlockPathKind| keyword_of(kind) == keyword;
    if !known || (kind == BlockPathKind::Item && previous != Some(BlockPathKind::List)) {
        let rest = seq!['p'];
        let whole = source.take(offset) + rest;
        keywords_differ();
        reveal_strlit("p");
        run_end_is(whole, from, from + 1, CharClass::Keyword);
        let spelled = whole.subrange(from, from + 1);
        assert(spelled =~= "p"@);
        assert(keyword_of(BlockPathKind::Paragraph) == spelled);
        let chosen = choose|kind: BlockPathKind| keyword_of(kind) == spelled;
        assert(keyword_of(chosen) == spelled);
        assert(chosen == BlockPathKind::Paragraph);
        rest
    } else {
        let rest = optional_index_goes_on(source, end);
        let whole = source.take(offset) + rest;
        assert(whole[end] == source[end]);
        same_run(source, whole, from, CharClass::Keyword, offset);
        assert(whole.subrange(from, end) =~= keyword);
        rest
    }
}

proof fn sections_go_on(source: Seq<char>, at: int, before: Seq<StepSpec>) -> (rest: Seq<char>)
    requires
        0 <= at <= source.len(),
        sections_from(source, at, before) is Err,
    ensures
        ({
            let offset = sections_from(source, at, before)->Err_0.offset;
            let whole = source.take(offset) + rest;
            &&& at < offset <= source.len()
            &&& sections_from(whole, at, before) is Ok
            &&& sections_from(whole, at, before)->Ok_0.1 == whole.len()
        }),
    decreases source.len() - at,
{
    sections_bounds(source, at, before);
    section_step_bounds(source, at + 1);
    let offset = sections_from(source, at, before)->Err_0.offset;
    match section_step_at(source, at + 1) {
        Err(_) => {
            reveal_with_fuel(sections_from, 2);
            let rest = section_step_goes_on(source, at + 1);
            assert((source.take(offset) + rest)[at] == source[at]);
            rest
        },
        Ok((step, next)) => {
            let rest = sections_go_on(source, next, before.push(step));
            let whole = source.take(offset) + rest;
            sections_bounds(source, next, before.push(step));
            assert(whole[at] == source[at]);
            assert(whole[next] == source[next]);
            same_section_step(source, whole, at + 1, offset);
            rest
        },
    }
}

proof fn blocks_go_on(source: Seq<char>, at: int, before: Seq<BlockStep>) -> (rest: Seq<char>)
    requires
        0 <= at <= source.len(),
        blocks_from(source, at, before) is Err,
    ensures
        ({
            let offset = blocks_from(source, at, before)->Err_0.offset;
            let whole = source.take(offset) + rest;
            &&& at < offset <= source.len()
            &&& blocks_from(whole, at, before) is Ok
            &&& blocks_from(whole, at, before)->Ok_0.1 == whole.len()
        }),
    decreases source.len() - at,
{
    blocks_bounds(source, at, before);
    block_step_bounds(source, at + 1, last_kind(before));
    let offset = blocks_from(source, at, before)->Err_0.offset;
    match block_step_at(source, at + 1, last_kind(before)) {
        Err(_) => {
            reveal_with_fuel(blocks_from, 2);
            let rest = block_step_goes_on(source, at + 1, last_kind(before));
            assert((source.take(offset) + rest)[at] == source[at]);
            rest
        },
        Ok((step, next)) => {
            let rest = blocks_go_on(source, next, before.push(step));
            let whole = source.take(offset) + rest;
            blocks_bounds(source, next, before.push(step));
            assert(whole[at] == source[at]);
            assert(whole[next] == source[next]);
            same_block_step(source, whole, at + 1, last_kind(before), offset);
            rest
        },
    }
}

/// A syntax error stands at the first place at which the text stops being the
/// beginning of a path: what precedes the offset can be continued to a path.
/// The offset lies within the text, between two characters of it.
pub proof fn text_before_an_error_can_be_continued(source: Seq<char>)
    requires
        parsed_path(source) is Err,
    ensures
        ({
            let offset = parsed_path(source)->Err_0.offset;
            &&& 0 <= offset <= source.len()
            &&& vstd::utf8::encode_utf8(source.take(offset)).len() == offset
            &&& exists|rest: Seq<char>| #[trigger] parsed_path(source.take(offset) + rest) is Ok
        }),
{
    error_offset_is_a_byte_offset(source);
    let offset = parsed_path(source)->Err_0.offset;
    let rest = continuation(source);
    assert(parsed_path(source.take(offset) + rest) is Ok);
}

proof fn continuation(source: Seq<char>) -> (rest: Seq<char>)
    requires
        parsed_path(source) is Err,
    ensures
        parsed_path(source.take(parsed_path(source)->Err_0.offset) + rest) is Ok,
{
    let offset = parsed_path(source)->Err_0.offset;
    if !stands(source, 0, '$') {
        let rest = seq!['$'];
        assert(source.take(0) + rest =~= rest);
        rest
    } else {
        sections_bounds(source, 1, Seq::empty());
        match sections_from(source, 1, Seq::empty()) {
            Err(_) => {
                let rest = sections_go_on(source, 1, Seq::empty());
                assert((source.take(offset) + rest)[0] == source[0]);
                rest
            },
            Ok((sections, middle)) => {
                blocks_bounds(source, middle, Seq::empty());
                match blocks_from(source, middle, Seq::empty()) {
                    Err(_) => {
                        let rest = blocks_go_on(source, middle, Seq::empty());
                        let whole = source.take(offset) + rest;
                        assert(whole[0] == source[0]);
                        assert(whole[middle] == source[middle]);
                        same_sections(source, whole, 1, Seq::empty(), offset);
                        rest
                    },
                    Ok((blocks, end)) => {
                        let rest = Seq::<char>::empty();
                        let whole = source.take(offset) + rest;
                        assert(whole[0] == source[0]);
                        if middle < end {
                            assert(whole[middle] == source[middle]);
                        }
                        same_sections(source, whole, 1, Seq::empty(), offset);
                        same_blocks(source, whole, middle, Seq::empty(), offset);
                        rest
                    },
                }
            },
        }
    }
}

} // verus!
