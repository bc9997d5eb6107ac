//! How the canonical spelling of a path differs from the one it was parsed
//! from.

use vstd::prelude::*;

use super::continuation::blocks_bounds;
use super::slug::{has_slug_form, is_slug_char};
use super::syntax::{
    block_step_at, block_step_bounds, blocks_from, expected_descendant_slug, expected_slug,
    in_class, index_at, keywords_differ, last_kind, optional_index_at, parsed_path, run_end,
    run_end_bounds, section_step_at, section_step_bounds, sections_from, slug_end,
    slug_end_bounds, slug_end_has_form, stands, CharClass,
};
use super::{
    block_spelling, blocks_spelling, index_spelling, keyword_of, optional_index_spelling,
    path_spelling, sections_spelling, step_spelling, BlockStep, StepSpec,
};
use crate::text::{
    decimal, find_either, find_either_bounds, find_either_is, is_digit, numeral_of_its_value,
};

verus! {

/// Where the block segment that starts at the beginning of `blocks` ends: at
/// the next `/`, or at the end of the text.
pub open spec fn segment_end(blocks: Seq<char>) -> int {
    find_either(blocks, '/', '/', 1)
}

/// The block segments of a path, with `[0]` behind each one that is written
/// without an index.
pub open spec fn with_indices(blocks: Seq<char>) -> Seq<char>
    decreases blocks.len(),
{
    if blocks.len() == 0 {
        Seq::empty()
    } else {
        proof {
            find_either_bounds(blocks, '/', '/', 1);
        }
        let segment = blocks.take(segment_end(blocks));
        let rest = with_indices(blocks.skip(segment_end(blocks)));
        if segment.last() == ']' {
            segment + rest
        } else {
            segment + seq!['[', '0', ']'] + rest
        }
    }
}

/// Whether every block segment of a path is written with an index.
pub open spec fn has_indices(blocks: Seq<char>) -> bool
    decreases blocks.len(),
{
    if blocks.len() == 0 {
        true
    } else {
        proof {
            find_either_bounds(blocks, '/', '/', 1);
        }
        blocks.take(segment_end(blocks)).last() == ']' && has_indices(
            blocks.skip(segment_end(blocks)),
        )
    }
}

/// Where the block segments of a spelling start.
pub open spec fn blocks_start(source: Seq<char>) -> int {
    find_either(source, '/', '/', 0)
}

proof fn with_indices_is_longer(blocks: Seq<char>)
    ensures
        with_indices(blocks).len() >= blocks.len(),
        with_indices(blocks) == blocks <==> has_indices(blocks),
        with_indices(blocks).len() == blocks.len() ==> has_indices(blocks),
    decreases blocks.len(),
{
    if blocks.len() > 0 {
        find_either_bounds(blocks, '/', '/', 1);
        let end = segment_end(blocks);
        with_indices_is_longer(blocks.skip(end));
        assert(blocks.take(end) + blocks.skip(end) =~= blocks);
    } else {
        assert(with_indices(blocks) =~= blocks);
    }
}

/// A text without a `/`.
spec fn slash_free(text: Seq<char>) -> bool {
    forall|at: int| 0 <= at < text.len() ==> #[trigger] text[at] != '/'
}

proof fn index_is_canonical(source: Seq<char>, from: int)
    requires
        0 < from <= source.len(),
        source[from - 1] == '[',
        index_at(source, from) is Ok,
    ensures
        ({
            let (index, end) = index_at(source, from)->Ok_0;
            let text = source.subrange(from - 1, end);
            &&& from < end <= source.len()
            &&& text == index_spelling(index)
            &&& slash_free(text)
            &&& source[end - 1] == ']'
        }),
{
    run_end_bounds(source, from, CharClass::Index);
    let end = run_end(source, from, CharClass::Index);
    let digits = source.subrange(from, end);
    assert forall|at: int| 0 <= at < digits.len() implies is_digit(#[trigger] digits[at]) by {
        assert(in_class(CharClass::Index, source[from + at]));
    }
    assert(digits[0] == source[from]);
    numeral_of_its_value(digits);
    let text = source.subrange(from - 1, end + 1);
    assert(text =~= seq!['['] + digits + seq![']']);
    assert forall|at: int| 0 <= at < text.len() implies #[trigger] text[at] != '/' by {
        if 0 < at < text.len() - 1 {
            assert(text[at] == digits[at - 1]);
        }
    }
}

proof fn optional_index_is_canonical(source: Seq<char>, from: int)
    requires
        0 <= from <= source.len(),
        optional_index_at(source, from) is Ok,
    ensures
        ({
            let (index, end) = optional_index_at(source, from)->Ok_0;
            let text = source.subrange(from, end);
            &&& from <= end <= source.len()
            &&& text == optional_index_spelling(index)
            &&& slash_free(text)
            &&& index is None ==> end == from
            &&& index is Some ==> from < end && source[end - 1] == ']'
        }),
{
    if stands(source, from, '[') {
        index_is_canonical(source, from + 1);
    } else {
        assert(source.subrange(from, from) =~= Seq::empty());
    }
}

proof fn slug_is_slash_free(slug: Seq<char>)
    requires
        has_slug_form(slug),
    ensures
        slash_free(slug),
{
    assert forall|at: int| 0 <= at < slug.len() implies #[trigger] slug[at] != '/' by {
        assert(is_slug_char(slug[at]) || slug[at] == '-');
    }
}

proof fn section_step_is_canonical(source: Seq<char>, at: int)
    requires
        0 <= at < source.len(),
        source[at] == '.',
        section_step_at(source, at + 1) is Ok,
    ensures
        ({
            let (step, next) = section_step_at(source, at + 1)->Ok_0;
            let text = source.subrange(at, next);
            &&& at < next <= source.len()
            &&& text == step_spelling(step)
            &&& slash_free(text)
        }),
{
    section_step_bounds(source, at + 1);
    let (step, next) = section_step_at(source, at + 1)->Ok_0;
    let text = source.subrange(at, next);
    if stands(source, at + 1, '[') {
        index_is_canonical(source, at + 2);
        let index = source.subrange(at + 1, next);
        assert(text =~= seq!['.'] + index);
    } else {
        let deep = stands(source, at + 1, '.');
        let from = if deep {
            at + 2
        } else {
            at + 1
        };
        let expected = if deep {
            expected_descendant_slug()
        } else {
            expected_slug()
        };
        slug_end_bounds(source, from, expected);
        slug_end_has_form(source, from, expected);
        let end = slug_end(source, from, expected)->Ok_0;
        let slug = source.subrange(from, end);
        slug_is_slash_free(slug);
        optional_index_is_canonical(source, end);
        let index = source.subrange(end, next);
        if deep {
            assert(text =~= seq!['.', '.'] + slug + index);
        } else {
            assert(text =~= seq!['.'] + slug + index);
        }
        assert forall|k: int| 0 <= k < text.len() implies #[trigger] text[k] != '/' by {
            assert(text[k] == source[at + k]);
            if from <= at + k < end {
                assert(slug[at + k - from] == source[at + k]);
            } else if end <= at + k {
                assert(index[at + k - end] == source[at + k]);
            }
        }
    }
}

proof fn sections_are_canonical(source: Seq<char>, at: int, before: Seq<StepSpec>)
    requires
        0 <= at <= source.len(),
        sections_from(source, at, before) is Ok,
    ensures
        ({
            let (steps, end) = sections_from(source, at, before)->Ok_0;
            let text = source.subrange(at, end);
            &&& at <= end <= source.len()
            &&& before.len() <= steps.len()
            &&& steps.take(before.len() as int) == before
            &&& text == sections_spelling(steps.skip(before.len() as int))
            &&& slash_free(text)
        }),
    decreases source.len() - at,
{
    let (steps, end) = sections_from(source, at, before)->Ok_0;
    if stands(source, at, '.') {
        section_step_is_canonical(source, at);
        let (step, next) = section_step_at(source, at + 1)->Ok_0;
        sections_are_canonical(source, next, before.push(step));
        let rest = steps.skip(before.len() as int);
        assert(steps.take(before.len() as int + 1)[before.len() as int] == step);
        assert(rest[0] == step);
        assert(rest.skip(1) =~= steps.skip(before.len() as int + 1));
        assert(steps.take(before.len() as int) =~= steps.take(before.len() as int + 1).take(
            before.len() as int,
        ));
        assert(before.push(step).take(before.len() as int) =~= before);
        let own = source.subrange(at, next);
        let others = source.subrange(next, end);
        let text = source.subrange(at, end);
        assert(text =~= own + others);
        assert forall|k: int| 0 <= k < text.len() implies #[trigger] text[k] != '/' by {
            if k < own.len() {
                assert(own[k] == text[k]);
            } else {
                assert(others[k - own.len()] == text[k]);
            }
        }
    } else {
        assert(source.subrange(at, at) =~= Seq::empty());
        assert(steps.skip(before.len() as int) =~= Seq::empty());
        assert(steps.take(before.len() as int) =~= before);
    }
}

proof fn blocks_are_completed(source: Seq<char>, at: int, before: Seq<BlockStep>)
    requires
        0 <= at <= source.len(),
        blocks_from(source, at, before) is Ok,
        blocks_from(source, at, before)->Ok_0.1 == source.len(),
    ensures
        ({
            let steps = blocks_from(source, at, before)->Ok_0.0;
            &&& before.len() <= steps.len()
            &&& steps.take(before.len() as int) == before
            &&& with_indices(source.skip(at)) == blocks_spelling(steps.skip(before.len() as int))
        }),
    decreases source.len() - at,
{
    let steps = blocks_from(source, at, before)->Ok_0.0;
    if stands(source, at, '/') {
        let previous = last_kind(before);
        block_step_bounds(source, at + 1, previous);
        let (step, next) = block_step_at(source, at + 1, previous)->Ok_0;
        blocks_are_completed(source, next, before.push(step));
        run_end_bounds(source, at + 1, CharClass::Keyword);
        let end = run_end(source, at + 1, CharClass::Keyword);
        let keyword = source.subrange(at + 1, end);
        optional_index_is_canonical(source, end);
        let (index, _) = optional_index_at(source, end)->Ok_0;
        let written = source.subrange(end, next);
        keywords_differ();
        assert(keyword_of(step.kind) == keyword);
        assert(keyword.len() > 0);
        let blocks = source.skip(at);
        let length = next - at;
        assert(next == source.len() || source[next] == '/');
        assert forall|k: int| 1 <= k < length implies (#[trigger] blocks[k]) != '/' by {
            assert(blocks[k] == source[at + k]);
            if at + k < end {
                assert(in_class(CharClass::Keyword, source[at + k]));
            } else {
                assert(written[at + k - end] == source[at + k]);
            }
        }
        if length < blocks.len() {
            assert(blocks[length] == source[next]);
        }
        find_either_is(blocks, '/', '/', 1, length);
        let segment = blocks.take(length);
        assert(segment =~= seq!['/'] + keyword + written);
        assert(blocks.skip(length) =~= source.skip(next));
        assert(segment.last() == source[next - 1]);
        if index is None {
            assert(in_class(CharClass::Keyword, source[end - 1]));
            assert(decimal(0) =~= seq!['0']);
            assert(index_spelling(0) =~= seq!['[', '0', ']']);
            assert(written =~= Seq::empty());
            assert(segment + seq!['[', '0', ']'] =~= block_spelling(step));
        } else {
            assert(segment =~= block_spelling(step));
        }
        let rest = steps.skip(before.len() as int);
        assert(steps.take(before.len() as int + 1)[before.len() as int] == step);
        assert(rest[0] == step);
        assert(rest.skip(1) =~= steps.skip(before.len() as int + 1));
        assert(steps.take(before.len() as int) =~= steps.take(before.len() as int + 1).take(
            before.len() as int,
        ));
        assert(before.push(step).take(before.len() as int) =~= before);
    } else {
        assert(source.skip(at) =~= Seq::empty());
        assert(steps.skip(before.len() as int) =~= Seq::empty());
        assert(steps.take(before.len() as int) =~= before);
    }
}

/// The canonical spelling of a parsed path is the text it was parsed from,
/// with `[0]` behind each block segment that is written without an index, and
/// nothing else changed. So a text is canonical if and only if every block
/// segment of it is written with an index.
pub proof fn canonical_spelling_only_adds_indices(source: Seq<char>)
    requires
        parsed_path(source) is Ok,
    ensures
        ({
            let spelling = path_spelling(parsed_path(source)->Ok_0);
            let start = blocks_start(source);
            &&& spelling == source.take(start) + with_indices(source.skip(start))
            &&& spelling == source <==> has_indices(source.skip(start))
        }),
{
    let (sections, middle) = sections_from(source, 1, Seq::empty())->Ok_0;
    sections_are_canonical(source, 1, Seq::empty());
    blocks_bounds(source, middle, Seq::empty());
    blocks_are_completed(source, middle, Seq::empty());
    let (blocks, end) = blocks_from(source, middle, Seq::empty())->Ok_0;
    assert(sections.skip(0) =~= sections);
    assert(blocks.skip(0) =~= blocks);
    let spelled = source.subrange(1, middle);
    assert forall|at: int| 0 <= at < middle implies (#[trigger] source[at]) != '/' by {
        if at > 0 {
            assert(spelled[at - 1] == source[at]);
        }
    }
    find_either_is(source, '/', '/', 0, middle);
    assert(source.take(middle) =~= seq!['$'] + spelled);
    let rest = source.skip(middle);
    with_indices_is_longer(rest);
    assert(source.take(middle) + rest =~= source);
    let spelling = path_spelling(parsed_path(source)->Ok_0);
    assert(spelling =~= source.take(middle) + with_indices(rest));
    if spelling == source {
        assert(with_indices(rest).len() == rest.len());
    }
}

} // verus!
