//! What headings are named, what nodes span, and what a failing path tells.

use vstd::prelude::*;

use super::extent::extent_of;
use super::resolve::{descend, place_blocks, reach, resolved, DocumentNode, NodeSpec};
use super::slug::{char_lowercase, combining_mark, lowered, nfkd, slug_of, slug_scan, slug_step};
use super::{BlockStep, DocumentPathError, PathSpec, StepSpec};
use crate::document::{Block, Document};

verus! {

/// Whether a slug keeps a character: an ASCII lower-case letter or digit.
pub open spec fn is_kept(character: char) -> bool {
    ('a' <= character && character <= 'z') || ('0' <= character && character <= '9')
}

/// The state of a scan that goes on over `chars`.
spec fn scanned(state: (Seq<char>, bool), chars: Seq<char>) -> (Seq<char>, bool)
    decreases chars.len(),
{
    if chars.len() == 0 {
        state
    } else {
        slug_step(scanned(state, chars.drop_last()), chars.last())
    }
}

proof fn scans_go_on(before: Seq<char>, after: Seq<char>)
    ensures
        slug_scan(before + after) == scanned(slug_scan(before), after),
    decreases after.len(),
{
    if after.len() == 0 {
        assert(before + after =~= before);
    } else {
        scans_go_on(before, after.drop_last());
        assert((before + after).drop_last() =~= before + after.drop_last());
    }
}

proof fn due_separators_are_set(slug: Seq<char>, after: Seq<char>)
    ensures
        ({
            let own = slug_scan(after).0;
            let state = scanned((slug, true), after);
            &&& own.len() == 0 ==> state == (slug, true)
            &&& own.len() > 0 && slug.len() == 0 ==> state == slug_scan(after)
            &&& own.len() > 0 && slug.len() > 0 ==> state == (
                slug + seq!['-'] + own,
                slug_scan(after).1,
            )
        }),
    decreases after.len(),
{
    if after.len() > 0 {
        let rest = after.drop_last();
        let last = after.last();
        due_separators_are_set(slug, rest);
        let own = slug_scan(rest).0;
        if is_kept(last) {
            if own.len() == 0 {
                assert(slug.push('-').push(last) =~= slug + seq!['-'] + slug_scan(after).0);
                assert(slug.push(last) =~= slug_scan(after).0 || slug.len() > 0);
            } else if slug.len() > 0 {
                let joined = slug + seq!['-'] + own;
                assert(joined.push(last) =~= slug + seq!['-'] + own.push(last));
                assert(joined.push('-').push(last) =~= slug + seq!['-'] + own.push('-').push(
                    last,
                ));
            }
        }
    }
}

proof fn gaps_make_a_separator_due(state: (Seq<char>, bool), gap: Seq<char>)
    requires
        forall|at: int| 0 <= at < gap.len() ==> !is_kept(#[trigger] gap[at]),
    ensures
        scanned(state, gap).0 == state.0,
        scanned(state, gap).1 == (state.1 || exists|at: int|
            0 <= at < gap.len() && !combining_mark(#[trigger] gap[at])),
    decreases gap.len(),
{
    if gap.len() > 0 {
        let rest = gap.drop_last();
        assert forall|at: int| 0 <= at < rest.len() implies !is_kept(#[trigger] rest[at]) by {
            assert(rest[at] == gap[at]);
        }
        gaps_make_a_separator_due(state, rest);
        assert(!is_kept(gap[gap.len() - 1]));
        if exists|at: int| 0 <= at < rest.len() && !combining_mark(#[trigger] rest[at]) {
            let at = choose|at: int| 0 <= at < rest.len() && !combining_mark(#[trigger] rest[at]);
            assert(!combining_mark(gap[at]));
        }
        if !combining_mark(gap.last()) {
            assert(!combining_mark(gap[gap.len() - 1]));
        }
        if exists|at: int| 0 <= at < gap.len() && !combining_mark(#[trigger] gap[at]) {
            let at = choose|at: int| 0 <= at < gap.len() && !combining_mark(#[trigger] gap[at]);
            if at < rest.len() {
                assert(!combining_mark(rest[at]));
            }
        }
    }
}

/// What stands between kept characters becomes one hyphen, however long it is,
/// and nothing at either end.
pub proof fn gaps_become_one_hyphen(before: Seq<char>, gap: Seq<char>, after: Seq<char>)
    requires
        forall|at: int| 0 <= at < gap.len() ==> !is_kept(#[trigger] gap[at]),
        exists|at: int| 0 <= at < gap.len() && !combining_mark(#[trigger] gap[at]),
    ensures
        ({
            let left = slug_scan(before).0;
            let right = slug_scan(after).0;
            slug_scan(before + gap + after).0 == if left.len() == 0 {
                right
            } else if right.len() == 0 {
                left
            } else {
                left + "-"@ + right
            }
        }),
{
    reveal_strlit("-");
    assert("-"@ =~= seq!['-']);
    scans_go_on(before, gap);
    scans_go_on(before + gap, after);
    gaps_make_a_separator_due(slug_scan(before), gap);
    due_separators_are_set(slug_scan(before).0, after);
}

/// A combining mark leaves no trace.
pub proof fn combining_marks_leave_no_trace(before: Seq<char>, mark: char, after: Seq<char>)
    requires
        !is_kept(mark),
        combining_mark(mark),
    ensures
        slug_scan(before + seq![mark] + after) == slug_scan(before + after),
{
    scans_go_on(before, seq![mark]);
    scans_go_on(before + seq![mark], after);
    scans_go_on(before, after);
    assert(seq![mark].drop_last() =~= Seq::empty());
    assert(scanned(slug_scan(before), seq![mark].drop_last()) == slug_scan(before));
    assert(scanned(slug_scan(before), seq![mark]) == slug_scan(before));
}

/// Kept characters stay, in their order.
pub proof fn kept_characters_stay(word: Seq<char>)
    requires
        forall|at: int| 0 <= at < word.len() ==> is_kept(#[trigger] word[at]),
    ensures
        slug_scan(word) == (word, false),
    decreases word.len(),
{
    if word.len() > 0 {
        let rest = word.drop_last();
        assert forall|at: int| 0 <= at < rest.len() implies is_kept(#[trigger] rest[at]) by {
            assert(rest[at] == word[at]);
        }
        kept_characters_stay(rest);
        assert(is_kept(word[word.len() - 1]));
        assert(rest.push(word.last()) =~= word);
    } else {
        assert(word =~= Seq::empty());
    }
}

/// A heading is named by what is kept of its decomposed text, every character
/// of which is lower-cased in its place; a heading of which nothing is kept has
/// no name.
pub proof fn headings_are_named_by_their_lowered_text(
    text: Seq<char>,
    one: Seq<char>,
    two: Seq<char>,
    character: char,
)
    ensures
        slug_of(text) is None <==> slug_scan(lowered(nfkd(text))).0.len() == 0,
        slug_of(text) matches Some(slug) ==> slug == slug_scan(lowered(nfkd(text))).0,
        lowered(one + two) == lowered(one) + lowered(two),
        lowered(seq![character]) == char_lowercase(character),
    decreases two.len(),
{
    assert(seq![character].drop_last() =~= Seq::empty());
    assert(lowered(seq![character].drop_last()) =~= Seq::empty());
    assert(lowered(seq![character]) =~= char_lowercase(character));
    if two.len() == 0 {
        assert(one + two =~= one);
        assert(lowered(two) =~= Seq::empty());
        assert(lowered(one) + lowered(two) =~= lowered(one));
    } else {
        headings_are_named_by_their_lowered_text(text, one, two.drop_last(), character);
        assert((one + two).drop_last() =~= one + two.drop_last());
        assert((one + two).last() == two.last());
        assert(lowered(one) + lowered(two.drop_last()) + char_lowercase(two.last()) =~= lowered(one)
            + lowered(two));
    }
}

/// A block and an item span their own range, and a section starts where its
/// heading does; the root does not know what it spans.
pub proof fn nodes_span_their_own_range(node: DocumentNode<'_>)
    ensures
        match node {
            DocumentNode::Root(_) => extent_of(node@) is None,
            DocumentNode::Section(section) => extent_of(node@) matches Some(range) && range.start
                == section.heading.location.range.start,
            DocumentNode::Item(item) => extent_of(node@) == Some(item.location.range),
            DocumentNode::Block(block) => extent_of(node@) == Some(
                match *block {
                    Block::Paragraph(leaf) => leaf.location.range,
                    Block::List(list) => list.location.range,
                    Block::Quote(leaf) => leaf.location.range,
                    Block::Code(leaf) => leaf.location.range,
                    Block::Html(leaf) => leaf.location.range,
                    Block::Break(leaf) => leaf.location.range,
                },
            ),
        },
{
}

/// The first `count` steps of a path.
pub open spec fn leading(path: PathSpec, count: int) -> PathSpec {
    if count <= path.sections.len() {
        PathSpec { sections: path.sections.take(count), blocks: Seq::empty() }
    } else {
        PathSpec {
            sections: path.sections,
            blocks: path.blocks.take(count - path.sections.len()),
        }
    }
}

/// How many steps an error says were resolved.
pub open spec fn steps_of(error: DocumentPathError) -> usize {
    match error {
        DocumentPathError::Unresolved { resolved_steps } => resolved_steps,
        DocumentPathError::Ambiguous { resolved_steps, .. } => resolved_steps,
    }
}

proof fn failing_sections_are_counted(document: Document, steps: Seq<StepSpec>)
    requires
        steps.len() <= usize::MAX,
    ensures
        reach(document, steps) matches Err(error) ==> {
            let count = steps_of(error) as int;
            &&& count < steps.len()
            &&& reach(document, steps.take(count)) is Ok
            &&& reach(document, steps.take(count + 1)) is Err
        },
    decreases steps.len(),
{
    if reach(document, steps) is Err && steps.len() > 0 {
        let before = steps.drop_last();
        failing_sections_are_counted(document, before);
        if let Err(error) = reach(document, before) {
            let count = steps_of(error) as int;
            assert(steps.take(count) =~= before.take(count));
            assert(steps.take(count + 1) =~= before.take(count + 1));
        } else {
            assert(steps.take(steps.len() - 1) =~= before);
            assert(steps.take(steps.len() as int) =~= steps);
        }
    }
}

proof fn failing_blocks_are_counted(
    blocks: Seq<Block>,
    steps: Seq<BlockStep>,
    resolved_steps: nat,
)
    requires
        steps.len() > 0,
        resolved_steps + steps.len() <= usize::MAX,
    ensures
        descend(blocks, steps, resolved_steps) matches Err(error) ==> {
            let count = steps_of(error) - resolved_steps;
            &&& 0 <= count < steps.len()
            &&& count == 0 || descend(blocks, steps.take(count), resolved_steps) is Ok
            &&& descend(blocks, steps.take(count + 1), resolved_steps) is Err
        },
    decreases steps.len(),
{
    if steps.len() == 1 {
        assert(steps.take(1) =~= steps);
    } else if descend(blocks, steps, resolved_steps) is Err {
        let before = steps.drop_last();
        failing_blocks_are_counted(blocks, before, resolved_steps);
        if let Err(error) = descend(blocks, before, resolved_steps) {
            let count = steps_of(error) - resolved_steps;
            assert(steps.take(count) =~= before.take(count));
            assert(steps.take(count + 1) =~= before.take(count + 1));
        } else {
            assert(steps.take(steps.len() - 1) =~= before);
            assert(steps.take(steps.len() as int) =~= steps);
        }
    }
}

/// A path that does not resolve tells how many of its steps do: as far as they
/// go it resolves, and one step further it does not.
pub proof fn failures_tell_how_many_steps_resolve(
    document: Document,
    path: PathSpec,
    error: DocumentPathError,
)
    requires
        path.sections.len() + path.blocks.len() <= usize::MAX,
        resolved(document, path) == Err::<NodeSpec, DocumentPathError>(error),
    ensures
        steps_of(error) < path.sections.len() + path.blocks.len(),
        resolved(document, leading(path, steps_of(error) as int)) is Ok,
        resolved(document, leading(path, steps_of(error) + 1)) is Err,
{
    failing_sections_are_counted(document, path.sections);
    if let Ok(place) = reach(document, path.sections) {
        failing_blocks_are_counted(place_blocks(place), path.blocks, path.sections.len());
        let count = steps_of(error) - path.sections.len();
        if count == 0 {
            assert(path.sections.take(path.sections.len() as int) =~= path.sections);
        }
    }
}

} // verus!
