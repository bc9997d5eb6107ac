//! The source ranges that document nodes span.

use vstd::prelude::*;

use super::resolve::{with_descendants, DocumentNode, NodeSpec};
use crate::document::{Block, Section};
use crate::load_result::{ByteOffset, TextRange};

verus! {

/// The range that the parser reported for `block`.
pub open spec fn range_of(block: Block) -> TextRange {
    match block {
        Block::Paragraph(leaf) => leaf.location.range,
        Block::Quote(leaf) => leaf.location.range,
        Block::Code(leaf) => leaf.location.range,
        Block::Html(leaf) => leaf.location.range,
        Block::Break(leaf) => leaf.location.range,
        Block::List(list) => list.location.range,
    }
}

/// The larger of two offsets.
pub open spec fn later(left: usize, right: usize) -> usize {
    if left < right {
        right
    } else {
        left
    }
}

/// The furthest end among `floor` and the blocks.
pub open spec fn blocks_end(blocks: Seq<Block>, floor: usize) -> usize
    decreases blocks.len(),
{
    if blocks.len() == 0 {
        floor
    } else {
        later(blocks_end(blocks.drop_last(), floor), range_of(blocks.last()).end.0)
    }
}

/// The furthest end among `floor` and the sections.
pub open spec fn sections_end(sections: Seq<Section>, floor: usize) -> usize
    decreases sections,
{
    if sections.len() == 0 {
        floor
    } else {
        later(sections_end(sections.drop_last(), floor), section_end(sections.last()))
    }
}

/// The furthest end among a section's heading, its own preamble blocks, and
/// its descendant sections.
pub open spec fn section_end(section: Section) -> usize
    decreases section,
{
    sections_end(
        section.children@,
        blocks_end(section.preamble.blocks@, section.heading.location.range.end.0),
    )
}

/// The range of a section: from the start of its heading to the furthest end
/// in its subtree.
pub open spec fn extent_of_section(section: Section) -> TextRange {
    TextRange {
        start: section.heading.location.range.start,
        end: ByteOffset(section_end(section)),
    }
}

/// The range of a node's full content; the root does not know its own.
pub open spec fn extent_of(node: NodeSpec) -> Option<TextRange> {
    match node {
        NodeSpec::Root(_) => None,
        NodeSpec::Section(section) => Some(extent_of_section(section)),
        NodeSpec::Block(block) => Some(range_of(block)),
        NodeSpec::Item(item) => Some(item.location.range),
    }
}

fn max_offset(left: usize, right: usize) -> (largest: usize)
    ensures
        largest == later(left, right),
{
    if left < right {
        right
    } else {
        left
    }
}

fn block_range(block: &Block) -> (range: TextRange)
    ensures
        range == range_of(*block),
{
    match block {
        Block::Paragraph(leaf) => leaf.location.range,
        Block::Quote(leaf) => leaf.location.range,
        Block::Code(leaf) => leaf.location.range,
        Block::Html(leaf) => leaf.location.range,
        Block::Break(leaf) => leaf.location.range,
        Block::List(list) => list.location.range,
    }
}

fn section_extent(section: &Section) -> (range: TextRange)
    ensures
        range == extent_of_section(*section),
    decreases section,
{
    let heading = section.heading.location.range;
    let blocks = section.preamble.as_slice();
    let mut end: usize = heading.end.0;
    let mut at: usize = 0;
    while at < blocks.len()
        invariant
            at <= blocks@.len(),
            end == blocks_end(blocks@.take(at as int), heading.end.0),
        decreases blocks.len() - at,
    {
        assert(blocks@.take(at + 1).drop_last() =~= blocks@.take(at as int));
        end = max_offset(end, block_range(&blocks[at]).end.0);
        at += 1;
    }
    assert(blocks@.take(at as int) =~= blocks@);
    let ghost floor = end;
    let children = section.children.as_slice();
    let mut at: usize = 0;
    while at < children.len()
        invariant
            at <= children@.len(),
            children@ == section.children@,
            end == sections_end(children@.take(at as int), floor),
        decreases children.len() - at,
    {
        assert(children@.take(at + 1).drop_last() =~= children@.take(at as int));
        end = max_offset(end, section_extent(&children[at]).end.0);
        at += 1;
    }
    assert(children@.take(at as int) =~= children@);
    TextRange { start: heading.start, end: ByteOffset(end) }
}

impl<'d> DocumentNode<'d> {
    /// The half-open byte range of the node's full content, or `None` for the
    /// root.
    ///
    /// A block or item spans its parser-reported range. A section runs from
    /// the start of its heading to the furthest end among its heading, its own
    /// preamble blocks, and its descendant sections. That is a pure tree
    /// computation, so a section's extent excludes trailing blank lines before
    /// the next heading. The root's extent is the whole source, which the node
    /// does not know; a caller that needs it uses the source length.
    pub fn extent(&self) -> (range: Option<TextRange>)
        ensures
            range == extent_of(self@),
    {
        match self {
            DocumentNode::Root(_) => None,
            DocumentNode::Section(section) => Some(section_extent(section)),
            DocumentNode::Block(block) => Some(block_range(block)),
            DocumentNode::Item(item) => Some(item.location.range),
        }
    }
}

proof fn blocks_end_bounds(blocks: Seq<Block>, floor: usize)
    ensures
        floor <= blocks_end(blocks, floor),
        forall|at: int|
            0 <= at < blocks.len() ==> range_of(#[trigger] blocks[at]).end.0 <= blocks_end(
                blocks,
                floor,
            ),
        blocks_end(blocks, floor) == floor || exists|at: int|
            0 <= at < blocks.len() && blocks_end(blocks, floor) == range_of(
                #[trigger] blocks[at],
            ).end.0,
    decreases blocks.len(),
{
    if blocks.len() > 0 {
        let before = blocks.drop_last();
        blocks_end_bounds(before, floor);
        assert forall|at: int| 0 <= at < blocks.len() implies range_of(
            #[trigger] blocks[at],
        ).end.0 <= blocks_end(blocks, floor) by {
            if at < before.len() {
                assert(blocks[at] == before[at]);
            }
        }
        if blocks_end(before, floor) != floor {
            let at = choose|at: int|
                0 <= at < before.len() && blocks_end(before, floor) == range_of(
                    #[trigger] before[at],
                ).end.0;
            assert(blocks[at] == before[at]);
        }
        assert(blocks[blocks.len() - 1] == blocks.last());
    }
}

proof fn sections_end_bounds(sections: Seq<Section>, floor: usize)
    ensures
        floor <= sections_end(sections, floor),
        forall|at: int|
            0 <= at < with_descendants(sections).len() ==> section_end(
                #[trigger] with_descendants(sections)[at],
            ) <= sections_end(sections, floor),
        sections_end(sections, floor) == floor || exists|at: int|
            0 <= at < sections.len() && sections_end(sections, floor) == section_end(
                #[trigger] sections[at],
            ),
    decreases sections,
{
    if sections.len() > 0 {
        let before = sections.drop_last();
        let last = sections.last();
        let own = blocks_end(last.preamble.blocks@, last.heading.location.range.end.0);
        sections_end_bounds(before, floor);
        sections_end_bounds(last.children@, own);
        let head = with_descendants(before);
        let tail = with_descendants(last.children@);
        let whole = with_descendants(sections);
        assert(whole == head.push(last) + tail);
        assert(section_end(last) == sections_end(last.children@, own));
        assert(sections_end(sections, floor) == later(
            sections_end(before, floor),
            section_end(last),
        ));
        assert forall|at: int| 0 <= at < whole.len() implies section_end(#[trigger] whole[at])
            <= sections_end(sections, floor) by {
            if at < head.len() {
                assert(whole[at] == head[at]);
            } else if at == head.len() {
                assert(whole[at] == last);
            } else {
                assert(whole[at] == tail[at - head.len() - 1]);
            }
        }
        if sections_end(before, floor) != floor {
            let at = choose|at: int|
                0 <= at < before.len() && sections_end(before, floor) == section_end(
                    #[trigger] before[at],
                );
            assert(sections[at] == before[at]);
        }
        assert(sections[sections.len() - 1] == last);
    }
}

/// A section's extent covers its heading, its own blocks and the extents of
/// all sections below it, and ends where the furthest of them ends.
pub proof fn section_extent_spans_the_subtree(section: Section)
    ensures
        ({
            let end = extent_of_section(section).end.0;
            let below = with_descendants(section.children@);
            &&& extent_of_section(section).start == section.heading.location.range.start
            &&& section.heading.location.range.end.0 <= end
            &&& forall|at: int|
                0 <= at < section.preamble.blocks@.len() ==> range_of(
                    #[trigger] section.preamble.blocks@[at],
                ).end.0 <= end
            &&& forall|at: int|
                0 <= at < below.len() ==> extent_of_section(#[trigger] below[at]).end.0 <= end
            &&& {
                ||| end == section.heading.location.range.end.0
                ||| exists|at: int|
                    0 <= at < section.preamble.blocks@.len() && end == range_of(
                        #[trigger] section.preamble.blocks@[at],
                    ).end.0
                ||| exists|at: int|
                    0 <= at < section.children@.len() && end == extent_of_section(
                        #[trigger] section.children@[at],
                    ).end.0
            }
        }),
{
    let floor = section.heading.location.range.end.0;
    let own = blocks_end(section.preamble.blocks@, floor);
    blocks_end_bounds(section.preamble.blocks@, floor);
    sections_end_bounds(section.children@, own);
    let below = with_descendants(section.children@);
    let end = extent_of_section(section).end.0;
    assert forall|at: int| 0 <= at < below.len() implies extent_of_section(
        #[trigger] below[at],
    ).end.0 <= end by {
        assert(section_end(below[at]) <= sections_end(section.children@, own));
    }
}

} // verus!
