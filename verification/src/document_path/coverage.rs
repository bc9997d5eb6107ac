//! What the enumeration of a document covers: every addressable node once,
//! each under a path of its own.

use vstd::prelude::*;

use super::enumerate::{
    block_entries, canonical_step, entries, entries_within, last_block_path, of_kind_is_shorter,
    root_path, section_entries, with_slug_prefix, with_step,
};
use super::resolve::{
    descend, of_kind, place_blocks, place_children, reach, resolved, step_into,
    with_descendants, with_slug, NodeSpec, Place,
};
use super::slug::slug_of;
use super::{kind_of, BlockPathKind, BlockStep, PathSpec, StepSpec};
use crate::document::{Block, Document, ListItem, Section};

verus! {

/// The items of `block`, if it is a list.
pub open spec fn item_nodes(block: Block) -> Seq<NodeSpec> {
    match block {
        Block::List(list) => list.items@.map_values(|item: ListItem| NodeSpec::Item(item)),
        _ => Seq::empty(),
    }
}

/// Blocks, each followed by its items.
pub open spec fn block_nodes(blocks: Seq<Block>) -> Seq<NodeSpec>
    decreases blocks.len(),
{
    if blocks.len() == 0 {
        Seq::empty()
    } else {
        block_nodes(blocks.drop_last()).push(NodeSpec::Block(blocks.last())) + item_nodes(
            blocks.last(),
        )
    }
}

/// Sections, each followed by its blocks and by the sections below it.
pub open spec fn section_nodes(sections: Seq<Section>) -> Seq<NodeSpec>
    decreases sections,
{
    if sections.len() == 0 {
        Seq::empty()
    } else {
        section_nodes(sections.drop_last()).push(NodeSpec::Section(sections.last())) + block_nodes(
            sections.last().preamble.blocks@,
        ) + section_nodes(sections.last().children@)
    }
}

/// The addressable nodes of a document, in document order. A title that is
/// merged into the root is no node of its own.
pub open spec fn document_nodes(document: Document) -> Seq<NodeSpec> {
    let root = Place::Root(document);
    seq![NodeSpec::Root(document)] + block_nodes(place_blocks(root)) + section_nodes(
        place_children(root),
    )
}

/// The nodes of a list of paths and nodes.
pub open spec fn listed_nodes(listed: Seq<(PathSpec, NodeSpec)>) -> Seq<NodeSpec> {
    listed.map_values(|entry: (PathSpec, NodeSpec)| entry.1)
}

proof fn blocks_are_listed(parent: PathSpec, blocks: Seq<Block>)
    ensures
        listed_nodes(block_entries(parent, blocks)) == block_nodes(blocks),
    decreases blocks.len(),
{
    if blocks.len() > 0 {
        blocks_are_listed(parent, blocks.drop_last());
        let path = last_block_path(parent, blocks);
        assert(listed_nodes(entries_within(path, blocks.last())) =~= item_nodes(blocks.last()));
        assert(listed_nodes(block_entries(parent, blocks)) =~= block_nodes(blocks));
    } else {
        assert(listed_nodes(block_entries(parent, blocks)) =~= block_nodes(blocks));
    }
}

proof fn sections_are_listed(parent: PathSpec, siblings: Seq<Section>, count: int)
    requires
        0 <= count <= siblings.len(),
    ensures
        listed_nodes(section_entries(parent, siblings, count)) == section_nodes(
            siblings.take(count),
        ),
    decreases siblings, count,
{
    let taken = siblings.take(count);
    if count > 0 {
        let section = siblings[count - 1];
        let path = with_step(parent, canonical_step(siblings, count - 1));
        sections_are_listed(parent, siblings, count - 1);
        blocks_are_listed(path, section.preamble.blocks@);
        sections_are_listed(path, section.children@, section.children@.len() as int);
        assert(section.children@.take(section.children@.len() as int) =~= section.children@);
        assert(taken.drop_last() =~= siblings.take(count - 1));
        assert(taken.last() == section);
    }
    assert(listed_nodes(section_entries(parent, siblings, count)) =~= section_nodes(taken));
}

/// The enumeration starts with the root, and lists every addressable node of
/// the document exactly once, in document order.
pub proof fn enumeration_lists_every_node_once(document: Document)
    ensures
        entries(document).len() > 0,
        entries(document)[0] == (root_path(), NodeSpec::Root(document)),
        listed_nodes(entries(document)) == document_nodes(document),
{
    let root = Place::Root(document);
    let children = place_children(root);
    blocks_are_listed(root_path(), place_blocks(root));
    sections_are_listed(root_path(), children, children.len() as int);
    assert(children.take(children.len() as int) =~= children);
    assert(listed_nodes(entries(document)) =~= document_nodes(document));
}

/// No two entries have the same path.
pub open spec fn paths_differ(listed: Seq<(PathSpec, NodeSpec)>) -> bool {
    forall|one: int, two: int|
        0 <= one < two < listed.len() ==> (#[trigger] listed[one]).0 != (#[trigger] listed[two]).0
}

spec fn apart(head: Seq<(PathSpec, NodeSpec)>, tail: Seq<(PathSpec, NodeSpec)>) -> bool {
    forall|one: int, two: int|
        0 <= one < head.len() && 0 <= two < tail.len() ==> (#[trigger] head[one]).0
            != (#[trigger] tail[two]).0
}

proof fn paths_differ_joined(head: Seq<(PathSpec, NodeSpec)>, tail: Seq<(PathSpec, NodeSpec)>)
    requires
        paths_differ(head),
        paths_differ(tail),
        apart(head, tail),
    ensures
        paths_differ(head + tail),
{
    let whole = head + tail;
    assert forall|one: int, two: int| 0 <= one < two < whole.len() implies (#[trigger] whole[one]).0
        != (#[trigger] whole[two]).0 by {
        if two < head.len() {
            assert(whole[one] == head[one] && whole[two] == head[two]);
        } else if one >= head.len() {
            assert(whole[one] == tail[one - head.len()]);
            assert(whole[two] == tail[two - head.len()]);
        } else {
            assert(whole[one] == head[one]);
            assert(whole[two] == tail[two - head.len()]);
        }
    }
}

/// The path of one of `blocks`, or of an item of one of them, below `parent`.
spec fn is_block_path(path: PathSpec, parent: PathSpec, blocks: Seq<Block>) -> bool {
    &&& path.sections == parent.sections
    &&& path.blocks.len() > 0
    &&& path.blocks[0].index < of_kind(blocks, path.blocks[0].kind).len()
}

proof fn block_paths(parent: PathSpec, blocks: Seq<Block>)
    requires
        parent.blocks.len() == 0,
        blocks.len() <= usize::MAX,
    ensures
        forall|at: int|
            0 <= at < block_entries(parent, blocks).len() ==> is_block_path(
                (#[trigger] block_entries(parent, blocks)[at]).0,
                parent,
                blocks,
            ),
        paths_differ(block_entries(parent, blocks)),
    decreases blocks.len(),
{
    if blocks.len() > 0 {
        let shorter = blocks.drop_last();
        block_paths(parent, shorter);
        let kind = kind_of(blocks.last());
        let path = last_block_path(parent, blocks);
        of_kind_is_shorter(shorter, kind);
        let index = of_kind(shorter, kind).len();
        let step = BlockStep { kind, index: index as usize };
        assert(path.blocks =~= seq![step]);
        let before = block_entries(parent, shorter);
        let own = seq![(path, NodeSpec::Block(blocks.last()))];
        let within = entries_within(path, blocks.last());
        assert forall|at: int| 0 <= at < within.len() implies {
            let inner = (#[trigger] within[at]).0;
            &&& inner.sections == parent.sections
            &&& inner.blocks == seq![step, BlockStep {
                kind: BlockPathKind::Item,
                index: at as usize,
            }]
        } by {
            let inner = within[at].0;
            assert(inner.blocks =~= seq![step, BlockStep {
                kind: BlockPathKind::Item,
                index: at as usize,
            }]);
        }
        if let Block::List(list) = blocks.last() {
            assert(list.items.len() == list.items@.len());
        }
        assert forall|one: int, two: int| 0 <= one < two < within.len() implies (#[trigger] within[one]).0
            != (#[trigger] within[two]).0 by {
            assert(within[one].0.blocks[1].index == one as usize);
            assert(within[two].0.blocks[1].index == two as usize);
        }
        assert forall|one: int, two: int|
            0 <= one < own.len() && 0 <= two < within.len() implies (#[trigger] own[one]).0
            != (#[trigger] within[two]).0 by {
            assert(within[two].0.blocks.len() == 2);
        }
        paths_differ_joined(own, within);
        let last = own + within;
        assert forall|at: int| 0 <= at < last.len() implies (#[trigger] last[at]).0.sections
            == parent.sections && last[at].0.blocks.len() > 0 && last[at].0.blocks[0] == step by {
            if at > 0 {
                assert(last[at] == within[at - 1]);
            }
        }
        assert forall|one: int, two: int|
            0 <= one < before.len() && 0 <= two < last.len() implies (#[trigger] before[one]).0
            != (#[trigger] last[two]).0 by {
            assert(is_block_path(before[one].0, parent, shorter));
            assert(last[two].0.blocks[0] == step);
        }
        paths_differ_joined(before, last);
        let all = block_entries(parent, blocks);
        assert(all =~= before + last);
        assert forall|at: int| 0 <= at < all.len() implies is_block_path(
            (#[trigger] all[at]).0,
            parent,
            blocks,
        ) by {
            if at < before.len() {
                assert(all[at] == before[at]);
                assert(is_block_path(before[at].0, parent, shorter));
            } else {
                assert(all[at] == last[at - before.len()]);
            }
        }
    }
}

/// Two siblings are named by two steps.
proof fn canonical_steps_differ(siblings: Seq<Section>, one: int, two: int)
    requires
        0 <= one < two < siblings.len() <= usize::MAX,
    ensures
        canonical_step(siblings, one) != canonical_step(siblings, two),
{
    if let Some(slug) = slug_of(siblings[one].heading.text@) {
        if slug_of(siblings[two].heading.text@) == Some(slug) {
            let earlier = siblings.take(two);
            with_slug_prefix(earlier, slug, one + 1);
            assert(earlier.take(one + 1) =~= siblings.take(one + 1));
            assert(siblings.take(one + 1).drop_last() =~= siblings.take(one));
            with_slug_prefix(siblings, slug, two + 1);
            assert(siblings.take(two + 1).drop_last() =~= siblings.take(two));
        }
    }
}

/// A path below `parent` that goes on with the step of one of the first
/// `count` siblings.
spec fn is_section_path(path: PathSpec, parent: PathSpec, siblings: Seq<Section>, count: int) -> bool {
    &&& path.sections.len() > parent.sections.len()
    &&& exists|at: int|
        0 <= at < count && path.sections[parent.sections.len() as int]
            == #[trigger] canonical_step(siblings, at)
}

proof fn section_paths(parent: PathSpec, siblings: Seq<Section>, count: int)
    requires
        parent.blocks.len() == 0,
        0 <= count <= siblings.len() <= usize::MAX,
    ensures
        forall|at: int|
            0 <= at < section_entries(parent, siblings, count).len() ==> is_section_path(
                (#[trigger] section_entries(parent, siblings, count)[at]).0,
                parent,
                siblings,
                count,
            ) && section_entries(parent, siblings, count)[at].0.sections.take(
                parent.sections.len() as int,
            ) == parent.sections,
        paths_differ(section_entries(parent, siblings, count)),
    decreases siblings, count,
{
    if count > 0 {
        section_paths(parent, siblings, count - 1);
        let depth = parent.sections.len() as int;
        let section = siblings[count - 1];
        let step = canonical_step(siblings, count - 1);
        let path = with_step(parent, step);
        let before = section_entries(parent, siblings, count - 1);
        let own = seq![(path, NodeSpec::Section(section))];
        let blocks = block_entries(path, section.preamble.blocks@);
        let below = section_entries(path, section.children@, section.children@.len() as int);
        assert(section.preamble.blocks.len() == section.preamble.blocks@.len());
        block_paths(path, section.preamble.blocks@);
        assert(section.children.len() == section.children@.len());
        section_paths(path, section.children@, section.children@.len() as int);
        assert forall|one: int, two: int|
            0 <= one < own.len() && 0 <= two < blocks.len() implies (#[trigger] own[one]).0
            != (#[trigger] blocks[two]).0 by {
            assert(is_block_path(blocks[two].0, path, section.preamble.blocks@));
        }
        paths_differ_joined(own, blocks);
        let here = own + blocks;
        assert forall|at: int| 0 <= at < here.len() implies (#[trigger] here[at]).0.sections
            == path.sections by {
            if at > 0 {
                assert(here[at] == blocks[at - 1]);
                assert(is_block_path(blocks[at - 1].0, path, section.preamble.blocks@));
            }
        }
        assert forall|one: int, two: int|
            0 <= one < here.len() && 0 <= two < below.len() implies (#[trigger] here[one]).0
            != (#[trigger] below[two]).0 by {
            assert(here[one].0.sections == path.sections);
            assert(below[two].0.sections.len() > path.sections.len());
        }
        paths_differ_joined(here, below);
        let last = here + below;
        assert forall|at: int| 0 <= at < last.len() implies (#[trigger] last[at]).0.sections.len()
            > depth && last[at].0.sections[depth] == step && last[at].0.sections.take(depth)
            == parent.sections by {
            let sections = last[at].0.sections;
            if at < here.len() {
                assert(last[at] == here[at]);
                assert(sections.take(depth) =~= parent.sections);
            } else {
                assert(last[at] == below[at - here.len()]);
                let kept = sections.take(path.sections.len() as int);
                assert(kept == path.sections);
                assert(sections[depth] == kept[depth]);
                assert(sections.take(depth) =~= kept.take(depth));
                assert(path.sections.take(depth) =~= parent.sections);
            }
        }
        assert forall|one: int, two: int|
            0 <= one < before.len() && 0 <= two < last.len() implies (#[trigger] before[one]).0
            != (#[trigger] last[two]).0 by {
            assert(is_section_path(before[one].0, parent, siblings, count - 1));
            let at = choose|at: int|
                0 <= at < count - 1 && before[one].0.sections[depth] == #[trigger] canonical_step(
                    siblings,
                    at,
                );
            canonical_steps_differ(siblings, at, count - 1);
            assert(last[two].0.sections[depth] == step);
        }
        paths_differ_joined(before, last);
        let all = section_entries(parent, siblings, count);
        assert(all =~= before + last);
        assert forall|at: int| 0 <= at < all.len() implies is_section_path(
            (#[trigger] all[at]).0,
            parent,
            siblings,
            count,
        ) && all[at].0.sections.take(depth) == parent.sections by {
            if at < before.len() {
                assert(all[at] == before[at]);
                assert(is_section_path(before[at].0, parent, siblings, count - 1));
            } else {
                assert(all[at] == last[at - before.len()]);
                assert(all[at].0.sections[depth] == canonical_step(siblings, count - 1));
            }
        }
    }
}

/// The enumeration gives no path to two nodes.
pub proof fn enumerated_paths_differ(document: Document)
    requires
        place_blocks(Place::Root(document)).len() <= usize::MAX,
    ensures
        paths_differ(entries(document)),
{
    let root = Place::Root(document);
    let children = place_children(root);
    assert(document.sections.len() == document.sections@.len());
    assert(document.sections@[0].children.len() == document.sections@[0].children@.len());
    let own = seq![(root_path(), NodeSpec::Root(document))];
    let blocks = block_entries(root_path(), place_blocks(root));
    let below = section_entries(root_path(), children, children.len() as int);
    block_paths(root_path(), place_blocks(root));
    section_paths(root_path(), children, children.len() as int);
    assert forall|one: int, two: int|
        0 <= one < own.len() && 0 <= two < blocks.len() implies (#[trigger] own[one]).0
        != (#[trigger] blocks[two]).0 by {
        assert(is_block_path(blocks[two].0, root_path(), place_blocks(root)));
    }
    paths_differ_joined(own, blocks);
    let here = own + blocks;
    assert forall|one: int, two: int|
        0 <= one < here.len() && 0 <= two < below.len() implies (#[trigger] here[one]).0
        != (#[trigger] below[two]).0 by {
        if one > 0 {
            assert(here[one] == blocks[one - 1]);
            assert(is_block_path(blocks[one - 1].0, root_path(), place_blocks(root)));
        }
        assert(is_section_path(
            below[two].0,
            root_path(),
            children,
            children.len() as int,
        ));
    }
    paths_differ_joined(here, below);
}

proof fn block_is_a_node(blocks: Seq<Block>, at: int)
    requires
        0 <= at < blocks.len(),
    ensures
        block_nodes(blocks).contains(NodeSpec::Block(blocks[at])),
        forall|item: int|
            0 <= item < item_nodes(blocks[at]).len() ==> block_nodes(blocks).contains(
                #[trigger] item_nodes(blocks[at])[item],
            ),
    decreases blocks.len(),
{
    let shorter = block_nodes(blocks.drop_last());
    let items = item_nodes(blocks.last());
    let all = block_nodes(blocks);
    if at == blocks.len() - 1 {
        assert(all[shorter.len() as int] == NodeSpec::Block(blocks[at]));
        assert forall|item: int| 0 <= item < items.len() implies all.contains(
            #[trigger] items[item],
        ) by {
            assert(all[shorter.len() + 1 + item] == items[item]);
        }
    } else {
        block_is_a_node(blocks.drop_last(), at);
        assert(blocks.drop_last()[at] == blocks[at]);
        assert forall|node: NodeSpec| #[trigger] shorter.contains(node) implies all.contains(node) by {
            let k = choose|k: int| 0 <= k < shorter.len() && shorter[k] == node;
            assert(all[k] == node);
        }
    }
}

proof fn selected_blocks_are_blocks(blocks: Seq<Block>, kind: BlockPathKind, index: int) -> (at: int)
    requires
        0 <= index < of_kind(blocks, kind).len(),
    ensures
        0 <= at < blocks.len(),
        blocks[at] == of_kind(blocks, kind)[index],
    decreases blocks.len(),
{
    let before = of_kind(blocks.drop_last(), kind);
    if index < before.len() {
        selected_blocks_are_blocks(blocks.drop_last(), kind, index)
    } else {
        blocks.len() - 1
    }
}

proof fn descending_finds_nodes(blocks: Seq<Block>, steps: Seq<BlockStep>, resolved_steps: nat)
    requires
        descend(blocks, steps, resolved_steps) is Ok,
    ensures
        block_nodes(blocks).contains(descend(blocks, steps, resolved_steps)->Ok_0),
    decreases steps.len(),
{
    let step = steps.last();
    if steps.len() <= 1 {
        let at = selected_blocks_are_blocks(blocks, step.kind, step.index as int);
        block_is_a_node(blocks, at);
    } else {
        let shorter = steps.drop_last();
        if shorter.len() > 1 {
            assert(descend(blocks, shorter, resolved_steps)->Ok_0 is Item);
            assert(false);
        }
        let first = shorter.last();
        let at = selected_blocks_are_blocks(blocks, first.kind, first.index as int);
        block_is_a_node(blocks, at);
        if let Block::List(list) = blocks[at] {
            assert(item_nodes(blocks[at])[step.index as int] == NodeSpec::Item(
                list.items@[step.index as int],
            ));
        }
    }
}

/// All nodes of `inner` are nodes of `outer`.
spec fn holds_all(outer: Seq<NodeSpec>, inner: Seq<NodeSpec>) -> bool {
    forall|node: NodeSpec| #[trigger] inner.contains(node) ==> outer.contains(node)
}

proof fn parts_are_held(first: Seq<NodeSpec>, second: Seq<NodeSpec>, third: Seq<NodeSpec>)
    ensures
        holds_all(first + second + third, first),
        holds_all(first + second + third, second),
        holds_all(first + second + third, third),
{
    let whole = first + second + third;
    assert forall|node: NodeSpec| #[trigger] first.contains(node) implies whole.contains(node) by {
        let k = choose|k: int| 0 <= k < first.len() && first[k] == node;
        assert(whole[k] == node);
    }
    assert forall|node: NodeSpec| #[trigger] second.contains(node) implies whole.contains(node) by {
        let k = choose|k: int| 0 <= k < second.len() && second[k] == node;
        assert(whole[first.len() + k] == node);
    }
    assert forall|node: NodeSpec| #[trigger] third.contains(node) implies whole.contains(node) by {
        let k = choose|k: int| 0 <= k < third.len() && third[k] == node;
        assert(whole[first.len() + second.len() + k] == node);
    }
}

/// A section among `sections` or below them is a node, with its blocks and
/// everything below it.
spec fn is_covered(nodes: Seq<NodeSpec>, section: Section) -> bool {
    &&& nodes.contains(NodeSpec::Section(section))
    &&& holds_all(nodes, block_nodes(section.preamble.blocks@))
    &&& holds_all(nodes, section_nodes(section.children@))
}

proof fn section_is_covered(sections: Seq<Section>, at: int)
    requires
        0 <= at < sections.len(),
    ensures
        is_covered(section_nodes(sections), sections[at]),
    decreases sections.len(),
{
    let last = sections.last();
    let shorter = section_nodes(sections.drop_last());
    let head = shorter.push(NodeSpec::Section(last));
    parts_are_held(head, block_nodes(last.preamble.blocks@), section_nodes(last.children@));
    if at == sections.len() - 1 {
        assert(head[shorter.len() as int] == NodeSpec::Section(last));
        assert(head.contains(NodeSpec::Section(last)));
    } else {
        section_is_covered(sections.drop_last(), at);
        assert(sections.drop_last()[at] == sections[at]);
        assert forall|node: NodeSpec| #[trigger] shorter.contains(node) implies head.contains(node) by {
            let k = choose|k: int| 0 <= k < shorter.len() && shorter[k] == node;
            assert(head[k] == node);
        }
    }
}

proof fn descendant_is_covered(sections: Seq<Section>, at: int)
    requires
        0 <= at < with_descendants(sections).len(),
    ensures
        is_covered(section_nodes(sections), with_descendants(sections)[at]),
    decreases sections,
{
    let last = sections.last();
    let earlier = with_descendants(sections.drop_last());
    let shorter = section_nodes(sections.drop_last());
    let nodes = section_nodes(sections);
    let head = shorter.push(NodeSpec::Section(last));
    parts_are_held(head, block_nodes(last.preamble.blocks@), section_nodes(last.children@));
    if at < earlier.len() {
        descendant_is_covered(sections.drop_last(), at);
        assert forall|node: NodeSpec| #[trigger] shorter.contains(node) implies head.contains(node) by {
            let k = choose|k: int| 0 <= k < shorter.len() && shorter[k] == node;
            assert(head[k] == node);
        }
    } else if at == earlier.len() {
        section_is_covered(sections, sections.len() - 1);
    } else {
        descendant_is_covered(last.children@, at - earlier.len() - 1);
    }
}

proof fn selected_sections_are_sections(sections: Seq<Section>, slug: Seq<char>, index: int) -> (at:
    int)
    requires
        0 <= index < with_slug(sections, slug).len(),
    ensures
        0 <= at < sections.len(),
        sections[at] == with_slug(sections, slug)[index],
    decreases sections.len(),
{
    let before = with_slug(sections.drop_last(), slug);
    if index < before.len() {
        selected_sections_are_sections(sections.drop_last(), slug, index)
    } else {
        sections.len() - 1
    }
}

proof fn stepping_stays_covered(place: Place, step: StepSpec, resolved_steps: nat)
    requires
        step_into(place, step, resolved_steps) is Ok,
    ensures
        is_covered(
            section_nodes(place_children(place)),
            step_into(place, step, resolved_steps)->Ok_0,
        ),
{
    let children = place_children(place);
    match step {
        StepSpec::Position(index) => {
            section_is_covered(children, index as int);
        },
        StepSpec::Named(slug, index) => {
            let picked = match index {
                Some(index) => index as int,
                None => 0,
            };
            let at = selected_sections_are_sections(children, slug, picked);
            section_is_covered(children, at);
        },
        StepSpec::Descendant(slug, index) => {
            let picked = match index {
                Some(index) => index as int,
                None => 0,
            };
            let at = selected_sections_are_sections(with_descendants(children), slug, picked);
            descendant_is_covered(children, at);
        },
    }
}

proof fn reached_places_are_covered(document: Document, steps: Seq<StepSpec>)
    requires
        reach(document, steps) is Ok,
    ensures
        ({
            let nodes = document_nodes(document);
            let place = reach(document, steps)->Ok_0;
            &&& place matches Place::Root(root) ==> root == document
            &&& place matches Place::Section(section) ==> nodes.contains(
                NodeSpec::Section(section),
            )
            &&& holds_all(nodes, block_nodes(place_blocks(place)))
            &&& holds_all(nodes, section_nodes(place_children(place)))
        }),
    decreases steps.len(),
{
    let root = Place::Root(document);
    parts_are_held(
        seq![NodeSpec::Root(document)],
        block_nodes(place_blocks(root)),
        section_nodes(place_children(root)),
    );
    if steps.len() > 0 {
        reached_places_are_covered(document, steps.drop_last());
        let place = reach(document, steps.drop_last())->Ok_0;
        stepping_stays_covered(place, steps.last(), (steps.len() - 1) as nat);
    }
}

/// Whatever a path resolves to, the enumeration lists.
pub proof fn resolvable_nodes_are_enumerated(document: Document, path: PathSpec)
    requires
        resolved(document, path) is Ok,
    ensures
        exists|at: int|
            0 <= at < entries(document).len() && (#[trigger] entries(document)[at]).1 == resolved(
                document,
                path,
            )->Ok_0,
{
    enumeration_lists_every_node_once(document);
    reached_places_are_covered(document, path.sections);
    let nodes = document_nodes(document);
    let node = resolved(document, path)->Ok_0;
    let place = reach(document, path.sections)->Ok_0;
    if path.blocks.len() > 0 {
        descending_finds_nodes(place_blocks(place), path.blocks, path.sections.len());
    } else if place is Root {
        assert(nodes[0] == node);
    }
    assert(nodes.contains(node));
    let at = choose|at: int| 0 <= at < nodes.len() && nodes[at] == node;
    assert(listed_nodes(entries(document))[at] == entries(document)[at].1);
}

} // verus!
