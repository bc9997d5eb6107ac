//! Enumerating the addressable nodes of a document.

use vstd::prelude::*;

use super::coverage::{enumerated_paths_differ, paths_differ};
use super::resolve::{
    collect_blocks, merged_title, of_kind, of_kind_prefix, place_blocks, place_children, reach,
    resolved, step_into, values, with_descendants, with_slug, DocumentNode, NodeSpec, Place,
};
use super::slug::{heading_slug, slug_of, HeadingSlug};
use super::{
    kind_of, BlockPathKind, BlockStep, DocumentPath, DocumentPathError, PathSpec, SectionStep,
    StepSpec,
};
use crate::document::{Block, Document, ListItem, Section};

verus! {

/// `path` with one more section step.
pub open spec fn with_step(path: PathSpec, step: StepSpec) -> PathSpec {
    PathSpec { sections: path.sections.push(step), blocks: path.blocks }
}

/// `path` with one more block step.
pub open spec fn with_block_step(path: PathSpec, kind: BlockPathKind, index: usize) -> PathSpec {
    PathSpec { sections: path.sections, blocks: path.blocks.push(BlockStep { kind, index }) }
}

/// The items of the list at `path`.
pub open spec fn item_entries(path: PathSpec, items: Seq<ListItem>) -> Seq<(PathSpec, NodeSpec)> {
    Seq::new(
        items.len(),
        |at: int|
            (with_block_step(path, BlockPathKind::Item, at as usize), NodeSpec::Item(items[at])),
    )
}

/// The items of `block` at `path`, if it is a list.
pub open spec fn entries_within(path: PathSpec, block: Block) -> Seq<(PathSpec, NodeSpec)> {
    match block {
        Block::List(list) => item_entries(path, list.items@),
        _ => Seq::empty(),
    }
}

/// The path of the last of `blocks` below `parent`: its position counts the
/// earlier blocks of its kind.
pub open spec fn last_block_path(parent: PathSpec, blocks: Seq<Block>) -> PathSpec {
    let kind = kind_of(blocks.last());
    with_block_step(parent, kind, of_kind(blocks.drop_last(), kind).len() as usize)
}

/// The direct blocks below `parent`, each followed by its items.
pub open spec fn block_entries(parent: PathSpec, blocks: Seq<Block>) -> Seq<(PathSpec, NodeSpec)>
    decreases blocks.len(),
{
    if blocks.len() == 0 {
        Seq::empty()
    } else {
        let path = last_block_path(parent, blocks);
        block_entries(parent, blocks.drop_last()).push((path, NodeSpec::Block(blocks.last())))
            + entries_within(path, blocks.last())
    }
}

/// The step that names `siblings[at]`: its slug when no sibling shares it, its
/// slug and position when siblings share it, and its bare position when its
/// heading has no slug.
pub open spec fn canonical_step(siblings: Seq<Section>, at: int) -> StepSpec {
    match slug_of(siblings[at].heading.text@) {
        None => StepSpec::Position(at as usize),
        Some(slug) => StepSpec::Named(
            slug,
            if with_slug(siblings, slug).len() > 1 {
                Some(with_slug(siblings.take(at), slug).len() as usize)
            } else {
                None
            },
        ),
    }
}

/// The first `count` sections of `siblings` below `parent`, each followed by
/// its blocks and its own subsections.
pub open spec fn section_entries(
    parent: PathSpec,
    siblings: Seq<Section>,
    count: int,
) -> Seq<(PathSpec, NodeSpec)>
    decreases siblings, count,
{
    if count <= 0 || count > siblings.len() {
        Seq::empty()
    } else {
        let section = siblings[count - 1];
        let path = with_step(parent, canonical_step(siblings, count - 1));
        section_entries(parent, siblings, count - 1).push((path, NodeSpec::Section(section)))
            + block_entries(path, section.preamble.blocks@) + section_entries(
            path,
            section.children@,
            section.children@.len() as int,
        )
    }
}

/// The path `$`.
pub open spec fn root_path() -> PathSpec {
    PathSpec { sections: Seq::empty(), blocks: Seq::empty() }
}

/// Every addressable node of `document` with its canonical path, in document
/// order.
pub open spec fn entries(document: Document) -> Seq<(PathSpec, NodeSpec)> {
    let root = Place::Root(document);
    seq![(root_path(), NodeSpec::Root(document))] + block_entries(root_path(), place_blocks(root))
        + section_entries(root_path(), place_children(root), place_children(root).len() as int)
}

/// Every path of `listed` resolves to the node it is paired with.
pub open spec fn all_resolve(document: Document, listed: Seq<(PathSpec, NodeSpec)>) -> bool {
    forall|at: int|
        0 <= at < listed.len() ==> resolved(document, (#[trigger] listed[at]).0) == Ok::<
            NodeSpec,
            DocumentPathError,
        >(listed[at].1)
}

proof fn all_resolve_joins(
    document: Document,
    head: Seq<(PathSpec, NodeSpec)>,
    tail: Seq<(PathSpec, NodeSpec)>,
)
    requires
        all_resolve(document, head),
        all_resolve(document, tail),
    ensures
        all_resolve(document, head + tail),
{
    assert forall|at: int| 0 <= at < (head + tail).len() implies resolved(
        document,
        (#[trigger] (head + tail)[at]).0,
    ) == Ok::<NodeSpec, DocumentPathError>((head + tail)[at].1) by {
        if at < head.len() {
            assert((head + tail)[at] == head[at]);
        } else {
            assert((head + tail)[at] == tail[at - head.len()]);
        }
    }
}

/// The sections of a slug among the first `at` sections come first among the
/// sections of that slug.
pub(crate) proof fn with_slug_prefix(sections: Seq<Section>, slug: Seq<char>, at: int)
    requires
        0 <= at <= sections.len(),
    ensures
        with_slug(sections.take(at), slug).len() <= with_slug(sections, slug).len()
            <= sections.len(),
        forall|k: int|
            0 <= k < with_slug(sections.take(at), slug).len() ==> with_slug(
                sections.take(at),
                slug,
            )[k] == #[trigger] with_slug(sections, slug)[k],
    decreases sections.len() - at,
{
    with_slug_is_shorter(sections, slug);
    if at < sections.len() {
        with_slug_prefix(sections, slug, at + 1);
        assert(sections.take(at + 1).drop_last() =~= sections.take(at));
    } else {
        assert(sections.take(at) =~= sections);
    }
}

proof fn with_slug_is_shorter(sections: Seq<Section>, slug: Seq<char>)
    ensures
        with_slug(sections, slug).len() <= sections.len(),
    decreases sections.len(),
{
    if sections.len() > 0 {
        with_slug_is_shorter(sections.drop_last(), slug);
    }
}

pub(crate) proof fn of_kind_is_shorter(blocks: Seq<Block>, kind: BlockPathKind)
    ensures
        of_kind(blocks, kind).len() <= blocks.len(),
    decreases blocks.len(),
{
    if blocks.len() > 0 {
        of_kind_is_shorter(blocks.drop_last(), kind);
    }
}

/// The canonical step of a section selects that section.
pub proof fn canonical_step_selects(place: Place, at: int, resolved_steps: nat)
    requires
        0 <= at < place_children(place).len() <= usize::MAX,
    ensures
        step_into(place, canonical_step(place_children(place), at), resolved_steps) == Ok::<
            Section,
            DocumentPathError,
        >(place_children(place)[at]),
{
    let siblings = place_children(place);
    if let Some(slug) = slug_of(siblings[at].heading.text@) {
        with_slug_prefix(siblings, slug, at);
        with_slug_prefix(siblings, slug, at + 1);
        assert(siblings.take(at + 1).drop_last() =~= siblings.take(at));
        let index = with_slug(siblings.take(at), slug).len() as int;
        assert(with_slug(siblings.take(at + 1), slug)[index] == siblings[at]);
        assert(with_slug(siblings, slug)[index] == siblings[at]);
    }
}

proof fn block_entries_resolve(document: Document, parent: PathSpec, place: Place, count: int)
    requires
        reach(document, parent.sections) == Ok::<Place, DocumentPathError>(place),
        parent.blocks.len() == 0,
        0 <= count <= place_blocks(place).len() <= usize::MAX,
    ensures
        all_resolve(document, block_entries(parent, place_blocks(place).take(count))),
    decreases count,
{
    let all = place_blocks(place);
    let blocks = all.take(count);
    if count > 0 {
        assert(blocks.drop_last() =~= all.take(count - 1));
        block_entries_resolve(document, parent, place, count - 1);
        let block = blocks.last();
        let kind = kind_of(block);
        let path = last_block_path(parent, blocks);
        let before = of_kind(blocks.drop_last(), kind);
        of_kind_is_shorter(blocks.drop_last(), kind);
        of_kind_prefix(all, kind, count);
        assert(of_kind(blocks, kind) == before.push(block));
        assert(of_kind(blocks, kind)[before.len() as int] == block);
        assert(of_kind(all, kind)[before.len() as int] == block);
        assert(path.blocks =~= seq![path.blocks[0]]);
        assert(resolved(document, path) == Ok::<NodeSpec, DocumentPathError>(
            NodeSpec::Block(block),
        ));
        let head = block_entries(parent, blocks.drop_last()).push((path, NodeSpec::Block(block)));
        assert(head =~= block_entries(parent, blocks.drop_last()) + seq![
            (path, NodeSpec::Block(block)),
        ]);
        all_resolve_joins(
            document,
            block_entries(parent, blocks.drop_last()),
            seq![(path, NodeSpec::Block(block))],
        );
        if let Block::List(list) = block {
            let items = item_entries(path, list.items@);
            assert(list.items.len() == list.items@.len());
            assert forall|at: int| 0 <= at < items.len() implies resolved(
                document,
                (#[trigger] items[at]).0,
            ) == Ok::<NodeSpec, DocumentPathError>(items[at].1) by {
                let steps = items[at].0.blocks;
                assert(steps.drop_last() =~= path.blocks);
                assert(steps.last().index == at);
            }
        }
        all_resolve_joins(document, head, entries_within(path, block));
    }
}

proof fn section_entries_resolve(document: Document, parent: PathSpec, place: Place, count: int)
    requires
        reach(document, parent.sections) == Ok::<Place, DocumentPathError>(place),
        parent.blocks.len() == 0,
        0 <= count <= place_children(place).len() <= usize::MAX,
    ensures
        all_resolve(document, section_entries(parent, place_children(place), count)),
    decreases place_children(place), count,
{
    let siblings = place_children(place);
    if count > 0 {
        section_entries_resolve(document, parent, place, count - 1);
        let section = siblings[count - 1];
        let step = canonical_step(siblings, count - 1);
        let path = with_step(parent, step);
        let below = Place::Section(section);
        canonical_step_selects(place, count - 1, parent.sections.len());
        assert(path.sections.drop_last() =~= parent.sections);
        assert(reach(document, path.sections) == Ok::<Place, DocumentPathError>(below));
        let before = section_entries(parent, siblings, count - 1);
        let own = seq![(path, NodeSpec::Section(section))];
        all_resolve_joins(document, before, own);
        assert(before.push(own[0]) =~= before + own);
        assert(section.preamble.blocks.len() == section.preamble.blocks@.len());
        block_entries_resolve(document, path, below, section.preamble.blocks@.len() as int);
        assert(section.preamble.blocks@.take(section.preamble.blocks@.len() as int)
            =~= section.preamble.blocks@);
        all_resolve_joins(document, before + own, block_entries(path, section.preamble.blocks@));
        assert(section.children.len() == section.children@.len());
        section_entries_resolve(document, path, below, section.children@.len() as int);
        all_resolve_joins(
            document,
            before + own + block_entries(path, section.preamble.blocks@),
            section_entries(path, section.children@, section.children@.len() as int),
        );
    }
}

/// Every enumerated path resolves back to the node it is paired with.
pub proof fn enumerated_paths_resolve(document: Document)
    requires
        place_blocks(Place::Root(document)).len() <= usize::MAX,
    ensures
        all_resolve(document, entries(document)),
{
    let root = Place::Root(document);
    let blocks = place_blocks(root);
    let children = place_children(root);
    assert(document.sections.len() == document.sections@.len());
    assert(document.sections@[0].children.len() == document.sections@[0].children@.len());
    block_entries_resolve(document, root_path(), root, blocks.len() as int);
    assert(blocks.take(blocks.len() as int) =~= blocks);
    section_entries_resolve(document, root_path(), root, children.len() as int);
    let own = seq![(root_path(), NodeSpec::Root(document))];
    assert(all_resolve(document, own));
    all_resolve_joins(document, own, block_entries(root_path(), blocks));
    all_resolve_joins(
        document,
        own + block_entries(root_path(), blocks),
        section_entries(root_path(), children, children.len() as int),
    );
}

/// The sections among the nodes of `listed`, in order.
pub open spec fn listed_sections(listed: Seq<(PathSpec, NodeSpec)>) -> Seq<Section>
    decreases listed.len(),
{
    if listed.len() == 0 {
        Seq::empty()
    } else {
        let before = listed_sections(listed.drop_last());
        match listed.last().1 {
            NodeSpec::Section(section) => before.push(section),
            _ => before,
        }
    }
}

proof fn listed_sections_join(head: Seq<(PathSpec, NodeSpec)>, tail: Seq<(PathSpec, NodeSpec)>)
    ensures
        listed_sections(head + tail) == listed_sections(head) + listed_sections(tail),
    decreases tail.len(),
{
    if tail.len() == 0 {
        assert(head + tail =~= head);
    } else {
        listed_sections_join(head, tail.drop_last());
        assert((head + tail).drop_last() =~= head + tail.drop_last());
    }
    assert(listed_sections(head + tail) =~= listed_sections(head) + listed_sections(tail));
}

proof fn blocks_list_no_sections(parent: PathSpec, blocks: Seq<Block>)
    ensures
        listed_sections(block_entries(parent, blocks)).len() == 0,
    decreases blocks.len(),
{
    if blocks.len() > 0 {
        let path = last_block_path(parent, blocks);
        let before = block_entries(parent, blocks.drop_last());
        let head = before.push((path, NodeSpec::Block(blocks.last())));
        blocks_list_no_sections(parent, blocks.drop_last());
        assert(head.drop_last() =~= before);
        listed_sections_join(head, entries_within(path, blocks.last()));
        if let Block::List(list) = blocks.last() {
            items_list_no_sections(path, list.items@, list.items@.len() as int);
            assert(item_entries(path, list.items@).take(list.items@.len() as int)
                =~= item_entries(path, list.items@));
        }
    }
}

proof fn items_list_no_sections(path: PathSpec, items: Seq<ListItem>, count: int)
    requires
        0 <= count <= items.len(),
    ensures
        listed_sections(item_entries(path, items).take(count)).len() == 0,
    decreases count,
{
    if count > 0 {
        items_list_no_sections(path, items, count - 1);
        assert(item_entries(path, items).take(count).drop_last() =~= item_entries(path, items).take(
            count - 1,
        ));
    }
}

proof fn section_entries_list_descendants(parent: PathSpec, siblings: Seq<Section>, count: int)
    requires
        0 <= count <= siblings.len(),
    ensures
        listed_sections(section_entries(parent, siblings, count)) == with_descendants(
            siblings.take(count),
        ),
    decreases siblings, count,
{
    let taken = siblings.take(count);
    if count > 0 {
        section_entries_list_descendants(parent, siblings, count - 1);
        let section = siblings[count - 1];
        let path = with_step(parent, canonical_step(siblings, count - 1));
        let before = section_entries(parent, siblings, count - 1);
        let head = before.push((path, NodeSpec::Section(section)));
        let blocks = block_entries(path, section.preamble.blocks@);
        let below = section_entries(path, section.children@, section.children@.len() as int);
        assert(head.drop_last() =~= before);
        blocks_list_no_sections(path, section.preamble.blocks@);
        section_entries_list_descendants(path, section.children@, section.children@.len() as int);
        assert(section.children@.take(section.children@.len() as int) =~= section.children@);
        listed_sections_join(head, blocks);
        listed_sections_join(head + blocks, below);
        assert(taken.drop_last() =~= siblings.take(count - 1));
        assert(taken.last() == section);
        assert(listed_sections(head + blocks) =~= listed_sections(head));
    }
}

/// The enumeration lists the sections below the root exactly once each, in
/// document order.
pub proof fn enumeration_lists_every_section(document: Document)
    ensures
        listed_sections(entries(document)) == with_descendants(
            place_children(Place::Root(document)),
        ),
{
    let root = Place::Root(document);
    let own = seq![(root_path(), NodeSpec::Root(document))];
    let blocks = block_entries(root_path(), place_blocks(root));
    let children = place_children(root);
    let below = section_entries(root_path(), children, children.len() as int);
    blocks_list_no_sections(root_path(), place_blocks(root));
    section_entries_list_descendants(root_path(), children, children.len() as int);
    assert(children.take(children.len() as int) =~= children);
    assert(own.drop_last() =~= Seq::empty());
    assert(listed_sections(own.drop_last()) =~= Seq::empty());
    assert(own.last().1 is Root);
    assert(listed_sections(own) =~= Seq::empty());
    listed_sections_join(own, blocks);
    listed_sections_join(own + blocks, below);
    assert(listed_sections(entries(document)) =~= with_descendants(children));
}

/// What a list of paths and nodes says.
pub open spec fn listed<'d>(paths: Seq<(DocumentPath, DocumentNode<'d>)>) -> Seq<
    (PathSpec, NodeSpec),
> {
    paths.map_values(|entry: (DocumentPath, DocumentNode<'d>)| (entry.0@, entry.1@))
}

/// Enumerates every addressable node of `document` with its canonical path.
///
/// Nodes come in document order: the root, then for each preamble its direct
/// blocks and the direct items of each direct list, then each section
/// recursively. A section step is spelled `slug` when no sibling shares the
/// slug, `slug[i]` when siblings share it, and positionally `[i]` when the
/// heading has no slug. Every returned path resolves back to the node it is
/// paired with.
pub fn document_paths<'d>(document: &'d Document) -> (paths: Vec<(DocumentPath, DocumentNode<'d>)>)
    ensures
        listed(paths@) == entries(*document),
        all_resolve(*document, listed(paths@)),
        paths_differ(listed(paths@)),
{
    let mut paths: Vec<(DocumentPath, DocumentNode<'d>)> = Vec::new();
    paths.push((DocumentPath::root(), DocumentNode::Root(document)));
    assert(listed(paths@) =~= seq![(root_path(), NodeSpec::Root(*document))]);
    let root = DocumentPath::root();
    let mut preamble: Vec<&'d Block> = Vec::new();
    collect_blocks(document.preamble.as_slice(), &mut preamble);
    let children = match merged_title(document) {
        Some(title) => {
            collect_blocks(title.preamble.as_slice(), &mut preamble);
            title.children.as_slice()
        },
        None => document.sections.as_slice(),
    };
    assert(values(preamble@) =~= place_blocks(Place::Root(*document)));
    push_preamble(&root, &preamble, &mut paths);
    push_sections(&root, children, &mut paths);
    proof {
        assert(preamble.len() == preamble@.len());
        enumerated_paths_resolve(*document);
        enumerated_paths_differ(*document);
    }
    paths
}

/// How often `slug` names one of the first `count` slugs.
fn count_slug(slugs: &Vec<Option<HeadingSlug>>, slug: &HeadingSlug, count: usize, Ghost(
    sections,
): Ghost<Seq<Section>>) -> (found: usize)
    requires
        count <= slugs@.len() == sections.len(),
        slugs_match(slugs@, sections),
    ensures
        found == with_slug(sections.take(count as int), slug@).len(),
{
    let mut found: usize = 0;
    let mut at: usize = 0;
    while at < count
        invariant
            at <= count <= slugs@.len() == sections.len(),
            slugs_match(slugs@, sections),
            found <= at,
            found == with_slug(sections.take(at as int), slug@).len(),
        decreases count - at,
    {
        proof {
            assert(sections.take(at + 1).drop_last() =~= sections.take(at as int));
            assert(slug_matches(slugs@[at as int], sections[at as int]));
        }
        let same = match &slugs[at] {
            Some(other) => other.same(slug),
            None => false,
        };
        if same {
            found += 1;
        }
        at += 1;
    }
    found
}

/// `slug` is the slug of the section's heading.
spec fn slug_matches(slug: Option<HeadingSlug>, section: Section) -> bool {
    match slug {
        None => slug_of(section.heading.text@) is None,
        Some(slug) => slug_of(section.heading.text@) == Some(slug@),
    }
}

spec fn slugs_match(slugs: Seq<Option<HeadingSlug>>, sections: Seq<Section>) -> bool {
    forall|at: int| 0 <= at < slugs.len() ==> #[trigger] slug_matches(slugs[at], sections[at])
}

fn push_sections<'d>(
    parent: &DocumentPath,
    siblings: &'d [Section],
    paths: &mut Vec<(DocumentPath, DocumentNode<'d>)>,
)
    requires
        parent@.blocks.len() == 0,
    ensures
        listed(final(paths)@) == listed(old(paths)@) + section_entries(
            parent@,
            siblings@,
            siblings@.len() as int,
        ),
    decreases siblings@,
{
    let mut slugs: Vec<Option<HeadingSlug>> = Vec::new();
    let mut at: usize = 0;
    while at < siblings.len()
        invariant
            at <= siblings@.len(),
            slugs@.len() == at,
            slugs_match(slugs@, siblings@),
        decreases siblings.len() - at,
    {
        let ghost before = slugs@;
        slugs.push(heading_slug(siblings[at].heading.text.as_str()));
        assert forall|k: int| 0 <= k < slugs@.len() implies #[trigger] slug_matches(
            slugs@[k],
            siblings@[k],
        ) by {
            if k < before.len() {
                assert(slug_matches(before[k], siblings@[k]));
            }
        }
        at += 1;
    }
    let mut at: usize = 0;
    assert(listed(paths@) =~= listed(old(paths)@) + section_entries(parent@, siblings@, 0));
    while at < siblings.len()
        invariant
            at <= siblings@.len(),
            slugs@.len() == siblings@.len(),
            slugs_match(slugs@, siblings@),
            parent@.blocks.len() == 0,
            listed(paths@) == listed(old(paths)@) + section_entries(
                parent@,
                siblings@,
                at as int,
            ),
        decreases siblings.len() - at,
    {
        let section = &siblings[at];
        assert(slug_matches(slugs@[at as int], *section));
        let step = match &slugs[at] {
            None => SectionStep::Position(at),
            Some(slug) => {
                let total = count_slug(&slugs, slug, siblings.len(), Ghost(siblings@));
                assert(siblings@.take(siblings@.len() as int) =~= siblings@);
                let index = if total > 1 {
                    Some(count_slug(&slugs, slug, at, Ghost(siblings@)))
                } else {
                    None
                };
                SectionStep::Named { slug: slug.clone(), index }
            },
        };
        assert(step@ == canonical_step(siblings@, at as int));
        let path = parent.clone().with_section(step).unwrap();
        assert(path@ =~= with_step(parent@, step@));
        let ghost before = paths@;
        paths.push((path.clone(), DocumentNode::Section(section)));
        assert(listed(paths@) =~= listed(before).push((path@, NodeSpec::Section(*section))));
        let mut preamble: Vec<&'d Block> = Vec::new();
        collect_blocks(section.preamble.as_slice(), &mut preamble);
        assert(values(preamble@) =~= section.preamble.blocks@);
        push_preamble(&path, &preamble, paths);
        push_sections(&path, section.children.as_slice(), paths);
        assert(listed(paths@) =~= listed(old(paths)@) + section_entries(
            parent@,
            siblings@,
            at + 1,
        ));
        at += 1;
    }
}

fn push_preamble<'d>(
    parent: &DocumentPath,
    preamble: &Vec<&'d Block>,
    paths: &mut Vec<(DocumentPath, DocumentNode<'d>)>,
)
    requires
        parent@.blocks.len() == 0,
    ensures
        listed(final(paths)@) == listed(old(paths)@) + block_entries(parent@, values(preamble@)),
{
    let ghost blocks = values(preamble@);
    let mut at: usize = 0;
    assert(listed(paths@) =~= listed(old(paths)@) + block_entries(parent@, blocks.take(0)));
    while at < preamble.len()
        invariant
            at <= preamble@.len(),
            blocks == values(preamble@),
            parent@.blocks.len() == 0,
            listed(paths@) == listed(old(paths)@) + block_entries(parent@, blocks.take(at as int)),
        decreases preamble.len() - at,
    {
        let block = preamble[at];
        let kind = BlockPathKind::of(block);
        let index = count_kind(preamble, kind, at);
        let path = parent.clone().with_block(BlockStep { kind, index }).unwrap();
        proof {
            let taken = blocks.take(at + 1);
            assert(taken.drop_last() =~= blocks.take(at as int));
            assert(taken.last() == *block);
            assert(path@ =~= last_block_path(parent@, taken));
        }
        let ghost before = paths@;
        paths.push((path.clone(), DocumentNode::Block(block)));
        assert(listed(paths@) =~= listed(before).push((path@, NodeSpec::Block(*block))));
        if let Block::List(list) = block {
            push_items(&path, list.items.as_slice(), paths);
        }
        assert(listed(paths@) =~= listed(old(paths)@) + block_entries(
            parent@,
            blocks.take(at + 1),
        ));
        at += 1;
    }
    assert(blocks.take(at as int) =~= blocks);
}

/// How many of the first `count` blocks are of `kind`.
fn count_kind(preamble: &Vec<&Block>, kind: BlockPathKind, count: usize) -> (found: usize)
    requires
        count <= preamble@.len(),
    ensures
        found == of_kind(values(preamble@).take(count as int), kind).len(),
{
    let ghost blocks = values(preamble@);
    let mut found: usize = 0;
    let mut at: usize = 0;
    while at < count
        invariant
            at <= count <= preamble@.len(),
            blocks == values(preamble@),
            found <= at,
            found == of_kind(blocks.take(at as int), kind).len(),
        decreases count - at,
    {
        proof {
            assert(blocks.take(at + 1).drop_last() =~= blocks.take(at as int));
            assert(blocks.take(at + 1).last() == *preamble@[at as int]);
        }
        if BlockPathKind::of(preamble[at]) == kind {
            found += 1;
        }
        at += 1;
    }
    found
}

fn push_items<'d>(
    parent: &DocumentPath,
    items: &'d [ListItem],
    paths: &mut Vec<(DocumentPath, DocumentNode<'d>)>,
)
    requires
        parent@.blocks.len() > 0,
        parent@.blocks.last().kind == BlockPathKind::List,
    ensures
        listed(final(paths)@) == listed(old(paths)@) + item_entries(parent@, items@),
{
    let mut at: usize = 0;
    while at < items.len()
        invariant
            at <= items@.len(),
            parent@.blocks.len() > 0,
            parent@.blocks.last().kind == BlockPathKind::List,
            listed(paths@) == listed(old(paths)@) + item_entries(parent@, items@).take(at as int),
        decreases items.len() - at,
    {
        let path = parent.clone().with_block(
            BlockStep { kind: BlockPathKind::Item, index: at },
        ).unwrap();
        let ghost before = paths@;
        let ghost entry = (path@, NodeSpec::Item(items@[at as int]));
        paths.push((path, DocumentNode::Item(&items[at])));
        proof {
            assert(listed(paths@) =~= listed(before).push(entry));
            assert(item_entries(parent@, items@)[at as int] == entry);
            assert(item_entries(parent@, items@).take(at + 1) =~= item_entries(
                parent@,
                items@,
            ).take(at as int).push(entry));
        }
        at += 1;
    }
    assert(item_entries(parent@, items@).take(at as int) =~= item_entries(parent@, items@));
}

} // verus!
