//! Following a document path through a document.

use vstd::prelude::*;

use super::slug::{heading_slug, slug_of, HeadingSlug};
use super::{
    kind_of, step_specs, BlockPathKind, BlockStep, DocumentPath, DocumentPathError, PathSpec,
    SectionStep, StepSpec,
};
use crate::document::{Block, Document, HeaderLevel, ListItem, Section};

verus! {

/// The node a document path resolved to.
#[derive(Debug, Clone, Copy, PartialEq, Eq)]
#[non_exhaustive]
pub enum DocumentNode<'d> {
    /// The whole document, addressed by `$`.
    Root(&'d Document),
    /// A section, addressed by a path ending in a section step.
    Section(&'d Section),
    /// A direct preamble block, addressed by a path ending in a block step.
    Block(&'d Block),
    /// A direct list item, addressed by a path ending in an `item` step.
    Item(&'d ListItem),
}

/// What a document node is.
pub enum NodeSpec {
    /// See [`DocumentNode::Root`].
    Root(Document),
    /// See [`DocumentNode::Section`].
    Section(Section),
    /// See [`DocumentNode::Block`].
    Block(Block),
    /// See [`DocumentNode::Item`].
    Item(ListItem),
}

impl<'d> View for DocumentNode<'d> {
    type V = NodeSpec;

    open spec fn view(&self) -> NodeSpec {
        match *self {
            DocumentNode::Root(document) => NodeSpec::Root(*document),
            DocumentNode::Section(section) => NodeSpec::Section(*section),
            DocumentNode::Block(block) => NodeSpec::Block(*block),
            DocumentNode::Item(item) => NodeSpec::Item(*item),
        }
    }
}

/// The title of a document: its sole top-level section, when a first-level
/// heading opens it.
pub open spec fn title_of(document: Document) -> Option<Section> {
    if document.sections@.len() == 1 && document.sections@[0].heading.level == HeaderLevel::H1 {
        Some(document.sections@[0])
    } else {
        None
    }
}

/// The node whose sections and preamble the next step is applied to.
pub enum Place {
    /// The document root, with its title merged into it.
    Root(Document),
    /// A section.
    Section(Section),
}

/// The child sections of `place`.
pub open spec fn place_children(place: Place) -> Seq<Section> {
    match place {
        Place::Root(document) => match title_of(document) {
            Some(title) => title.children@,
            None => document.sections@,
        },
        Place::Section(section) => section.children@,
    }
}

/// The direct blocks of `place`.
pub open spec fn place_blocks(place: Place) -> Seq<Block> {
    match place {
        Place::Root(document) => match title_of(document) {
            Some(title) => document.preamble.blocks@ + title.preamble.blocks@,
            None => document.preamble.blocks@,
        },
        Place::Section(section) => section.preamble.blocks@,
    }
}

/// The node at `place`.
pub open spec fn place_node(place: Place) -> NodeSpec {
    match place {
        Place::Root(document) => NodeSpec::Root(document),
        Place::Section(section) => NodeSpec::Section(section),
    }
}

/// `sections` and everything below them, each before what is below it.
pub open spec fn with_descendants(sections: Seq<Section>) -> Seq<Section>
    decreases sections,
{
    if sections.len() == 0 {
        Seq::empty()
    } else {
        with_descendants(sections.drop_last()).push(sections.last()) + with_descendants(
            sections.last().children@,
        )
    }
}

/// The sections whose headings slug to `slug`, in order.
pub open spec fn with_slug(sections: Seq<Section>, slug: Seq<char>) -> Seq<Section>
    decreases sections.len(),
{
    if sections.len() == 0 {
        Seq::empty()
    } else {
        let before = with_slug(sections.drop_last(), slug);
        if slug_of(sections.last().heading.text@) == Some(slug) {
            before.push(sections.last())
        } else {
            before
        }
    }
}

/// The blocks that `kind` addresses, in order.
pub open spec fn of_kind(blocks: Seq<Block>, kind: BlockPathKind) -> Seq<Block>
    decreases blocks.len(),
{
    if blocks.len() == 0 {
        Seq::empty()
    } else {
        let before = of_kind(blocks.drop_last(), kind);
        if kind_of(blocks.last()) == kind {
            before.push(blocks.last())
        } else {
            before
        }
    }
}

/// The `index`-th candidate, or the only one when there is no index.
pub open spec fn pick(
    candidates: Seq<Section>,
    index: Option<usize>,
    resolved_steps: nat,
) -> Result<Section, DocumentPathError> {
    let unresolved = DocumentPathError::Unresolved { resolved_steps: resolved_steps as usize };
    match index {
        Some(index) => if index < candidates.len() {
            Ok(candidates[index as int])
        } else {
            Err(unresolved)
        },
        None => if candidates.len() == 0 {
            Err(unresolved)
        } else if candidates.len() == 1 {
            Ok(candidates[0])
        } else {
            Err(
                DocumentPathError::Ambiguous {
                    resolved_steps: resolved_steps as usize,
                    candidates: candidates.len() as usize,
                },
            )
        },
    }
}

/// The section that `step` selects at `place`.
pub open spec fn step_into(place: Place, step: StepSpec, resolved_steps: nat) -> Result<
    Section,
    DocumentPathError,
> {
    match step {
        StepSpec::Position(index) => pick(place_children(place), Some(index), resolved_steps),
        StepSpec::Named(slug, index) => pick(
            with_slug(place_children(place), slug),
            index,
            resolved_steps,
        ),
        StepSpec::Descendant(slug, index) => pick(
            with_slug(with_descendants(place_children(place)), slug),
            index,
            resolved_steps,
        ),
    }
}

/// The place that section steps reach from the root of `document`.
pub open spec fn reach(document: Document, steps: Seq<StepSpec>) -> Result<
    Place,
    DocumentPathError,
>
    decreases steps.len(),
{
    if steps.len() == 0 {
        Ok(Place::Root(document))
    } else {
        match reach(document, steps.drop_last()) {
            Err(error) => Err(error),
            Ok(place) => match step_into(place, steps.last(), (steps.len() - 1) as nat) {
                Err(error) => Err(error),
                Ok(section) => Ok(Place::Section(section)),
            },
        }
    }
}

/// The node that a non-empty run of block steps reaches among `blocks`, after
/// `resolved_steps` steps. The first step selects a block; after it, only an
/// item of a list can be selected.
pub open spec fn descend(
    blocks: Seq<Block>,
    steps: Seq<BlockStep>,
    resolved_steps: nat,
) -> Result<NodeSpec, DocumentPathError>
    decreases steps.len(),
{
    let step = steps.last();
    if steps.len() <= 1 {
        let candidates = of_kind(blocks, step.kind);
        if step.index < candidates.len() {
            Ok(NodeSpec::Block(candidates[step.index as int]))
        } else {
            Err(DocumentPathError::Unresolved { resolved_steps: resolved_steps as usize })
        }
    } else {
        let unresolved = DocumentPathError::Unresolved {
            resolved_steps: (resolved_steps + steps.len() - 1) as usize,
        };
        match descend(blocks, steps.drop_last(), resolved_steps) {
            Err(error) => Err(error),
            Ok(NodeSpec::Block(Block::List(list))) => if step.kind == BlockPathKind::Item
                && step.index < list.items@.len() {
                Ok(NodeSpec::Item(list.items@[step.index as int]))
            } else {
                Err(unresolved)
            },
            Ok(_) => Err(unresolved),
        }
    }
}

/// The node that `path` addresses in `document`, or why it addresses none.
pub open spec fn resolved(document: Document, path: PathSpec) -> Result<
    NodeSpec,
    DocumentPathError,
> {
    match reach(document, path.sections) {
        Err(error) => Err(error),
        Ok(place) => if path.blocks.len() == 0 {
            Ok(place_node(place))
        } else {
            descend(place_blocks(place), path.blocks, path.sections.len())
        },
    }
}

/// A failing step fails the steps that follow it in the same way.
proof fn reach_fails_early(document: Document, steps: Seq<StepSpec>, at: int)
    requires
        0 <= at <= steps.len(),
        reach(document, steps.take(at)) is Err,
    ensures
        reach(document, steps) == reach(document, steps.take(at)),
    decreases steps.len() - at,
{
    if at == steps.len() {
        assert(steps.take(at) =~= steps);
    } else {
        assert(steps.take(at + 1).drop_last() =~= steps.take(at));
        reach_fails_early(document, steps, at + 1);
    }
}

proof fn descend_fails_early(
    blocks: Seq<Block>,
    steps: Seq<BlockStep>,
    resolved_steps: nat,
    at: int,
)
    requires
        1 <= at <= steps.len(),
        descend(blocks, steps.take(at), resolved_steps) is Err,
    ensures
        descend(blocks, steps, resolved_steps) == descend(blocks, steps.take(at), resolved_steps),
    decreases steps.len() - at,
{
    if at == steps.len() {
        assert(steps.take(at) =~= steps);
    } else {
        assert(steps.take(at + 1).drop_last() =~= steps.take(at));
        descend_fails_early(blocks, steps, resolved_steps, at + 1);
    }
}

/// The values that references point to.
pub open spec fn values<T>(references: Seq<&T>) -> Seq<T> {
    references.map_values(|reference: &T| *reference)
}

/// The document's title: the sole top-level section when its heading is of the
/// first level. It is merged into the root.
pub fn merged_title(document: &Document) -> (title: Option<&Section>)
    ensures
        title is Some <==> title_of(*document) is Some,
        title matches Some(title) ==> title_of(*document) == Some(*title),
{
    if document.sections.len() == 1 && document.sections[0].heading.level == HeaderLevel::H1 {
        Some(&document.sections[0])
    } else {
        None
    }
}

/// The node whose child sections and preamble the next step is applied to.
enum Parent<'d> {
    Root(&'d Document),
    Section(&'d Section),
}

impl<'d> Parent<'d> {
    spec fn place(&self) -> Place {
        match *self {
            Parent::Root(document) => Place::Root(*document),
            Parent::Section(section) => Place::Section(*section),
        }
    }

    fn children(&self) -> (children: &'d [Section])
        ensures
            children@ == place_children(self.place()),
    {
        match self {
            Parent::Root(document) => match merged_title(document) {
                Some(title) => title.children.as_slice(),
                None => document.sections.as_slice(),
            },
            Parent::Section(section) => section.children.as_slice(),
        }
    }

    fn preamble(&self) -> (blocks: Vec<&'d Block>)
        ensures
            values(blocks@) == place_blocks(self.place()),
    {
        let mut blocks: Vec<&'d Block> = Vec::new();
        match self {
            Parent::Root(document) => {
                collect_blocks(document.preamble.as_slice(), &mut blocks);
                if let Some(title) = merged_title(document) {
                    collect_blocks(title.preamble.as_slice(), &mut blocks);
                }
            },
            Parent::Section(section) => {
                collect_blocks(section.preamble.as_slice(), &mut blocks);
            },
        }
        assert(values(blocks@) =~= place_blocks(self.place()));
        blocks
    }

    fn node(&self) -> (node: DocumentNode<'d>)
        ensures
            node@ == place_node(self.place()),
    {
        match self {
            Parent::Root(document) => DocumentNode::Root(document),
            Parent::Section(section) => DocumentNode::Section(section),
        }
    }
}

/// Appends references to `blocks`.
pub(crate) fn collect_blocks<'d>(blocks: &'d [Block], collected: &mut Vec<&'d Block>)
    ensures
        values(final(collected)@) == values(old(collected)@) + blocks@,
{
    let mut at: usize = 0;
    while at < blocks.len()
        invariant
            at <= blocks@.len(),
            values(collected@) == values(old(collected)@) + blocks@.take(at as int),
        decreases blocks.len() - at,
    {
        let ghost before = collected@;
        collected.push(&blocks[at]);
        proof {
            assert(values(collected@) =~= values(before).push(blocks@[at as int]));
            assert(blocks@.take(at + 1) =~= blocks@.take(at as int).push(blocks@[at as int]));
        }
        at += 1;
    }
    assert(blocks@.take(at as int) =~= blocks@);
}

/// Appends references to `sections` and everything below them, in document
/// order.
fn collect_descendants<'d>(sections: &'d [Section], collected: &mut Vec<&'d Section>)
    ensures
        values(final(collected)@) == values(old(collected)@) + with_descendants(sections@),
    decreases sections@,
{
    let mut at: usize = 0;
    assert(values(collected@) =~= values(old(collected)@) + with_descendants(sections@.take(0)));
    while at < sections.len()
        invariant
            at <= sections@.len(),
            values(collected@) == values(old(collected)@) + with_descendants(
                sections@.take(at as int),
            ),
        decreases sections.len() - at,
    {
        let ghost before = collected@;
        let section = &sections[at];
        collected.push(section);
        assert(values(collected@) =~= values(before).push(*section));
        collect_descendants(section.children.as_slice(), collected);
        proof {
            let taken = sections@.take(at + 1);
            assert(taken.drop_last() =~= sections@.take(at as int));
            assert(taken.last() == *section);
            assert(values(collected@) =~= values(old(collected)@) + with_descendants(taken));
        }
        at += 1;
    }
    assert(sections@.take(at as int) =~= sections@);
}

/// The `index`-th candidate, or the only one when there is no index.
fn pick_section<'d>(
    candidates: &Vec<&'d Section>,
    index: Option<usize>,
    resolved_steps: usize,
) -> (picked: Result<&'d Section, DocumentPathError>)
    ensures
        picked matches Ok(section) ==> pick(values(candidates@), index, resolved_steps as nat)
            == Ok::<Section, DocumentPathError>(*section),
        picked matches Err(error) ==> pick(values(candidates@), index, resolved_steps as nat)
            == Err::<Section, DocumentPathError>(error),
{
    match index {
        Some(index) => if index < candidates.len() {
            Ok(candidates[index])
        } else {
            Err(DocumentPathError::Unresolved { resolved_steps })
        },
        None => if candidates.len() == 0 {
            Err(DocumentPathError::Unresolved { resolved_steps })
        } else if candidates.len() == 1 {
            Ok(candidates[0])
        } else {
            Err(DocumentPathError::Ambiguous { resolved_steps, candidates: candidates.len() })
        },
    }
}

/// The candidates whose headings slug to `slug`.
fn filter_slug<'d>(candidates: &Vec<&'d Section>, slug: &HeadingSlug) -> (matching: Vec<
    &'d Section,
>)
    ensures
        values(matching@) == with_slug(values(candidates@), slug@),
{
    let mut matching: Vec<&'d Section> = Vec::new();
    let mut at: usize = 0;
    assert(values(matching@) =~= with_slug(values(candidates@).take(0), slug@));
    while at < candidates.len()
        invariant
            at <= candidates@.len(),
            values(matching@) == with_slug(values(candidates@).take(at as int), slug@),
        decreases candidates.len() - at,
    {
        let section = candidates[at];
        let slugged = match heading_slug(section.heading.text.as_str()) {
            Some(own) => own.same(slug),
            None => false,
        };
        proof {
            let taken = values(candidates@).take(at + 1);
            assert(taken.drop_last() =~= values(candidates@).take(at as int));
            assert(taken.last() == *section);
        }
        if slugged {
            let ghost before = matching@;
            matching.push(section);
            assert(values(matching@) =~= values(before).push(*section));
        }
        at += 1;
    }
    assert(values(candidates@).take(at as int) =~= values(candidates@));
    matching
}

/// References to all of `sections`.
fn references<'d>(sections: &'d [Section]) -> (collected: Vec<&'d Section>)
    ensures
        values(collected@) == sections@,
{
    let mut collected: Vec<&'d Section> = Vec::new();
    let mut at: usize = 0;
    while at < sections.len()
        invariant
            at <= sections@.len(),
            values(collected@) == sections@.take(at as int),
        decreases sections.len() - at,
    {
        let ghost before = collected@;
        collected.push(&sections[at]);
        assert(values(collected@) =~= values(before).push(sections@[at as int]));
        at += 1;
    }
    assert(sections@.take(at as int) =~= sections@);
    collected
}

/// The section that `step` selects below `parent`.
fn select_section<'d>(parent: &Parent<'d>, step: &SectionStep, resolved_steps: usize) -> (selected:
    Result<&'d Section, DocumentPathError>)
    ensures
        selected matches Ok(section) ==> step_into(parent.place(), step@, resolved_steps as nat)
            == Ok::<Section, DocumentPathError>(*section),
        selected matches Err(error) ==> step_into(parent.place(), step@, resolved_steps as nat)
            == Err::<Section, DocumentPathError>(error),
{
    let siblings = parent.children();
    match step {
        SectionStep::Position(index) => pick_section(
            &references(siblings),
            Some(*index),
            resolved_steps,
        ),
        SectionStep::Named { slug, index } => pick_section(
            &filter_slug(&references(siblings), slug),
            *index,
            resolved_steps,
        ),
        SectionStep::Descendant { slug, index } => {
            let mut below: Vec<&'d Section> = Vec::new();
            collect_descendants(siblings, &mut below);
            assert(values(below@) =~= with_descendants(siblings@));
            pick_section(&filter_slug(&below, slug), *index, resolved_steps)
        },
    }
}

/// A node reached by at least one block step.
#[derive(Clone, Copy)]
enum BlockNode<'d> {
    Block(&'d Block),
    Item(&'d ListItem),
}

impl<'d> BlockNode<'d> {
    spec fn spec_node(self) -> NodeSpec {
        match self {
            BlockNode::Block(block) => NodeSpec::Block(*block),
            BlockNode::Item(item) => NodeSpec::Item(*item),
        }
    }

    fn node(self) -> (node: DocumentNode<'d>)
        ensures
            node@ == self.spec_node(),
    {
        match self {
            BlockNode::Block(block) => DocumentNode::Block(block),
            BlockNode::Item(item) => DocumentNode::Item(item),
        }
    }
}

/// Applies the first block step, which always selects a preamble block.
fn select_block<'d>(preamble: &Vec<&'d Block>, step: BlockStep) -> (selected: Option<
    BlockNode<'d>,
>)
    ensures
        ({
            let candidates = of_kind(values(preamble@), step.kind);
            &&& selected is Some <==> step.index < candidates.len()
            &&& selected matches Some(node) ==> node.spec_node() == NodeSpec::Block(
                candidates[step.index as int],
            )
        }),
{
    if !is_preamble_kind(step.kind) {
        proof {
            no_block_of_other_kinds(values(preamble@), step.kind);
        }
        return None;
    }
    let mut passed: usize = 0;
    let mut at: usize = 0;
    let ghost blocks = values(preamble@);
    while at < preamble.len()
        invariant
            at <= preamble@.len(),
            passed <= at,
            passed <= step.index,
            blocks == values(preamble@),
            of_kind(blocks.take(at as int), step.kind).len() == passed,
        decreases preamble.len() - at,
    {
        let block = preamble[at];
        proof {
            let taken = blocks.take(at + 1);
            assert(taken.drop_last() =~= blocks.take(at as int));
            assert(taken.last() == *block);
        }
        if BlockPathKind::of(block) == step.kind {
            if passed == step.index {
                proof {
                    of_kind_prefix(blocks, step.kind, at + 1);
                }
                return Some(BlockNode::Block(block));
            }
            passed += 1;
        }
        at += 1;
    }
    assert(blocks.take(at as int) =~= blocks);
    None
}

/// The blocks of a kind among the first `at` blocks come first among the
/// blocks of that kind.
pub proof fn of_kind_prefix(blocks: Seq<Block>, kind: BlockPathKind, at: int)
    requires
        0 <= at <= blocks.len(),
    ensures
        of_kind(blocks.take(at), kind).len() <= of_kind(blocks, kind).len(),
        forall|k: int|
            0 <= k < of_kind(blocks.take(at), kind).len() ==> of_kind(blocks.take(at), kind)[k]
                == #[trigger] of_kind(blocks, kind)[k],
    decreases blocks.len() - at,
{
    if at < blocks.len() {
        of_kind_prefix(blocks, kind, at + 1);
        assert(blocks.take(at + 1).drop_last() =~= blocks.take(at));
    } else {
        assert(blocks.take(at) =~= blocks);
    }
}

proof fn no_block_of_other_kinds(blocks: Seq<Block>, kind: BlockPathKind)
    requires
        !preamble_kind(kind),
    ensures
        of_kind(blocks, kind).len() == 0,
    decreases blocks.len(),
{
    if blocks.len() > 0 {
        no_block_of_other_kinds(blocks.drop_last(), kind);
    }
}

/// Applies a block step after another: only `list` followed by `item` is
/// answerable, because the model exposes no block below an item.
fn select_within<'d>(current: BlockNode<'d>, step: BlockStep) -> (selected: Option<BlockNode<'d>>)
    ensures
        selected matches Some(node) ==> (current.spec_node() matches NodeSpec::Block(
            Block::List(list),
        ) && step.kind == BlockPathKind::Item && step.index < list.items@.len()
            && node.spec_node() == NodeSpec::Item(list.items@[step.index as int])),
        selected is None ==> !(current.spec_node() matches NodeSpec::Block(Block::List(list))
            && step.kind == BlockPathKind::Item && step.index < list.items@.len()),
{
    match current {
        BlockNode::Block(Block::List(list)) => {
            if step.kind == BlockPathKind::Item && step.index < list.items.len() {
                Some(BlockNode::Item(&list.items[step.index]))
            } else {
                None
            }
        },
        _ => None,
    }
}

/// The kinds of direct preamble blocks.
pub open spec fn preamble_kind(kind: BlockPathKind) -> bool {
    ||| kind == BlockPathKind::Paragraph
    ||| kind == BlockPathKind::List
    ||| kind == BlockPathKind::Code
    ||| kind == BlockPathKind::Quote
    ||| kind == BlockPathKind::Html
    ||| kind == BlockPathKind::Break
}

fn is_preamble_kind(kind: BlockPathKind) -> (direct: bool)
    ensures
        direct == preamble_kind(kind),
{
    matches!(
        kind,
        BlockPathKind::Paragraph
            | BlockPathKind::List
            | BlockPathKind::Code
            | BlockPathKind::Quote
            | BlockPathKind::Html
            | BlockPathKind::Break
    )
}

impl DocumentPath {
    /// Follows the path through `document`.
    ///
    /// # Errors
    ///
    /// Returns [`DocumentPathError::Ambiguous`] when a named or descendant
    /// section step without an index matches several sections, and
    /// [`DocumentPathError::Unresolved`] when a step matches nothing: an
    /// unknown slug, an out-of-range index, a block kind absent from the
    /// preamble, or a step the model cannot answer: any table kind, any block
    /// step after an `item` step, and any second or later block step other
    /// than an `item` step directly after a `list` step, because the model
    /// exposes no block below another block (`$/p[0]/p[1]` and
    /// `$/list[0]/list[0]` parse but never resolve). Both carry the number of
    /// steps that resolved before the failure.
    pub fn resolve<'d>(&self, document: &'d Document) -> (node: Result<
        DocumentNode<'d>,
        DocumentPathError,
    >)
        requires
            self@.sections.len() + self@.blocks.len() <= usize::MAX,
        ensures
            node matches Ok(node) ==> resolved(*document, self@) == Ok::<
                NodeSpec,
                DocumentPathError,
            >(node@),
            node matches Err(error) ==> resolved(*document, self@) == Err::<
                NodeSpec,
                DocumentPathError,
            >(error),
    {
        let sections = self.sections();
        let ghost steps = self@.sections;
        let mut parent = Parent::Root(document);
        let mut at: usize = 0;
        while at < sections.len()
            invariant
                at <= sections@.len(),
                steps == step_specs(sections@),
                steps == self@.sections,
                reach(*document, steps.take(at as int)) == Ok::<Place, DocumentPathError>(
                    parent.place(),
                ),
            decreases sections.len() - at,
        {
            proof {
                assert(steps.take(at + 1).drop_last() =~= steps.take(at as int));
                assert(steps.take(at + 1).last() == sections@[at as int]@);
            }
            match select_section(&parent, &sections[at], at) {
                Ok(section) => {
                    parent = Parent::Section(section);
                },
                Err(error) => {
                    proof {
                        reach_fails_early(*document, steps, at + 1);
                    }
                    return Err(error);
                },
            }
            at += 1;
        }
        assert(steps.take(at as int) =~= steps);
        let blocks = self.blocks();
        if blocks.len() == 0 {
            return Ok(parent.node());
        }
        let preamble = parent.preamble();
        let ghost reached = place_blocks(parent.place());
        let mut current = match select_block(&preamble, blocks[0]) {
            Some(node) => node,
            None => {
                assert(blocks@.take(1).last() == blocks@[0]);
                proof {
                    descend_fails_early(reached, blocks@, steps.len(), 1);
                }
                return Err(DocumentPathError::Unresolved { resolved_steps: at });
            },
        };
        assert(blocks@.take(1).last() == blocks@[0]);
        let mut next: usize = 1;
        while next < blocks.len()
            invariant
                1 <= next <= blocks@.len(),
                blocks@ == self@.blocks,
                at == steps.len(),
                steps == self@.sections,
                self@.sections.len() + self@.blocks.len() <= usize::MAX,
                reach(*document, steps) == Ok::<Place, DocumentPathError>(parent.place()),
                reached == place_blocks(parent.place()),
                descend(reached, blocks@.take(next as int), steps.len()) == Ok::<
                    NodeSpec,
                    DocumentPathError,
                >(current.spec_node()),
            decreases blocks.len() - next,
        {
            proof {
                assert(blocks@.take(next + 1).drop_last() =~= blocks@.take(next as int));
                assert(blocks@.take(next + 1).last() == blocks@[next as int]);
            }
            match select_within(current, blocks[next]) {
                Some(node) => {
                    current = node;
                },
                None => {
                    proof {
                        descend_fails_early(reached, blocks@, steps.len(), next + 1);
                    }
                    return Err(DocumentPathError::Unresolved { resolved_steps: at + next });
                },
            }
            next += 1;
        }
        assert(blocks@.take(next as int) =~= blocks@);
        Ok(current.node())
    }
}

} // verus!
