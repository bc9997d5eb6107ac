//! What a path leads to, said of the document and of the spelling themselves.

use vstd::prelude::*;

use super::resolve::{
    descend, of_kind, pick, place_blocks, reach, resolved, step_into, with_descendants, with_slug,
    DocumentNode, NodeSpec,
};
use super::slug::slug_of;
use super::{
    block_spelling, blocks_spelling, path_spelling, sections_spelling, step_spelling,
    BlockPathKind, BlockStep, DocumentPathError, PathSpec, StepSpec,
};
use crate::document::{Block, Document, HeaderLevel, Section};
use crate::text::decimal;

verus! {

/// What a path with block steps resolves to is of the kind that its last step
/// names: a block of the variant with that name, or an item for `item`, which
/// stands behind a `list`. The kinds of tables lead nowhere.
pub proof fn resolved_nodes_are_of_the_kind_asked_for(
    document: Document,
    path: PathSpec,
    node: DocumentNode<'_>,
)
    requires
        path.blocks.len() > 0,
        resolved(document, path) == Ok::<NodeSpec, DocumentPathError>(node@),
    ensures
        ({
            let kind = path.blocks.last().kind;
            match node {
                DocumentNode::Root(_) => false,
                DocumentNode::Section(_) => false,
                DocumentNode::Block(block) => {
                    &&& path.blocks.len() == 1
                    &&& *block is Paragraph <==> kind == BlockPathKind::Paragraph
                    &&& *block is List <==> kind == BlockPathKind::List
                    &&& *block is Quote <==> kind == BlockPathKind::Quote
                    &&& *block is Code <==> kind == BlockPathKind::Code
                    &&& *block is Html <==> kind == BlockPathKind::Html
                    &&& *block is Break <==> kind == BlockPathKind::Break
                },
                DocumentNode::Item(_) => {
                    &&& path.blocks.len() == 2
                    &&& path.blocks[0].kind == BlockPathKind::List
                    &&& kind == BlockPathKind::Item
                },
            }
        }),
{
    let place = reach(document, path.sections)->Ok_0;
    let blocks = place_blocks(place);
    let steps = path.blocks;
    let resolved_steps = path.sections.len();
    blocks_are_of_their_kind(blocks, steps.last().kind);
    assert(descend(blocks, steps, resolved_steps) == Ok::<NodeSpec, DocumentPathError>(node@));
    if steps.len() > 1 {
        let before = steps.drop_last();
        assert(before.last() == steps[steps.len() - 2]);
        blocks_are_of_their_kind(blocks, before.last().kind);
        assert(descend(blocks, before, resolved_steps) matches Ok(NodeSpec::Block(Block::List(_))));
        if before.len() > 1 {
            assert(descend(blocks, before.drop_last(), resolved_steps) is Ok);
        }
    }
}

/// Two blocks of the same variant.
pub open spec fn alike(one: Block, two: Block) -> bool {
    ||| one is Paragraph && two is Paragraph
    ||| one is List && two is List
    ||| one is Quote && two is Quote
    ||| one is Code && two is Code
    ||| one is Html && two is Html
    ||| one is Break && two is Break
}

/// How many of the first `count` blocks are of the variant of `block`.
pub open spec fn alike_before(blocks: Seq<Block>, block: Block, count: int) -> nat
    decreases count,
{
    if count <= 0 || count > blocks.len() {
        0
    } else {
        alike_before(blocks, block, count - 1) + if alike(blocks[count - 1], block) {
            1nat
        } else {
            0nat
        }
    }
}

proof fn blocks_are_of_their_kind(blocks: Seq<Block>, kind: BlockPathKind)
    ensures
        forall|at: int|
            0 <= at < of_kind(blocks, kind).len() ==> {
                let block = #[trigger] of_kind(blocks, kind)[at];
                &&& block is Paragraph <==> kind == BlockPathKind::Paragraph
                &&& block is List <==> kind == BlockPathKind::List
                &&& block is Quote <==> kind == BlockPathKind::Quote
                &&& block is Code <==> kind == BlockPathKind::Code
                &&& block is Html <==> kind == BlockPathKind::Html
                &&& block is Break <==> kind == BlockPathKind::Break
            },
    decreases blocks.len(),
{
    if blocks.len() > 0 {
        blocks_are_of_their_kind(blocks.drop_last(), kind);
        let before = of_kind(blocks.drop_last(), kind);
        assert forall|at: int| 0 <= at < of_kind(blocks, kind).len() implies {
            let block = #[trigger] of_kind(blocks, kind)[at];
            &&& block is Paragraph <==> kind == BlockPathKind::Paragraph
            &&& block is List <==> kind == BlockPathKind::List
            &&& block is Quote <==> kind == BlockPathKind::Quote
            &&& block is Code <==> kind == BlockPathKind::Code
            &&& block is Html <==> kind == BlockPathKind::Html
            &&& block is Break <==> kind == BlockPathKind::Break
        } by {
            if at < before.len() {
                assert(of_kind(blocks, kind)[at] == before[at]);
            }
        }
    }
}

proof fn kinds_are_counted(blocks: Seq<Block>, kind: BlockPathKind, block: Block)
    requires
        block is Paragraph <==> kind == BlockPathKind::Paragraph,
        block is List <==> kind == BlockPathKind::List,
        block is Quote <==> kind == BlockPathKind::Quote,
        block is Code <==> kind == BlockPathKind::Code,
        block is Html <==> kind == BlockPathKind::Html,
        block is Break <==> kind == BlockPathKind::Break,
    ensures
        of_kind(blocks, kind).len() == alike_before(blocks, block, blocks.len() as int),
        forall|at: int|
            0 <= at < blocks.len() && alike(#[trigger] blocks[at], block) ==> {
                let index = alike_before(blocks, block, at) as int;
                index < of_kind(blocks, kind).len() && of_kind(blocks, kind)[index] == blocks[at]
            },
    decreases blocks.len(),
{
    if blocks.len() > 0 {
        let before = blocks.drop_last();
        kinds_are_counted(before, kind, block);
        assert forall|at: int| 0 <= at <= before.len() implies #[trigger] alike_before(
            before,
            block,
            at,
        ) == alike_before(blocks, block, at) by {
            counts_are_shared(before, blocks, block, at);
        }
        assert forall|at: int|
            0 <= at < blocks.len() && alike(#[trigger] blocks[at], block) implies {
            let index = alike_before(blocks, block, at) as int;
            index < of_kind(blocks, kind).len() && of_kind(blocks, kind)[index] == blocks[at]
        } by {
            assert(alike_before(before, block, at) == alike_before(blocks, block, at));
            if at < before.len() {
                assert(before[at] == blocks[at]);
            }
        }
        assert(alike_before(before, block, before.len() as int) == alike_before(
            blocks,
            block,
            before.len() as int,
        ));
    }
}

proof fn counts_are_shared(before: Seq<Block>, blocks: Seq<Block>, block: Block, count: int)
    requires
        blocks.len() == before.len() + 1,
        before == blocks.drop_last(),
        0 <= count <= before.len(),
    ensures
        alike_before(before, block, count) == alike_before(blocks, block, count),
    decreases count,
{
    if count > 0 {
        counts_are_shared(before, blocks, block, count - 1);
        assert(before[count - 1] == blocks[count - 1]);
    }
}

/// A block step counts the blocks of its kind among those directly below a
/// node: those of a section, or those before the first heading of a document,
/// which the blocks of its title follow where its sole top-level section is
/// opened by a first-level heading. Every such block is reached by its kind
/// and the number of blocks of that kind before it, and an index beyond them
/// leads nowhere.
pub proof fn block_steps_count_blocks_of_their_kind(
    document: Document,
    path: PathSpec,
    blocks: Seq<Block>,
    at: int,
    step: BlockStep,
)
    requires
        path.blocks.len() == 0,
        match resolved(document, path) {
            Ok(NodeSpec::Section(section)) => blocks == section.preamble.blocks@,
            Ok(NodeSpec::Root(root)) => blocks == if root.sections@.len() == 1
                && root.sections@[0].heading.level == HeaderLevel::H1 {
                root.preamble.blocks@ + root.sections@[0].preamble.blocks@
            } else {
                root.preamble.blocks@
            },
            _ => false,
        },
        0 <= at < blocks.len(),
        blocks[at] is Paragraph <==> step.kind == BlockPathKind::Paragraph,
        blocks[at] is List <==> step.kind == BlockPathKind::List,
        blocks[at] is Quote <==> step.kind == BlockPathKind::Quote,
        blocks[at] is Code <==> step.kind == BlockPathKind::Code,
        blocks[at] is Html <==> step.kind == BlockPathKind::Html,
        blocks[at] is Break <==> step.kind == BlockPathKind::Break,
    ensures
        ({
            let longer = PathSpec { sections: path.sections, blocks: seq![step] };
            &&& step.index == alike_before(blocks, blocks[at], at) ==> resolved(document, longer)
                == Ok::<NodeSpec, DocumentPathError>(NodeSpec::Block(blocks[at]))
            &&& step.index >= alike_before(blocks, blocks[at], blocks.len() as int) ==> (resolved(
                document,
                longer,
            ) matches Err(DocumentPathError::Unresolved { .. }))
        }),
{
    kinds_are_counted(blocks, step.kind, blocks[at]);
    assert(alike(blocks[at], blocks[at]));
    assert(place_blocks(reach(document, path.sections)->Ok_0) =~= blocks);
    assert(seq![step].last() == step);
}

/// Behind a step that leads to a list, `item` selects its items by their
/// position; nothing else can follow a block.
pub proof fn item_steps_select_items_of_the_list(
    document: Document,
    path: PathSpec,
    block: Block,
    step: BlockStep,
)
    requires
        path.blocks.len() == 1,
        resolved(document, path) == Ok::<NodeSpec, DocumentPathError>(NodeSpec::Block(block)),
    ensures
        ({
            let longer = PathSpec { sections: path.sections, blocks: path.blocks.push(step) };
            match resolved(document, longer) {
                Ok(NodeSpec::Item(item)) => {
                    &&& step.kind == BlockPathKind::Item
                    &&& (block matches Block::List(list) && step.index < list.items@.len()
                        && item == list.items@[step.index as int])
                },
                Ok(_) => false,
                Err(DocumentPathError::Unresolved { .. }) => !(step.kind == BlockPathKind::Item
                    && block is List && step.index < block->List_0.items@.len()),
                Err(_) => false,
            }
        }),
{
    let steps = path.blocks.push(step);
    assert(steps.drop_last() =~= path.blocks);
    assert(steps.last() == step);
    reveal_with_fuel(descend, 2);
}

/// How many of the first `count` sections have headings with the slug.
pub open spec fn named_before(sections: Seq<Section>, slug: Seq<char>, count: int) -> nat
    decreases count,
{
    if count <= 0 || count > sections.len() {
        0
    } else {
        named_before(sections, slug, count - 1) + if slug_of(sections[count - 1].heading.text@)
            == Some(slug) {
            1nat
        } else {
            0nat
        }
    }
}

proof fn names_are_shared(before: Seq<Section>, sections: Seq<Section>, slug: Seq<char>, count: int)
    requires
        sections.len() == before.len() + 1,
        before == sections.drop_last(),
        0 <= count <= before.len(),
    ensures
        named_before(before, slug, count) == named_before(sections, slug, count),
    decreases count,
{
    if count > 0 {
        names_are_shared(before, sections, slug, count - 1);
        assert(before[count - 1] == sections[count - 1]);
    }
}

proof fn names_are_counted(sections: Seq<Section>, slug: Seq<char>)
    ensures
        with_slug(sections, slug).len() == named_before(sections, slug, sections.len() as int),
        forall|at: int|
            0 <= at < sections.len() && slug_of((#[trigger] sections[at]).heading.text@) == Some(
                slug,
            ) ==> {
                let index = named_before(sections, slug, at) as int;
                index < with_slug(sections, slug).len() && with_slug(sections, slug)[index]
                    == sections[at]
            },
        forall|k: int|
            0 <= k < with_slug(sections, slug).len() ==> slug_of(
                (#[trigger] with_slug(sections, slug)[k]).heading.text@,
            ) == Some(slug) && sections.contains(with_slug(sections, slug)[k]),
    decreases sections.len(),
{
    if sections.len() > 0 {
        let before = sections.drop_last();
        names_are_counted(before, slug);
        assert forall|at: int| 0 <= at <= before.len() implies #[trigger] named_before(
            before,
            slug,
            at,
        ) == named_before(sections, slug, at) by {
            names_are_shared(before, sections, slug, at);
        }
        assert forall|at: int|
            0 <= at < sections.len() && slug_of((#[trigger] sections[at]).heading.text@) == Some(
                slug,
            ) implies {
            let index = named_before(sections, slug, at) as int;
            index < with_slug(sections, slug).len() && with_slug(sections, slug)[index]
                == sections[at]
        } by {
            assert(named_before(before, slug, at) == named_before(sections, slug, at));
            if at < before.len() {
                assert(before[at] == sections[at]);
            }
        }
        assert(named_before(before, slug, before.len() as int) == named_before(
            sections,
            slug,
            before.len() as int,
        ));
        assert forall|k: int| 0 <= k < with_slug(sections, slug).len() implies slug_of(
            (#[trigger] with_slug(sections, slug)[k]).heading.text@,
        ) == Some(slug) && sections.contains(with_slug(sections, slug)[k]) by {
            let earlier = with_slug(before, slug);
            if k < earlier.len() {
                assert(with_slug(sections, slug)[k] == earlier[k]);
                let at = choose|at: int| 0 <= at < before.len() && before[at] == earlier[k];
                assert(sections[at] == earlier[k]);
            } else {
                assert(sections[sections.len() - 1] == sections.last());
            }
        }
    }
}

proof fn counts_do_not_shrink(sections: Seq<Section>, slug: Seq<char>, less: int, more: int)
    requires
        0 <= less <= more <= sections.len(),
    ensures
        named_before(sections, slug, less) <= named_before(sections, slug, more),
    decreases more - less,
{
    if less < more {
        counts_do_not_shrink(sections, slug, less, more - 1);
    }
}

/// A bare position selects the section at that position among the children of
/// a node: those of a section, or the top-level sections of a document, or the
/// children of its title where its sole top-level section is opened by a
/// first-level heading.
pub proof fn positions_select_children(
    document: Document,
    path: PathSpec,
    children: Seq<Section>,
    index: usize,
)
    requires
        path.blocks.len() == 0,
        match resolved(document, path) {
            Ok(NodeSpec::Section(section)) => children == section.children@,
            Ok(NodeSpec::Root(root)) => children == if root.sections@.len() == 1
                && root.sections@[0].heading.level == HeaderLevel::H1 {
                root.sections@[0].children@
            } else {
                root.sections@
            },
            _ => false,
        },
    ensures
        ({
            let longer = PathSpec {
                sections: path.sections.push(StepSpec::Position(index)),
                blocks: path.blocks,
            };
            if index < children.len() {
                resolved(document, longer) == Ok::<NodeSpec, DocumentPathError>(
                    NodeSpec::Section(children[index as int]),
                )
            } else {
                resolved(document, longer) matches Err(DocumentPathError::Unresolved { .. })
            }
        }),
{
    let steps = path.sections.push(StepSpec::Position(index));
    assert(steps.drop_last() =~= path.sections);
    assert(steps.last() == StepSpec::Position(index));
}

/// A named step selects the child whose heading slugs to the name, a
/// descendant step the section anywhere below: by the number of such sections
/// before it, or without a number where there is no other. Several without a
/// number are ambiguous.
pub proof fn names_select_sections_with_that_slug(
    document: Document,
    path: PathSpec,
    children: Seq<Section>,
    slug: Seq<char>,
    anywhere: bool,
    at: int,
    index: usize,
)
    requires
        path.blocks.len() == 0,
        match resolved(document, path) {
            Ok(NodeSpec::Section(section)) => children == section.children@,
            Ok(NodeSpec::Root(root)) => children == if root.sections@.len() == 1
                && root.sections@[0].heading.level == HeaderLevel::H1 {
                root.sections@[0].children@
            } else {
                root.sections@
            },
            _ => false,
        },
    ensures
        ({
            let candidates = if anywhere {
                with_descendants(children)
            } else {
                children
            };
            let numbered = PathSpec {
                sections: path.sections.push(
                    if anywhere {
                        StepSpec::Descendant(slug, Some(index))
                    } else {
                        StepSpec::Named(slug, Some(index))
                    },
                ),
                blocks: path.blocks,
            };
            let bare = PathSpec {
                sections: path.sections.push(
                    if anywhere {
                        StepSpec::Descendant(slug, None)
                    } else {
                        StepSpec::Named(slug, None)
                    },
                ),
                blocks: path.blocks,
            };
            let all = named_before(candidates, slug, candidates.len() as int);
            &&& 0 <= at < candidates.len() && slug_of(candidates[at].heading.text@) == Some(slug)
                ==> {
                &&& index == named_before(candidates, slug, at) ==> resolved(document, numbered)
                    == Ok::<NodeSpec, DocumentPathError>(NodeSpec::Section(candidates[at]))
                &&& all == 1 ==> resolved(document, bare) == Ok::<NodeSpec, DocumentPathError>(
                    NodeSpec::Section(candidates[at]),
                )
            }
            &&& index >= all ==> (resolved(document, numbered) matches Err(
                DocumentPathError::Unresolved { .. },
            ))
            &&& all == 0 ==> (resolved(document, bare) matches Err(
                DocumentPathError::Unresolved { .. },
            ))
            &&& all > 1 ==> (resolved(document, bare) matches Err(
                DocumentPathError::Ambiguous { candidates: count, .. },
            ) && count == all as usize)
            &&& resolved(document, bare) is Ok ==> {
                &&& resolved(document, bare)->Ok_0 is Section
                &&& slug_of(resolved(document, bare)->Ok_0->Section_0.heading.text@) == Some(slug)
                &&& candidates.contains(resolved(document, bare)->Ok_0->Section_0)
            }
        }),
{
    let candidates = if anywhere {
        with_descendants(children)
    } else {
        children
    };
    names_are_counted(candidates, slug);
    let numbered = if anywhere {
        StepSpec::Descendant(slug, Some(index))
    } else {
        StepSpec::Named(slug, Some(index))
    };
    let bare = if anywhere {
        StepSpec::Descendant(slug, None)
    } else {
        StepSpec::Named(slug, None)
    };
    assert(path.sections.push(numbered).drop_last() =~= path.sections);
    assert(path.sections.push(bare).drop_last() =~= path.sections);
    let place = reach(document, path.sections)->Ok_0;
    let resolved_steps = path.sections.len();
    assert(step_into(place, numbered, resolved_steps) == pick(
        with_slug(candidates, slug),
        Some(index),
        resolved_steps,
    ));
    assert(step_into(place, bare, resolved_steps) == pick(
        with_slug(candidates, slug),
        None,
        resolved_steps,
    ));
    if 0 <= at < candidates.len() && slug_of(candidates[at].heading.text@) == Some(slug) {
        assert(candidates[at] == with_slug(candidates, slug)[named_before(
            candidates,
            slug,
            at,
        ) as int]);
        counts_do_not_shrink(candidates, slug, at + 1, candidates.len() as int);
    }
}

/// The sections below are taken in document order: each section, what is below
/// it, and only then the next.
pub proof fn sections_below_are_in_document_order(first: Section, rest: Seq<Section>)
    ensures
        with_descendants(seq![first] + rest) == seq![first] + with_descendants(first.children@)
            + with_descendants(rest),
        with_descendants(Seq::empty()) == Seq::<Section>::empty(),
    decreases rest.len(),
{
    let all = seq![first] + rest;
    if rest.len() == 0 {
        assert(all =~= seq![first]);
        assert(all.drop_last() =~= Seq::empty());
        assert(with_descendants(all.drop_last()) =~= Seq::empty());
        assert(rest =~= Seq::empty());
        assert(with_descendants(all) =~= seq![first] + with_descendants(first.children@)
            + with_descendants(rest));
    } else {
        sections_below_are_in_document_order(first, rest.drop_last());
        assert(all.drop_last() =~= seq![first] + rest.drop_last());
        assert(all.last() == rest.last());
        assert(with_descendants(all) =~= seq![first] + with_descendants(first.children@)
            + with_descendants(rest));
    }
}

/// The empty path leads to the document itself.
pub proof fn the_root_path_leads_to_the_document(document: Document)
    ensures
        resolved(document, PathSpec { sections: Seq::empty(), blocks: Seq::empty() }) == Ok::<
            NodeSpec,
            DocumentPathError,
        >(NodeSpec::Root(document)),
{
}

proof fn sections_spelling_grows(steps: Seq<StepSpec>, step: StepSpec)
    ensures
        sections_spelling(steps.push(step)) == sections_spelling(steps) + step_spelling(
            step,
        ),
    decreases steps.len(),
{
    let all = steps.push(step);
    if steps.len() == 0 {
        assert(all.skip(1) =~= Seq::empty());
        assert(sections_spelling(all.skip(1)) =~= Seq::empty());
        assert(sections_spelling(all) =~= sections_spelling(steps) + step_spelling(step));
    } else {
        assert(all.skip(1) =~= steps.skip(1).push(step));
        sections_spelling_grows(steps.skip(1), step);
        assert(sections_spelling(all) =~= sections_spelling(steps) + step_spelling(step));
    }
}

proof fn blocks_spelling_grows(steps: Seq<BlockStep>, step: BlockStep)
    ensures
        blocks_spelling(steps.push(step)) == blocks_spelling(steps) + block_spelling(step),
    decreases steps.len(),
{
    let all = steps.push(step);
    if steps.len() == 0 {
        assert(all.skip(1) =~= Seq::empty());
        assert(blocks_spelling(all.skip(1)) =~= Seq::empty());
        assert(blocks_spelling(all) =~= blocks_spelling(steps) + block_spelling(step));
    } else {
        assert(all.skip(1) =~= steps.skip(1).push(step));
        blocks_spelling_grows(steps.skip(1), step);
        assert(blocks_spelling(all) =~= blocks_spelling(steps) + block_spelling(step));
    }
}

/// A path is spelled step by step: `$`, then `.` and the slug of a child, `..`
/// and the slug of a descendant, or `.` before a bare position, each position
/// in decimal digits between brackets.
pub proof fn section_steps_are_spelled_behind_the_path(
    sections: Seq<StepSpec>,
    slug: Seq<char>,
    index: usize,
)
    ensures
        ({
            let path = PathSpec { sections, blocks: Seq::empty() };
            let spelled = path_spelling(path);
            let with = |step: StepSpec|
                path_spelling(PathSpec { sections: sections.push(step), blocks: Seq::empty() });
            let number = "["@ + decimal(index as nat) + "]"@;
            &&& with(StepSpec::Named(slug, None)) == spelled + "."@ + slug
            &&& with(StepSpec::Named(slug, Some(index))) == spelled + "."@ + slug + number
            &&& with(StepSpec::Descendant(slug, None)) == spelled + ".."@ + slug
            &&& with(StepSpec::Descendant(slug, Some(index))) == spelled + ".."@ + slug + number
            &&& with(StepSpec::Position(index)) == spelled + "."@ + number
        }),
        path_spelling(PathSpec { sections: Seq::empty(), blocks: Seq::empty() }) == "$"@,
{
    reveal_strlit("$");
    reveal_strlit(".");
    reveal_strlit("..");
    reveal_strlit("[");
    reveal_strlit("]");
    let spelled = path_spelling(PathSpec { sections, blocks: Seq::empty() });
    let number = "["@ + decimal(index as nat) + "]"@;
    let with = |step: StepSpec|
        path_spelling(PathSpec { sections: sections.push(step), blocks: Seq::empty() });
    sections_spelling_grows(sections, StepSpec::Named(slug, None));
    sections_spelling_grows(sections, StepSpec::Named(slug, Some(index)));
    sections_spelling_grows(sections, StepSpec::Descendant(slug, None));
    sections_spelling_grows(sections, StepSpec::Descendant(slug, Some(index)));
    sections_spelling_grows(sections, StepSpec::Position(index));
    assert(with(StepSpec::Named(slug, None)) =~= spelled + "."@ + slug);
    assert(with(StepSpec::Named(slug, Some(index))) =~= spelled + "."@ + slug + number);
    assert(with(StepSpec::Descendant(slug, None)) =~= spelled + ".."@ + slug);
    assert(with(StepSpec::Descendant(slug, Some(index))) =~= spelled + ".."@ + slug + number);
    assert(with(StepSpec::Position(index)) =~= spelled + "."@ + number);
    assert(path_spelling(PathSpec { sections: Seq::empty(), blocks: Seq::empty() }) =~= "$"@);
}

/// Block steps are spelled behind the path: `/`, the keyword of the kind, and
/// the position between brackets.
pub proof fn block_steps_are_spelled_by_their_keyword(path: PathSpec, step: BlockStep)
    ensures
        ({
            let longer = PathSpec { sections: path.sections, blocks: path.blocks.push(step) };
            let keyword = match step.kind {
                BlockPathKind::Paragraph => "/p["@,
                BlockPathKind::List => "/list["@,
                BlockPathKind::Item => "/item["@,
                BlockPathKind::Table => "/table["@,
                BlockPathKind::Row => "/row["@,
                BlockPathKind::Cell => "/cell["@,
                BlockPathKind::Column => "/col["@,
                BlockPathKind::Code => "/code["@,
                BlockPathKind::Quote => "/quote["@,
                BlockPathKind::Html => "/html["@,
                BlockPathKind::Break => "/break["@,
            };
            path_spelling(longer) == path_spelling(path) + keyword + decimal(step.index as nat)
                + "]"@
        }),
{
    reveal_strlit("]");
    reveal_strlit("p");
    reveal_strlit("list");
    reveal_strlit("item");
    reveal_strlit("table");
    reveal_strlit("row");
    reveal_strlit("cell");
    reveal_strlit("col");
    reveal_strlit("code");
    reveal_strlit("quote");
    reveal_strlit("html");
    reveal_strlit("break");
    reveal_strlit("/p[");
    reveal_strlit("/list[");
    reveal_strlit("/item[");
    reveal_strlit("/table[");
    reveal_strlit("/row[");
    reveal_strlit("/cell[");
    reveal_strlit("/col[");
    reveal_strlit("/code[");
    reveal_strlit("/quote[");
    reveal_strlit("/html[");
    reveal_strlit("/break[");
    blocks_spelling_grows(path.blocks, step);
    let longer = PathSpec { sections: path.sections, blocks: path.blocks.push(step) };
    let keyword = match step.kind {
        BlockPathKind::Paragraph => "/p["@,
        BlockPathKind::List => "/list["@,
        BlockPathKind::Item => "/item["@,
        BlockPathKind::Table => "/table["@,
        BlockPathKind::Row => "/row["@,
        BlockPathKind::Cell => "/cell["@,
        BlockPathKind::Column => "/col["@,
        BlockPathKind::Code => "/code["@,
        BlockPathKind::Quote => "/quote["@,
        BlockPathKind::Html => "/html["@,
        BlockPathKind::Break => "/break["@,
    };
    assert(block_spelling(step) =~= keyword + decimal(step.index as nat) + "]"@);
    assert(path_spelling(longer) =~= path_spelling(path) + keyword + decimal(step.index as nat)
        + "]"@);
}

} // verus!
