//! Addressing one concrete node of a parsed Markdown [`Document`].
//!
//! A document path names a node of a parsed document: the document root, a
//! section opened by a heading, one visible direct block of the root's or a
//! section's preamble, or one direct item of such a list. It is a
//! *document-side* address, so a tool can point at a heading or block in a
//! concrete file and later find the same node again, or enumerate every
//! addressable node of a document with [`document_paths`].
//!
//! # Grammar
//!
//! ```text
//! doc-path     = "$" *( "." section-seg ) [ "/" block-seg *( "/" block-seg ) ]
//! section-seg  = slug [ "[" index "]" ]
//!              / "." slug [ "[" index "]" ]
//!              / "[" index "]"
//! block-seg    = kind [ "[" index "]" ]
//! kind         = "p" | "list" | "item" | "table" | "row" | "cell" | "col"
//!              | "code" | "quote" | "html" | "break"
//! index        = "0" / [1-9][0-9]*
//! slug         = [a-z0-9]+(-[a-z0-9]+)*
//! ```
//!
//! Every path starts at the root, `$`. Each `.` descends into a child section
//! of the node reached so far, each `..` into a section anywhere below it, and
//! a final run of `/` steps descends into the preamble blocks of that section
//! (or of the root when no section step precedes them).
//!
//! A sole top-level section opened by a first-level heading is the document's
//! title. It is merged into the root: its children are the root's children,
//! its blocks continue the root's blocks, and it has no address of its own.
//!
//! A named step `slug` selects the sibling whose heading slugs to `slug`; when
//! several siblings share the slug the step is ambiguous and `slug[i]` must
//! pick the `i`-th of them in document order. A descendant step `..slug` does
//! the same among all sections below the current node. A positional step `[i]`
//! selects the `i`-th sibling section regardless of its heading, which is the
//! only way to reach a heading whose slug is empty.
//!
//! A block step `kind[i]` selects the `i`-th block *of that kind* among the
//! parent's direct preamble blocks. The index may be omitted and then defaults
//! to `0`; the canonical spelling always writes it. An `item[i]` step is only
//! valid directly after a `list` step and selects the list's `i`-th direct
//! item. Indices everywhere are zero-based.
//!
//! The kinds `table`, `row`, `cell`, and `col` are reserved for a table model
//! that the parsed document does not expose; paths using them parse but never
//! resolve.
//!
//! # Examples
//!
//! ```text
//! $                                   the document root
//! $.deployment.rollback-plan          a nested section by slug
//! $.faq.question[2]                   the third sibling section slugging to `question`
//! $..rollback-plan                    the one section of that slug, at any depth
//! $.[2]                               the third top-level section, whatever its heading
//! $.setup/p[0]                        the first paragraph under "Setup"
//! $.setup/list[0]/item[3]             the fourth item of the first list under "Setup"
//! $/p[0]                              the first paragraph before any heading
//! ```

use vstd::prelude::*;

use crate::document::Block;
use crate::load_result::ByteOffset;
use crate::text::{decimal_text, same_text};

pub mod canonical;
pub mod continuation;
pub mod coverage;
pub mod enumerate;
pub mod extent;
pub mod meaning;
pub mod naming;
pub mod resolve;
pub mod slug;
pub mod syntax;

pub use enumerate::document_paths;
pub use resolve::{merged_title, DocumentNode};
pub use slug::{heading_slug, HeadingSlug};

use crate::text::decimal;
use slug::has_slug_form;

verus! {

/// One `.` step of a document path, selecting a section.
#[derive(Debug, PartialEq, Eq, Hash)]
pub enum SectionStep {
    /// The sibling section whose heading slugs to `slug`.
    ///
    /// Without an index the step resolves only when exactly one sibling has
    /// that slug; with `index`, it selects the `index`-th such sibling in
    /// document order.
    Named {
        /// Slug the heading must produce under [`heading_slug`].
        slug: HeadingSlug,
        /// Zero-based position among the siblings sharing the slug.
        index: Option<usize>,
    },
    /// The section below the current node, at any depth, whose heading slugs
    /// to `slug`.
    ///
    /// Without an index the step resolves only when exactly one such section
    /// exists; with `index`, it selects the `index`-th in document order.
    Descendant {
        /// Slug the heading must produce under [`heading_slug`].
        slug: HeadingSlug,
        /// Zero-based position among the descendants sharing the slug.
        index: Option<usize>,
    },
    /// The `index`-th sibling section in document order, regardless of slug.
    Position(usize),
}

/// What a section step says.
pub enum StepSpec {
    /// See [`SectionStep::Named`].
    Named(Seq<char>, Option<usize>),
    /// See [`SectionStep::Descendant`].
    Descendant(Seq<char>, Option<usize>),
    /// See [`SectionStep::Position`].
    Position(usize),
}

impl View for SectionStep {
    type V = StepSpec;

    open spec fn view(&self) -> StepSpec {
        match *self {
            SectionStep::Named { slug, index } => StepSpec::Named(slug@, index),
            SectionStep::Descendant { slug, index } => StepSpec::Descendant(slug@, index),
            SectionStep::Position(index) => StepSpec::Position(index),
        }
    }
}

impl Clone for SectionStep {
    fn clone(&self) -> (copy: Self)
        ensures
            copy == *self,
    {
        match self {
            SectionStep::Named { slug, index } => SectionStep::Named {
                slug: slug.clone(),
                index: *index,
            },
            SectionStep::Descendant { slug, index } => SectionStep::Descendant {
                slug: slug.clone(),
                index: *index,
            },
            SectionStep::Position(index) => SectionStep::Position(*index),
        }
    }
}

impl SectionStep {
    /// The same step; its slug, if it has one, has the slug form.
    fn checked(self) -> (step: Self)
        ensures
            step == self,
            step_well_formed(step@),
    {
        match &self {
            SectionStep::Named { slug, .. } => {
                let _text = slug.as_str();
            },
            SectionStep::Descendant { slug, .. } => {
                let _text = slug.as_str();
            },
            SectionStep::Position(_) => {},
        }
        self
    }
}

/// The steps that `steps` say, in order.
pub open spec fn step_specs(steps: Seq<SectionStep>) -> Seq<StepSpec> {
    steps.map_values(|step: SectionStep| step@)
}

/// The kind named by a block step.
///
/// The variants are the keywords of the path grammar. `Paragraph`, `List`,
/// `Quote`, `Code`, `Html`, and `Break` correspond to the variants of
/// [`Block`]; `Item` selects a list item, and the table kinds are reserved
/// for a table model that is not exposed.
#[derive(Debug, Clone, Copy, PartialEq, Eq, PartialOrd, Ord, Hash, Structural)]
#[non_exhaustive]
pub enum BlockPathKind {
    /// `p`: a paragraph.
    Paragraph,
    /// `list`: a list.
    List,
    /// `item`: a direct item of the preceding list step.
    Item,
    /// `table`: reserved for a table.
    Table,
    /// `row`: reserved for a table row.
    Row,
    /// `cell`: reserved for a table cell.
    Cell,
    /// `col`: reserved for a table column.
    Column,
    /// `code`: a fenced or indented code block.
    Code,
    /// `quote`: a block quote.
    Quote,
    /// `html`: a visible HTML block.
    Html,
    /// `break`: a thematic break.
    Break,
}

/// The keyword spelling `kind` in a path.
pub open spec fn keyword_of(kind: BlockPathKind) -> Seq<char> {
    match kind {
        BlockPathKind::Paragraph => "p"@,
        BlockPathKind::List => "list"@,
        BlockPathKind::Item => "item"@,
        BlockPathKind::Table => "table"@,
        BlockPathKind::Row => "row"@,
        BlockPathKind::Cell => "cell"@,
        BlockPathKind::Column => "col"@,
        BlockPathKind::Code => "code"@,
        BlockPathKind::Quote => "quote"@,
        BlockPathKind::Html => "html"@,
        BlockPathKind::Break => "break"@,
    }
}

/// The kind that addresses `block`.
pub open spec fn kind_of(block: Block) -> BlockPathKind {
    match block {
        Block::Paragraph(_) => BlockPathKind::Paragraph,
        Block::List(_) => BlockPathKind::List,
        Block::Quote(_) => BlockPathKind::Quote,
        Block::Code(_) => BlockPathKind::Code,
        Block::Html(_) => BlockPathKind::Html,
        Block::Break(_) => BlockPathKind::Break,
    }
}

impl BlockPathKind {
    /// Returns the keyword spelling this kind in a path.
    pub fn keyword(self) -> (keyword: &'static str)
        ensures
            keyword@ == keyword_of(self),
    {
        match self {
            BlockPathKind::Paragraph => "p",
            BlockPathKind::List => "list",
            BlockPathKind::Item => "item",
            BlockPathKind::Table => "table",
            BlockPathKind::Row => "row",
            BlockPathKind::Cell => "cell",
            BlockPathKind::Column => "col",
            BlockPathKind::Code => "code",
            BlockPathKind::Quote => "quote",
            BlockPathKind::Html => "html",
            BlockPathKind::Break => "break",
        }
    }

    /// The kind that `keyword` spells, if it spells one.
    pub(crate) fn from_keyword(keyword: &str) -> (kind: Option<Self>)
        ensures
            kind is Some ==> keyword_of(kind->0) == keyword@,
            kind is None ==> forall|other: BlockPathKind| keyword_of(other) != keyword@,
    {
        if same_text(keyword, BlockPathKind::Paragraph.keyword()) {
            Some(BlockPathKind::Paragraph)
        } else if same_text(keyword, BlockPathKind::List.keyword()) {
            Some(BlockPathKind::List)
        } else if same_text(keyword, BlockPathKind::Item.keyword()) {
            Some(BlockPathKind::Item)
        } else if same_text(keyword, BlockPathKind::Table.keyword()) {
            Some(BlockPathKind::Table)
        } else if same_text(keyword, BlockPathKind::Row.keyword()) {
            Some(BlockPathKind::Row)
        } else if same_text(keyword, BlockPathKind::Cell.keyword()) {
            Some(BlockPathKind::Cell)
        } else if same_text(keyword, BlockPathKind::Column.keyword()) {
            Some(BlockPathKind::Column)
        } else if same_text(keyword, BlockPathKind::Code.keyword()) {
            Some(BlockPathKind::Code)
        } else if same_text(keyword, BlockPathKind::Quote.keyword()) {
            Some(BlockPathKind::Quote)
        } else if same_text(keyword, BlockPathKind::Html.keyword()) {
            Some(BlockPathKind::Html)
        } else if same_text(keyword, BlockPathKind::Break.keyword()) {
            Some(BlockPathKind::Break)
        } else {
            None
        }
    }

    /// The kind that addresses `block`.
    pub(crate) fn of(block: &Block) -> (kind: Self)
        ensures
            kind == kind_of(*block),
    {
        match block {
            Block::Paragraph(_) => BlockPathKind::Paragraph,
            Block::List(_) => BlockPathKind::List,
            Block::Quote(_) => BlockPathKind::Quote,
            Block::Code(_) => BlockPathKind::Code,
            Block::Html(_) => BlockPathKind::Html,
            Block::Break(_) => BlockPathKind::Break,
        }
    }
}

/// One `/` step of a document path, selecting a block or list item.
#[derive(Debug, Clone, Copy, PartialEq, Eq, Hash, Structural)]
pub struct BlockStep {
    /// The kind of node selected.
    pub kind: BlockPathKind,
    /// Zero-based position among the parent's nodes of that kind.
    pub index: usize,
}

/// What a document path says: section steps, then block steps.
#[verifier::ext_equal]
pub struct PathSpec {
    /// The section steps in path order.
    pub sections: Seq<StepSpec>,
    /// The block steps in path order.
    pub blocks: Seq<BlockStep>,
}

/// An `item` step at `at` directly follows a `list` step.
pub open spec fn item_follows_list(blocks: Seq<BlockStep>, at: int) -> bool {
    blocks[at].kind == BlockPathKind::Item ==> at > 0 && blocks[at - 1].kind == BlockPathKind::List
}

/// Every `item` step directly follows a `list` step.
pub open spec fn items_follow_lists(blocks: Seq<BlockStep>) -> bool {
    forall|at: int| 0 <= at < blocks.len() ==> #[trigger] item_follows_list(blocks, at)
}

/// The slug of a named or descendant step has the slug form.
pub open spec fn step_well_formed(step: StepSpec) -> bool {
    match step {
        StepSpec::Named(slug, _) => has_slug_form(slug),
        StepSpec::Descendant(slug, _) => has_slug_form(slug),
        StepSpec::Position(_) => true,
    }
}

/// A path that the grammar can spell.
pub open spec fn path_well_formed(path: PathSpec) -> bool {
    &&& forall|at: int|
        0 <= at < path.sections.len() ==> step_well_formed(#[trigger] path.sections[at])
    &&& items_follow_lists(path.blocks)
}

/// The spelling `[index]`.
pub open spec fn index_spelling(index: usize) -> Seq<char> {
    seq!['['] + decimal(index as nat) + seq![']']
}

/// The spelling of an optional index: nothing when it is absent.
pub open spec fn optional_index_spelling(index: Option<usize>) -> Seq<char> {
    match index {
        None => Seq::empty(),
        Some(index) => index_spelling(index),
    }
}

/// The canonical spelling of one section step.
pub open spec fn step_spelling(step: StepSpec) -> Seq<char> {
    match step {
        StepSpec::Named(slug, index) => seq!['.'] + slug + optional_index_spelling(index),
        StepSpec::Descendant(slug, index) => seq!['.', '.'] + slug + optional_index_spelling(
            index,
        ),
        StepSpec::Position(index) => seq!['.'] + index_spelling(index),
    }
}

/// The canonical spelling of consecutive section steps.
pub open spec fn sections_spelling(steps: Seq<StepSpec>) -> Seq<char>
    decreases steps.len(),
{
    if steps.len() == 0 {
        Seq::empty()
    } else {
        step_spelling(steps[0]) + sections_spelling(steps.skip(1))
    }
}

/// The canonical spelling of one block step.
pub open spec fn block_spelling(step: BlockStep) -> Seq<char> {
    seq!['/'] + keyword_of(step.kind) + index_spelling(step.index)
}

/// The canonical spelling of consecutive block steps.
pub open spec fn blocks_spelling(steps: Seq<BlockStep>) -> Seq<char>
    decreases steps.len(),
{
    if steps.len() == 0 {
        Seq::empty()
    } else {
        block_spelling(steps[0]) + blocks_spelling(steps.skip(1))
    }
}

/// The canonical spelling of a path: every block index explicit, no
/// whitespace or other decoration.
pub open spec fn path_spelling(path: PathSpec) -> Seq<char> {
    seq!['$'] + sections_spelling(path.sections) + blocks_spelling(path.blocks)
}

/// A parsed document path.
///
/// Section steps come first and block steps last, mirroring the grammar. The
/// fields are private so that an `item` step can only ever directly follow a
/// `list` step, which is the one sequence the grammar rejects; every value is
/// therefore renderable and re-parseable to an equal value.
#[derive(Debug, PartialEq, Eq, Hash)]
pub struct DocumentPath {
    sections: Vec<SectionStep>,
    blocks: Vec<BlockStep>,
}

impl View for DocumentPath {
    type V = PathSpec;

    closed spec fn view(&self) -> PathSpec {
        PathSpec { sections: step_specs(self.sections@), blocks: self.blocks@ }
    }
}

impl DocumentPath {
    #[verifier::type_invariant]
    spec fn well_formed(self) -> bool {
        path_well_formed(PathSpec { sections: step_specs(self.sections@), blocks: self.blocks@ })
    }

    /// The path `$`, addressing the document root.
    pub fn root() -> (path: Self)
        ensures
            path@ == (PathSpec { sections: Seq::empty(), blocks: Seq::empty() }),
    {
        let path = DocumentPath { sections: Vec::new(), blocks: Vec::new() };
        assert(path@ =~= PathSpec { sections: Seq::empty(), blocks: Seq::empty() });
        path
    }

    /// A copy of the path.
    pub fn copy(&self) -> (path: Self)
        ensures
            path@ == self@,
            path_well_formed(self@),
    {
        proof {
            use_type_invariant(self);
        }
        let mut sections: Vec<SectionStep> = Vec::new();
        let mut at: usize = 0;
        while at < self.sections.len()
            invariant
                at <= self.sections@.len(),
                sections@ == self.sections@.take(at as int),
            decreases self.sections.len() - at,
        {
            sections.push(self.sections[at].clone());
            at += 1;
        }
        let mut blocks: Vec<BlockStep> = Vec::new();
        let mut at: usize = 0;
        while at < self.blocks.len()
            invariant
                at <= self.blocks@.len(),
                blocks@ == self.blocks@.take(at as int),
            decreases self.blocks.len() - at,
        {
            blocks.push(self.blocks[at]);
            at += 1;
        }
        assert(sections@ =~= self.sections@);
        assert(blocks@ =~= self.blocks@);
        DocumentPath { sections, blocks }
    }

    /// The section steps in path order.
    pub fn sections(&self) -> (steps: &[SectionStep])
        ensures
            step_specs(steps@) == self@.sections,
    {
        self.sections.as_slice()
    }

    /// The block steps in path order.
    pub fn blocks(&self) -> (steps: &[BlockStep])
        ensures
            steps@ == self@.blocks,
            path_well_formed(self@),
    {
        proof {
            use_type_invariant(self);
        }
        self.blocks.as_slice()
    }

    /// Extends a path that has no block steps by one section step.
    ///
    /// Returns `None` when the path already descends into blocks, because the
    /// grammar places every section step before the first block step.
    pub fn with_section(self, step: SectionStep) -> (path: Option<Self>)
        ensures
            path is Some <==> self@.blocks.len() == 0,
            path is Some ==> path->0@ == (PathSpec {
                sections: self@.sections.push(step@),
                blocks: self@.blocks,
            }),
    {
        proof {
            use_type_invariant(&self);
        }
        let step = step.checked();
        let ghost before = self@;
        let DocumentPath { sections, blocks } = self;
        if blocks.len() != 0 {
            return None;
        }
        let mut sections = sections;
        sections.push(step);
        assert(step_specs(sections@) =~= before.sections.push(step@));
        Some(DocumentPath { sections, blocks })
    }

    /// Extends the path by one block step.
    ///
    /// Returns `None` when `step` is an `item` step that would not directly
    /// follow a `list` step, the one combination the grammar rejects.
    pub fn with_block(self, step: BlockStep) -> (path: Option<Self>)
        ensures
            path is Some <==> (step.kind == BlockPathKind::Item ==> self@.blocks.len() > 0
                && self@.blocks.last().kind == BlockPathKind::List),
            path is Some ==> path->0@ == (PathSpec {
                sections: self@.sections,
                blocks: self@.blocks.push(step),
            }),
    {
        proof {
            use_type_invariant(&self);
        }
        let DocumentPath { sections, blocks } = self;
        let follows_list = blocks.len() > 0 && blocks[blocks.len() - 1].kind
            == BlockPathKind::List;
        if step.kind == BlockPathKind::Item && !follows_list {
            return None;
        }
        let ghost before = blocks@;
        let mut blocks = blocks;
        blocks.push(step);
        assert forall|at: int| 0 <= at < blocks@.len() implies #[trigger] item_follows_list(
            blocks@,
            at,
        ) by {
            if at < before.len() {
                assert(item_follows_list(before, at));
            }
        }
        Some(DocumentPath { sections, blocks })
    }

    /// Writes the canonical spelling: every block index explicit, no other
    /// whitespace or decoration.
    pub fn to_string(&self) -> (spelling: String)
        ensures
            spelling@ == path_spelling(self@),
    {
        let mut spelling = String::new();
        spelling.push('$');
        let ghost steps = self@.sections;
        let mut at: usize = 0;
        assert(steps.skip(0) =~= steps);
        while at < self.sections.len()
            invariant
                at <= self.sections@.len(),
                steps == step_specs(self.sections@),
                spelling@ + sections_spelling(steps.skip(at as int)) == seq!['$']
                    + sections_spelling(steps),
            decreases self.sections.len() - at,
        {
            proof {
                assert(steps.skip(at as int)[0] == self.sections@[at as int]@);
                assert(steps.skip(at as int).skip(1) =~= steps.skip(at + 1));
            }
            let ghost before = spelling@;
            match &self.sections[at] {
                SectionStep::Named { slug, index } => {
                    spelling.push('.');
                    spelling.append(slug.as_str());
                    append_optional_index(&mut spelling, *index);
                },
                SectionStep::Descendant { slug, index } => {
                    spelling.push('.');
                    spelling.push('.');
                    spelling.append(slug.as_str());
                    append_optional_index(&mut spelling, *index);
                },
                SectionStep::Position(index) => {
                    spelling.push('.');
                    append_index(&mut spelling, *index);
                },
            }
            assert(spelling@ =~= before + step_spelling(steps.skip(at as int)[0]));
            assert(spelling@ + sections_spelling(steps.skip(at + 1)) =~= before + (step_spelling(
                steps.skip(at as int)[0],
            ) + sections_spelling(steps.skip(at + 1))));
            at += 1;
        }
        assert(sections_spelling(steps.skip(at as int)) =~= Seq::empty());
        assert(spelling@ =~= seq!['$'] + sections_spelling(steps));
        let ghost head = spelling@;
        let ghost blocks = self.blocks@;
        let mut at: usize = 0;
        assert(blocks.skip(0) =~= blocks);
        while at < self.blocks.len()
            invariant
                at <= self.blocks@.len(),
                blocks == self.blocks@,
                spelling@ + blocks_spelling(blocks.skip(at as int)) == head + blocks_spelling(
                    blocks,
                ),
            decreases self.blocks.len() - at,
        {
            proof {
                assert(blocks.skip(at as int)[0] == blocks[at as int]);
                assert(blocks.skip(at as int).skip(1) =~= blocks.skip(at + 1));
            }
            let ghost before = spelling@;
            let step = self.blocks[at];
            spelling.push('/');
            spelling.append(step.kind.keyword());
            append_index(&mut spelling, step.index);
            assert(spelling@ =~= before + block_spelling(step));
            assert(spelling@ + blocks_spelling(blocks.skip(at + 1)) =~= before + (block_spelling(
                step,
            ) + blocks_spelling(blocks.skip(at + 1))));
            at += 1;
        }
        assert(blocks_spelling(blocks.skip(at as int)) =~= Seq::empty());
        assert(spelling@ =~= path_spelling(self@));
        spelling
    }
}

impl Clone for DocumentPath {
    fn clone(&self) -> (path: Self)
        ensures
            path@ == self@,
    {
        self.copy()
    }
}

/// Appends the spelling `[index]`.
fn append_index(spelling: &mut String, index: usize)
    ensures
        final(spelling)@ == old(spelling)@ + index_spelling(index),
{
    spelling.push('[');
    spelling.append(decimal_text(index).as_str());
    spelling.push(']');
    assert(spelling@ =~= old(spelling)@ + index_spelling(index));
}

/// Appends the spelling of an optional index.
fn append_optional_index(spelling: &mut String, index: Option<usize>)
    ensures
        final(spelling)@ == old(spelling)@ + optional_index_spelling(index),
{
    match index {
        None => {
            assert(spelling@ =~= old(spelling)@ + optional_index_spelling(index));
        },
        Some(index) => append_index(spelling, index),
    }
}

/// A spelling that is not a document path.
#[derive(Clone, Debug, PartialEq, Eq)]
pub struct DocumentPathSyntaxError {
    /// Byte offset into the parsed text at which the path stops being valid.
    pub offset: ByteOffset,
    /// Human-readable description of what was expected there.
    pub message: String,
}

impl DocumentPathSyntaxError {
    /// The error as one line of text.
    pub fn to_string(&self) -> (text: String)
        ensures
            text@ == "invalid document path at byte "@ + decimal(self.offset.0 as nat) + ": "@
                + self.message@,
    {
        let mut text = "invalid document path at byte ".to_owned();
        text.append(decimal_text(self.offset.0).as_str());
        text.append(": ");
        text.append(self.message.as_str());
        text
    }
}

/// A well-formed document path that does not address a node of a document.
///
/// `resolved_steps` counts section and block steps together in path order,
/// so a caller can report the deepest node that was reached by resolving the
/// path truncated to that many steps.
#[derive(Debug, Clone, Copy, PartialEq, Eq, Structural)]
#[non_exhaustive]
pub enum DocumentPathError {
    /// The step after `resolved_steps` matched no node.
    Unresolved {
        /// Number of leading steps that resolved.
        resolved_steps: usize,
    },
    /// The named or descendant section step after `resolved_steps` matched
    /// several sections and carried no index to choose between them.
    Ambiguous {
        /// Number of leading steps that resolved.
        resolved_steps: usize,
        /// Number of sections sharing the slug.
        candidates: usize,
    },
}

/// The one-based number of the step after `resolved_steps`, saturating at the
/// largest machine number.
pub open spec fn failing_step(resolved_steps: usize) -> nat {
    if resolved_steps < usize::MAX {
        (resolved_steps + 1) as nat
    } else {
        usize::MAX as nat
    }
}

impl DocumentPathError {
    /// The error as one line of text.
    pub fn to_string(&self) -> (text: String)
        ensures
            text@ == match *self {
                DocumentPathError::Unresolved { resolved_steps } => "document path step "@
                    + decimal(failing_step(resolved_steps)) + " matches no node"@,
                DocumentPathError::Ambiguous { resolved_steps, candidates } =>
                    "document path step "@ + decimal(failing_step(resolved_steps)) + " matches "@
                    + decimal(candidates as nat) + " sibling sections; add an index"@,
            },
    {
        let mut text = "document path step ".to_owned();
        match self {
            DocumentPathError::Unresolved { resolved_steps } => {
                text.append(decimal_text(resolved_steps.saturating_add(1)).as_str());
                text.append(" matches no node");
            },
            DocumentPathError::Ambiguous { resolved_steps, candidates } => {
                text.append(decimal_text(resolved_steps.saturating_add(1)).as_str());
                text.append(" matches ");
                text.append(decimal_text(*candidates).as_str());
                text.append(" sibling sections; add an index");
            },
        }
        text
    }
}

} // verus!
