//! The tree of a parsed Markdown document: sections opened by headings, and
//! the visible blocks before each section's first child.

use vstd::prelude::*;

use crate::load_result::TextRange;

verus! {

/// The level of a Markdown heading.
#[derive(Debug, Clone, Copy, PartialEq, Eq, PartialOrd, Ord, Hash, Structural)]
pub enum HeaderLevel {
    /// `#`
    H1,
    /// `##`
    H2,
    /// `###`
    H3,
    /// `####`
    H4,
    /// `#####`
    H5,
    /// `######`
    H6,
}

/// Where a node stands in the source.
#[derive(Debug, Clone, Copy, PartialEq, Eq, Hash, Structural)]
pub struct NodeLocation {
    /// The node's half-open byte range.
    pub range: TextRange,
}

/// A heading that opens a section.
#[derive(Debug, PartialEq, Eq, Hash)]
pub struct Heading {
    /// The heading's level.
    pub level: HeaderLevel,
    /// The heading's visible text.
    pub text: String,
    /// Where the heading stands.
    pub location: NodeLocation,
}

/// A block without addressable contents.
#[derive(Debug, PartialEq, Eq, Hash)]
pub struct LeafBlock {
    /// Where the block stands.
    pub location: NodeLocation,
}

/// The text that opens a list item.
#[derive(Debug, PartialEq, Eq, Hash)]
pub struct ItemText {
    /// The visible text.
    pub text: String,
}

/// One direct item of a list.
#[derive(Debug, PartialEq, Eq, Hash)]
pub struct ListItem {
    /// Where the item stands.
    pub location: NodeLocation,
    /// The item's opening text, if it has any.
    pub text: Option<ItemText>,
}

/// A list with its direct items.
#[derive(Debug, PartialEq, Eq, Hash)]
pub struct ListBlock {
    /// Where the list stands.
    pub location: NodeLocation,
    /// The direct items in document order.
    pub items: Vec<ListItem>,
}

/// A visible direct block of a preamble.
#[derive(Debug, PartialEq, Eq, Hash)]
pub enum Block {
    /// A paragraph.
    Paragraph(LeafBlock),
    /// A list.
    List(ListBlock),
    /// A block quote.
    Quote(LeafBlock),
    /// A fenced or indented code block.
    Code(LeafBlock),
    /// A visible HTML block.
    Html(LeafBlock),
    /// A thematic break.
    Break(LeafBlock),
}

/// The visible direct blocks between a heading, or the start of the document,
/// and the next heading.
#[derive(Debug, PartialEq, Eq, Hash)]
pub struct Preamble {
    /// The blocks in document order.
    pub blocks: Vec<Block>,
}

impl Preamble {
    /// The number of blocks.
    pub fn len(&self) -> (count: usize)
        ensures
            count == self.blocks@.len(),
    {
        self.blocks.len()
    }

    /// The blocks in document order.
    pub fn as_slice(&self) -> (blocks: &[Block])
        ensures
            blocks@ == self.blocks@,
    {
        self.blocks.as_slice()
    }
}

/// A section: a heading, its preamble, and the sections nested below it.
#[derive(Debug, PartialEq, Eq, Hash)]
pub struct Section {
    /// The heading that opens the section.
    pub heading: Heading,
    /// The blocks before the first child section.
    pub preamble: Preamble,
    /// The child sections in document order.
    pub children: Vec<Section>,
}

/// A parsed Markdown document.
#[derive(Debug, PartialEq, Eq, Hash)]
pub struct Document {
    /// The blocks before the first heading.
    pub preamble: Preamble,
    /// The top-level sections in document order.
    pub sections: Vec<Section>,
}

} // verus!
