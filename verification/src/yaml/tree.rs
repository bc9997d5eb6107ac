//! The tree of a YAML document, with the place of every node.

use vstd::prelude::*;

use super::events::{tag_spec, TagSpec, YamlTag};
use crate::text::same_text;

verus! {

/// A scalar as it was written.
#[derive(Debug)]
pub struct YamlScalar {
    /// The text.
    pub value: String,
    /// The style; zero is plain.
    pub style: u8,
    /// The tag.
    pub tag: Option<YamlTag>,
}

/// What a scalar is.
pub struct ScalarText {
    /// See [`YamlScalar::value`].
    pub value: Seq<char>,
    /// See [`YamlScalar::style`].
    pub style: u8,
    /// See [`YamlScalar::tag`].
    pub tag: Option<TagSpec>,
}

impl View for YamlScalar {
    type V = ScalarText;

    open spec fn view(&self) -> ScalarText {
        ScalarText { value: self.value@, style: self.style, tag: tag_spec(self.tag) }
    }
}

/// What a node holds.
#[derive(Debug)]
pub enum YamlNodeKind {
    /// A scalar.
    Scalar(YamlScalar),
    /// The items of a sequence.
    Sequence(Vec<YamlNode>),
    /// The entries of a mapping, in order.
    Mapping(Vec<(YamlNode, YamlNode)>),
}

/// One node of the tree.
///
/// A mapping keeps its entries as an ordered list so that two keys spelled
/// differently but resolving alike stay visible, and so that a key which is
/// not a scalar at all still has somewhere to live.
#[derive(Debug)]
pub struct YamlNode {
    /// What the node holds.
    pub kind: YamlNodeKind,
    /// Index of the first character of the node's own spelling.
    pub start: usize,
    /// Index of the character after it.
    pub end: usize,
    /// The node is an alias's copy, and its range is the alias site. The whole
    /// copy anchors there.
    pub expanded: bool,
}

/// What a node holds, as a value.
#[verifier::ext_equal]
pub enum TreeKind {
    /// See [`YamlNodeKind::Scalar`].
    Scalar(ScalarText),
    /// See [`YamlNodeKind::Sequence`].
    Sequence(Seq<Tree>),
    /// See [`YamlNodeKind::Mapping`].
    Mapping(Seq<(Tree, Tree)>),
}

/// What a node is.
#[verifier::ext_equal]
pub struct Tree {
    /// See [`YamlNode::kind`].
    pub kind: TreeKind,
    /// See [`YamlNode::start`].
    pub start: usize,
    /// See [`YamlNode::end`].
    pub end: usize,
    /// See [`YamlNode::expanded`].
    pub expanded: bool,
}

/// What `node` is.
pub open spec fn tree_of(node: YamlNode) -> Tree
    decreases node,
{
    Tree {
        kind: match node.kind {
            YamlNodeKind::Scalar(scalar) => TreeKind::Scalar(scalar@),
            YamlNodeKind::Sequence(items) => TreeKind::Sequence(trees_of(items@)),
            YamlNodeKind::Mapping(entries) => TreeKind::Mapping(entry_trees_of(entries@)),
        },
        start: node.start,
        end: node.end,
        expanded: node.expanded,
    }
}

/// What `nodes` are.
pub open spec fn trees_of(nodes: Seq<YamlNode>) -> Seq<Tree>
    decreases nodes,
{
    Seq::new(
        nodes.len(),
        |at: int|
            if 0 <= at < nodes.len() {
                tree_of(nodes[at])
            } else {
                arbitrary()
            },
    )
}

/// What `entries` are.
pub open spec fn entry_trees_of(entries: Seq<(YamlNode, YamlNode)>) -> Seq<(Tree, Tree)>
    decreases entries,
{
    Seq::new(
        entries.len(),
        |at: int|
            if 0 <= at < entries.len() {
                (tree_of(entries[at].0), tree_of(entries[at].1))
            } else {
                arbitrary()
            },
    )
}

impl View for YamlNode {
    type V = Tree;

    open spec fn view(&self) -> Tree {
        tree_of(*self)
    }
}

impl YamlTag {
    /// A copy of the tag.
    pub fn copy(&self) -> (tag: Self)
        ensures
            tag@ == self@,
    {
        YamlTag { handle: self.handle.clone(), suffix: self.suffix.clone() }
    }
}

impl YamlScalar {
    /// A copy of the scalar.
    pub fn copy(&self) -> (scalar: Self)
        ensures
            scalar@ == self@,
    {
        YamlScalar {
            value: self.value.clone(),
            style: self.style,
            tag: match &self.tag {
                None => None,
                Some(tag) => Some(tag.copy()),
            },
        }
    }

    /// Whether two scalars were written alike.
    fn same(&self, other: &YamlScalar) -> (same: bool)
        ensures
            same == (self@ == other@),
    {
        same_text(self.value.as_str(), other.value.as_str()) && self.style == other.style
            && match (&self.tag, &other.tag) {
            (None, None) => true,
            (Some(left), Some(right)) => same_text(left.handle.as_str(), right.handle.as_str())
                && same_text(left.suffix.as_str(), right.suffix.as_str()),
            _ => false,
        }
    }
}

impl YamlNode {
    /// A copy of the node.
    pub fn copy(&self) -> (node: Self)
        ensures
            node@ == self@,
        decreases self,
    {
        YamlNode {
            kind: match &self.kind {
                YamlNodeKind::Scalar(scalar) => YamlNodeKind::Scalar(scalar.copy()),
                YamlNodeKind::Sequence(items) => YamlNodeKind::Sequence(copy_nodes(items)),
                YamlNodeKind::Mapping(entries) => YamlNodeKind::Mapping(copy_entries(entries)),
            },
            start: self.start,
            end: self.end,
            expanded: self.expanded,
        }
    }

    /// The entries, if this is a mapping.
    pub fn as_mapping(&self) -> (entries: Option<&Vec<(YamlNode, YamlNode)>>)
        ensures
            entries is Some <==> self@.kind is Mapping,
            entries matches Some(entries) ==> self@.kind == TreeKind::Mapping(
                entry_trees_of(entries@),
            ),
            entries matches Some(entries) ==> self.kind == YamlNodeKind::Mapping(*entries),
    {
        match &self.kind {
            YamlNodeKind::Mapping(entries) => Some(entries),
            _ => None,
        }
    }

    /// The items, if this is a sequence.
    pub fn as_sequence(&self) -> (items: Option<&Vec<YamlNode>>)
        ensures
            items is Some <==> self@.kind is Sequence,
            items matches Some(items) ==> self@.kind == TreeKind::Sequence(trees_of(items@)),
            items matches Some(items) ==> self.kind == YamlNodeKind::Sequence(*items),
    {
        match &self.kind {
            YamlNodeKind::Sequence(items) => Some(items),
            _ => None,
        }
    }

    /// The text, if this is a scalar.
    pub fn scalar_text(&self) -> (text: Option<&str>)
        ensures
            text is Some <==> text_of_tree(self@) is Some,
            text matches Some(text) ==> text_of_tree(self@) == Some(text@),
    {
        match &self.kind {
            YamlNodeKind::Scalar(scalar) => Some(scalar.value.as_str()),
            _ => None,
        }
    }
}

/// The text of a scalar node.
pub open spec fn text_of_tree(tree: Tree) -> Option<Seq<char>> {
    match tree.kind {
        TreeKind::Scalar(scalar) => Some(scalar.value),
        _ => None,
    }
}

fn copy_nodes(nodes: &Vec<YamlNode>) -> (copies: Vec<YamlNode>)
    ensures
        trees_of(copies@) == trees_of(nodes@),
    decreases nodes,
{
    let mut copies: Vec<YamlNode> = Vec::new();
    let mut at: usize = 0;
    while at < nodes.len()
        invariant
            at <= nodes@.len(),
            copies@.len() == at,
            forall|k: int| 0 <= k < at ==> (#[trigger] copies@[k])@ == nodes@[k]@,
        decreases nodes.len() - at,
    {
        copies.push(nodes[at].copy());
        at += 1;
    }
    assert(trees_of(copies@) =~= trees_of(nodes@));
    copies
}

fn copy_entries(entries: &Vec<(YamlNode, YamlNode)>) -> (copies: Vec<(YamlNode, YamlNode)>)
    ensures
        entry_trees_of(copies@) == entry_trees_of(entries@),
    decreases entries,
{
    let mut copies: Vec<(YamlNode, YamlNode)> = Vec::new();
    let mut at: usize = 0;
    while at < entries.len()
        invariant
            at <= entries@.len(),
            copies@.len() == at,
            forall|k: int|
                0 <= k < at ==> (#[trigger] copies@[k]).0@ == entries@[k].0@ && copies@[k].1@
                    == entries@[k].1@,
        decreases entries.len() - at,
    {
        copies.push((entries[at].0.copy(), entries[at].1.copy()));
        at += 1;
    }
    assert(entry_trees_of(copies@) =~= entry_trees_of(entries@));
    copies
}

/// Two nodes hold the same, wherever they stand.
pub open spec fn same_contents(left: Tree, right: Tree) -> bool
    decreases left,
{
    match (left.kind, right.kind) {
        (TreeKind::Scalar(one), TreeKind::Scalar(two)) => one == two,
        (TreeKind::Sequence(one), TreeKind::Sequence(two)) => same_items(one, two),
        (TreeKind::Mapping(one), TreeKind::Mapping(two)) => same_entries(one, two),
        _ => false,
    }
}

/// Two lists of nodes hold the same.
pub open spec fn same_items(left: Seq<Tree>, right: Seq<Tree>) -> bool
    decreases left,
{
    left.len() == right.len() && forall|at: int|
        0 <= at < left.len() ==> same_contents(#[trigger] left[at], right[at])
}

/// Two lists of entries hold the same.
pub open spec fn same_entries(left: Seq<(Tree, Tree)>, right: Seq<(Tree, Tree)>) -> bool
    decreases left,
{
    left.len() == right.len() && forall|at: int|
        0 <= at < left.len() ==> same_contents((#[trigger] left[at]).0, right[at].0)
            && same_contents(left[at].1, right[at].1)
}

/// Whether two nodes hold the same, wherever they stand.
pub fn same_node(left: &YamlNode, right: &YamlNode) -> (same: bool)
    ensures
        same == same_contents(left@, right@),
    decreases left,
{
    match (&left.kind, &right.kind) {
        (YamlNodeKind::Scalar(one), YamlNodeKind::Scalar(two)) => one.same(two),
        (YamlNodeKind::Sequence(one), YamlNodeKind::Sequence(two)) => same_node_lists(one, two),
        (YamlNodeKind::Mapping(one), YamlNodeKind::Mapping(two)) => same_entry_lists(one, two),
        _ => false,
    }
}

fn same_node_lists(left: &Vec<YamlNode>, right: &Vec<YamlNode>) -> (same: bool)
    ensures
        same == same_items(trees_of(left@), trees_of(right@)),
    decreases left,
{
    if left.len() != right.len() {
        return false;
    }
    let mut at: usize = 0;
    while at < left.len()
        invariant
            at <= left@.len() == right@.len(),
            forall|k: int|
                0 <= k < at ==> same_contents(
                    #[trigger] trees_of(left@)[k],
                    trees_of(right@)[k],
                ),
        decreases left.len() - at,
    {
        if !same_node(&left[at], &right[at]) {
            assert(!same_contents(trees_of(left@)[at as int], trees_of(right@)[at as int]));
            return false;
        }
        at += 1;
    }
    true
}

fn same_entry_lists(left: &Vec<(YamlNode, YamlNode)>, right: &Vec<(YamlNode, YamlNode)>) -> (same:
    bool)
    ensures
        same == same_entries(entry_trees_of(left@), entry_trees_of(right@)),
    decreases left,
{
    if left.len() != right.len() {
        return false;
    }
    let mut at: usize = 0;
    while at < left.len()
        invariant
            at <= left@.len() == right@.len(),
            forall|k: int|
                0 <= k < at ==> same_contents(
                    (#[trigger] entry_trees_of(left@)[k]).0,
                    entry_trees_of(right@)[k].0,
                ) && same_contents(entry_trees_of(left@)[k].1, entry_trees_of(right@)[k].1),
        decreases left.len() - at,
    {
        if !same_node(&left[at].0, &right[at].0) || !same_node(&left[at].1, &right[at].1) {
            assert(!(same_contents(
                entry_trees_of(left@)[at as int].0,
                entry_trees_of(right@)[at as int].0,
            ) && same_contents(
                entry_trees_of(left@)[at as int].1,
                entry_trees_of(right@)[at as int].1,
            )));
            return false;
        }
        at += 1;
    }
    true
}

} // verus!
