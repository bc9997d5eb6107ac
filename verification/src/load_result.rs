//! Types returned when loading a schema from source text.
//!
//! Source provenance lives in this layer rather than in the semantic schema. A
//! successfully loaded schema can therefore be compared and used independently
//! of its original formatting while diagnostics can still point back to the
//! declarations that produced it. Provenance is multi-source so a load error
//! in an external frontmatter JSON Schema can name that file rather than being
//! anchored to its path in the primary document.

use vstd::prelude::*;

use crate::schema::{NonEmpty, Schema, SchemaSpec};
use crate::text::{decimal, decimal_text, join3};

verus! {

/// A byte offset in UTF-8 source text.
#[derive(Debug, Clone, Copy, PartialEq, Eq, PartialOrd, Ord, Hash, Structural)]
pub struct ByteOffset(pub usize);

/// A half-open byte range in a source text.
#[derive(Debug, Clone, Copy, PartialEq, Eq, PartialOrd, Ord, Hash, Structural)]
pub struct TextRange {
    /// Inclusive byte offset at which the range begins.
    pub start: ByteOffset,
    /// Exclusive byte offset at which the range ends.
    pub end: ByteOffset,
}

/// The identity of one source within [`SchemaSources`].
#[derive(Debug, Clone, Copy, PartialEq, Eq, PartialOrd, Ord, Hash, Structural)]
pub struct SourceId(pub u32);

/// A byte range associated with one source in [`SchemaSources`].
#[derive(Debug, Clone, Copy, PartialEq, Eq, PartialOrd, Ord, Hash, Structural)]
pub struct SourceRange {
    /// Document containing the range.
    pub source: SourceId,
    /// Half-open byte range within that document's source text.
    pub range: TextRange,
}

/// A human-readable name for a schema source.
#[derive(Debug, PartialEq, Eq, PartialOrd, Ord, Hash)]
pub struct SourceLabel(pub String);

impl Clone for SourceLabel {
    fn clone(&self) -> (label: Self)
        ensures
            label@ == self@,
    {
        SourceLabel(self.0.clone())
    }
}

impl View for SourceLabel {
    type V = Seq<char>;

    open spec fn view(&self) -> Seq<char> {
        self.0@
    }
}

/// The text of an optional label.
pub open spec fn label_spec(label: Option<SourceLabel>) -> Option<Seq<char>> {
    match label {
        None => None,
        Some(label) => Some(label@),
    }
}

/// One attempted JSON Schema resource supplied to the pure schema loader.
///
/// The outer I/O shell assigns a stable logical `uri` for reference
/// resolution. The display `label` and contents remain provenance only.
#[derive(Clone, Debug, PartialEq, Eq)]
pub struct JsonSchemaResourceInput {
    /// Logical absolute URI used by JSON Schema reference resolution.
    pub uri: String,
    /// Human-readable filesystem path or caller label.
    pub label: Option<SourceLabel>,
    /// Either the complete UTF-8 document or the shell's read failure.
    pub contents: JsonSchemaResourceContents,
}

/// Contents of one attempted linked JSON Schema resource read.
#[derive(Clone, Debug, PartialEq, Eq)]
pub enum JsonSchemaResourceContents {
    /// Complete UTF-8 JSON document.
    Loaded(String),
    /// Exact filesystem or UTF-8 error produced by the I/O shell.
    ReadFailure(String),
}

/// Complete immutable input graph for one linked frontmatter JSON Schema.
///
/// Every attempted local resource reachable from `root_uri` must be present,
/// including failed reads. Missing, unreadable, or remote resources are
/// reported as `invalid-frontmatter-schema` rather than being retrieved by
/// the library.
#[derive(Clone, Debug, PartialEq, Eq)]
pub struct LinkedJsonSchemaInput {
    /// URI of the resource named by `frontmatter.schema`.
    pub root_uri: String,
    /// Root and transitive resource documents, keyed by each entry's `uri`.
    pub resources: Vec<JsonSchemaResourceInput>,
}

/// One external JSON Schema document reference resolved for both I/O and
/// validation.
///
/// Keeping the two identities in one value prevents a shell from accidentally
/// using a `$id`-rebased URI as the location of a file to preload.
#[derive(Clone, Debug, PartialEq, Eq)]
pub struct JsonSchemaExternalReference {
    /// Target resolved from the resource's lexical file URI without applying
    /// `$id`.
    pub physical_uri: String,
    /// Target resolved according to JSON Schema base-URI and `$id` semantics.
    pub logical_uri: String,
}

/// What one attempted resource is.
pub struct ResourceSpec {
    /// See [`JsonSchemaResourceInput::uri`].
    pub uri: Seq<char>,
    /// See [`JsonSchemaResourceInput::label`].
    pub label: Option<Seq<char>>,
    /// The document, or the read failure.
    pub contents: Result<Seq<char>, Seq<char>>,
}

impl View for JsonSchemaResourceInput {
    type V = ResourceSpec;

    open spec fn view(&self) -> ResourceSpec {
        ResourceSpec {
            uri: self.uri@,
            label: label_spec(self.label),
            contents: match self.contents {
                JsonSchemaResourceContents::Loaded(text) => Ok(text@),
                JsonSchemaResourceContents::ReadFailure(message) => Err(message@),
            },
        }
    }
}

/// What a linked graph is: its root, and its resources in order.
pub struct LinkedSpec {
    /// See [`LinkedJsonSchemaInput::root_uri`].
    pub root_uri: Seq<char>,
    /// See [`LinkedJsonSchemaInput::resources`].
    pub resources: Seq<ResourceSpec>,
}

impl View for LinkedJsonSchemaInput {
    type V = LinkedSpec;

    open spec fn view(&self) -> LinkedSpec {
        LinkedSpec {
            root_uri: self.root_uri@,
            resources: self.resources@.map_values(
                |resource: JsonSchemaResourceInput| resource@,
            ),
        }
    }
}

/// The available source text and optional display name of a schema document.
#[derive(Clone, Debug, PartialEq, Eq)]
pub struct SchemaSource {
    /// A path, URI, or caller-provided label used when presenting diagnostics.
    pub label: Option<SourceLabel>,
    /// The complete original text, or empty when reading this source failed.
    pub text: String,
}

/// What a source is: its label and its text.
pub struct SourceSpec {
    /// See [`SchemaSource::label`].
    pub label: Option<Seq<char>>,
    /// See [`SchemaSource::text`].
    pub text: Seq<char>,
}

impl View for SchemaSource {
    type V = SourceSpec;

    open spec fn view(&self) -> SourceSpec {
        SourceSpec { label: label_spec(self.label), text: self.text@ }
    }
}

/// All source documents participating in one schema load.
///
/// [`SourceId`] values are local to this collection: they number its
/// documents.
#[derive(Clone, Debug, PartialEq, Eq)]
pub struct SchemaSources {
    /// The schema document requested by the caller.
    pub primary: SourceId,
    /// The documents, in the order of their ids from zero on.
    pub documents: Vec<SchemaSource>,
}

impl View for SchemaSources {
    type V = Seq<SourceSpec>;

    open spec fn view(&self) -> Seq<SourceSpec> {
        self.documents@.map_values(|source: SchemaSource| source@)
    }
}

impl SchemaSources {
    /// The document that `id` numbers.
    pub fn get(&self, id: SourceId) -> (source: Option<&SchemaSource>)
        ensures
            source is Some <==> id.0 < self@.len(),
            source matches Some(source) ==> source@ == self@[id.0 as int],
    {
        if (id.0 as usize) < self.documents.len() {
            Some(&self.documents[id.0 as usize])
        } else {
            None
        }
    }
}

/// A zero-based rule index within one sibling rule list.
#[derive(Debug, Clone, Copy, PartialEq, Eq, PartialOrd, Ord, Hash, Structural)]
pub struct RuleIndex(pub usize);

/// A zero-based constraint index within one scope's constraint list.
#[derive(Debug, Clone, Copy, PartialEq, Eq, PartialOrd, Ord, Hash, Structural)]
pub struct ConstraintIndex(pub usize);

/// A zero-based entry index within one rule's `order` list.
#[derive(Debug, Clone, Copy, PartialEq, Eq, PartialOrd, Ord, Hash, Structural)]
pub struct OrderIndex(pub usize);

/// A path to a rule-owned child scope.
///
/// Each index selects a rule whose child scope contains the next index. For an
/// `outline:` schema, the empty path denotes the outline scope. For a
/// `title:` + `sections:` sugar schema, it denotes the synthesized title
/// rule's child scope: the source's top-level `sections:` list. This preserves
/// the public addressing of the source form after normalization.
#[derive(Debug, PartialEq, Eq, PartialOrd, Ord, Hash)]
pub struct ScopePath(pub Vec<RuleIndex>);

impl View for ScopePath {
    type V = Seq<RuleIndex>;

    open spec fn view(&self) -> Seq<RuleIndex> {
        self.0@
    }
}

impl Clone for ScopePath {
    fn clone(&self) -> (path: Self)
        ensures
            path@ == self@,
    {
        let mut indices: Vec<RuleIndex> = Vec::new();
        let mut at: usize = 0;
        while at < self.0.len()
            invariant
                at <= self.0@.len(),
                indices@ == self.0@.take(at as int),
            decreases self.0.len() - at,
        {
            indices.push(self.0[at]);
            at += 1;
        }
        ScopePath(indices)
    }
}

impl ScopePath {
    /// The path of the root scope.
    pub fn root() -> (path: Self)
        ensures
            path@ == Seq::<RuleIndex>::empty(),
    {
        ScopePath(Vec::new())
    }

    /// The path of the child scope of the rule at `index`.
    pub fn child(&self, index: usize) -> (path: Self)
        ensures
            path@ == self@.push(RuleIndex(index)),
    {
        let mut path = self.clone();
        path.0.push(RuleIndex(index));
        path
    }

    /// Whether two paths are the same.
    pub fn same(&self, other: &ScopePath) -> (same: bool)
        ensures
            same == (self@ == other@),
    {
        if self.0.len() != other.0.len() {
            return false;
        }
        let mut at: usize = 0;
        while at < self.0.len()
            invariant
                at <= self.0@.len() == other.0@.len(),
                forall|k: int| 0 <= k < at ==> self.0@[k] == other.0@[k],
            decreases self.0.len() - at,
        {
            if self.0[at] != other.0[at] {
                return false;
            }
            at += 1;
        }
        assert(self@ =~= other@);
        true
    }
}

/// The structural address of a section rule.
#[derive(Debug, PartialEq, Eq, PartialOrd, Ord, Hash)]
pub struct RulePath {
    /// The scope containing the rule.
    pub scope: ScopePath,
    /// The rule's zero-based index within that scope.
    pub index: RuleIndex,
}

impl View for RulePath {
    type V = (Seq<RuleIndex>, RuleIndex);

    open spec fn view(&self) -> (Seq<RuleIndex>, RuleIndex) {
        (self.scope@, self.index)
    }
}

impl Clone for RulePath {
    fn clone(&self) -> (path: Self)
        ensures
            path@ == self@,
    {
        RulePath { scope: self.scope.clone(), index: self.index }
    }
}

impl RulePath {
    /// Whether two paths are the same.
    pub fn same(&self, other: &RulePath) -> (same: bool)
        ensures
            same == (self@ == other@),
    {
        self.index == other.index && self.scope.same(&other.scope)
    }
}

/// The structural address of a section guard.
#[derive(Clone, Debug, PartialEq, Eq, PartialOrd, Ord, Hash)]
pub struct GuardPath {
    /// The scope containing the guard.
    pub scope: ScopePath,
    /// The guard's zero-based index within that scope.
    pub index: usize,
}

/// The node whose preamble a content rule describes.
#[derive(Debug, PartialEq, Eq, PartialOrd, Ord, Hash)]
pub enum ContentOwner {
    /// The document itself.
    Document,
    /// The title.
    Title,
    /// The sections of a rule.
    Rule(RulePath),
}

/// What a content owner is.
pub enum ContentOwnerSpec {
    /// See [`ContentOwner::Document`].
    Document,
    /// See [`ContentOwner::Title`].
    Title,
    /// See [`ContentOwner::Rule`].
    Rule((Seq<RuleIndex>, RuleIndex)),
}

impl View for ContentOwner {
    type V = ContentOwnerSpec;

    open spec fn view(&self) -> ContentOwnerSpec {
        match *self {
            ContentOwner::Document => ContentOwnerSpec::Document,
            ContentOwner::Title => ContentOwnerSpec::Title,
            ContentOwner::Rule(path) => ContentOwnerSpec::Rule(path@),
        }
    }
}

impl Clone for ContentOwner {
    fn clone(&self) -> (owner: Self)
        ensures
            owner@ == self@,
    {
        match self {
            ContentOwner::Document => ContentOwner::Document,
            ContentOwner::Title => ContentOwner::Title,
            ContentOwner::Rule(path) => ContentOwner::Rule(path.clone()),
        }
    }
}

impl ContentOwner {
    /// Whether two owners are the same.
    pub fn same(&self, other: &ContentOwner) -> (same: bool)
        ensures
            same == (self@ == other@),
    {
        match (self, other) {
            (ContentOwner::Document, ContentOwner::Document) => true,
            (ContentOwner::Title, ContentOwner::Title) => true,
            (ContentOwner::Rule(left), ContentOwner::Rule(right)) => left.same(right),
            _ => false,
        }
    }
}

/// The structural address of a content rule.
#[derive(Debug, PartialEq, Eq, PartialOrd, Ord, Hash)]
pub struct ContentRulePath {
    /// The node whose preamble the rule describes.
    pub owner: ContentOwner,
    /// The rule's zero-based index within that preamble's rules.
    pub index: usize,
}

impl View for ContentRulePath {
    type V = (ContentOwnerSpec, usize);

    open spec fn view(&self) -> (ContentOwnerSpec, usize) {
        (self.owner@, self.index)
    }
}

impl Clone for ContentRulePath {
    fn clone(&self) -> (path: Self)
        ensures
            path@ == self@,
    {
        ContentRulePath { owner: self.owner.clone(), index: self.index }
    }
}

impl ContentRulePath {
    /// Whether two paths are the same.
    pub fn same(&self, other: &ContentRulePath) -> (same: bool)
        ensures
            same == (self@ == other@),
    {
        self.index == other.index && self.owner.same(&other.owner)
    }
}

/// The structural address of a list-item rule.
#[derive(Debug, PartialEq, Eq, PartialOrd, Ord, Hash)]
pub struct ItemRulePath {
    /// The content rule of the list.
    pub content: ContentRulePath,
    /// The rule's zero-based index within that list's rules.
    pub index: usize,
}

impl View for ItemRulePath {
    type V = ((ContentOwnerSpec, usize), usize);

    open spec fn view(&self) -> ((ContentOwnerSpec, usize), usize) {
        (self.content@, self.index)
    }
}

impl Clone for ItemRulePath {
    fn clone(&self) -> (path: Self)
        ensures
            path@ == self@,
    {
        ItemRulePath { content: self.content.clone(), index: self.index }
    }
}

impl ItemRulePath {
    /// Whether two paths are the same.
    pub fn same(&self, other: &ItemRulePath) -> (same: bool)
        ensures
            same == (self@ == other@),
    {
        self.index == other.index && self.content.same(&other.content)
    }
}

/// The structural address of one rule capture declaration.
#[derive(Clone, Debug, PartialEq, Eq, PartialOrd, Ord, Hash)]
pub struct CapturePath {
    /// The rule that declares the capture.
    pub rule: RulePath,
    /// The declared capture name.
    pub name: String,
}

/// The structural address of one `order` entry.
#[derive(Clone, Debug, PartialEq, Eq, PartialOrd, Ord, Hash)]
pub struct OrderEntryPath {
    /// The rule that declares the `order` list.
    pub rule: RulePath,
    /// The entry's zero-based index within that list.
    pub order_index: OrderIndex,
}

/// The structural address of a constraint.
#[derive(Clone, Debug, PartialEq, Eq, PartialOrd, Ord, Hash)]
pub struct ConstraintPath {
    /// The scope containing the constraint.
    pub scope: ScopePath,
    /// The constraint's zero-based index within that scope.
    pub index: ConstraintIndex,
}

/// The address of a semantic schema node with retained source provenance.
#[derive(Debug, PartialEq, Eq, PartialOrd, Ord, Hash)]
pub enum SchemaNode {
    /// The optional title matcher.
    Title,
    /// The normalized frontmatter policy object.
    Frontmatter,
    /// The policy's `schema` value in the primary schema source.
    FrontmatterSchemaDeclaration,
    /// The parsed JSON Schema root document.
    FrontmatterSchemaDocument,
    /// A section rule at a structural path.
    Rule(RulePath),
    /// One capture declared by a section rule.
    Capture(CapturePath),
    /// One capture declared by `frontmatter.captures`.
    FrontmatterCapture(String),
    /// One entry of a section rule's `order` list.
    OrderEntry(OrderEntryPath),
    /// A constraint at a structural path.
    Constraint(ConstraintPath),
    /// A section guard at a structural path.
    Guard(GuardPath),
    /// A content rule at a structural path.
    ContentRule(ContentRulePath),
    /// A list-item rule at a structural path.
    ItemRule(ItemRulePath),
}

/// What a node address is.
pub enum NodeAddress {
    /// See [`SchemaNode::Title`].
    Title,
    /// See [`SchemaNode::Frontmatter`].
    Frontmatter,
    /// See [`SchemaNode::FrontmatterSchemaDeclaration`].
    FrontmatterSchemaDeclaration,
    /// See [`SchemaNode::FrontmatterSchemaDocument`].
    FrontmatterSchemaDocument,
    /// See [`SchemaNode::Rule`].
    Rule(Seq<RuleIndex>, RuleIndex),
    /// See [`SchemaNode::Capture`].
    Capture(Seq<RuleIndex>, RuleIndex, Seq<char>),
    /// See [`SchemaNode::FrontmatterCapture`].
    FrontmatterCapture(Seq<char>),
    /// See [`SchemaNode::OrderEntry`].
    OrderEntry(Seq<RuleIndex>, RuleIndex, OrderIndex),
    /// See [`SchemaNode::Constraint`].
    Constraint(Seq<RuleIndex>, ConstraintIndex),
    /// See [`SchemaNode::Guard`].
    Guard(Seq<RuleIndex>, usize),
    /// See [`SchemaNode::ContentRule`].
    ContentRule((ContentOwnerSpec, usize)),
    /// See [`SchemaNode::ItemRule`].
    ItemRule(((ContentOwnerSpec, usize), usize)),
}

impl View for SchemaNode {
    type V = NodeAddress;

    open spec fn view(&self) -> NodeAddress {
        match *self {
            SchemaNode::Title => NodeAddress::Title,
            SchemaNode::Frontmatter => NodeAddress::Frontmatter,
            SchemaNode::FrontmatterSchemaDeclaration => NodeAddress::FrontmatterSchemaDeclaration,
            SchemaNode::FrontmatterSchemaDocument => NodeAddress::FrontmatterSchemaDocument,
            SchemaNode::Rule(path) => NodeAddress::Rule(path.scope@, path.index),
            SchemaNode::Capture(path) => NodeAddress::Capture(
                path.rule.scope@,
                path.rule.index,
                path.name@,
            ),
            SchemaNode::FrontmatterCapture(name) => NodeAddress::FrontmatterCapture(name@),
            SchemaNode::OrderEntry(path) => NodeAddress::OrderEntry(
                path.rule.scope@,
                path.rule.index,
                path.order_index,
            ),
            SchemaNode::Constraint(path) => NodeAddress::Constraint(path.scope@, path.index),
            SchemaNode::Guard(path) => NodeAddress::Guard(path.scope@, path.index),
            SchemaNode::ContentRule(path) => NodeAddress::ContentRule(path@),
            SchemaNode::ItemRule(path) => NodeAddress::ItemRule(path@),
        }
    }
}

impl Clone for SchemaNode {
    fn clone(&self) -> (node: Self)
        ensures
            node@ == self@,
    {
        match self {
            SchemaNode::Title => SchemaNode::Title,
            SchemaNode::Frontmatter => SchemaNode::Frontmatter,
            SchemaNode::FrontmatterSchemaDeclaration => SchemaNode::FrontmatterSchemaDeclaration,
            SchemaNode::FrontmatterSchemaDocument => SchemaNode::FrontmatterSchemaDocument,
            SchemaNode::Rule(path) => SchemaNode::Rule(path.clone()),
            SchemaNode::Capture(path) => SchemaNode::Capture(
                CapturePath { rule: path.rule.clone(), name: path.name.clone() },
            ),
            SchemaNode::FrontmatterCapture(name) => SchemaNode::FrontmatterCapture(name.clone()),
            SchemaNode::OrderEntry(path) => SchemaNode::OrderEntry(
                OrderEntryPath { rule: path.rule.clone(), order_index: path.order_index },
            ),
            SchemaNode::Constraint(path) => SchemaNode::Constraint(
                ConstraintPath { scope: path.scope.clone(), index: path.index },
            ),
            SchemaNode::Guard(path) => SchemaNode::Guard(
                GuardPath { scope: path.scope.clone(), index: path.index },
            ),
            SchemaNode::ContentRule(path) => SchemaNode::ContentRule(path.clone()),
            SchemaNode::ItemRule(path) => SchemaNode::ItemRule(path.clone()),
        }
    }
}

impl SchemaNode {
    /// Whether two addresses are the same.
    pub fn same(&self, other: &SchemaNode) -> (same: bool)
        ensures
            same == (self@ == other@),
    {
        match (self, other) {
            (SchemaNode::Title, SchemaNode::Title) => true,
            (SchemaNode::Frontmatter, SchemaNode::Frontmatter) => true,
            (
                SchemaNode::FrontmatterSchemaDeclaration,
                SchemaNode::FrontmatterSchemaDeclaration,
            ) => true,
            (SchemaNode::FrontmatterSchemaDocument, SchemaNode::FrontmatterSchemaDocument) => true,
            (SchemaNode::Rule(left), SchemaNode::Rule(right)) => left.index == right.index
                && left.scope.same(&right.scope),
            (SchemaNode::Capture(left), SchemaNode::Capture(right)) => left.rule.scope.same(
                &right.rule.scope,
            ) && left.rule.index == right.rule.index && left.name == right.name,
            (SchemaNode::FrontmatterCapture(left), SchemaNode::FrontmatterCapture(right)) => *left
                == *right,
            (SchemaNode::OrderEntry(left), SchemaNode::OrderEntry(right)) => left.rule.scope.same(
                &right.rule.scope,
            ) && left.rule.index == right.rule.index && left.order_index == right.order_index,
            (SchemaNode::Constraint(left), SchemaNode::Constraint(right)) => left.scope.same(
                &right.scope,
            ) && left.index == right.index,
            (SchemaNode::Guard(left), SchemaNode::Guard(right)) => left.scope.same(&right.scope)
                && left.index == right.index,
            (SchemaNode::ContentRule(left), SchemaNode::ContentRule(right)) => left.same(right),
            (SchemaNode::ItemRule(left), SchemaNode::ItemRule(right)) => left.same(right),
            _ => false,
        }
    }
}

/// What nodes with their ranges are.
pub open spec fn found_specs(entries: Seq<(SchemaNode, SourceRange)>) -> Seq<
    (NodeAddress, SourceRange),
> {
    entries.map_values(|entry: (SchemaNode, SourceRange)| (entry.0@, entry.1))
}

/// Schema nodes with their source ranges, in the order in which they were
/// found while a schema is built.
#[derive(Debug)]
pub struct FoundNodes {
    /// The nodes with their ranges.
    pub entries: Vec<(SchemaNode, SourceRange)>,
}

impl View for FoundNodes {
    type V = Seq<(NodeAddress, SourceRange)>;

    open spec fn view(&self) -> Seq<(NodeAddress, SourceRange)> {
        found_specs(self.entries@)
    }
}

impl FoundNodes {
    /// No nodes.
    pub fn new() -> (found: Self)
        ensures
            found@ == Seq::<(NodeAddress, SourceRange)>::empty(),
    {
        let found = FoundNodes { entries: Vec::new() };
        assert(found@ =~= Seq::empty());
        found
    }

    /// Adds a node with its range.
    pub fn record(&mut self, node: SchemaNode, range: SourceRange)
        ensures
            final(self)@ == old(self)@.push((node@, range)),
    {
        self.entries.push((node, range));
        assert(self@ =~= old(self)@.push((node@, range)));
    }
}

/// The range of every node among `entries`: the one that was found last.
pub open spec fn node_ranges(entries: Seq<(NodeAddress, SourceRange)>) -> Map<
    NodeAddress,
    SourceRange,
>
    decreases entries.len(),
{
    if entries.len() == 0 {
        Map::empty()
    } else {
        node_ranges(entries.drop_last()).insert(entries.last().0, entries.last().1)
    }
}

/// Whether every node occurs once among `entries`.
pub open spec fn nodes_differ(entries: Seq<(NodeAddress, SourceRange)>) -> bool {
    forall|i: int, j: int|
        0 <= i < j < entries.len() ==> (#[trigger] entries[i]).0 != (#[trigger] entries[j]).0
}

/// The ranges of nodes come from entries, and every node that was found has
/// one; where a node occurs once, that entry gives its range.
pub(crate) proof fn ranges_come_from_entries(entries: Seq<(NodeAddress, SourceRange)>)
    ensures
        forall|node: NodeAddress| #[trigger]
            node_ranges(entries).contains_key(node) ==> entries.contains(
                (node, node_ranges(entries)[node]),
            ),
        forall|at: int|
            0 <= at < entries.len() ==> node_ranges(entries).contains_key(
                (#[trigger] entries[at]).0,
            ),
        nodes_differ(entries) ==> forall|at: int|
            0 <= at < entries.len() ==> node_ranges(entries)[(#[trigger] entries[at]).0]
                == entries[at].1,
    decreases entries.len(),
{
    if entries.len() > 0 {
        let before = entries.drop_last();
        let last = entries.last();
        ranges_come_from_entries(before);
        assert forall|node: NodeAddress| #[trigger]
            node_ranges(entries).contains_key(node) implies entries.contains(
            (node, node_ranges(entries)[node]),
        ) by {
            if node == last.0 {
                assert(entries[entries.len() - 1] == (node, node_ranges(entries)[node]));
            } else {
                assert(node_ranges(before).contains_key(node));
                let at = choose|at: int|
                    0 <= at < before.len() && before[at] == (node, node_ranges(before)[node]);
                assert(entries[at] == before[at]);
            }
        }
        assert forall|at: int| 0 <= at < entries.len() implies node_ranges(entries).contains_key(
            (#[trigger] entries[at]).0,
        ) by {
            if at < before.len() {
                assert(before[at] == entries[at]);
            }
        }
        if nodes_differ(entries) {
            assert(nodes_differ(before)) by {
                assert forall|i: int, j: int| 0 <= i < j < before.len() implies (
                #[trigger] before[i]).0 != (#[trigger] before[j]).0 by {
                    assert(entries[i] == before[i] && entries[j] == before[j]);
                }
            }
            assert forall|at: int| 0 <= at < entries.len() implies node_ranges(entries)[(
            #[trigger] entries[at]).0] == entries[at].1 by {
                if at < before.len() {
                    assert(before[at] == entries[at]);
                    assert(entries[at].0 != entries[entries.len() - 1].0);
                }
            }
        }
    }
}

proof fn replaced_entries_give_the_new_range(
    entries: Seq<(NodeAddress, SourceRange)>,
    at: int,
    range: SourceRange,
)
    requires
        nodes_differ(entries),
        0 <= at < entries.len(),
    ensures
        nodes_differ(entries.update(at, (entries[at].0, range))),
        node_ranges(entries.update(at, (entries[at].0, range))) == node_ranges(entries).insert(
            entries[at].0,
            range,
        ),
{
    let after = entries.update(at, (entries[at].0, range));
    assert(nodes_differ(after));
    ranges_come_from_entries(entries);
    ranges_come_from_entries(after);
    let one = node_ranges(after);
    let two = node_ranges(entries).insert(entries[at].0, range);
    assert forall|node: NodeAddress| one.contains_key(node) <==> two.contains_key(node) by {
        if one.contains_key(node) {
            let found = choose|k: int| 0 <= k < after.len() && after[k] == (node, one[node]);
            assert(entries[found].0 == node);
        }
        if two.contains_key(node) && node != entries[at].0 {
            assert(node_ranges(entries).contains_key(node));
            let found = choose|k: int|
                0 <= k < entries.len() && entries[k] == (node, node_ranges(entries)[node]);
            assert(after[found].0 == node);
        }
        assert(after[at].0 == entries[at].0);
    }
    assert forall|node: NodeAddress| one.contains_key(node) implies one[node] == two[node] by {
        let found = choose|k: int| 0 <= k < after.len() && after[k] == (node, one[node]);
        assert(after[at] == (entries[at].0, range));
        if found != at {
            assert(after[found] == entries[found]);
        }
    }
    assert(one =~= two);
}

/// The source range of every schema node that has one.
#[derive(Debug)]
pub struct NodeRanges {
    entries: Vec<(SchemaNode, SourceRange)>,
}

impl View for NodeRanges {
    type V = Map<NodeAddress, SourceRange>;

    closed spec fn view(&self) -> Map<NodeAddress, SourceRange> {
        node_ranges(found_specs(self.entries@))
    }
}

impl NodeRanges {
    #[verifier::type_invariant]
    spec fn each_node_once(self) -> bool {
        nodes_differ(found_specs(self.entries@))
    }

    /// No ranges.
    pub fn new() -> (ranges: Self)
        ensures
            ranges@ == Map::<NodeAddress, SourceRange>::empty(),
    {
        NodeRanges { entries: Vec::new() }
    }

    /// The ranges of nodes that were found.
    pub fn of(found: &FoundNodes) -> (ranges: Self)
        ensures
            ranges@ == node_ranges(found@),
    {
        let ghost specs = found@;
        let mut ranges = NodeRanges::new();
        let mut at: usize = 0;
        assert(specs.take(0) =~= Seq::empty());
        while at < found.entries.len()
            invariant
                at <= found.entries@.len(),
                specs == found@,
                ranges@ == node_ranges(specs.take(at as int)),
            decreases found.entries.len() - at,
        {
            ranges.insert(found.entries[at].0.clone(), found.entries[at].1);
            assert(specs.take(at + 1).drop_last() =~= specs.take(at as int));
            at += 1;
        }
        assert(specs.take(at as int) =~= specs);
        ranges
    }

    fn position(&self, node: &SchemaNode) -> (position: Option<usize>)
        ensures
            position is Some <==> self@.contains_key(node@),
            position matches Some(at) ==> at < self.entries@.len() && self.entries@[at as int].0@
                == node@ && self.entries@[at as int].1 == self@[node@],
    {
        proof {
            use_type_invariant(self);
            ranges_come_from_entries(found_specs(self.entries@));
        }
        let ghost specs = found_specs(self.entries@);
        let mut at: usize = 0;
        while at < self.entries.len()
            invariant
                at <= self.entries@.len(),
                specs == found_specs(self.entries@),
                self@ == node_ranges(specs),
                forall|k: int| 0 <= k < at ==> (#[trigger] specs[k]).0 != node@,
                forall|k: int|
                    0 <= k < specs.len() ==> node_ranges(specs).contains_key(
                        (#[trigger] specs[k]).0,
                    ) && node_ranges(specs)[specs[k].0] == specs[k].1,
            decreases self.entries.len() - at,
        {
            assert(specs[at as int].0 == self.entries@[at as int].0@);
            if self.entries[at].0.same(node) {
                return Some(at);
            }
            at += 1;
        }
        None
    }

    /// Sets the range of a node, in place of the one that it has.
    pub fn insert(&mut self, node: SchemaNode, range: SourceRange)
        ensures
            final(self)@ == old(self)@.insert(node@, range),
    {
        proof {
            use_type_invariant(&*self);
        }
        let position = self.position(&node);
        let mut entries: Vec<(SchemaNode, SourceRange)> = Vec::new();
        std::mem::swap(&mut entries, &mut self.entries);
        let ghost before = found_specs(entries@);
        match position {
            Some(at) => {
                proof {
                    replaced_entries_give_the_new_range(before, at as int, range);
                }
                entries.set(at, (node, range));
                assert(found_specs(entries@) =~= before.update(at as int, (node@, range)));
            },
            None => {
                entries.push((node, range));
                let ghost after = found_specs(entries@);
                assert(after =~= before.push((node@, range)));
                assert(after.drop_last() =~= before);
                proof {
                    ranges_come_from_entries(before);
                }
                assert(nodes_differ(after));
            },
        }
        self.entries = entries;
    }

    /// The range of `node`.
    pub fn get(&self, node: &SchemaNode) -> (range: Option<SourceRange>)
        ensures
            range == if self@.contains_key(node@) {
                Some(self@[node@])
            } else {
                None
            },
    {
        match self.position(node) {
            Some(at) => Some(self.entries[at].1),
            None => None,
        }
    }

    /// Whether `node` has a range.
    pub fn contains_key(&self, node: &SchemaNode) -> (found: bool)
        ensures
            found == self@.contains_key(node@),
    {
        self.position(node).is_some()
    }

    /// The nodes with their ranges, each node once.
    pub fn entries(&self) -> (entries: &[(SchemaNode, SourceRange)])
        ensures
            nodes_differ(found_specs(entries@)),
            node_ranges(found_specs(entries@)) == self@,
    {
        proof {
            use_type_invariant(self);
        }
        self.entries.as_slice()
    }
}

impl NodeRanges {
    /// Whether each of `other`'s nodes has the same range here.
    fn covers(&self, other: &NodeRanges) -> (covers: bool)
        ensures
            covers == forall|node: NodeAddress| #[trigger]
                other@.contains_key(node) ==> self@.contains_key(node) && self@[node]
                    == other@[node],
    {
        proof {
            use_type_invariant(other);
            ranges_come_from_entries(found_specs(other.entries@));
        }
        let ghost specs = found_specs(other.entries@);
        let mut at: usize = 0;
        while at < other.entries.len()
            invariant
                at <= other.entries@.len(),
                specs == found_specs(other.entries@),
                other@ == node_ranges(specs),
                forall|k: int|
                    0 <= k < at ==> self@.contains_key((#[trigger] specs[k]).0)
                        && self@[specs[k].0] == specs[k].1,
                forall|k: int|
                    0 <= k < specs.len() ==> node_ranges(specs).contains_key(
                        (#[trigger] specs[k]).0,
                    ) && node_ranges(specs)[specs[k].0] == specs[k].1,
            decreases other.entries.len() - at,
        {
            let found = self.get(&other.entries[at].0);
            assert(specs[at as int] == (
                other.entries@[at as int].0@,
                other.entries@[at as int].1,
            ));
            match found {
                Some(range) => {
                    if range != other.entries[at].1 {
                        return false;
                    }
                },
                None => {
                    return false;
                },
            }
            at += 1;
        }
        true
    }
}

impl PartialEq for NodeRanges {
    fn eq(&self, other: &NodeRanges) -> (same: bool) {
        let same = self.covers(other) && other.covers(self);
        assert(same ==> self@ =~= other@);
        same
    }
}

impl vstd::std_specs::cmp::PartialEqSpecImpl for NodeRanges {
    open spec fn obeys_eq_spec() -> bool {
        true
    }

    open spec fn eq_spec(&self, other: &NodeRanges) -> bool {
        self@ == other@
    }
}

impl Eq for NodeRanges {

}

impl Clone for NodeRanges {
    fn clone(&self) -> (ranges: Self)
        ensures
            ranges@ == self@,
    {
        proof {
            use_type_invariant(self);
        }
        let mut entries: Vec<(SchemaNode, SourceRange)> = Vec::new();
        let mut at: usize = 0;
        while at < self.entries.len()
            invariant
                at <= self.entries@.len(),
                found_specs(entries@) =~= found_specs(self.entries@).take(at as int),
            decreases self.entries.len() - at,
        {
            let ghost before = entries@;
            entries.push((self.entries[at].0.clone(), self.entries[at].1));
            assert(found_specs(entries@) =~= found_specs(before).push(
                found_specs(self.entries@)[at as int],
            ));
            at += 1;
        }
        assert(found_specs(entries@) =~= found_specs(self.entries@));
        NodeRanges { entries }
    }
}

/// Side-car locations for nodes in a successfully built [`Schema`].
///
/// Node addresses follow the structure of the normalized schema rather than
/// using rule ids, which are optional and only locally unique.
#[derive(Clone, Debug, PartialEq, Eq)]
pub struct SchemaLocations {
    /// The range covering the complete primary schema document.
    pub document: SourceRange,
    /// Source ranges for semantic nodes needed by validation diagnostics.
    pub nodes: NodeRanges,
}

/// A valid semantic schema together with its source provenance.
#[derive(Clone, Debug, PartialEq, Eq)]
pub struct LoadedSchema {
    /// The final normalized schema.
    pub schema: Schema,
    /// The primary document and any external JSON Schema sources it loaded.
    pub sources: SchemaSources,
    /// Locations of semantic nodes retained for later diagnostics.
    pub locations: SchemaLocations,
}

/// What a loaded schema is.
pub struct LoadedSpec {
    /// See [`LoadedSchema::schema`].
    pub schema: SchemaSpec,
    /// See [`LoadedSchema::sources`].
    pub sources: Seq<SourceSpec>,
    /// See [`SchemaLocations::document`].
    pub document: SourceRange,
    /// See [`SchemaLocations::nodes`].
    pub nodes: Map<NodeAddress, SourceRange>,
}

impl View for LoadedSchema {
    type V = LoadedSpec;

    open spec fn view(&self) -> LoadedSpec {
        LoadedSpec {
            schema: self.schema@,
            sources: self.sources@,
            document: self.locations.document,
            nodes: self.locations.nodes@,
        }
    }
}

/// A secondary source range attached to a schema error.
#[derive(Clone, Debug, PartialEq, Eq)]
pub struct RelatedLocation {
    /// Secondary source range relevant to the error.
    pub range: SourceRange,
    /// Explanation of how the secondary location relates to the error.
    pub message: String,
}

/// What a secondary location says.
pub struct RelatedSpec {
    /// See [`RelatedLocation::range`].
    pub range: SourceRange,
    /// See [`RelatedLocation::message`].
    pub message: Seq<char>,
}

impl View for RelatedLocation {
    type V = RelatedSpec;

    open spec fn view(&self) -> RelatedSpec {
        RelatedSpec { range: self.range, message: self.message@ }
    }
}

/// Machine-readable categories for schema loading failures.
#[derive(Debug, Clone, Copy, PartialEq, Eq, Hash, Structural)]
#[non_exhaustive]
pub enum SchemaErrorKind {
    /// The input is not syntactically valid YAML or JSON.
    Syntax,
    /// The parsed value does not have the required schema document shape.
    InvalidDocumentShape,
    /// The declared schema version is not supported.
    UnsupportedVersion,
    /// Two rules in one sibling scope resolve to the same id.
    DuplicateId,
    /// A constraint reference does not resolve to a rule.
    UnresolvedRef,
    /// A constraint references a rule that denies matching sections.
    ForbiddenRef,
    /// A constraint contains the same resolved proposition more than once.
    DuplicateRef,
    /// A top-level rule uses the reserved `fm` identifier.
    ReservedId,
    /// A matcher cannot be normalized or compiled.
    InvalidMatcher,
    /// A repeat declaration is malformed or has inconsistent bounds.
    InvalidRepeat,
    /// A rule declares no cardinality where one is needed.
    MissingCardinality,
    /// A capture declaration is malformed, repeated, unsupported, or declared
    /// where none is permitted.
    InvalidCapture,
    /// An `order` list, or one of its entries, is malformed.
    InvalidOrder,
    /// A content rule is malformed.
    InvalidContentRule,
    /// A rule can never match what an earlier rule leaves.
    UnreachableRule,
    /// An ordered constraint uses a non-positional frontmatter proposition,
    /// mixes scopes, descends through a repeatable ancestor, or targets a
    /// scope already ordered by its rule list.
    OrderedScopeMismatch,
    /// A rule declares both `required` and `repeat`, or denies a cardinality.
    ConflictingCardinality,
    /// The frontmatter policy both requires and forbids frontmatter.
    ConflictingFrontmatter,
    /// A schema declares `outline` together with `title` or `sections`.
    ConflictingOutline,
    /// A frontmatter JSON Schema is malformed or uses an unsupported dialect.
    InvalidFrontmatterSchema,
}

/// The stable diagnostic spelling of `kind`.
pub open spec fn kind_spelling(kind: SchemaErrorKind) -> Seq<char> {
    match kind {
        SchemaErrorKind::Syntax => "syntax"@,
        SchemaErrorKind::InvalidDocumentShape => "invalid-document-shape"@,
        SchemaErrorKind::UnsupportedVersion => "unsupported-version"@,
        SchemaErrorKind::DuplicateId => "duplicate-id"@,
        SchemaErrorKind::UnresolvedRef => "unresolved-ref"@,
        SchemaErrorKind::ForbiddenRef => "forbidden-ref"@,
        SchemaErrorKind::DuplicateRef => "duplicate-ref"@,
        SchemaErrorKind::ReservedId => "reserved-id"@,
        SchemaErrorKind::InvalidMatcher => "invalid-matcher"@,
        SchemaErrorKind::InvalidRepeat => "invalid-repeat"@,
        SchemaErrorKind::MissingCardinality => "missing-cardinality"@,
        SchemaErrorKind::InvalidCapture => "invalid-capture"@,
        SchemaErrorKind::InvalidOrder => "invalid-order"@,
        SchemaErrorKind::InvalidContentRule => "invalid-content-rule"@,
        SchemaErrorKind::UnreachableRule => "unreachable-rule"@,
        SchemaErrorKind::OrderedScopeMismatch => "ordered-scope-mismatch"@,
        SchemaErrorKind::ConflictingCardinality => "conflicting-cardinality"@,
        SchemaErrorKind::ConflictingFrontmatter => "conflicting-frontmatter"@,
        SchemaErrorKind::ConflictingOutline => "conflicting-outline"@,
        SchemaErrorKind::InvalidFrontmatterSchema => "invalid-frontmatter-schema"@,
    }
}

impl SchemaErrorKind {
    /// Returns the stable diagnostic spelling.
    pub fn as_str(self) -> (spelling: &'static str)
        ensures
            spelling@ == kind_spelling(self),
    {
        match self {
            SchemaErrorKind::Syntax => "syntax",
            SchemaErrorKind::InvalidDocumentShape => "invalid-document-shape",
            SchemaErrorKind::UnsupportedVersion => "unsupported-version",
            SchemaErrorKind::DuplicateId => "duplicate-id",
            SchemaErrorKind::UnresolvedRef => "unresolved-ref",
            SchemaErrorKind::ForbiddenRef => "forbidden-ref",
            SchemaErrorKind::DuplicateRef => "duplicate-ref",
            SchemaErrorKind::ReservedId => "reserved-id",
            SchemaErrorKind::InvalidMatcher => "invalid-matcher",
            SchemaErrorKind::InvalidRepeat => "invalid-repeat",
            SchemaErrorKind::MissingCardinality => "missing-cardinality",
            SchemaErrorKind::InvalidCapture => "invalid-capture",
            SchemaErrorKind::InvalidOrder => "invalid-order",
            SchemaErrorKind::InvalidContentRule => "invalid-content-rule",
            SchemaErrorKind::UnreachableRule => "unreachable-rule",
            SchemaErrorKind::OrderedScopeMismatch => "ordered-scope-mismatch",
            SchemaErrorKind::ConflictingCardinality => "conflicting-cardinality",
            SchemaErrorKind::ConflictingFrontmatter => "conflicting-frontmatter",
            SchemaErrorKind::ConflictingOutline => "conflicting-outline",
            SchemaErrorKind::InvalidFrontmatterSchema => "invalid-frontmatter-schema",
        }
    }
}

/// A positioned error produced while loading a schema.
#[derive(Clone, Debug, PartialEq, Eq)]
pub struct SchemaError {
    /// A machine-readable error category.
    pub kind: SchemaErrorKind,
    /// The primary source range associated with the error.
    pub range: SourceRange,
    /// Additional declarations or values relevant to the error.
    pub related: Vec<RelatedLocation>,
    /// A human-readable explanation.
    pub message: String,
}

/// What a schema error says.
#[verifier::ext_equal]
pub struct ErrorSpec {
    /// See [`SchemaError::kind`].
    pub kind: SchemaErrorKind,
    /// See [`SchemaError::range`].
    pub range: SourceRange,
    /// See [`SchemaError::related`].
    pub related: Seq<RelatedSpec>,
    /// See [`SchemaError::message`].
    pub message: Seq<char>,
}

impl View for SchemaError {
    type V = ErrorSpec;

    open spec fn view(&self) -> ErrorSpec {
        ErrorSpec {
            kind: self.kind,
            range: self.range,
            related: self.related@.map_values(|location: RelatedLocation| location@),
            message: self.message@,
        }
    }
}

/// The errors that `errors` are.
pub open spec fn error_specs(errors: Seq<SchemaError>) -> Seq<ErrorSpec> {
    errors.map_values(|error: SchemaError| error@)
}

/// The one line that presents an error.
pub open spec fn error_line(error: ErrorSpec) -> Seq<char> {
    kind_spelling(error.kind) + ": "@ + error.message
}

impl SchemaError {
    /// The error as one line of text.
    pub fn to_string(&self) -> (text: String)
        ensures
            text@ == error_line(self@),
    {
        join3(self.kind.as_str(), ": ", self.message.as_str())
    }
}

/// A schema document that could not be converted into a valid [`Schema`].
///
/// No partial semantic schema is exposed on failure.
#[derive(Clone, Debug, PartialEq, Eq)]
pub struct InvalidSchema {
    /// The primary document and any external JSON Schema source attempts made
    /// before loading failed.
    pub sources: SchemaSources,
    /// One or more syntax, shape, or schema-validation errors.
    pub errors: NonEmpty<SchemaError>,
}

/// What an invalid schema is: its sources and its errors.
pub struct InvalidSpec {
    /// See [`InvalidSchema::sources`].
    pub sources: Seq<SourceSpec>,
    /// See [`InvalidSchema::errors`].
    pub errors: Seq<ErrorSpec>,
}

impl View for InvalidSchema {
    type V = InvalidSpec;

    open spec fn view(&self) -> InvalidSpec {
        InvalidSpec {
            sources: self.sources@,
            errors: error_specs(seq![self.errors.first] + self.errors.rest@),
        }
    }
}

impl InvalidSchema {
    /// The failure as one line of text: its first error, and how many more
    /// there are.
    pub fn to_string(&self) -> (text: String)
        ensures
            ({
                let errors = self@.errors;
                let more = (errors.len() - 1) as nat;
                text@ == error_line(errors[0]) + if more == 0 {
                    Seq::empty()
                } else {
                    " (and "@ + decimal(more) + " more schema error"@ + if more == 1 {
                        ")"@
                    } else {
                        "s)"@
                    }
                }
            }),
    {
        let additional = self.errors.rest.len();
        let mut text = self.errors.first.to_string();
        assert(self@.errors[0] == self.errors.first@);
        assert(self@.errors.len() == additional + 1);
        if additional > 0 {
            let ghost before = text@;
            text.append(" (and ");
            text.append(decimal_text(additional).as_str());
            text.append(" more schema error");
            if additional != 1 {
                text.append("s)");
            } else {
                text.append(")");
            }
            assert(text@ =~= before + (" (and "@ + decimal(additional as nat)
                + " more schema error"@ + if additional == 1 {
                ")"@
            } else {
                "s)"@
            }));
        } else {
            assert(text@ + Seq::<char>::empty() =~= text@);
        }
        text
    }
}

/// The result of parsing, validating, and normalizing a schema document.
pub type LoadSchemaResult = Result<LoadedSchema, InvalidSchema>;

} // verus!
