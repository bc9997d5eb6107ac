//! Building the tree of a YAML document out of its events.
//!
//! The reader bounds what a document can ask of it: collections nest at most
//! [`MAX_YAML_DEPTH`] deep, and aliases expand to a number of nodes that the
//! size of the input bounds. An alias is charged the size and the depth of the
//! node it copies before the copy is made.

use vstd::prelude::*;

use super::events::{
    next_read, open_stream, pending, yaml_reads, EventSpec, ReadSpec, YamlEvent, YamlKind,
    YamlMark, YamlRead, YamlSpan, YamlStream,
};
use super::tree::{
    entry_trees_of, same_contents, same_node, text_of_tree, tree_of, trees_of, ScalarText, Tree,
    TreeKind, YamlNode, YamlNodeKind, YamlScalar,
};
use crate::load_result::SchemaErrorKind;
use crate::text::{chars_of, decimal, decimal_text, join3, same_text, text_of};

verus! {

/// How deep collections may nest.
pub const MAX_YAML_DEPTH: usize = 128;

/// How many nodes any document may hold.
pub const FREE_YAML_NODES: usize = 10000;

/// How many nodes beyond the free ones each event pays for.
pub const YAML_NODES_PER_EVENT: usize = 10;

/// A schema document that could not be read, before validation began.
///
/// The range is in character indices, and `None` anchors at the whole
/// document. The kind rides along because not every refusal is a syntax error:
/// a mapping key that is no string, for example, is a shape complaint with a
/// position.
#[derive(Debug)]
pub struct YamlError {
    /// The category.
    pub kind: SchemaErrorKind,
    /// The range, in characters.
    pub span: Option<(usize, usize)>,
    /// What is wrong.
    pub message: String,
}

/// What a refusal says.
#[verifier::ext_equal]
pub struct YamlFault {
    /// See [`YamlError::kind`].
    pub kind: SchemaErrorKind,
    /// See [`YamlError::span`].
    pub span: Option<(usize, usize)>,
    /// See [`YamlError::message`].
    pub message: Seq<char>,
}

impl View for YamlError {
    type V = YamlFault;

    open spec fn view(&self) -> YamlFault {
        YamlFault { kind: self.kind, span: self.span, message: self.message@ }
    }
}

/// A sum that stops at the largest machine number.
pub open spec fn capped(left: usize, right: usize) -> usize {
    if left + right > usize::MAX {
        usize::MAX
    } else {
        (left + right) as usize
    }
}

/// The larger of two numbers.
pub open spec fn larger(left: usize, right: usize) -> usize {
    if left < right {
        right
    } else {
        left
    }
}

fn max_of(left: usize, right: usize) -> (largest: usize)
    ensures
        largest == larger(left, right),
{
    if left < right {
        right
    } else {
        left
    }
}

/// A node held for the aliases that name it, with its size and depth.
pub struct AnchorSpec {
    /// The anchor.
    pub id: usize,
    /// The node.
    pub tree: Tree,
    /// How many nodes it was charged.
    pub nodes: usize,
    /// How deep its collections nest.
    pub depth: usize,
}

/// The state of a reader: what the stream still holds, how many events were
/// read and nodes built, the anchored nodes, and how many characters were
/// removed from the head of the text.
#[verifier::ext_equal]
pub struct ReaderSpec {
    /// The reads to come.
    pub reads: Seq<ReadSpec>,
    /// The number of events read.
    pub events: usize,
    /// The number of nodes built.
    pub nodes: usize,
    /// The anchored nodes.
    pub anchors: Seq<AnchorSpec>,
    /// The number of characters removed.
    pub mark: usize,
}

/// A syntax refusal at a span.
pub open spec fn syntax_fault(span: YamlSpan, mark: usize, message: Seq<char>) -> YamlFault {
    YamlFault {
        kind: SchemaErrorKind::Syntax,
        span: Some(
            (
                capped(span.start.index, mark),
                larger(capped(span.end.index, mark), capped(span.start.index, mark)),
            ),
        ),
        message,
    }
}

/// A syntax refusal of the whole document.
pub open spec fn document_fault(message: Seq<char>) -> YamlFault {
    YamlFault { kind: SchemaErrorKind::Syntax, span: None, message }
}

/// The refusal of a misplaced document boundary.
pub open spec fn boundary_fault() -> YamlFault {
    document_fault("invalid YAML: unexpected document boundary"@)
}

/// The one-based column of a place, with the removed characters counted back
/// into the first line.
pub open spec fn column_of(place: YamlMark, mark: usize) -> usize {
    capped(
        capped(place.column, 1),
        if place.line == 1 {
            mark
        } else {
            0
        },
    )
}

/// ` at line L column C`
pub open spec fn place_text(place: YamlMark, mark: usize) -> Seq<char> {
    " at line "@ + decimal(place.line as nat) + " column "@ + decimal(column_of(place, mark) as nat)
}

/// Reads the next event, charging for the input it took.
pub open spec fn next_of(state: ReaderSpec) -> Result<(EventSpec, ReaderSpec), YamlFault> {
    if state.reads.len() == 0 {
        Err(document_fault("invalid YAML: the document ends before its structure does"@))
    } else {
        match state.reads[0] {
            ReadSpec::Fault(info, place) => Err(
                syntax_fault(
                    YamlSpan { start: place, end: place },
                    state.mark,
                    "invalid YAML: "@ + info + place_text(place, state.mark),
                ),
            ),
            ReadSpec::Event(event) => Ok(
                (
                    event,
                    ReaderSpec {
                        reads: state.reads.drop_first(),
                        events: capped(state.events, 1),
                        ..state
                    },
                ),
            ),
        }
    }
}

/// Charges for `count` nodes, if the input pays for them.
pub open spec fn spend(state: ReaderSpec, count: usize) -> Option<ReaderSpec> {
    let nodes = capped(state.nodes, count);
    if nodes > FREE_YAML_NODES + state.events * YAML_NODES_PER_EVENT {
        None
    } else {
        Some(ReaderSpec { nodes, ..state })
    }
}

/// The handle of the tags that YAML itself defines.
pub open spec fn core_handle() -> Seq<char> {
    "tag:yaml.org,2002:"@
}

/// Refuses a tag that YAML does not define.
pub open spec fn tag_fault(event: EventSpec, mark: usize) -> Option<YamlFault> {
    match event.tag {
        None => None,
        Some(tag) => if tag.handle == core_handle() {
            None
        } else {
            Some(
                syntax_fault(
                    event.span,
                    mark,
                    "invalid YAML: non-standard tag `"@ + tag.handle + tag.suffix + "`"@,
                ),
            )
        },
    }
}

/// Refuses a tag on a collection that does not name the collection's kind.
pub open spec fn container_fault(event: EventSpec, mark: usize, expected: Seq<char>) -> Option<
    YamlFault,
> {
    match event.tag {
        None => None,
        Some(tag) => if tag.suffix == expected {
            None
        } else {
            Some(
                syntax_fault(
                    event.span,
                    mark,
                    "invalid YAML: invalid tag for a YAML "@ + expected,
                ),
            )
        },
    }
}

/// The refusal of nesting that is too deep.
pub open spec fn depth_fault(event: EventSpec, mark: usize) -> YamlFault {
    syntax_fault(event.span, mark, "invalid YAML: nesting exceeds the depth limit"@)
}

/// The refusal of an expansion that is too large.
pub open spec fn budget_fault(event: EventSpec, mark: usize) -> YamlFault {
    syntax_fault(
        event.span,
        mark,
        "invalid YAML: alias expansion exceeds the document's size limit"@,
    )
}

/// What a collection is charged before its contents are read, and why it may
/// be refused.
pub open spec fn open_collection(
    event: EventSpec,
    expected: Seq<char>,
    depth: nat,
    state: ReaderSpec,
) -> Result<ReaderSpec, YamlFault> {
    if let Some(fault) = tag_fault(event, state.mark) {
        Err(fault)
    } else if let Some(fault) = container_fault(event, state.mark, expected) {
        Err(fault)
    } else if depth + 1 > MAX_YAML_DEPTH {
        Err(depth_fault(event, state.mark))
    } else {
        match spend(state, 1) {
            None => Err(budget_fault(event, state.mark)),
            Some(state) => Ok(state),
        }
    }
}

/// The latest node that `id` anchors.
pub open spec fn find_anchor(anchors: Seq<AnchorSpec>, id: usize) -> Option<AnchorSpec>
    decreases anchors.len(),
{
    if anchors.len() == 0 {
        None
    } else if anchors.last().id == id {
        Some(anchors.last())
    } else {
        find_anchor(anchors.drop_last(), id)
    }
}

/// The node that an event opened and whose contents have been read. It is
/// anchored only now, so a collection cannot alias itself.
pub open spec fn finished(
    event: EventSpec,
    kind: TreeKind,
    end: usize,
    reached: usize,
    spent: usize,
    state: ReaderSpec,
) -> (Tree, usize, ReaderSpec) {
    let start = capped(event.span.start.index, state.mark);
    let tree = Tree { kind, start, end: larger(end, start), expanded: false };
    (
        tree,
        reached,
        if event.anchor == 0 {
            state
        } else {
            ReaderSpec {
                anchors: state.anchors.push(
                    AnchorSpec {
                        id: event.anchor,
                        tree,
                        nodes: if state.nodes < spent {
                            0
                        } else {
                            (state.nodes - spent) as usize
                        },
                        depth: reached,
                    },
                ),
                ..state
            }
        },
    )
}

/// The node that `event` opens, how deep its own collections nest, and the
/// state after it. `depth` counts the collections already open around it.
pub open spec fn node_of(event: EventSpec, depth: nat, state: ReaderSpec) -> Result<
    (Tree, usize, ReaderSpec),
    YamlFault,
>
    decreases state.reads.len(), 1nat,
{
    let start = capped(event.span.start.index, state.mark);
    let end = capped(event.span.end.index, state.mark);
    match event.kind {
        YamlKind::Scalar => if let Some(fault) = tag_fault(event, state.mark) {
            Err(fault)
        } else {
            match spend(state, 1) {
                None => Err(budget_fault(event, state.mark)),
                Some(after) => Ok(
                    finished(
                        event,
                        TreeKind::Scalar(
                            ScalarText { value: event.value, style: event.style, tag: event.tag },
                        ),
                        end,
                        0,
                        state.nodes,
                        after,
                    ),
                ),
            }
        },
        YamlKind::SequenceStart => match open_collection(event, "seq"@, depth, state) {
            Err(fault) => Err(fault),
            Ok(after) => match sequence_from(after, depth + 1, Seq::empty(), 0) {
                Err(fault) => Err(fault),
                Ok((items, inner, end, last)) => Ok(
                    finished(
                        event,
                        TreeKind::Sequence(items),
                        end,
                        capped(inner, 1),
                        state.nodes,
                        last,
                    ),
                ),
            },
        },
        YamlKind::MappingStart => match open_collection(event, "map"@, depth, state) {
            Err(fault) => Err(fault),
            Ok(after) => match mapping_from(after, depth + 1, Seq::empty(), 0) {
                Err(fault) => Err(fault),
                Ok((entries, inner, end, last)) => Ok(
                    finished(
                        event,
                        TreeKind::Mapping(entries),
                        end,
                        capped(inner, 1),
                        state.nodes,
                        last,
                    ),
                ),
            },
        },
        YamlKind::Alias => match find_anchor(state.anchors, event.anchor) {
            None => Err(
                syntax_fault(event.span, state.mark, "invalid YAML: unresolved alias"@),
            ),
            Some(anchored) => if depth + anchored.depth > MAX_YAML_DEPTH {
                Err(depth_fault(event, state.mark))
            } else {
                match spend(state, anchored.nodes) {
                    None => Err(budget_fault(event, state.mark)),
                    Some(after) => Ok(
                        (
                            Tree {
                                kind: anchored.tree.kind,
                                start,
                                end: larger(end, start),
                                expanded: true,
                            },
                            anchored.depth,
                            after,
                        ),
                    ),
                }
            },
        },
        _ => Err(boundary_fault()),
    }
}

/// The items of a sequence from the next event on, after `items`; with the
/// deepest nesting among them, where the sequence ends, and the state after
/// it.
pub open spec fn sequence_from(
    state: ReaderSpec,
    depth: nat,
    items: Seq<Tree>,
    inner: usize,
) -> Result<(Seq<Tree>, usize, usize, ReaderSpec), YamlFault>
    decreases state.reads.len(), 0nat,
{
    match next_of(state) {
        Err(fault) => Err(fault),
        Ok((event, after)) => if event.kind == YamlKind::SequenceEnd {
            Ok((items, inner, capped(event.span.end.index, state.mark), after))
        } else {
            match node_of(event, depth, after) {
                Err(fault) => Err(fault),
                Ok((tree, reached, last)) => if last.reads.len() < state.reads.len() {
                    sequence_from(last, depth, items.push(tree), larger(inner, reached))
                } else {
                    Err(boundary_fault())
                },
            }
        },
    }
}

/// The key is among the keys of `entries`.
pub open spec fn has_key(entries: Seq<(Tree, Tree)>, key: Tree) -> bool {
    exists|at: int| 0 <= at < entries.len() && same_contents((#[trigger] entries[at]).0, key)
}

/// The refusal of a key that is there already.
pub open spec fn duplicate_key_fault(key: Tree) -> YamlFault {
    YamlFault {
        kind: SchemaErrorKind::Syntax,
        span: Some((key.start, key.end)),
        message: match text_of_tree(key) {
            Some(text) => "invalid YAML: duplicate mapping key `"@ + text + "`"@,
            None => "invalid YAML: duplicate mapping key"@,
        },
    }
}

/// The entries of a mapping from the next event on, after `entries`; with the
/// deepest nesting among them, where the mapping ends, and the state after it.
pub open spec fn mapping_from(
    state: ReaderSpec,
    depth: nat,
    entries: Seq<(Tree, Tree)>,
    inner: usize,
) -> Result<(Seq<(Tree, Tree)>, usize, usize, ReaderSpec), YamlFault>
    decreases state.reads.len(), 0nat,
{
    match next_of(state) {
        Err(fault) => Err(fault),
        Ok((event, after)) => if event.kind == YamlKind::MappingEnd {
            Ok((entries, inner, capped(event.span.end.index, state.mark), after))
        } else {
            match node_of(event, depth, after) {
                Err(fault) => Err(fault),
                Ok((key, key_depth, middle)) => if middle.reads.len() < state.reads.len() {
                    match next_of(middle) {
                        Err(fault) => Err(fault),
                        Ok((event, before)) => match node_of(event, depth, before) {
                            Err(fault) => Err(fault),
                            Ok((value, value_depth, last)) => if has_key(entries, key) {
                                Err(duplicate_key_fault(key))
                            } else if last.reads.len() < state.reads.len() {
                                mapping_from(
                                    last,
                                    depth,
                                    entries.push((key, value)),
                                    larger(larger(inner, key_depth), value_depth),
                                )
                            } else {
                                Err(boundary_fault())
                            },
                        },
                    }
                } else {
                    Err(boundary_fault())
                },
            }
        },
    }
}

/// The null that stands for a stream without a document.
pub open spec fn empty_tree() -> Tree {
    Tree {
        kind: TreeKind::Scalar(ScalarText { value: "~"@, style: 0, tag: None }),
        start: 0,
        end: 0,
        expanded: false,
    }
}

/// The refusal of a second document, at its start.
pub open spec fn second_document_fault(event: EventSpec, mark: usize) -> YamlFault {
    syntax_fault(
        event.span,
        mark,
        "invalid YAML: a second document opens"@ + place_text(event.span.start, mark)
            + "; a schema is a single YAML document"@,
    )
}

/// The tree of the one document that a stream holds.
pub open spec fn document_of(state: ReaderSpec) -> Result<Tree, YamlFault> {
    match next_of(state) {
        Err(fault) => Err(fault),
        Ok((first, after_first)) => if first.kind != YamlKind::StreamStart {
            Err(boundary_fault())
        } else {
            match next_of(after_first) {
                Err(fault) => Err(fault),
                Ok((second, after_second)) => if second.kind == YamlKind::StreamEnd {
                    Ok(empty_tree())
                } else if second.kind != YamlKind::DocumentStart {
                    Err(boundary_fault())
                } else {
                    root_of(after_second)
                },
            }
        },
    }
}

/// The tree of a document whose start has been read.
pub open spec fn root_of(state: ReaderSpec) -> Result<Tree, YamlFault> {
    match next_of(state) {
        Err(fault) => Err(fault),
        Ok((event, before)) => match node_of(event, 0, before) {
            Err(fault) => Err(fault),
            Ok((tree, _, after)) => match next_of(after) {
                Err(fault) => Err(fault),
                Ok((end, last)) => if end.kind != YamlKind::DocumentEnd {
                    Err(boundary_fault())
                } else {
                    match next_of(last) {
                        Err(fault) => Err(fault),
                        Ok((closing, _)) => if closing.kind == YamlKind::StreamEnd {
                            Ok(tree)
                        } else if closing.kind == YamlKind::DocumentStart {
                            Err(second_document_fault(closing, state.mark))
                        } else {
                            Err(boundary_fault())
                        },
                    }
                },
            },
        },
    }
}

/// The text without a leading byte-order mark, and how many characters that
/// removes.
pub open spec fn without_mark(source: Seq<char>) -> (Seq<char>, usize) {
    if source.len() > 0 && source[0] == '\u{feff}' {
        (source.skip(1), 1)
    } else {
        (source, 0)
    }
}

/// The state before the first event of a stream.
pub open spec fn fresh(reads: Seq<ReadSpec>, mark: usize) -> ReaderSpec {
    ReaderSpec { reads, events: 0, nodes: 0, anchors: Seq::empty(), mark }
}

/// The tree of the one document that `source` holds.
pub open spec fn parsed_tree(source: Seq<char>) -> Result<Tree, YamlFault> {
    let (body, mark) = without_mark(source);
    document_of(fresh(yaml_reads(body), mark))
}

/// A node held for the aliases that name it, with its size and depth.
struct AnchoredNode {
    id: usize,
    node: YamlNode,
    nodes: usize,
    depth: usize,
}

impl AnchoredNode {
    spec fn spec_anchor(&self) -> AnchorSpec {
        AnchorSpec { id: self.id, tree: self.node@, nodes: self.nodes, depth: self.depth }
    }
}

spec fn anchor_specs(anchors: Seq<AnchoredNode>) -> Seq<AnchorSpec> {
    anchors.map_values(|anchor: AnchoredNode| anchor.spec_anchor())
}

/// A node just built, beside how deeply its own collections nest.
struct YamlSubtree {
    node: YamlNode,
    depth: usize,
}

/// Builds the tree by pulling one event at a time.
struct YamlReader<'s> {
    stream: YamlStream<'s>,
    anchors: Vec<AnchoredNode>,
    events: usize,
    nodes: usize,
    mark: usize,
}

impl<'s> YamlReader<'s> {
    spec fn state(&self) -> ReaderSpec {
        ReaderSpec {
            reads: pending(self.stream),
            events: self.events,
            nodes: self.nodes,
            anchors: anchor_specs(self.anchors@),
            mark: self.mark,
        }
    }

    fn new(stream: YamlStream<'s>, mark: usize) -> (reader: Self)
        ensures
            reader.state() == fresh(pending(stream), mark),
    {
        let reader = YamlReader { stream, anchors: Vec::new(), events: 0, nodes: 0, mark };
        assert(reader.state() =~= fresh(pending(stream), mark));
        reader
    }

    fn syntax(&self, span: &YamlSpan, message: String) -> (error: YamlError)
        ensures
            error@ == syntax_fault(*span, self.mark, message@),
    {
        let start = span.start.index.saturating_add(self.mark);
        let end = span.end.index.saturating_add(self.mark);
        YamlError {
            kind: SchemaErrorKind::Syntax,
            span: Some((start, max_of(end, start))),
            message,
        }
    }

    fn place(&self, place: &YamlMark) -> (text: String)
        ensures
            text@ == place_text(*place, self.mark),
    {
        let mut text = " at line ".to_owned();
        text.append(decimal_text(place.line).as_str());
        text.append(" column ");
        let column = place.column.saturating_add(1).saturating_add(
            if place.line == 1 {
                self.mark
            } else {
                0
            },
        );
        text.append(decimal_text(column).as_str());
        text
    }

    /// Reads the next event, charging for the input it took.
    fn next_event(&mut self) -> (event: Result<YamlEvent, YamlError>)
        ensures
            match event {
                Ok(event) => next_of(old(self).state()) == Ok::<
                    (EventSpec, ReaderSpec),
                    YamlFault,
                >((event@, final(self).state())) && pending(final(self).stream).len() < pending(
                    old(self).stream,
                ).len(),
                Err(error) => next_of(old(self).state()) == Err::<
                    (EventSpec, ReaderSpec),
                    YamlFault,
                >(error@),
            },
            final(self).mark == old(self).mark,
            final(self).nodes == old(self).nodes,
    {
        let ghost before = self.state();
        self.events = self.events.saturating_add(1);
        match next_read(&mut self.stream) {
            YamlRead::Event(event) => {
                proof {
                    let (_, after) = next_of(before)->Ok_0;
                    assert(self.state() =~= after);
                }
                Ok(event)
            },
            YamlRead::Fault(info, place) => {
                let message = join3(
                    "invalid YAML: ",
                    info.as_str(),
                    self.place(&place).as_str(),
                );
                Err(self.syntax(&YamlSpan { start: place, end: place }, message))
            },
            YamlRead::Exhausted => Err(
                document_error("invalid YAML: the document ends before its structure does"),
            ),
        }
    }

    /// Charges for `count` nodes; refuses if the input does not pay for them.
    fn charge(&mut self, count: usize) -> (paid: bool)
        ensures
            paid == (spend(old(self).state(), count) is Some),
            paid ==> final(self).state() == spend(old(self).state(), count)->0,
            !paid ==> final(self).state() == old(self).state(),
            final(self).stream == old(self).stream,
            final(self).mark == old(self).mark,
            final(self).anchors == old(self).anchors,
    {
        let nodes = self.nodes.saturating_add(count);
        let limit: u128 = 10000u128 + self.events as u128 * 10u128;
        if nodes as u128 > limit {
            false
        } else {
            let ghost before = self.state();
            self.nodes = nodes;
            assert(self.state() =~= spend(before, count)->0);
            true
        }
    }

    /// Refuses every tag that YAML does not define.
    fn reject_non_standard_tag(&self, event: &YamlEvent) -> (fault: Option<YamlError>)
        ensures
            fault is Some <==> tag_fault(event@, self.mark) is Some,
            fault matches Some(fault) ==> tag_fault(event@, self.mark) == Some(fault@),
    {
        match &event.tag {
            None => None,
            Some(tag) => if same_text(tag.handle.as_str(), "tag:yaml.org,2002:") {
                None
            } else {
                let mut message = join3(
                    "invalid YAML: non-standard tag `",
                    tag.handle.as_str(),
                    tag.suffix.as_str(),
                );
                message.append("`");
                Some(self.syntax(&event.span, message))
            },
        }
    }

    fn depth_error(&self, event: &YamlEvent) -> (error: YamlError)
        ensures
            error@ == depth_fault(event@, self.mark),
    {
        self.syntax(&event.span, "invalid YAML: nesting exceeds the depth limit".to_owned())
    }

    fn budget_error(&self, event: &YamlEvent) -> (error: YamlError)
        ensures
            error@ == budget_fault(event@, self.mark),
    {
        self.syntax(
            &event.span,
            "invalid YAML: alias expansion exceeds the document's size limit".to_owned(),
        )
    }

    /// Charges for a collection before its contents are read.
    fn open_collection(&mut self, event: &YamlEvent, expected: &str, depth: usize) -> (opened:
        Result<(), YamlError>)
        requires
            depth <= MAX_YAML_DEPTH,
        ensures
            opened is Ok ==> open_collection(event@, expected@, depth as nat, old(self).state())
                == Ok::<ReaderSpec, YamlFault>(final(self).state()),
            opened matches Err(error) ==> open_collection(
                event@,
                expected@,
                depth as nat,
                old(self).state(),
            ) == Err::<ReaderSpec, YamlFault>(error@),
            opened is Ok ==> depth < MAX_YAML_DEPTH,
            final(self).stream == old(self).stream,
            final(self).mark == old(self).mark,
            final(self).anchors == old(self).anchors,
    {
        if let Some(fault) = self.reject_non_standard_tag(event) {
            return Err(fault);
        }
        if let Some(tag) = &event.tag {
            if !same_text(tag.suffix.as_str(), expected) {
                let message = crate::text::join2(
                    "invalid YAML: invalid tag for a YAML ",
                    expected,
                );
                return Err(self.syntax(&event.span, message));
            }
        }
        if depth + 1 > MAX_YAML_DEPTH {
            return Err(self.depth_error(event));
        }
        if !self.charge(1) {
            return Err(self.budget_error(event));
        }
        Ok(())
    }

    /// Where the latest node that `id` anchors is held.
    fn anchor_index(&self, id: usize) -> (found: Option<usize>)
        ensures
            found is Some <==> find_anchor(self.state().anchors, id) is Some,
            found matches Some(at) ==> at < self.anchors@.len() && find_anchor(
                self.state().anchors,
                id,
            ) == Some(self.anchors@[at as int].spec_anchor()),
    {
        let ghost specs = anchor_specs(self.anchors@);
        let mut at: usize = self.anchors.len();
        assert(specs.take(specs.len() as int) =~= specs);
        while at > 0
            invariant
                at <= self.anchors@.len(),
                specs == anchor_specs(self.anchors@),
                find_anchor(specs, id) == find_anchor(specs.take(at as int), id),
            decreases at,
        {
            proof {
                assert(specs.take(at as int).last() == self.anchors@[at - 1].spec_anchor());
                assert(specs.take(at as int).drop_last() =~= specs.take(at - 1));
            }
            if self.anchors[at - 1].id == id {
                return Some(at - 1);
            }
            at -= 1;
        }
        None
    }

    /// Finishes a node whose contents have been read.
    fn finish(
        &mut self,
        event: &YamlEvent,
        kind: YamlNodeKind,
        end: usize,
        reached: usize,
        spent: usize,
    ) -> (subtree: YamlSubtree)
        ensures
            ({
                let whole = tree_of(YamlNode { kind, start: 0, end: 0, expanded: false });
                finished(event@, whole.kind, end, reached, spent, old(self).state()) == (
                    subtree.node@,
                    subtree.depth,
                    final(self).state(),
                )
            }),
            subtree.depth == reached,
            final(self).stream == old(self).stream,
            final(self).mark == old(self).mark,
    {
        let ghost before = self.state();
        let start = event.span.start.index.saturating_add(self.mark);
        let node = YamlNode { kind, start, end: max_of(end, start), expanded: false };
        if event.anchor != 0 {
            self.anchors.push(
                AnchoredNode {
                    id: event.anchor,
                    node: node.copy(),
                    nodes: self.nodes.saturating_sub(spent),
                    depth: reached,
                },
            );
        }
        proof {
            let whole = tree_of(YamlNode { kind, start: 0, end: 0, expanded: false });
            let after = finished(event@, whole.kind, end, reached, spent, before).2;
            assert(self.state().anchors =~= after.anchors);
            assert(self.state() =~= after);
        }
        YamlSubtree { node, depth: reached }
    }

    /// Builds the node that `event` opens, reading whatever it contains.
    ///
    /// `depth` counts the collections already open around this node; the
    /// document's own root is the first level, and the bound is charged before
    /// the contents are read rather than after.
    fn node(&mut self, event: YamlEvent, depth: usize) -> (subtree: Result<YamlSubtree, YamlError>)
        requires
            depth <= MAX_YAML_DEPTH,
        ensures
            subtree matches Ok(subtree) ==> node_of(event@, depth as nat, old(self).state())
                == Ok::<(Tree, usize, ReaderSpec), YamlFault>(
                (subtree.node@, subtree.depth, final(self).state()),
            ),
            subtree matches Ok(subtree) ==> depth + subtree.depth <= MAX_YAML_DEPTH,
            subtree matches Err(error) ==> node_of(event@, depth as nat, old(self).state())
                == Err::<(Tree, usize, ReaderSpec), YamlFault>(error@),
            subtree is Ok ==> pending(final(self).stream).len() <= pending(old(self).stream).len(),
            final(self).mark == old(self).mark,
        decreases pending(old(self).stream).len(), 1nat,
    {
        let ghost before = self.state();
        let spent = self.nodes;
        match event.kind {
            YamlKind::Scalar => {
                if let Some(fault) = self.reject_non_standard_tag(&event) {
                    return Err(fault);
                }
                if !self.charge(1) {
                    return Err(self.budget_error(&event));
                }
                let end = event.span.end.index.saturating_add(self.mark);
                let scalar = YamlScalar {
                    value: event.value.clone(),
                    style: event.style,
                    tag: match &event.tag {
                        None => None,
                        Some(tag) => Some(tag.copy()),
                    },
                };
                Ok(self.finish(&event, YamlNodeKind::Scalar(scalar), end, 0, spent))
            },
            YamlKind::SequenceStart => {
                if let Err(error) = self.open_collection(&event, "seq", depth) {
                    return Err(error);
                }
                let (items, inner, end) = match self.sequence(depth + 1) {
                    Ok(read) => read,
                    Err(error) => {
                        return Err(error);
                    },
                };
                Ok(self.finish(&event, YamlNodeKind::Sequence(items), end, inner + 1, spent))
            },
            YamlKind::MappingStart => {
                if let Err(error) = self.open_collection(&event, "map", depth) {
                    return Err(error);
                }
                let (entries, inner, end) = match self.mapping(depth + 1) {
                    Ok(read) => read,
                    Err(error) => {
                        return Err(error);
                    },
                };
                Ok(self.finish(&event, YamlNodeKind::Mapping(entries), end, inner + 1, spent))
            },
            YamlKind::Alias => {
                let at = match self.anchor_index(event.anchor) {
                    Some(at) => at,
                    None => {
                        return Err(
                            self.syntax(&event.span, "invalid YAML: unresolved alias".to_owned()),
                        );
                    },
                };
                // Charged before the copy, size and depth both: a tree too
                // large or too deep to walk must not be built in order to
                // discover that it is.
                let nodes = self.anchors[at].nodes;
                let reached = self.anchors[at].depth;
                if reached > MAX_YAML_DEPTH || depth + reached > MAX_YAML_DEPTH {
                    return Err(self.depth_error(&event));
                }
                if !self.charge(nodes) {
                    return Err(self.budget_error(&event));
                }
                let mut node = self.anchors[at].node.copy();
                // The whole copy anchors at the alias site.
                node.start = event.span.start.index.saturating_add(self.mark);
                node.end = max_of(event.span.end.index.saturating_add(self.mark), node.start);
                node.expanded = true;
                Ok(YamlSubtree { node, depth: reached })
            },
            _ => Err(document_error("invalid YAML: unexpected document boundary")),
        }
    }

    /// Reads the items of a sequence up to its end.
    fn sequence(&mut self, depth: usize) -> (read: Result<(Vec<YamlNode>, usize, usize), YamlError>)
        requires
            depth <= MAX_YAML_DEPTH,
        ensures
            read matches Ok((items, inner, end)) ==> sequence_from(
                old(self).state(),
                depth as nat,
                Seq::empty(),
                0,
            ) == Ok::<(Seq<Tree>, usize, usize, ReaderSpec), YamlFault>(
                (trees_of(items@), inner, end, final(self).state()),
            ),
            read matches Ok((items, inner, end)) ==> depth + inner <= MAX_YAML_DEPTH,
            read matches Err(error) ==> sequence_from(
                old(self).state(),
                depth as nat,
                Seq::empty(),
                0,
            ) == Err::<(Seq<Tree>, usize, usize, ReaderSpec), YamlFault>(error@),
            read is Ok ==> pending(final(self).stream).len() <= pending(old(self).stream).len(),
            final(self).mark == old(self).mark,
        decreases pending(old(self).stream).len(), 0nat,
    {
        let mut items: Vec<YamlNode> = Vec::new();
        let mut inner: usize = 0;
        assert(trees_of(items@) =~= Seq::empty());
        loop
            invariant
                depth <= MAX_YAML_DEPTH,
                depth + inner <= MAX_YAML_DEPTH,
                self.mark == old(self).mark,
                pending(self.stream).len() <= pending(old(self).stream).len(),
                sequence_from(self.state(), depth as nat, trees_of(items@), inner)
                    == sequence_from(old(self).state(), depth as nat, Seq::empty(), 0),
            decreases pending(self.stream).len(),
        {
            let event = match self.next_event() {
                Ok(event) => event,
                Err(error) => {
                    return Err(error);
                },
            };
            if event.kind == YamlKind::SequenceEnd {
                let end = event.span.end.index.saturating_add(self.mark);
                return Ok((items, inner, end));
            }
            let value = match self.node(event, depth) {
                Ok(value) => value,
                Err(error) => {
                    return Err(error);
                },
            };
            let ghost before = items@;
            inner = max_of(inner, value.depth);
            items.push(value.node);
            assert(trees_of(items@) =~= trees_of(before).push(value.node@));
        }
    }

    /// Reads the entries of a mapping up to its end.
    fn mapping(&mut self, depth: usize) -> (read: Result<
        (Vec<(YamlNode, YamlNode)>, usize, usize),
        YamlError,
    >)
        requires
            depth <= MAX_YAML_DEPTH,
        ensures
            read matches Ok((entries, inner, end)) ==> mapping_from(
                old(self).state(),
                depth as nat,
                Seq::empty(),
                0,
            ) == Ok::<(Seq<(Tree, Tree)>, usize, usize, ReaderSpec), YamlFault>(
                (entry_trees_of(entries@), inner, end, final(self).state()),
            ),
            read matches Ok((entries, inner, end)) ==> depth + inner <= MAX_YAML_DEPTH,
            read matches Err(error) ==> mapping_from(
                old(self).state(),
                depth as nat,
                Seq::empty(),
                0,
            ) == Err::<(Seq<(Tree, Tree)>, usize, usize, ReaderSpec), YamlFault>(error@),
            read is Ok ==> pending(final(self).stream).len() <= pending(old(self).stream).len(),
            final(self).mark == old(self).mark,
        decreases pending(old(self).stream).len(), 0nat,
    {
        let mut entries: Vec<(YamlNode, YamlNode)> = Vec::new();
        let mut inner: usize = 0;
        assert(entry_trees_of(entries@) =~= Seq::empty());
        loop
            invariant
                depth <= MAX_YAML_DEPTH,
                depth + inner <= MAX_YAML_DEPTH,
                self.mark == old(self).mark,
                pending(self.stream).len() <= pending(old(self).stream).len(),
                mapping_from(self.state(), depth as nat, entry_trees_of(entries@), inner)
                    == mapping_from(old(self).state(), depth as nat, Seq::empty(), 0),
            decreases pending(self.stream).len(),
        {
            let event = match self.next_event() {
                Ok(event) => event,
                Err(error) => {
                    return Err(error);
                },
            };
            if event.kind == YamlKind::MappingEnd {
                let end = event.span.end.index.saturating_add(self.mark);
                return Ok((entries, inner, end));
            }
            let key = match self.node(event, depth) {
                Ok(key) => key,
                Err(error) => {
                    return Err(error);
                },
            };
            let event = match self.next_event() {
                Ok(event) => event,
                Err(error) => {
                    return Err(error);
                },
            };
            let value = match self.node(event, depth) {
                Ok(value) => value,
                Err(error) => {
                    return Err(error);
                },
            };
            // Equality of whole nodes catches the keys that never reduce to a
            // string; keys that do are caught again on the resolved text.
            if contains_key(&entries, &key.node) {
                return Err(duplicate_schema_key_error(&key.node));
            }
            let ghost before = entries@;
            inner = max_of(max_of(inner, key.depth), value.depth);
            entries.push((key.node, value.node));
            assert(entry_trees_of(entries@) =~= entry_trees_of(before).push(
                (key.node@, value.node@),
            ));
        }
    }

    /// Refuses the second document that a schema must not contain, at its
    /// start.
    fn second_document_error(&self, event: &YamlEvent) -> (error: YamlError)
        ensures
            error@ == second_document_fault(event@, self.mark),
    {
        let message = join3(
            "invalid YAML: a second document opens",
            self.place(&event.span.start).as_str(),
            "; a schema is a single YAML document",
        );
        self.syntax(&event.span, message)
    }

    /// Reads the one document that the stream holds.
    fn document(&mut self) -> (tree: Result<YamlNode, YamlError>)
        ensures
            tree matches Ok(tree) ==> document_of(old(self).state()) == Ok::<Tree, YamlFault>(
                tree@,
            ),
            tree matches Err(error) ==> document_of(old(self).state()) == Err::<Tree, YamlFault>(
                error@,
            ),
    {
        let event = match self.next_event() {
            Ok(event) => event,
            Err(error) => {
                return Err(error);
            },
        };
        if event.kind != YamlKind::StreamStart {
            return Err(document_error("invalid YAML: unexpected document boundary"));
        }
        let event = match self.next_event() {
            Ok(event) => event,
            Err(error) => {
                return Err(error);
            },
        };
        if event.kind == YamlKind::StreamEnd {
            // Nothing but comments or blank lines: the null that the YAML data
            // model gives such a stream.
            return Ok(
                YamlNode {
                    kind: YamlNodeKind::Scalar(
                        YamlScalar { value: "~".to_owned(), style: 0, tag: None },
                    ),
                    start: 0,
                    end: 0,
                    expanded: false,
                },
            );
        }
        if event.kind != YamlKind::DocumentStart {
            return Err(document_error("invalid YAML: unexpected document boundary"));
        }
        let event = match self.next_event() {
            Ok(event) => event,
            Err(error) => {
                return Err(error);
            },
        };
        let root = match self.node(event, 0) {
            Ok(root) => root,
            Err(error) => {
                return Err(error);
            },
        };
        let event = match self.next_event() {
            Ok(event) => event,
            Err(error) => {
                return Err(error);
            },
        };
        if event.kind != YamlKind::DocumentEnd {
            return Err(document_error("invalid YAML: unexpected document boundary"));
        }
        let event = match self.next_event() {
            Ok(event) => event,
            Err(error) => {
                return Err(error);
            },
        };
        if event.kind == YamlKind::StreamEnd {
            Ok(root.node)
        } else if event.kind == YamlKind::DocumentStart {
            Err(self.second_document_error(&event))
        } else {
            Err(document_error("invalid YAML: unexpected document boundary"))
        }
    }
}

/// A syntax refusal of the whole document.
fn document_error(message: &str) -> (error: YamlError)
    ensures
        error@ == document_fault(message@),
{
    YamlError { kind: SchemaErrorKind::Syntax, span: None, message: message.to_owned() }
}

/// Whether `key` is among the keys of `entries`.
fn contains_key(entries: &Vec<(YamlNode, YamlNode)>, key: &YamlNode) -> (found: bool)
    ensures
        found == has_key(entry_trees_of(entries@), key@),
{
    let ghost trees = entry_trees_of(entries@);
    let mut at: usize = 0;
    while at < entries.len()
        invariant
            at <= entries@.len(),
            trees == entry_trees_of(entries@),
            forall|k: int| 0 <= k < at ==> !same_contents((#[trigger] trees[k]).0, key@),
        decreases entries.len() - at,
    {
        if same_node(&entries[at].0, key) {
            assert(same_contents(trees[at as int].0, key@));
            return true;
        }
        at += 1;
    }
    false
}

/// Names a duplicate mapping key at the duplicate occurrence's own range.
fn duplicate_schema_key_error(key: &YamlNode) -> (error: YamlError)
    ensures
        error@ == duplicate_key_fault(key@),
{
    YamlError {
        kind: SchemaErrorKind::Syntax,
        span: Some((key.start, key.end)),
        message: match key.scalar_text() {
            Some(text) => join3("invalid YAML: duplicate mapping key `", text, "`"),
            None => "invalid YAML: duplicate mapping key".to_owned(),
        },
    }
}

/// Reads the one document of a stream of events, of whose text `mark`
/// characters were removed from the head.
pub fn read_document(stream: YamlStream<'_>, mark: usize) -> (tree: Result<YamlNode, YamlError>)
    ensures
        tree matches Ok(tree) ==> document_of(fresh(pending(stream), mark)) == Ok::<
            Tree,
            YamlFault,
        >(tree@),
        tree matches Err(error) ==> document_of(fresh(pending(stream), mark)) == Err::<
            Tree,
            YamlFault,
        >(error@),
{
    let mut reader = YamlReader::new(stream, mark);
    reader.document()
}

/// Reads a schema document's one YAML document, keeping every place.
///
/// A leading byte-order mark is removed before parsing, and every reported
/// index counts it back in. A source holding no document at all parses as a
/// null. A second document is refused at its own start marker.
pub fn parse_schema_yaml(source: &str) -> (tree: Result<YamlNode, YamlError>)
    ensures
        tree matches Ok(tree) ==> parsed_tree(source@) == Ok::<Tree, YamlFault>(tree@),
        tree matches Err(error) ==> parsed_tree(source@) == Err::<Tree, YamlFault>(error@),
{
    if !source.is_empty() && source.get_char(0) == '\u{feff}' {
        let chars = chars_of(source);
        let body = text_of(chars.as_slice(), 1, chars.len());
        assert(source@.skip(1) =~= body@);
        read_document(open_stream(body.as_str()), 1)
    } else {
        read_document(open_stream(source), 0)
    }
}

} // verus!
