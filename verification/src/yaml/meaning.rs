//! What the events of a document spell.

use vstd::prelude::*;

use super::events::{EventSpec, ReadSpec, YamlKind, YamlMark, YamlSpan};
use super::reader::{
    document_of, find_anchor, fresh, has_key, larger, mapping_from, next_of, node_of,
    open_collection, sequence_from, spend, AnchorSpec, ReaderSpec, YamlFault, MAX_YAML_DEPTH,
};
use super::tree::{same_contents, Tree, TreeKind};

verus! {

/// The place of a character, whatever its line.
pub open spec fn place_of(index: usize) -> YamlMark {
    YamlMark { index, line: 0, column: 0 }
}

/// An event of a kind, without a tag or a text.
pub open spec fn bare_event(kind: YamlKind, start: usize, end: usize) -> EventSpec {
    EventSpec {
        kind,
        anchor: 0,
        tag: None,
        value: Seq::empty(),
        style: 0,
        span: YamlSpan { start: place_of(start), end: place_of(end) },
    }
}

/// The events that spell a tree.
pub open spec fn events_of(tree: Tree) -> Seq<EventSpec>
    decreases tree, 0int,
{
    match tree.kind {
        TreeKind::Scalar(scalar) => seq![
            EventSpec {
                value: scalar.value,
                style: scalar.style,
                tag: scalar.tag,
                ..bare_event(YamlKind::Scalar, tree.start, tree.end)
            },
        ],
        TreeKind::Sequence(items) => seq![
            bare_event(YamlKind::SequenceStart, tree.start, tree.start),
        ] + events_of_items(items, 0) + seq![
            bare_event(YamlKind::SequenceEnd, tree.end, tree.end),
        ],
        TreeKind::Mapping(entries) => seq![
            bare_event(YamlKind::MappingStart, tree.start, tree.start),
        ] + events_of_entries(entries, 0) + seq![
            bare_event(YamlKind::MappingEnd, tree.end, tree.end),
        ],
    }
}

/// The events that spell trees, one behind the other.
pub open spec fn events_of_items(items: Seq<Tree>, from: int) -> Seq<EventSpec>
    decreases items, items.len() - from,
{
    if 0 <= from < items.len() {
        events_of(items[from]) + events_of_items(items, from + 1)
    } else {
        Seq::empty()
    }
}

/// The events that spell entries, each key before its value.
pub open spec fn events_of_entries(entries: Seq<(Tree, Tree)>, from: int) -> Seq<EventSpec>
    decreases entries, entries.len() - from,
{
    if 0 <= from < entries.len() {
        events_of(entries[from].0) + events_of(entries[from].1) + events_of_entries(
            entries,
            from + 1,
        )
    } else {
        Seq::empty()
    }
}

/// How many collections stand one in the other.
pub open spec fn height(tree: Tree) -> nat
    decreases tree, 0int,
{
    match tree.kind {
        TreeKind::Scalar(_) => 0,
        TreeKind::Sequence(items) => 1 + height_of_items(items, 0),
        TreeKind::Mapping(entries) => 1 + height_of_entries(entries, 0),
    }
}

/// The height of the highest of trees.
pub open spec fn height_of_items(items: Seq<Tree>, from: int) -> nat
    decreases items, items.len() - from,
{
    if 0 <= from < items.len() {
        let here = height(items[from]);
        let rest = height_of_items(items, from + 1);
        if here < rest {
            rest
        } else {
            here
        }
    } else {
        0
    }
}

/// The height of the highest key or value of entries.
pub open spec fn height_of_entries(entries: Seq<(Tree, Tree)>, from: int) -> nat
    decreases entries, entries.len() - from,
{
    if 0 <= from < entries.len() {
        let key = height(entries[from].0);
        let value = height(entries[from].1);
        let rest = height_of_entries(entries, from + 1);
        let here = if key < value {
            value
        } else {
            key
        };
        if here < rest {
            rest
        } else {
            here
        }
    } else {
        0
    }
}

/// Whether a tree can be spelled without aliases: it stands where it says, its
/// scalars have no tags but those of the language, and no mapping has a key
/// twice.
pub open spec fn is_plain(tree: Tree) -> bool
    decreases tree, 0int,
{
    &&& !tree.expanded
    &&& tree.start <= tree.end
    &&& match tree.kind {
        TreeKind::Scalar(scalar) => scalar.tag matches Some(tag) ==> tag.handle
            == "tag:yaml.org,2002:"@,
        TreeKind::Sequence(items) => forall|at: int|
            0 <= at < items.len() ==> is_plain(#[trigger] items[at]),
        TreeKind::Mapping(entries) => {
            &&& forall|at: int|
                0 <= at < entries.len() ==> is_plain((#[trigger] entries[at]).0) && is_plain(
                    entries[at].1,
                )
            &&& forall|one: int, two: int|
                0 <= one < two < entries.len() ==> !same_contents(
                    (#[trigger] entries[one]).0,
                    (#[trigger] entries[two]).0,
                )
        },
    }
}

/// What a reader reads of events.
pub open spec fn reads_of(events: Seq<EventSpec>) -> Seq<ReadSpec> {
    events.map_values(|event: EventSpec| ReadSpec::Event(event))
}

/// How many scalars, sequences and mappings a tree is made of.
pub open spec fn size(tree: Tree) -> nat
    decreases tree, 0int,
{
    match tree.kind {
        TreeKind::Scalar(_) => 1,
        TreeKind::Sequence(items) => 1 + size_of_items(items, 0),
        TreeKind::Mapping(entries) => 1 + size_of_entries(entries, 0),
    }
}

/// The size of trees together.
pub open spec fn size_of_items(items: Seq<Tree>, from: int) -> nat
    decreases items, items.len() - from,
{
    if 0 <= from < items.len() {
        size(items[from]) + size_of_items(items, from + 1)
    } else {
        0
    }
}

/// The size of entries together.
pub open spec fn size_of_entries(entries: Seq<(Tree, Tree)>, from: int) -> nat
    decreases entries, entries.len() - from,
{
    if 0 <= from < entries.len() {
        size(entries[from].0) + size(entries[from].1) + size_of_entries(entries, from + 1)
    } else {
        0
    }
}

proof fn trees_have_events(tree: Tree)
    ensures
        size(tree) <= events_of(tree).len(),
        events_of(tree).len() > 0,
    decreases tree, 0int,
{
    match tree.kind {
        TreeKind::Scalar(_) => {},
        TreeKind::Sequence(items) => {
            items_have_events(items, 0);
        },
        TreeKind::Mapping(entries) => {
            entries_have_events(entries, 0);
        },
    }
}

proof fn items_have_events(items: Seq<Tree>, from: int)
    requires
        0 <= from,
    ensures
        size_of_items(items, from) <= events_of_items(items, from).len(),
    decreases items, items.len() - from,
{
    if from < items.len() {
        trees_have_events(items[from]);
        items_have_events(items, from + 1);
    }
}

proof fn entries_have_events(entries: Seq<(Tree, Tree)>, from: int)
    requires
        0 <= from,
    ensures
        size_of_entries(entries, from) <= events_of_entries(entries, from).len(),
    decreases entries, entries.len() - from,
{
    if from < entries.len() {
        trees_have_events(entries[from].0);
        trees_have_events(entries[from].1);
        entries_have_events(entries, from + 1);
    }
}

/// Whether a reader that has read no mark has room for what it has yet to read.
spec fn has_room(state: ReaderSpec) -> bool {
    &&& state.mark == 0
    &&& state.nodes <= state.events
    &&& state.events + state.reads.len() <= usize::MAX
}

/// The reader after events that hold nodes.
spec fn after(state: ReaderSpec, events: nat, nodes: nat, tail: Seq<ReadSpec>) -> ReaderSpec {
    ReaderSpec {
        reads: tail,
        events: (state.events + events) as usize,
        nodes: (state.nodes + nodes) as usize,
        ..state
    }
}

proof fn trees_are_read(tree: Tree, depth: nat, tail: Seq<ReadSpec>, state: ReaderSpec)
    requires
        is_plain(tree),
        depth + height(tree) <= MAX_YAML_DEPTH,
        has_room(state),
        state.reads == reads_of(events_of(tree)) + tail,
    ensures
        next_of(state) matches Ok((event, first)) && event == events_of(tree)[0] && node_of(
            event,
            depth,
            first,
        ) == Ok::<(Tree, usize, ReaderSpec), YamlFault>(
            (
                tree,
                height(tree) as usize,
                after(state, events_of(tree).len(), size(tree), tail),
            ),
        ),
    decreases tree, 0int,
{
    let events = events_of(tree);
    trees_have_events(tree);
    let event = events[0];
    assert(state.reads[0] == reads_of(events)[0]);
    assert(state.reads[0] == ReadSpec::Event(event));
    let first = ReaderSpec {
        reads: state.reads.drop_first(),
        events: (state.events + 1) as usize,
        ..state
    };
    assert(next_of(state) == Ok::<(EventSpec, ReaderSpec), YamlFault>(
        (event, first),
    ));
    let opened = ReaderSpec { nodes: (first.nodes + 1) as usize, ..first };
    assert(spend(first, 1) == Some(opened));
    match tree.kind {
        TreeKind::Scalar(scalar) => {
            assert(first.reads =~= tail);
            assert(node_of(event, depth, first) is Ok);
        },
        TreeKind::Sequence(items) => {
            let close = bare_event(YamlKind::SequenceEnd, tree.end, tree.end);
            assert(opened.reads =~= reads_of(events_of_items(items, 0)) + seq![
                ReadSpec::Event(close),
            ] + tail);
            items_are_read(items, 0, depth + 1, tree.end, tail, opened, 0);
            assert(items.take(0) =~= Seq::empty());
        },
        TreeKind::Mapping(entries) => {
            let close = bare_event(YamlKind::MappingEnd, tree.end, tree.end);
            assert(opened.reads =~= reads_of(events_of_entries(entries, 0)) + seq![
                ReadSpec::Event(close),
            ] + tail);
            entries_are_read(entries, 0, depth + 1, tree.end, tail, opened, 0);
            assert(entries.take(0) =~= Seq::empty());
        },
    }
}

spec fn higher(left: nat, right: nat) -> nat {
    if left < right {
        right
    } else {
        left
    }
}

proof fn items_are_read(
    items: Seq<Tree>,
    from: int,
    depth: nat,
    end: usize,
    tail: Seq<ReadSpec>,
    state: ReaderSpec,
    inner: usize,
)
    requires
        0 <= from <= items.len(),
        forall|at: int| 0 <= at < items.len() ==> is_plain(#[trigger] items[at]),
        depth + height_of_items(items, from) <= MAX_YAML_DEPTH,
        has_room(state),
        state.reads == reads_of(events_of_items(items, from)) + seq![
            ReadSpec::Event(bare_event(YamlKind::SequenceEnd, end, end)),
        ] + tail,
    ensures
        sequence_from(state, depth, items.take(from), inner) == Ok::<
            (Seq<Tree>, usize, usize, ReaderSpec),
            YamlFault,
        >(
            (
                items,
                higher(inner as nat, height_of_items(items, from)) as usize,
                end,
                after(
                    state,
                    events_of_items(items, from).len() + 1,
                    size_of_items(items, from),
                    tail,
                ),
            ),
        ),
    decreases items, items.len() - from,
{
    let close = ReadSpec::Event(bare_event(YamlKind::SequenceEnd, end, end));
    if from < items.len() {
        let tree = items[from];
        let rest = events_of_items(items, from + 1);
        let events = events_of(tree);
        assert(is_plain(tree));
        trees_have_events(tree);
        items_have_events(items, from + 1);
        assert(reads_of(events + rest) =~= reads_of(events) + reads_of(rest));
        let behind = reads_of(rest) + seq![close] + tail;
        assert(state.reads =~= reads_of(events) + behind);
        trees_are_read(tree, depth, behind, state);
        assert(events[0].kind != YamlKind::SequenceEnd);
        let last = after(state, events.len(), size(tree), behind);
        items_are_read(
            items,
            from + 1,
            depth,
            end,
            tail,
            last,
            higher(inner as nat, height(tree)) as usize,
        );
        assert(items.take(from).push(tree) =~= items.take(from + 1));
        assert(after(last, rest.len() + 1, size_of_items(items, from + 1), tail) == after(
            state,
            (events + rest).len() + 1,
            size_of_items(items, from),
            tail,
        ));
    } else {
        assert(events_of_items(items, from) =~= Seq::empty());
        assert(state.reads[0] == close);
        assert(state.reads.drop_first() =~= tail);
        assert(items.take(from) =~= items);
    }
}

#[verifier::rlimit(40)]
proof fn entries_are_read(
    entries: Seq<(Tree, Tree)>,
    from: int,
    depth: nat,
    end: usize,
    tail: Seq<ReadSpec>,
    state: ReaderSpec,
    inner: usize,
)
    requires
        0 <= from <= entries.len(),
        forall|at: int|
            0 <= at < entries.len() ==> is_plain((#[trigger] entries[at]).0) && is_plain(
                entries[at].1,
            ),
        forall|one: int, two: int|
            0 <= one < two < entries.len() ==> !same_contents(
                (#[trigger] entries[one]).0,
                (#[trigger] entries[two]).0,
            ),
        depth + height_of_entries(entries, from) <= MAX_YAML_DEPTH,
        has_room(state),
        state.reads == reads_of(events_of_entries(entries, from)) + seq![
            ReadSpec::Event(bare_event(YamlKind::MappingEnd, end, end)),
        ] + tail,
    ensures
        mapping_from(state, depth, entries.take(from), inner) == Ok::<
            (Seq<(Tree, Tree)>, usize, usize, ReaderSpec),
            YamlFault,
        >(
            (
                entries,
                higher(inner as nat, height_of_entries(entries, from)) as usize,
                end,
                after(
                    state,
                    events_of_entries(entries, from).len() + 1,
                    size_of_entries(entries, from),
                    tail,
                ),
            ),
        ),
    decreases entries, entries.len() - from,
{
    let close = ReadSpec::Event(bare_event(YamlKind::MappingEnd, end, end));
    if from < entries.len() {
        let (key, value) = entries[from];
        let rest = events_of_entries(entries, from + 1);
        assert(is_plain(key) && is_plain(value));
        trees_have_events(key);
        trees_have_events(value);
        entries_have_events(entries, from + 1);
        assert(reads_of(events_of(key) + events_of(value) + rest) =~= reads_of(events_of(key))
            + reads_of(events_of(value)) + reads_of(rest));
        let behind = reads_of(rest) + seq![close] + tail;
        let middle = reads_of(events_of(value)) + behind;
        assert(state.reads =~= reads_of(events_of(key)) + middle);
        trees_are_read(key, depth, middle, state);
        assert(events_of(key)[0].kind != YamlKind::MappingEnd);
        let between = after(state, events_of(key).len(), size(key), middle);
        trees_are_read(value, depth, behind, between);
        let last = after(between, events_of(value).len(), size(value), behind);
        assert forall|at: int| 0 <= at < entries.take(from).len() implies !same_contents(
            (#[trigger] entries.take(from)[at]).0,
            key,
        ) by {
            assert(entries.take(from)[at] == entries[at]);
        }
        entries_are_read(
            entries,
            from + 1,
            depth,
            end,
            tail,
            last,
            higher(higher(inner as nat, height(key)), height(value)) as usize,
        );
        assert(entries.take(from).push((key, value)) =~= entries.take(from + 1));
        assert(after(last, rest.len() + 1, size_of_entries(entries, from + 1), tail) == after(
            state,
            (events_of(key) + events_of(value) + rest).len() + 1,
            size_of_entries(entries, from),
            tail,
        ));
    } else {
        assert(events_of_entries(entries, from) =~= Seq::empty());
        assert(state.reads[0] == close);
        assert(state.reads.drop_first() =~= tail);
        assert(entries.take(from) =~= entries);
    }
}

/// A document whose events spell a tree is read as that tree, with every node
/// where it stands.
pub proof fn documents_are_read_as_they_are_spelled(tree: Tree)
    requires
        is_plain(tree),
        height(tree) <= 128,
        events_of(tree).len() + 4 <= usize::MAX,
    ensures
        document_of(
            fresh(
                reads_of(
                    seq![
                        bare_event(YamlKind::StreamStart, 0, 0),
                        bare_event(YamlKind::DocumentStart, 0, 0),
                    ] + events_of(tree) + seq![
                        bare_event(YamlKind::DocumentEnd, 0, 0),
                        bare_event(YamlKind::StreamEnd, 0, 0),
                    ],
                ),
                0,
            ),
        ) == Ok::<Tree, YamlFault>(tree),
{
    let opening = seq![
        bare_event(YamlKind::StreamStart, 0, 0),
        bare_event(YamlKind::DocumentStart, 0, 0),
    ];
    let closing = seq![
        bare_event(YamlKind::DocumentEnd, 0, 0),
        bare_event(YamlKind::StreamEnd, 0, 0),
    ];
    let reads = reads_of(opening + events_of(tree) + closing);
    let state = fresh(reads, 0);
    assert(reads[0] == ReadSpec::Event(opening[0]));
    assert(reads[1] == ReadSpec::Event(opening[1]));
    let second = ReaderSpec { reads: reads.drop_first(), events: 1, ..state };
    assert(second.reads[0] == reads[1]);
    let third = ReaderSpec { reads: second.reads.drop_first(), events: 2, ..state };
    assert(third.reads =~= reads_of(events_of(tree)) + reads_of(closing));
    trees_are_read(tree, 0, reads_of(closing), third);
    let end = after(third, events_of(tree).len(), size(tree), reads_of(closing));
    assert(end.reads[0] == ReadSpec::Event(closing[0]));
    assert(end.reads.drop_first()[0] == ReadSpec::Event(closing[1]));
}

/// An alias stands for what was anchored last under its number, at the place
/// of the alias; an alias of nothing is refused.
pub proof fn aliases_stand_for_what_was_anchored(
    event: EventSpec,
    depth: nat,
    state: ReaderSpec,
    at: int,
)
    requires
        event.kind == YamlKind::Alias,
        at == -1 || (0 <= at < state.anchors.len() && state.anchors[at].id == event.anchor),
        forall|later: int|
            at < later < state.anchors.len() ==> (#[trigger] state.anchors[later]).id
                != event.anchor,
    ensures
        at == -1 ==> node_of(event, depth, state) is Err,
        node_of(event, depth, state) matches Ok((tree, _, last)) ==> {
            &&& at >= 0
            &&& tree.kind == state.anchors[at].tree.kind
            &&& tree.expanded
            &&& last.reads == state.reads
            &&& state.mark == 0 && event.span.start.index <= event.span.end.index ==> tree.start
                == event.span.start.index && tree.end == event.span.end.index
        },
{
    last_anchors_are_found(state.anchors, event.anchor, at);
}

proof fn last_anchors_are_found(anchors: Seq<AnchorSpec>, id: usize, at: int)
    requires
        at == -1 || (0 <= at < anchors.len() && anchors[at].id == id),
        forall|later: int| at < later < anchors.len() ==> (#[trigger] anchors[later]).id != id,
    ensures
        at == -1 ==> find_anchor(anchors, id) is None,
        at >= 0 ==> find_anchor(anchors, id) == Some(anchors[at]),
    decreases anchors.len(),
{
    if anchors.len() > 0 && at < anchors.len() - 1 {
        assert(anchors[anchors.len() - 1].id != id);
        let before = anchors.drop_last();
        assert forall|later: int| at < later < before.len() implies (#[trigger] before[later]).id
            != id by {
            assert(before[later] == anchors[later]);
        }
        last_anchors_are_found(before, id, at);
    }
}

/// Whether no mapping in a tree has a key twice.
pub open spec fn has_each_key_once(tree: Tree) -> bool
    decreases tree,
{
    match tree.kind {
        TreeKind::Scalar(_) => true,
        TreeKind::Sequence(items) => forall|at: int|
            0 <= at < items.len() ==> has_each_key_once(#[trigger] items[at]),
        TreeKind::Mapping(entries) => {
            &&& forall|at: int|
                0 <= at < entries.len() ==> has_each_key_once((#[trigger] entries[at]).0)
                    && has_each_key_once(entries[at].1)
            &&& forall|one: int, two: int|
                0 <= one < two < entries.len() ==> !same_contents(
                    (#[trigger] entries[one]).0,
                    (#[trigger] entries[two]).0,
                )
        },
    }
}

/// Whether what was anchored has each key once and is as high as was noted.
pub open spec fn are_sound(anchors: Seq<AnchorSpec>) -> bool {
    forall|at: int|
        0 <= at < anchors.len() ==> has_each_key_once((#[trigger] anchors[at]).tree)
            && anchors[at].depth == height(anchors[at].tree)
}

proof fn another_item_may_be_higher(items: Seq<Tree>, tree: Tree, from: int)
    requires
        0 <= from <= items.len(),
    ensures
        height_of_items(items.push(tree), from) == higher(
            height_of_items(items, from),
            height(tree),
        ),
    decreases items.len() - from,
{
    let more = items.push(tree);
    if from < items.len() {
        assert(more[from] == items[from]);
        another_item_may_be_higher(items, tree, from + 1);
    } else {
        assert(more[from] == tree);
        assert(height_of_items(more, from + 1) == 0);
    }
}

proof fn another_entry_may_be_higher(entries: Seq<(Tree, Tree)>, key: Tree, value: Tree, from: int)
    requires
        0 <= from <= entries.len(),
    ensures
        height_of_entries(entries.push((key, value)), from) == higher(
            higher(height_of_entries(entries, from), height(key)),
            height(value),
        ),
    decreases entries.len() - from,
{
    let more = entries.push((key, value));
    if from < entries.len() {
        assert(more[from] == entries[from]);
        another_entry_may_be_higher(entries, key, value, from + 1);
    } else {
        assert(more[from] == (key, value));
        assert(height_of_entries(more, from + 1) == 0);
    }
}

/// Whatever is read nests no deeper than the limit, and no mapping in it has a
/// key twice.
pub proof fn trees_keep_the_depth_limit(event: EventSpec, depth: nat, state: ReaderSpec)
    requires
        depth <= 128,
        are_sound(state.anchors),
    ensures
        node_of(event, depth, state) matches Ok((tree, reached, last)) ==> {
            &&& has_each_key_once(tree)
            &&& reached == height(tree)
            &&& depth + height(tree) <= 128
            &&& are_sound(last.anchors)
        },
    decreases state.reads.len(), 1nat,
{
    match event.kind {
        YamlKind::SequenceStart => {
            if let Ok(after) = open_collection(event, "seq"@, depth, state) {
                items_keep_the_depth_limit(after, depth + 1, Seq::empty(), 0);
            }
        },
        YamlKind::MappingStart => {
            if let Ok(after) = open_collection(event, "map"@, depth, state) {
                entries_keep_the_depth_limit(after, depth + 1, Seq::empty(), 0);
            }
        },
        YamlKind::Alias => {
            found_anchors_are_sound(state.anchors, event.anchor);
        },
        _ => {},
    }
}

proof fn found_anchors_are_sound(anchors: Seq<AnchorSpec>, id: usize)
    requires
        are_sound(anchors),
    ensures
        find_anchor(anchors, id) matches Some(anchor) ==> has_each_key_once(anchor.tree)
            && anchor.depth == height(anchor.tree),
    decreases anchors.len(),
{
    if anchors.len() > 0 {
        assert(anchors[anchors.len() - 1] == anchors.last());
        let before = anchors.drop_last();
        assert forall|at: int| 0 <= at < before.len() implies has_each_key_once(
            (#[trigger] before[at]).tree,
        ) && before[at].depth == height(before[at].tree) by {
            assert(before[at] == anchors[at]);
        }
        found_anchors_are_sound(before, id);
    }
}

proof fn items_keep_the_depth_limit(
    state: ReaderSpec,
    depth: nat,
    items: Seq<Tree>,
    inner: usize,
)
    requires
        depth <= 128,
        are_sound(state.anchors),
        inner == height_of_items(items, 0),
        depth + inner <= 128,
        forall|at: int| 0 <= at < items.len() ==> has_each_key_once(#[trigger] items[at]),
    ensures
        sequence_from(state, depth, items, inner) matches Ok((all, reached, _, last)) ==> {
            &&& forall|at: int| 0 <= at < all.len() ==> has_each_key_once(#[trigger] all[at])
            &&& reached == height_of_items(all, 0)
            &&& depth + reached <= 128
            &&& are_sound(last.anchors)
        },
    decreases state.reads.len(), 0nat,
{
    if let Ok((event, after)) = next_of(state) {
        if event.kind != YamlKind::SequenceEnd {
            trees_keep_the_depth_limit(event, depth, after);
            if let Ok((tree, reached, last)) = node_of(event, depth, after) {
                if last.reads.len() < state.reads.len() {
                    another_item_may_be_higher(items, tree, 0);
                    items_keep_the_depth_limit(
                        last,
                        depth,
                        items.push(tree),
                        larger(inner, reached),
                    );
                }
            }
        }
    }
}

proof fn entries_keep_the_depth_limit(
    state: ReaderSpec,
    depth: nat,
    entries: Seq<(Tree, Tree)>,
    inner: usize,
)
    requires
        depth <= 128,
        are_sound(state.anchors),
        inner == height_of_entries(entries, 0),
        depth + inner <= 128,
        forall|at: int|
            0 <= at < entries.len() ==> has_each_key_once((#[trigger] entries[at]).0)
                && has_each_key_once(entries[at].1),
        forall|one: int, two: int|
            0 <= one < two < entries.len() ==> !same_contents(
                (#[trigger] entries[one]).0,
                (#[trigger] entries[two]).0,
            ),
    ensures
        mapping_from(state, depth, entries, inner) matches Ok((all, reached, _, last)) ==> {
            &&& forall|at: int|
                0 <= at < all.len() ==> has_each_key_once((#[trigger] all[at]).0)
                    && has_each_key_once(all[at].1)
            &&& forall|one: int, two: int|
                0 <= one < two < all.len() ==> !same_contents(
                    (#[trigger] all[one]).0,
                    (#[trigger] all[two]).0,
                )
            &&& reached == height_of_entries(all, 0)
            &&& depth + reached <= 128
            &&& are_sound(last.anchors)
        },
    decreases state.reads.len(), 0nat,
{
    if let Ok((event, after)) = next_of(state) {
        if event.kind != YamlKind::MappingEnd {
            trees_keep_the_depth_limit(event, depth, after);
            if let Ok((key, key_depth, middle)) = node_of(event, depth, after) {
                if middle.reads.len() < state.reads.len() {
                    if let Ok((second, before)) = next_of(middle) {
                        trees_keep_the_depth_limit(second, depth, before);
                        if let Ok((value, value_depth, last)) = node_of(second, depth, before) {
                            if !has_key(entries, key) && last.reads.len() < state.reads.len() {
                                another_entry_may_be_higher(entries, key, value, 0);
                                entries_keep_the_depth_limit(
                                    last,
                                    depth,
                                    entries.push((key, value)),
                                    larger(larger(inner, key_depth), value_depth),
                                );
                            }
                        }
                    }
                }
            }
        }
    }
}

/// Whether what was anchored is as large as was noted.
pub open spec fn are_counted(anchors: Seq<AnchorSpec>) -> bool {
    forall|at: int|
        0 <= at < anchors.len() ==> (#[trigger] anchors[at]).nodes == size(anchors[at].tree)
}

/// Whether what a reader may count stays within its numbers.
pub open spec fn can_count(state: ReaderSpec) -> bool {
    &&& are_counted(state.anchors)
    &&& 10000 + 10 * (state.events + state.reads.len()) < usize::MAX
}

proof fn another_item_adds_its_size(items: Seq<Tree>, tree: Tree, from: int)
    requires
        0 <= from <= items.len(),
    ensures
        size_of_items(items.push(tree), from) == size_of_items(items, from) + size(tree),
    decreases items.len() - from,
{
    let more = items.push(tree);
    if from < items.len() {
        assert(more[from] == items[from]);
        another_item_adds_its_size(items, tree, from + 1);
    } else {
        assert(more[from] == tree);
        assert(size_of_items(more, from + 1) == 0);
    }
}

proof fn another_entry_adds_its_size(entries: Seq<(Tree, Tree)>, key: Tree, value: Tree, from: int)
    requires
        0 <= from <= entries.len(),
    ensures
        size_of_entries(entries.push((key, value)), from) == size_of_entries(entries, from) + size(
            key,
        ) + size(value),
    decreases entries.len() - from,
{
    let more = entries.push((key, value));
    if from < entries.len() {
        assert(more[from] == entries[from]);
        another_entry_adds_its_size(entries, key, value, from + 1);
    } else {
        assert(more[from] == (key, value));
        assert(size_of_entries(more, from + 1) == 0);
    }
}

/// Whatever is read, the contents of its aliases counted each time, is made of
/// no more nodes than the events of its document allow.
pub proof fn trees_keep_the_size_limit(event: EventSpec, depth: nat, state: ReaderSpec)
    requires
        can_count(state),
    ensures
        node_of(event, depth, state) matches Ok((tree, _, last)) ==> {
            &&& last.nodes == state.nodes + size(tree)
            &&& last.nodes <= 10000 + 10 * last.events
            &&& last.events + last.reads.len() == state.events + state.reads.len()
            &&& can_count(last)
        },
    decreases state.reads.len(), 1nat,
{
    match event.kind {
        YamlKind::SequenceStart => {
            if let Ok(after) = open_collection(event, "seq"@, depth, state) {
                items_keep_the_size_limit(after, depth + 1, Seq::empty(), 0);
            }
        },
        YamlKind::MappingStart => {
            if let Ok(after) = open_collection(event, "map"@, depth, state) {
                entries_keep_the_size_limit(after, depth + 1, Seq::empty(), 0);
            }
        },
        YamlKind::Alias => {
            found_anchors_are_counted(state.anchors, event.anchor);
        },
        _ => {},
    }
}

proof fn found_anchors_are_counted(anchors: Seq<AnchorSpec>, id: usize)
    requires
        are_counted(anchors),
    ensures
        find_anchor(anchors, id) matches Some(anchor) ==> anchor.nodes == size(anchor.tree),
    decreases anchors.len(),
{
    if anchors.len() > 0 {
        assert(anchors[anchors.len() - 1] == anchors.last());
        let before = anchors.drop_last();
        assert forall|at: int| 0 <= at < before.len() implies (#[trigger] before[at]).nodes == size(
            before[at].tree,
        ) by {
            assert(before[at] == anchors[at]);
        }
        found_anchors_are_counted(before, id);
    }
}

proof fn items_keep_the_size_limit(state: ReaderSpec, depth: nat, items: Seq<Tree>, inner: usize)
    requires
        can_count(state),
        state.nodes <= 10000 + 10 * state.events,
    ensures
        sequence_from(state, depth, items, inner) matches Ok((all, _, _, last)) ==> {
            &&& last.nodes + size_of_items(items, 0) == state.nodes + size_of_items(all, 0)
            &&& last.nodes <= 10000 + 10 * last.events
            &&& last.events + last.reads.len() == state.events + state.reads.len()
            &&& can_count(last)
        },
    decreases state.reads.len(), 0nat,
{
    if let Ok((event, after)) = next_of(state) {
        if event.kind != YamlKind::SequenceEnd {
            trees_keep_the_size_limit(event, depth, after);
            if let Ok((tree, reached, last)) = node_of(event, depth, after) {
                if last.reads.len() < state.reads.len() {
                    another_item_adds_its_size(items, tree, 0);
                    items_keep_the_size_limit(
                        last,
                        depth,
                        items.push(tree),
                        larger(inner, reached),
                    );
                }
            }
        }
    }
}

proof fn entries_keep_the_size_limit(
    state: ReaderSpec,
    depth: nat,
    entries: Seq<(Tree, Tree)>,
    inner: usize,
)
    requires
        can_count(state),
        state.nodes <= 10000 + 10 * state.events,
    ensures
        mapping_from(state, depth, entries, inner) matches Ok((all, _, _, last)) ==> {
            &&& last.nodes + size_of_entries(entries, 0) == state.nodes + size_of_entries(all, 0)
            &&& last.nodes <= 10000 + 10 * last.events
            &&& last.events + last.reads.len() == state.events + state.reads.len()
            &&& can_count(last)
        },
    decreases state.reads.len(), 0nat,
{
    if let Ok((event, after)) = next_of(state) {
        if event.kind != YamlKind::MappingEnd {
            trees_keep_the_size_limit(event, depth, after);
            if let Ok((key, key_depth, middle)) = node_of(event, depth, after) {
                if middle.reads.len() < state.reads.len() {
                    if let Ok((second, before)) = next_of(middle) {
                        trees_keep_the_size_limit(second, depth, before);
                        if let Ok((value, value_depth, last)) = node_of(second, depth, before) {
                            if !has_key(entries, key) && last.reads.len() < state.reads.len() {
                                another_entry_adds_its_size(entries, key, value, 0);
                                entries_keep_the_size_limit(
                                    last,
                                    depth,
                                    entries.push((key, value)),
                                    larger(larger(inner, key_depth), value_depth),
                                );
                            }
                        }
                    }
                }
            }
        }
    }
}

} // verus!
