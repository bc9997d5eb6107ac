//! The names that a scope declares.

use vstd::prelude::*;

use crate::load_result::{
    error_specs, CapturePath, ContentOwnerSpec, ContentRulePath, ErrorSpec, ItemRulePath,
    RelatedLocation, RelatedSpec, RuleIndex, RulePath, SchemaError, SchemaErrorKind, ScopePath,
    SourceRange,
};
use crate::loader::places::error_with_related_at;
use crate::schema::UpperBound;
use crate::text::{decimal, decimal_text, join2, join3, same_text};

verus! {

/// What a name is reserved for at the schema root, if it is.
///
/// The reservation is on top-level rule ids only: a nested rule may take
/// either name, and capture names have no reserved words at all.
pub open spec fn reserved_purpose(id: Seq<char>) -> Option<Seq<char>> {
    if id == "fm"@ {
        Some("frontmatter refs"@)
    } else if id == "linkdefs"@ {
        Some("a later document source"@)
    } else {
        None
    }
}

/// What a name is reserved for at the schema root, if it is.
pub fn reserved_root_id(id: &str) -> (purpose: Option<&'static str>)
    ensures
        purpose is Some <==> reserved_purpose(id@) is Some,
        purpose matches Some(purpose) ==> reserved_purpose(id@) == Some(purpose@),
{
    if same_text(id, "fm") {
        Some("frontmatter refs")
    } else if same_text(id, "linkdefs") {
        Some("a later document source")
    } else {
        None
    }
}

/// Whether one range starts after another.
pub open spec fn stands_after(left: SourceRange, right: SourceRange) -> bool {
    ||| left.source.0 > right.source.0
    ||| left.source.0 == right.source.0 && left.range.start.0 > right.range.start.0
}

/// Where among ordered positions a range belongs: behind all that do not start
/// after it.
pub open spec fn slot_for(order: Seq<int>, ranges: Seq<SourceRange>, range: SourceRange) -> int
    decreases order.len(),
{
    if order.len() == 0 {
        0
    } else if stands_after(ranges[order.last()], range) {
        slot_for(order.drop_last(), ranges, range)
    } else {
        order.len() as int
    }
}

/// The positions of the first `count` ranges in the order of their starts;
/// ranges with one start stay in their order.
pub open spec fn place_order(ranges: Seq<SourceRange>, count: int) -> Seq<int>
    decreases count,
{
    if count <= 0 {
        Seq::empty()
    } else {
        let before = place_order(ranges, count - 1);
        before.insert(slot_for(before, ranges, ranges[count - 1]), count - 1)
    }
}

proof fn slot_splits(order: Seq<int>, ranges: Seq<SourceRange>, range: SourceRange)
    requires
        forall|left: int, right: int|
            0 <= left < right < order.len() ==> !stands_after(
                ranges[#[trigger] order[left]],
                ranges[#[trigger] order[right]],
            ),
    ensures
        0 <= slot_for(order, ranges, range) <= order.len(),
        forall|at: int|
            0 <= at < slot_for(order, ranges, range) ==> !stands_after(
                ranges[#[trigger] order[at]],
                range,
            ),
        forall|at: int|
            slot_for(order, ranges, range) <= at < order.len() ==> stands_after(
                ranges[#[trigger] order[at]],
                range,
            ),
    decreases order.len(),
{
    if order.len() > 0 {
        let before = order.drop_last();
        if stands_after(ranges[order.last()], range) {
            assert forall|left: int, right: int|
                0 <= left < right < before.len() implies !stands_after(
                ranges[#[trigger] before[left]],
                ranges[#[trigger] before[right]],
            ) by {
                assert(before[left] == order[left]);
                assert(before[right] == order[right]);
            }
            slot_splits(before, ranges, range);
            let slot = slot_for(order, ranges, range);
            assert forall|at: int| 0 <= at < slot implies !stands_after(
                ranges[#[trigger] order[at]],
                range,
            ) by {
                assert(before[at] == order[at]);
            }
            assert forall|at: int| slot <= at < order.len() implies stands_after(
                ranges[#[trigger] order[at]],
                range,
            ) by {
                if at < before.len() {
                    assert(before[at] == order[at]);
                }
            }
        } else {
            assert forall|at: int| 0 <= at < order.len() implies !stands_after(
                ranges[#[trigger] order[at]],
                range,
            ) by {
                if at < order.len() - 1 {
                    assert(!stands_after(ranges[order[at]], ranges[order[order.len() - 1]]));
                }
            }
        }
    }
}

/// Positions in the order of their places: every position occurs once, no
/// range starts after a later one, and ranges with one start keep their order.
pub proof fn place_order_sorts(ranges: Seq<SourceRange>, count: int)
    requires
        0 <= count <= ranges.len(),
    ensures
        ({
            let order = place_order(ranges, count);
            &&& order.len() == count
            &&& forall|at: int| 0 <= at < count ==> 0 <= #[trigger] order[at] < count
            &&& forall|position: int| 0 <= position < count ==> #[trigger] order.contains(position)
            &&& forall|left: int, right: int|
                0 <= left < right < count ==> !stands_after(
                    ranges[#[trigger] order[left]],
                    ranges[#[trigger] order[right]],
                )
            &&& forall|left: int, right: int|
                0 <= left < right < count ==> stands_after(
                    ranges[#[trigger] order[right]],
                    ranges[#[trigger] order[left]],
                ) || order[left] < order[right]
        }),
    decreases count,
{
    if count > 0 {
        place_order_sorts(ranges, count - 1);
        let before = place_order(ranges, count - 1);
        let range = ranges[count - 1];
        slot_splits(before, ranges, range);
        let slot = slot_for(before, ranges, range);
        let order = place_order(ranges, count);
        assert forall|at: int| 0 <= at < count implies 0 <= #[trigger] order[at] < count by {
            if at < slot {
                assert(order[at] == before[at]);
            } else if at > slot {
                assert(order[at] == before[at - 1]);
            }
        }
        assert forall|position: int| 0 <= position < count implies #[trigger] order.contains(
            position,
        ) by {
            if position == count - 1 {
                assert(order[slot] == position);
            } else {
                assert(before.contains(position));
                let at = choose|at: int| 0 <= at < before.len() && before[at] == position;
                if at < slot {
                    assert(order[at] == position);
                } else {
                    assert(order[at + 1] == position);
                }
            }
        }
        assert forall|left: int, right: int| 0 <= left < right < count implies !stands_after(
            ranges[#[trigger] order[left]],
            ranges[#[trigger] order[right]],
        ) && (stands_after(ranges[order[right]], ranges[order[left]]) || order[left]
            < order[right]) by {
            if left == slot {
                assert(order[right] == before[right - 1]);
                assert(stands_after(ranges[before[right - 1]], range));
            } else if right == slot {
                assert(order[left] == before[left]);
                assert(0 <= before[left] < count - 1);
            } else {
                let l = if left < slot {
                    left
                } else {
                    left - 1
                };
                let r = if right < slot {
                    right
                } else {
                    right - 1
                };
                assert(order[left] == before[l]);
                assert(order[right] == before[r]);
            }
        }
    }
}

fn starts_after(left: SourceRange, right: SourceRange) -> (after: bool)
    ensures
        after == stands_after(left, right),
{
    left.source.0 > right.source.0 || (left.source.0 == right.source.0 && left.range.start.0
        > right.range.start.0)
}

/// The positions in `order` as integers.
pub open spec fn positions_in(order: Seq<usize>) -> Seq<int> {
    order.map_values(|position: usize| position as int)
}

/// The positions of ranges in the order of their starts.
pub fn sort_by_place(ranges: &Vec<SourceRange>) -> (order: Vec<usize>)
    ensures
        positions_in(order@) == place_order(ranges@, ranges@.len() as int),
{
    let mut order: Vec<usize> = Vec::new();
    let mut next: usize = 0;
    assert(positions_in(order@) =~= Seq::empty());
    while next < ranges.len()
        invariant
            next <= ranges@.len(),
            positions_in(order@) == place_order(ranges@, next as int),
        decreases ranges.len() - next,
    {
        let ghost before = positions_in(order@);
        proof {
            place_order_sorts(ranges@, next as int);
        }
        let mut slot: usize = order.len();
        assert(before.take(slot as int) =~= before);
        assert forall|at: int| 0 <= at < order@.len() implies #[trigger] order@[at]
            < ranges@.len() by {
            assert(before[at] == order@[at]);
        }
        while slot > 0 && starts_after(ranges[order[slot - 1]], ranges[next])
            invariant
                next < ranges@.len(),
                slot <= order@.len(),
                before == positions_in(order@),
                forall|at: int| 0 <= at < before.len() ==> 0 <= #[trigger] before[at] < next,
                forall|at: int| 0 <= at < order@.len() ==> #[trigger] order@[at] < ranges@.len(),
                slot_for(before, ranges@, ranges@[next as int]) == slot_for(
                    before.take(slot as int),
                    ranges@,
                    ranges@[next as int],
                ),
            decreases slot,
        {
            proof {
                assert(before.take(slot as int).drop_last() =~= before.take(slot - 1));
                assert(before.take(slot as int).last() == order@[slot - 1]);
            }
            slot -= 1;
        }
        proof {
            if slot > 0 {
                assert(before.take(slot as int).last() == order@[slot - 1]);
            }
        }
        order.insert(slot, next);
        assert(positions_in(order@) =~= before.insert(slot as int, next as int));
        next += 1;
    }
    order
}

/// A namespace: that of the sections of a scope, or of a named structural
/// rule. The empty scope path is the outermost namespace.
#[derive(Clone, Debug, PartialEq, Eq)]
pub enum NamedScope {
    /// The rules and captures of a section scope.
    Sections(ScopePath),
    /// What a content rule names.
    Content(ContentRulePath),
    /// What an item rule names.
    Item(ItemRulePath),
}

/// What a namespace is.
pub enum NamedScopeSpec {
    /// See [`NamedScope::Sections`].
    Sections(Seq<RuleIndex>),
    /// See [`NamedScope::Content`].
    Content((ContentOwnerSpec, usize)),
    /// See [`NamedScope::Item`].
    Item(((ContentOwnerSpec, usize), usize)),
}

impl View for NamedScope {
    type V = NamedScopeSpec;

    open spec fn view(&self) -> NamedScopeSpec {
        match *self {
            NamedScope::Sections(scope) => NamedScopeSpec::Sections(scope@),
            NamedScope::Content(path) => NamedScopeSpec::Content(path@),
            NamedScope::Item(path) => NamedScopeSpec::Item(path@),
        }
    }
}

impl NamedScope {
    /// Whether two namespaces are the same.
    pub fn same(&self, other: &NamedScope) -> (same: bool)
        ensures
            same == (self@ == other@),
    {
        match (self, other) {
            (NamedScope::Sections(left), NamedScope::Sections(right)) => left.same(right),
            (NamedScope::Content(left), NamedScope::Content(right)) => left.same(right),
            (NamedScope::Item(left), NamedScope::Item(right)) => left.same(right),
            _ => false,
        }
    }
}

/// What a name stands for. Structural entries hold the most matches that they
/// admit; captures are terminal values and have no cardinality.
#[derive(Clone, Debug, PartialEq, Eq)]
pub enum NamedEntry {
    /// A section rule.
    Section {
        /// Where the rule stands.
        path: RulePath,
        /// The most matches that it admits.
        effective_maximum: UpperBound,
    },
    /// A content rule.
    Content {
        /// Where the rule stands.
        path: ContentRulePath,
        /// The most matches that it admits.
        effective_maximum: UpperBound,
    },
    /// An item rule.
    Item {
        /// Where the rule stands.
        path: ItemRulePath,
        /// The most matches that it admits.
        effective_maximum: UpperBound,
    },
    /// A capture.
    Capture(CapturePath),
}

/// What an entry is.
pub enum EntrySpec {
    /// See [`NamedEntry::Section`].
    Section((Seq<RuleIndex>, RuleIndex), UpperBound),
    /// See [`NamedEntry::Content`].
    Content((ContentOwnerSpec, usize), UpperBound),
    /// See [`NamedEntry::Item`].
    Item(((ContentOwnerSpec, usize), usize), UpperBound),
    /// See [`NamedEntry::Capture`].
    Capture((Seq<RuleIndex>, RuleIndex), Seq<char>),
}

impl View for NamedEntry {
    type V = EntrySpec;

    open spec fn view(&self) -> EntrySpec {
        match *self {
            NamedEntry::Section { path, effective_maximum } => EntrySpec::Section(
                path@,
                effective_maximum,
            ),
            NamedEntry::Content { path, effective_maximum } => EntrySpec::Content(
                path@,
                effective_maximum,
            ),
            NamedEntry::Item { path, effective_maximum } => EntrySpec::Item(
                path@,
                effective_maximum,
            ),
            NamedEntry::Capture(path) => EntrySpec::Capture(path.rule@, path.name@),
        }
    }
}

/// How an entry is pointed at from a later one with its name.
pub open spec fn entry_note(entry: EntrySpec) -> Seq<char> {
    match entry {
        EntrySpec::Section(path, _) => "first declared by sibling rule "@ + decimal(
            path.1.0 as nat,
        ),
        EntrySpec::Content(path, _) => "first declared by content rule "@ + decimal(path.1 as nat),
        EntrySpec::Item(path, _) => "first declared by item rule "@ + decimal(path.1 as nat),
        EntrySpec::Capture(_, name) => "capture `"@ + name + "` declared here"@,
    }
}

/// The most matches that an entry admits.
pub open spec fn entry_maximum(entry: EntrySpec) -> Option<UpperBound> {
    match entry {
        EntrySpec::Section(_, maximum) => Some(maximum),
        EntrySpec::Content(_, maximum) => Some(maximum),
        EntrySpec::Item(_, maximum) => Some(maximum),
        EntrySpec::Capture(_, _) => None,
    }
}

impl NamedEntry {
    /// Whether the entry is a capture.
    pub fn is_capture(&self) -> (capture: bool)
        ensures
            capture == (self@ is Capture),
    {
        matches!(self, NamedEntry::Capture(_))
    }

    /// How the entry is pointed at from a later one with its name.
    pub fn related_message(&self) -> (message: String)
        ensures
            message@ == entry_note(self@),
    {
        match self {
            NamedEntry::Section { path, .. } => join2(
                "first declared by sibling rule ",
                decimal_text(path.index.0).as_str(),
            ),
            NamedEntry::Content { path, .. } => join2(
                "first declared by content rule ",
                decimal_text(path.index).as_str(),
            ),
            NamedEntry::Item { path, .. } => join2(
                "first declared by item rule ",
                decimal_text(path.index).as_str(),
            ),
            NamedEntry::Capture(path) => join3("capture `", path.name.as_str(), "` declared here"),
        }
    }

    /// The most matches that the entry admits.
    pub fn effective_maximum(&self) -> (maximum: Option<UpperBound>)
        ensures
            maximum == entry_maximum(self@),
    {
        match self {
            NamedEntry::Section { effective_maximum, .. } => Some(*effective_maximum),
            NamedEntry::Content { effective_maximum, .. } => Some(*effective_maximum),
            NamedEntry::Item { effective_maximum, .. } => Some(*effective_maximum),
            NamedEntry::Capture(_) => None,
        }
    }
}

/// A name with its place and what it stands for.
#[derive(Clone, Debug, PartialEq, Eq)]
pub struct NamedDeclaration {
    /// The name.
    pub name: String,
    /// Where it is declared.
    pub range: SourceRange,
    /// What it stands for.
    pub entry: NamedEntry,
}

/// What a declaration is.
#[verifier::ext_equal]
pub struct DeclarationSpec {
    /// See [`NamedDeclaration::name`].
    pub name: Seq<char>,
    /// See [`NamedDeclaration::range`].
    pub range: SourceRange,
    /// See [`NamedDeclaration::entry`].
    pub entry: EntrySpec,
}

impl View for NamedDeclaration {
    type V = DeclarationSpec;

    open spec fn view(&self) -> DeclarationSpec {
        DeclarationSpec { name: self.name@, range: self.range, entry: self.entry@ }
    }
}

/// What declarations are.
pub open spec fn declaration_specs(declarations: Seq<NamedDeclaration>) -> Seq<DeclarationSpec> {
    declarations.map_values(|declaration: NamedDeclaration| declaration@)
}

/// The ranges of declarations.
pub open spec fn declared_ranges(declarations: Seq<DeclarationSpec>) -> Seq<SourceRange> {
    declarations.map_values(|declaration: DeclarationSpec| declaration.range)
}

/// The first of the first `count` positions in `order` that declares `name`.
pub open spec fn earliest(
    declarations: Seq<DeclarationSpec>,
    order: Seq<int>,
    name: Seq<char>,
    count: int,
) -> Option<int>
    decreases count,
{
    if count <= 0 {
        None
    } else {
        match earliest(declarations, order, name, count - 1) {
            Some(first) => Some(first),
            None => if declarations[order[count - 1]].name == name {
                Some(order[count - 1])
            } else {
                None
            },
        }
    }
}

/// What is said of a name that is declared again.
pub open spec fn collision_message(first: DeclarationSpec, later: DeclarationSpec) -> Seq<char> {
    match (first.entry is Capture, later.entry is Capture) {
        (false, true) => "capture `"@ + later.name
            + "` collides with a rule id in the same named scope"@,
        (true, false) => "rule id `"@ + later.name
            + "` collides with a capture in the same named scope"@,
        _ => "duplicate rule id `"@ + later.name + "` in one scope"@,
    }
}

/// An error for each of the first `count` positions whose name an earlier one
/// declares.
pub open spec fn collision_errors(
    declarations: Seq<DeclarationSpec>,
    order: Seq<int>,
    count: int,
) -> Seq<ErrorSpec>
    decreases count,
{
    if count <= 0 {
        Seq::empty()
    } else {
        let before = collision_errors(declarations, order, count - 1);
        let later = declarations[order[count - 1]];
        match earliest(declarations, order, later.name, count - 1) {
            None => before,
            Some(first) => before.push(
                ErrorSpec {
                    kind: SchemaErrorKind::DuplicateId,
                    range: later.range,
                    related: seq![
                        RelatedSpec {
                            range: declarations[first].range,
                            message: entry_note(declarations[first].entry),
                        },
                    ],
                    message: collision_message(declarations[first], later),
                },
            ),
        }
    }
}

/// The errors in the names of one namespace, in the order of their places.
pub open spec fn namespace_errors(declarations: Seq<DeclarationSpec>) -> Seq<ErrorSpec> {
    collision_errors(
        declarations,
        place_order(declared_ranges(declarations), declarations.len() as int),
        declarations.len() as int,
    )
}

/// Whether all names differ.
pub open spec fn names_differ(declarations: Seq<DeclarationSpec>) -> bool {
    forall|left: int, right: int|
        0 <= left < right < declarations.len() ==> (#[trigger] declarations[left]).name != (
        #[trigger] declarations[right]).name
}

proof fn earliest_finds(
    declarations: Seq<DeclarationSpec>,
    order: Seq<int>,
    name: Seq<char>,
    count: int,
)
    requires
        0 <= count <= order.len(),
    ensures
        earliest(declarations, order, name, count) is None <==> forall|at: int|
            0 <= at < count ==> declarations[#[trigger] order[at]].name != name,
        earliest(declarations, order, name, count) matches Some(first) ==> exists|at: int|
            0 <= at < count && #[trigger] order[at] == first && declarations[first].name == name,
    decreases count,
{
    if count > 0 {
        earliest_finds(declarations, order, name, count - 1);
    }
}

proof fn no_collisions(declarations: Seq<DeclarationSpec>, order: Seq<int>, count: int)
    requires
        0 <= count <= order.len(),
    ensures
        collision_errors(declarations, order, count).len() == 0 <==> forall|left: int, right: int|
            0 <= left < right < count ==> declarations[#[trigger] order[left]].name
                != declarations[#[trigger] order[right]].name,
    decreases count,
{
    if count > 0 {
        no_collisions(declarations, order, count - 1);
        let later = declarations[order[count - 1]];
        earliest_finds(declarations, order, later.name, count - 1);
        if collision_errors(declarations, order, count).len() == 0 {
            assert forall|left: int, right: int| 0 <= left < right < count implies declarations[
            #[trigger] order[left]].name != declarations[#[trigger] order[right]].name by {
                if right == count - 1 {
                    assert(earliest(declarations, order, later.name, count - 1) is None);
                }
            }
        } else if earliest(declarations, order, later.name, count - 1) is Some {
            let first = earliest(declarations, order, later.name, count - 1)->0;
            let at = choose|at: int|
                0 <= at < count - 1 && #[trigger] order[at] == first && declarations[first].name
                    == later.name;
            assert(declarations[order[at]].name == declarations[order[count - 1]].name);
        }
    }
}

/// A namespace is free of errors exactly where all its names differ.
pub proof fn free_namespaces_have_different_names(declarations: Seq<DeclarationSpec>)
    ensures
        namespace_errors(declarations).len() == 0 <==> names_differ(declarations),
{
    let count = declarations.len() as int;
    let ranges = declared_ranges(declarations);
    let order = place_order(ranges, count);
    place_order_sorts(ranges, count);
    no_collisions(declarations, order, count);
    if namespace_errors(declarations).len() == 0 {
        assert forall|left: int, right: int| 0 <= left < right < count implies (
        #[trigger] declarations[left]).name != (#[trigger] declarations[right]).name by {
            assert(order.contains(left));
            assert(order.contains(right));
            let l = choose|at: int| 0 <= at < order.len() && order[at] == left;
            let r = choose|at: int| 0 <= at < order.len() && order[at] == right;
            assert(l != r);
            if l < r {
                assert(declarations[order[l]].name != declarations[order[r]].name);
            } else {
                assert(declarations[order[r]].name != declarations[order[l]].name);
            }
        }
    }
    if names_differ(declarations) {
        assert forall|left: int, right: int| 0 <= left < right < count implies declarations[
        #[trigger] order[left]].name != declarations[#[trigger] order[right]].name by {
            let l = order[left];
            let r = order[right];
            if l == r {
                place_order_is_injective(ranges, count, left, right);
            }
            if l < r {
                assert(declarations[l].name != declarations[r].name);
            } else {
                assert(declarations[r].name != declarations[l].name);
            }
        }
    }
}

proof fn place_order_is_injective(ranges: Seq<SourceRange>, count: int, left: int, right: int)
    requires
        0 <= count <= ranges.len(),
        0 <= left < right < count,
    ensures
        place_order(ranges, count)[left] != place_order(ranges, count)[right],
{
    place_order_sorts(ranges, count);
    let order = place_order(ranges, count);
    assert(stands_after(ranges[order[right]], ranges[order[left]]) || order[left] < order[right]);
}

fn find_earliest(declarations: &Vec<NamedDeclaration>, order: &Vec<usize>, name: &str, count: usize)
    -> (first: Option<usize>)
    requires
        count <= order@.len(),
        forall|at: int| 0 <= at < order@.len() ==> #[trigger] order@[at] < declarations@.len(),
    ensures
        first is Some <==> earliest(
            declaration_specs(declarations@),
            positions_in(order@),
            name@,
            count as int,
        ) is Some,
        first matches Some(first) ==> earliest(
            declaration_specs(declarations@),
            positions_in(order@),
            name@,
            count as int,
        ) == Some(first as int) && first < declarations@.len(),
{
    let ghost specs = declaration_specs(declarations@);
    let ghost positions = positions_in(order@);
    let mut found: Option<usize> = None;
    let mut at: usize = 0;
    while at < count
        invariant
            at <= count <= order@.len(),
            specs == declaration_specs(declarations@),
            positions == positions_in(order@),
            forall|k: int| 0 <= k < order@.len() ==> #[trigger] order@[k] < declarations@.len(),
            found is Some <==> earliest(specs, positions, name@, at as int) is Some,
            found matches Some(found) ==> earliest(specs, positions, name@, at as int) == Some(
                found as int,
            ) && found < declarations@.len(),
        decreases count - at,
    {
        assert(positions[at as int] == order@[at as int]);
        let here = same_text(declarations[order[at]].name.as_str(), name);
        if found.is_none() && here {
            found = Some(order[at]);
        }
        at += 1;
    }
    found
}

/// Reports every name that one namespace declares again; whether there is
/// none. The later spelling is the one that is reported.
pub fn check_named_scope(declarations: &Vec<NamedDeclaration>, errors: &mut Vec<SchemaError>)
    -> (free: bool)
    ensures
        ({
            let expected = namespace_errors(declaration_specs(declarations@));
            &&& free == (expected.len() == 0)
            &&& error_specs(final(errors)@) == error_specs(old(errors)@) + expected
        }),
{
    let ghost specs = declaration_specs(declarations@);
    let mut ranges: Vec<SourceRange> = Vec::new();
    let mut at: usize = 0;
    while at < declarations.len()
        invariant
            at <= declarations@.len(),
            ranges@.len() == at,
            forall|k: int| 0 <= k < at ==> #[trigger] ranges@[k] == declarations@[k].range,
        decreases declarations.len() - at,
    {
        ranges.push(declarations[at].range);
        at += 1;
    }
    assert(ranges@ =~= declared_ranges(specs));
    let order = sort_by_place(&ranges);
    let ghost positions = positions_in(order@);
    proof {
        place_order_sorts(ranges@, ranges@.len() as int);
        assert forall|k: int| 0 <= k < order@.len() implies #[trigger] order@[k]
            < declarations@.len() by {
            assert(positions[k] == order@[k]);
        }
        assert(positions.len() == order@.len());
    }
    let mut free = true;
    let mut next: usize = 0;
    assert(error_specs(errors@) =~= error_specs(old(errors)@) + Seq::<ErrorSpec>::empty());
    while next < order.len()
        invariant
            next <= order@.len(),
            specs == declaration_specs(declarations@),
            positions == positions_in(order@),
            forall|k: int| 0 <= k < order@.len() ==> #[trigger] order@[k] < declarations@.len(),
            free == (collision_errors(specs, positions, next as int).len() == 0),
            error_specs(errors@) == error_specs(old(errors)@) + collision_errors(
                specs,
                positions,
                next as int,
            ),
        decreases order.len() - next,
    {
        assert(positions[next as int] == order@[next as int]);
        let declaration = &declarations[order[next]];
        assert(specs[order@[next as int] as int] == declaration@);
        if let Some(first) = find_earliest(
            declarations,
            &order,
            declaration.name.as_str(),
            next,
        ) {
            free = false;
            let earlier = &declarations[first];
            assert(specs[first as int] == earlier@);
            let name = declaration.name.as_str();
            let message = match (earlier.entry.is_capture(), declaration.entry.is_capture()) {
                (false, true) => join3(
                    "capture `",
                    name,
                    "` collides with a rule id in the same named scope",
                ),
                (true, false) => join3(
                    "rule id `",
                    name,
                    "` collides with a capture in the same named scope",
                ),
                _ => join3("duplicate rule id `", name, "` in one scope"),
            };
            error_with_related_at(
                errors,
                SchemaErrorKind::DuplicateId,
                declaration.range,
                message,
                RelatedLocation {
                    range: earlier.range,
                    message: earlier.entry.related_message(),
                },
            );
        }
        assert(error_specs(errors@) =~= error_specs(old(errors)@) + collision_errors(
            specs,
            positions,
            next + 1,
        ));
        next += 1;
    }
    free
}

/// The names of a schema by namespace.
#[derive(Debug, PartialEq, Eq)]
pub struct Namespaces {
    /// The declarations of each namespace, in the order of their registration.
    pub scopes: Vec<(NamedScope, Vec<NamedDeclaration>)>,
}

/// What the declarations of one namespace are.
pub open spec fn namespace_spec(
    namespace: (NamedScope, Vec<NamedDeclaration>),
) -> (NamedScopeSpec, Seq<DeclarationSpec>) {
    (namespace.0@, declaration_specs(namespace.1@))
}

impl View for Namespaces {
    type V = Seq<(NamedScopeSpec, Seq<DeclarationSpec>)>;

    open spec fn view(&self) -> Seq<(NamedScopeSpec, Seq<DeclarationSpec>)> {
        self.scopes@.map_values(
            |namespace: (NamedScope, Vec<NamedDeclaration>)| namespace_spec(namespace),
        )
    }
}

/// The first declaration of `name`, from `from` on.
pub open spec fn declared_from(
    declarations: Seq<DeclarationSpec>,
    name: Seq<char>,
    from: int,
) -> Option<DeclarationSpec>
    decreases declarations.len() - from,
{
    if from < 0 || from >= declarations.len() {
        None
    } else if declarations[from].name == name {
        Some(declarations[from])
    } else {
        declared_from(declarations, name, from + 1)
    }
}

/// The first declaration of `name` in a namespace, from the registration
/// `from` on.
pub open spec fn named_from(
    namespaces: Seq<(NamedScopeSpec, Seq<DeclarationSpec>)>,
    scope: NamedScopeSpec,
    name: Seq<char>,
    from: int,
) -> Option<DeclarationSpec>
    decreases namespaces.len() - from,
{
    if from < 0 || from >= namespaces.len() {
        None
    } else {
        let here = if namespaces[from].0 == scope {
            declared_from(namespaces[from].1, name, 0)
        } else {
            None
        };
        match here {
            Some(declaration) => Some(declaration),
            None => named_from(namespaces, scope, name, from + 1),
        }
    }
}

fn find_declared<'n>(declarations: &'n Vec<NamedDeclaration>, name: &str) -> (found: Option<
    &'n NamedDeclaration,
>)
    ensures
        found is Some <==> declared_from(declaration_specs(declarations@), name@, 0) is Some,
        found matches Some(found) ==> declared_from(declaration_specs(declarations@), name@, 0)
            == Some(found@),
{
    let ghost specs = declaration_specs(declarations@);
    let mut at: usize = 0;
    while at < declarations.len()
        invariant
            at <= declarations@.len(),
            specs == declaration_specs(declarations@),
            declared_from(specs, name@, 0) == declared_from(specs, name@, at as int),
        decreases declarations.len() - at,
    {
        assert(specs[at as int] == declarations@[at as int]@);
        if same_text(declarations[at].name.as_str(), name) {
            return Some(&declarations[at]);
        }
        at += 1;
    }
    None
}

impl Namespaces {
    /// No names.
    pub fn new() -> (namespaces: Self)
        ensures
            namespaces@ == Seq::<(NamedScopeSpec, Seq<DeclarationSpec>)>::empty(),
    {
        let namespaces = Namespaces { scopes: Vec::new() };
        assert(namespaces@ =~= Seq::empty());
        namespaces
    }

    /// Registers declarations in a namespace.
    pub fn register(&mut self, scope: NamedScope, declarations: Vec<NamedDeclaration>)
        ensures
            final(self)@ == old(self)@.push((scope@, declaration_specs(declarations@))),
    {
        self.scopes.push((scope, declarations));
        assert(self@ =~= old(self)@.push((scope@, declaration_specs(declarations@))));
    }

    /// The first declaration of `name` in a namespace.
    pub fn find(&self, scope: &NamedScope, name: &str) -> (found: Option<&NamedDeclaration>)
        ensures
            found is Some <==> named_from(self@, scope@, name@, 0) is Some,
            found matches Some(found) ==> named_from(self@, scope@, name@, 0) == Some(found@),
    {
        let mut at: usize = 0;
        while at < self.scopes.len()
            invariant
                at <= self.scopes@.len(),
                named_from(self@, scope@, name@, 0) == named_from(
                    self@,
                    scope@,
                    name@,
                    at as int,
                ),
            decreases self.scopes.len() - at,
        {
            assert(self@[at as int] == namespace_spec(self.scopes@[at as int]));
            if self.scopes[at].0.same(scope) {
                if let Some(found) = find_declared(&self.scopes[at].1, name) {
                    return Some(found);
                }
            }
            at += 1;
        }
        None
    }
}

/// Whether the section rules among declarations stand in that namespace's
/// scope.
pub open spec fn in_scope(declared: Seq<DeclarationSpec>, scope: NamedScopeSpec) -> bool {
    forall|at: int|
        0 <= at < declared.len() ==> match (#[trigger] declared[at]).entry {
            EntrySpec::Section(path, _) => scope == NamedScopeSpec::Sections(path.0),
            _ => true,
        }
}

/// Whether every name of a section rule is registered where the rule stands.
pub open spec fn names_fit(namespaces: Seq<(NamedScopeSpec, Seq<DeclarationSpec>)>) -> bool {
    forall|at: int|
        0 <= at < namespaces.len() ==> in_scope((#[trigger] namespaces[at]).1, namespaces[at].0)
}

proof fn declarations_are_listed(
    declarations: Seq<DeclarationSpec>,
    name: Seq<char>,
    from: int,
)
    requires
        0 <= from,
    ensures
        declared_from(declarations, name, from) is Some ==> declarations.contains(
            declared_from(declarations, name, from)->0,
        ) && declared_from(declarations, name, from)->0.name == name,
    decreases declarations.len() - from,
{
    if from < declarations.len() {
        if declarations[from].name == name {
            assert(declarations.contains(declarations[from]));
        } else {
            declarations_are_listed(declarations, name, from + 1);
        }
    }
}

/// A name that resolves to a section rule resolves in the rule's own scope.
pub proof fn names_resolve_where_they_stand(
    namespaces: Seq<(NamedScopeSpec, Seq<DeclarationSpec>)>,
    scope: NamedScopeSpec,
    name: Seq<char>,
    from: int,
)
    requires
        names_fit(namespaces),
        0 <= from,
    ensures
        named_from(namespaces, scope, name, from) matches Some(declaration) ==> {
            &&& declaration.name == name
            &&& declaration.entry is Section ==> scope == NamedScopeSpec::Sections(
                declaration.entry->Section_0.0,
            )
        },
    decreases namespaces.len() - from,
{
    if from < namespaces.len() {
        declarations_are_listed(namespaces[from].1, name, 0);
        if namespaces[from].0 == scope && declared_from(namespaces[from].1, name, 0) is Some {
            assert(in_scope(namespaces[from].1, namespaces[from].0));
        } else {
            names_resolve_where_they_stand(namespaces, scope, name, from + 1);
        }
    }
}

} // verus!
