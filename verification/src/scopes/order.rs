//! Building the value orders of a rule out of their declarations.

use vstd::prelude::*;

use super::cardinality::{is_singular, is_singular_maximum};
use super::content::optional_value;
use super::model::{
    capture_specs, order_specs, Captures, OrderSpec, ValueOrderDirection, ValueOrderEntry,
    ValueType,
};
use crate::json::{get_member, item_specs, member, member_specs, Json, JsonSpec};
use crate::load_result::{
    error_specs, ErrorSpec, FoundNodes, NodeAddress, OrderEntryPath, OrderIndex, RuleIndex,
    RulePath, SchemaError, SchemaErrorKind, SchemaNode, SourceRange,
};
use crate::loader::places::{error_at, known_range, plain_error, range_for, Places, PlacesSpec};
use crate::loader::ranges::{KeySpec, RangeKey};
use crate::loader::shape::Members;
use crate::schema::Cardinality;
use crate::text::{join3, same_text};

verus! {

/// The texts that `texts` are.
pub open spec fn text_specs(texts: Seq<String>) -> Seq<Seq<char>> {
    texts.map_values(|text: String| text@)
}

/// Whether a field belongs to an order entry.
pub open spec fn is_entry_field(name: Seq<char>) -> bool {
    name == "by"@ || name == "dir"@ || name == "strict"@
}

/// A fault for each of the first `count` fields that does not belong.
pub open spec fn unknown_faults(members: Members, count: int) -> Seq<Seq<char>>
    decreases count,
{
    if count <= 0 {
        Seq::empty()
    } else {
        let before = unknown_faults(members, count - 1);
        let name = members[count - 1].0;
        if is_entry_field(name) {
            before
        } else {
            before.push("unknown `order` entry field `"@ + name + "`"@)
        }
    }
}

/// The capture that an entry orders by.
pub open spec fn by_of(members: Members) -> Option<Seq<char>> {
    match member(members, "by"@) {
        Some(JsonSpec::Text(by)) => Some(by),
        _ => None,
    }
}

/// The faults in the capture that an entry orders by.
pub open spec fn by_faults(members: Members) -> Seq<Seq<char>> {
    match member(members, "by"@) {
        Some(JsonSpec::Text(_)) => Seq::empty(),
        Some(_) => seq!["`order` entry `by` must be a capture name string"@],
        None => seq!["each `order` entry must declare `by`"@],
    }
}

/// The direction of an entry; ascending, where it spells none.
pub open spec fn direction_of(members: Members) -> Option<ValueOrderDirection> {
    match member(members, "dir"@) {
        None => Some(ValueOrderDirection::Ascending),
        Some(JsonSpec::Text(dir)) => if dir == "asc"@ {
            Some(ValueOrderDirection::Ascending)
        } else if dir == "desc"@ {
            Some(ValueOrderDirection::Descending)
        } else {
            None
        },
        Some(_) => None,
    }
}

/// Whether an entry is strict; it is not, where it does not say.
pub open spec fn strict_of(members: Members) -> Option<bool> {
    match member(members, "strict"@) {
        None => Some(false),
        Some(JsonSpec::Bool(strict)) => Some(strict),
        Some(_) => None,
    }
}

/// The faults in the shape of an entry.
pub open spec fn entry_faults(value: JsonSpec) -> Seq<Seq<char>> {
    match value {
        JsonSpec::Object(members) => unknown_faults(members, members.len() as int) + by_faults(
            members,
        ) + (if direction_of(members) is Some {
            Seq::empty()
        } else {
            seq!["`order` entry `dir` must be `asc` or `desc`"@]
        }) + (if strict_of(members) is Some {
            Seq::empty()
        } else {
            seq!["`order` entry `strict` must be a bool"@]
        }),
        _ => seq!["each `order` entry must be a mapping"@],
    }
}

/// The entry that a value of the right shape declares.
pub open spec fn entry_of(value: JsonSpec) -> Option<OrderSpec> {
    match value {
        JsonSpec::Object(members) => if entry_faults(value).len() == 0 {
            Some(
                OrderSpec {
                    by: by_of(members)->0,
                    direction: direction_of(members)->0,
                    strict: strict_of(members)->0,
                },
            )
        } else {
            None
        },
        _ => None,
    }
}

/// What an optional entry is.
pub open spec fn optional_order(entry: Option<ValueOrderEntry>) -> Option<OrderSpec> {
    match entry {
        None => None,
        Some(entry) => Some(entry@),
    }
}

fn push_fault(faults: &mut Vec<String>, fault: String)
    ensures
        text_specs(final(faults)@) == text_specs(old(faults)@).push(fault@),
{
    faults.push(fault);
    assert(text_specs(faults@) =~= text_specs(old(faults)@).push(fault@));
}

fn find_unknown(members: &Vec<(String, Json)>, faults: &mut Vec<String>)
    ensures
        text_specs(final(faults)@) == text_specs(old(faults)@) + unknown_faults(
            member_specs(members@),
            members@.len() as int,
        ),
{
    let ghost specs = member_specs(members@);
    let mut at: usize = 0;
    assert(text_specs(faults@) =~= text_specs(old(faults)@) + unknown_faults(specs, 0));
    while at < members.len()
        invariant
            at <= members@.len(),
            specs == member_specs(members@),
            text_specs(faults@) == text_specs(old(faults)@) + unknown_faults(specs, at as int),
        decreases members.len() - at,
    {
        let name = members[at].0.as_str();
        if !same_text(name, "by") && !same_text(name, "dir") && !same_text(name, "strict") {
            push_fault(faults, join3("unknown `order` entry field `", name, "`"));
        }
        assert(text_specs(faults@) =~= text_specs(old(faults)@) + unknown_faults(specs, at + 1));
        at += 1;
    }
}

fn read_direction(members: &Vec<(String, Json)>) -> (direction: Option<ValueOrderDirection>)
    ensures
        direction == direction_of(member_specs(members@)),
{
    match get_member(members, "dir") {
        None => Some(ValueOrderDirection::Ascending),
        Some(value) => match value.as_str() {
            Some(dir) => if same_text(dir, "asc") {
                Some(ValueOrderDirection::Ascending)
            } else if same_text(dir, "desc") {
                Some(ValueOrderDirection::Descending)
            } else {
                None
            },
            None => None,
        },
    }
}

fn read_strict(members: &Vec<(String, Json)>) -> (strict: Option<bool>)
    ensures
        strict == strict_of(member_specs(members@)),
{
    match get_member(members, "strict") {
        None => Some(false),
        Some(value) => value.as_bool(),
    }
}

/// Reads one entry's own shape, independently of every other entry and of the
/// rule around it. Its faults are independent of each other, so all of them
/// are collected, and the entry is given only where there is none.
pub fn parse_order_entry(value: &Json) -> (read: (Option<ValueOrderEntry>, Vec<String>))
    ensures
        optional_order(read.0) == entry_of(value@),
        text_specs(read.1@) == entry_faults(value@),
{
    let mut faults: Vec<String> = Vec::new();
    assert(text_specs(faults@) =~= Seq::empty());
    let members = match value.as_object() {
        Some(members) => members,
        None => {
            push_fault(&mut faults, "each `order` entry must be a mapping".to_owned());
            assert(text_specs(faults@) =~= entry_faults(value@));
            return (None, faults);
        },
    };
    let ghost specs = member_specs(members@);
    find_unknown(members, &mut faults);
    let by = match get_member(members, "by") {
        Some(value) => match value.as_str() {
            Some(by) => Some(by),
            None => {
                push_fault(
                    &mut faults,
                    "`order` entry `by` must be a capture name string".to_owned(),
                );
                None
            },
        },
        None => {
            push_fault(&mut faults, "each `order` entry must declare `by`".to_owned());
            None
        },
    };
    assert(text_specs(faults@) =~= unknown_faults(specs, members@.len() as int) + by_faults(specs));
    let direction = read_direction(members);
    if direction.is_none() {
        push_fault(&mut faults, "`order` entry `dir` must be `asc` or `desc`".to_owned());
    }
    let strict = read_strict(members);
    if strict.is_none() {
        push_fault(&mut faults, "`order` entry `strict` must be a bool".to_owned());
    }
    assert(text_specs(faults@) =~= entry_faults(value@));
    assert(text_specs(faults@).len() == faults@.len());
    let entry = if faults.len() == 0 {
        match (by, direction, strict) {
            (Some(by), Some(direction), Some(strict)) => Some(
                ValueOrderEntry { by: by.to_owned(), direction, strict },
            ),
            _ => None,
        }
    } else {
        None
    };
    (entry, faults)
}

/// Whether one of the first `count` values declares the entry.
pub open spec fn declared_before(values: Seq<JsonSpec>, entry: OrderSpec, count: int) -> bool {
    exists|at: int| 0 <= at < count && entry_of(#[trigger] values[at]) == Some(entry)
}

/// Whether a capture of that name is declared.
pub open spec fn declares_capture(captures: Seq<(Seq<char>, ValueType)>, name: Seq<char>) -> bool {
    exists|at: int| 0 <= at < captures.len() && (#[trigger] captures[at]).0 == name
}

/// The faults in the entry at `at`: those in its shape, or, independently of
/// each other, that it is declared already, that it orders by no capture of
/// the rule, and that the rule cannot match more than once.
///
/// Where the captures or the cardinality of the rule could not be read,
/// nothing is said that would need them.
pub open spec fn faults_at(
    values: Seq<JsonSpec>,
    captures: Option<Seq<(Seq<char>, ValueType)>>,
    cardinality: Option<Cardinality>,
    at: int,
) -> Seq<Seq<char>> {
    match entry_of(values[at]) {
        None => entry_faults(values[at]),
        Some(entry) => (if declared_before(values, entry, at) {
            seq!["`order` already declares this ordering of capture `"@ + entry.by + "`"@]
        } else {
            Seq::empty()
        }) + (match captures {
            Some(captures) => if declares_capture(captures, entry.by) {
                Seq::empty()
            } else {
                seq![
                    "`order` entry `by: "@ + entry.by + "` names no capture declared by this rule"@,
                ]
            },
            None => Seq::empty(),
        }) + (match cardinality {
            Some(cardinality) => if is_singular(cardinality.max) {
                seq![
                    "`order` needs a rule that can match more than once, and this rule's effective maximum is one"@,
                ]
            } else {
                Seq::empty()
            },
            None => Seq::empty(),
        }),
    }
}

/// Faults as errors at one place.
pub open spec fn order_errors_at(faults: Seq<Seq<char>>, range: SourceRange) -> Seq<ErrorSpec> {
    faults.map_values(
        |fault: Seq<char>| plain_error(SchemaErrorKind::InvalidOrder, range, fault),
    )
}

/// Where an entry stands.
pub open spec fn entry_range(
    places: PlacesSpec,
    rule: (Seq<RuleIndex>, RuleIndex),
    at: int,
) -> SourceRange {
    range_for(places, KeySpec::RuleOrderEntry(rule.0, rule.1, OrderIndex(at as usize)))
}

/// The errors in the first `count` entries.
pub open spec fn entry_list_errors(
    places: PlacesSpec,
    rule: (Seq<RuleIndex>, RuleIndex),
    values: Seq<JsonSpec>,
    captures: Option<Seq<(Seq<char>, ValueType)>>,
    cardinality: Option<Cardinality>,
    count: int,
) -> Seq<ErrorSpec>
    decreases count,
{
    if count <= 0 {
        Seq::empty()
    } else {
        entry_list_errors(places, rule, values, captures, cardinality, count - 1)
            + order_errors_at(
            faults_at(values, captures, cardinality, count - 1),
            entry_range(places, rule, count - 1),
        )
    }
}

/// What building the orders of a rule yields.
#[verifier::ext_equal]
pub struct OrderBuild {
    /// The orders, if all could be built.
    pub entries: Option<Seq<OrderSpec>>,
    /// The errors.
    pub errors: Seq<ErrorSpec>,
    /// The ranges of the nodes: an entry is addressed by its position whether
    /// or not anything in it is understood.
    pub nodes: Seq<(NodeAddress, SourceRange)>,
}

/// Orders that cannot be built, for one reason.
pub open spec fn order_refused(range: SourceRange, message: Seq<char>) -> OrderBuild {
    OrderBuild {
        entries: None,
        errors: seq![plain_error(SchemaErrorKind::InvalidOrder, range, message)],
        nodes: Seq::empty(),
    }
}

/// What building the orders of a rule yields. Without a value there are none,
/// unless the field is spelled.
pub open spec fn order_build(
    places: PlacesSpec,
    rule: (Seq<RuleIndex>, RuleIndex),
    value: Option<JsonSpec>,
    captures: Option<Seq<(Seq<char>, ValueType)>>,
    cardinality: Option<Cardinality>,
) -> OrderBuild {
    let key = KeySpec::RuleField(rule.0, rule.1, "order"@);
    let field = range_for(places, key);
    match value {
        None => if known_range(places, key) is Some {
            order_refused(field, "rule `order` must be a non-empty list and cannot be null"@)
        } else {
            OrderBuild { entries: Some(Seq::empty()), errors: Seq::empty(), nodes: Seq::empty() }
        },
        Some(JsonSpec::Array(values)) => if values.len() == 0 {
            order_refused(field, "rule `order` must declare at least one entry"@)
        } else {
            let errors = entry_list_errors(
                places,
                rule,
                values,
                captures,
                cardinality,
                values.len() as int,
            );
            OrderBuild {
                entries: if captures is Some && errors.len() == 0 {
                    Some(Seq::new(values.len(), |at: int| entry_of(values[at])->0))
                } else {
                    None
                },
                errors,
                nodes: Seq::new(
                    values.len(),
                    |at: int|
                        (
                            NodeAddress::OrderEntry(rule.0, rule.1, OrderIndex(at as usize)),
                            entry_range(places, rule, at),
                        ),
                ),
            }
        },
        Some(_) => order_refused(field, "rule `order` must be a list of order entries"@),
    }
}

/// The orders of a rule that could be built differ from one another, and each
/// is by a capture that the rule declares.
pub proof fn built_orders_are_sound(
    places: PlacesSpec,
    rule: (Seq<RuleIndex>, RuleIndex),
    value: Option<JsonSpec>,
    captures: Option<Seq<(Seq<char>, ValueType)>>,
    cardinality: Option<Cardinality>,
)
    ensures
        order_build(places, rule, value, captures, cardinality).entries matches Some(entries) ==> {
            &&& forall|left: int, right: int|
                0 <= left < right < entries.len() ==> #[trigger] entries[left]
                    != #[trigger] entries[right]
            &&& entries.len() > 0 ==> captures is Some
            &&& forall|at: int|
                0 <= at < entries.len() ==> declares_capture(
                    captures->0,
                    (#[trigger] entries[at]).by,
                )
            &&& entries.len() > 0 && cardinality is Some ==> !is_singular(cardinality->0.max)
        },
{
    let build = order_build(places, rule, value, captures, cardinality);
    if let Some(JsonSpec::Array(values)) = value {
        if build.entries is Some && values.len() > 0 {
            let entries = build.entries->0;
            assert forall|at: int| 0 <= at < values.len() implies faults_at(
                values,
                captures,
                cardinality,
                at,
            ).len() == 0 && #[trigger] entry_of(values[at]) is Some by {
                no_errors_below(
                    places,
                    rule,
                    values,
                    captures,
                    cardinality,
                    values.len() as int,
                    at,
                );
            }
            assert(entry_of(values[0]) is Some);
            assert forall|left: int, right: int| 0 <= left < right < entries.len() implies
                #[trigger] entries[left] != #[trigger] entries[right] by {
                assert(entry_of(values[left]) is Some);
                assert(entry_of(values[right]) is Some);
                if entries[left] == entries[right] {
                    assert(declared_before(values, entries[right], right));
                }
            }
            assert forall|at: int| 0 <= at < entries.len() implies declares_capture(
                captures->0,
                (#[trigger] entries[at]).by,
            ) by {
                assert(entry_of(values[at]) is Some);
            }
        }
    }
}

proof fn no_errors_below(
    places: PlacesSpec,
    rule: (Seq<RuleIndex>, RuleIndex),
    values: Seq<JsonSpec>,
    captures: Option<Seq<(Seq<char>, ValueType)>>,
    cardinality: Option<Cardinality>,
    count: int,
    at: int,
)
    requires
        0 <= at < count <= values.len(),
        entry_list_errors(places, rule, values, captures, cardinality, count).len() == 0,
    ensures
        faults_at(values, captures, cardinality, at).len() == 0,
        entry_of(values[at]) is Some,
    decreases count,
{
    if at < count - 1 {
        no_errors_below(places, rule, values, captures, cardinality, count - 1, at);
    } else if entry_of(values[at]) is None {
        assert(entry_faults(values[at]).len() == 0);
    }
}

/// One entry as it is read: where it stands, what it declares, and every fault
/// found in it. Faults accumulate rather than replacing what is declared, so
/// that a refused entry is not removed from what is said of the others.
struct OrderEntryReport {
    range: SourceRange,
    entry: Option<ValueOrderEntry>,
    faults: Vec<String>,
}

spec fn is_report(
    report: OrderEntryReport,
    places: PlacesSpec,
    rule: (Seq<RuleIndex>, RuleIndex),
    value: JsonSpec,
    at: int,
) -> bool {
    &&& report.range == entry_range(places, rule, at)
    &&& optional_order(report.entry) == entry_of(value)
    &&& text_specs(report.faults@) == entry_faults(value)
}

fn same_entry(left: &ValueOrderEntry, right: &ValueOrderEntry) -> (same: bool)
    ensures
        same == (left@ == right@),
{
    left.direction == right.direction && left.strict == right.strict && same_text(
        left.by.as_str(),
        right.by.as_str(),
    )
}

fn is_declared(captures: &Captures, name: &str) -> (declared: bool)
    ensures
        declared == declares_capture(capture_specs(captures@), name@),
{
    let ghost specs = capture_specs(captures@);
    let mut at: usize = 0;
    while at < captures.len()
        invariant
            at <= captures@.len(),
            specs == capture_specs(captures@),
            forall|k: int| 0 <= k < at ==> (#[trigger] specs[k]).0 != name@,
        decreases captures.len() - at,
    {
        assert(specs[at as int] == (captures@[at as int].0@, captures@[at as int].1));
        if same_text(captures[at].0.as_str(), name) {
            return true;
        }
        at += 1;
    }
    false
}

fn is_repeated(reports: &Vec<OrderEntryReport>, entry: &ValueOrderEntry, count: usize, Ghost(
    values,
): Ghost<Seq<JsonSpec>>) -> (repeated: bool)
    requires
        count <= reports@.len() == values.len(),
        forall|k: int|
            0 <= k < reports@.len() ==> optional_order((#[trigger] reports@[k]).entry) == entry_of(
                values[k],
            ),
    ensures
        repeated == declared_before(values, entry@, count as int),
{
    let mut at: usize = 0;
    while at < count
        invariant
            at <= count <= reports@.len() == values.len(),
            forall|k: int|
                0 <= k < reports@.len() ==> optional_order((#[trigger] reports@[k]).entry)
                    == entry_of(values[k]),
            forall|k: int| 0 <= k < at ==> entry_of(#[trigger] values[k]) != Some(entry@),
        decreases count - at,
    {
        assert(optional_order(reports@[at as int].entry) == entry_of(values[at as int]));
        if let Some(earlier) = &reports[at].entry {
            if same_entry(earlier, entry) {
                return true;
            }
        }
        at += 1;
    }
    false
}

/// What optional captures are.
pub open spec fn optional_captures(captures: Option<&Captures>) -> Option<
    Seq<(Seq<char>, ValueType)>,
> {
    match captures {
        None => None,
        Some(captures) => Some(capture_specs(captures@)),
    }
}

/// Reports faults at one place.
fn report_faults(faults: &Vec<String>, range: SourceRange, errors: &mut Vec<SchemaError>)
    ensures
        error_specs(final(errors)@) == error_specs(old(errors)@) + order_errors_at(
            text_specs(faults@),
            range,
        ),
{
    let ghost expected = order_errors_at(text_specs(faults@), range);
    let mut at: usize = 0;
    assert(error_specs(errors@) =~= error_specs(old(errors)@) + expected.take(0));
    while at < faults.len()
        invariant
            at <= faults@.len(),
            expected == order_errors_at(text_specs(faults@), range),
            error_specs(errors@) == error_specs(old(errors)@) + expected.take(at as int),
        decreases faults.len() - at,
    {
        error_at(errors, SchemaErrorKind::InvalidOrder, range, faults[at].clone());
        assert(expected.take(at + 1) =~= expected.take(at as int).push(expected[at as int]));
        assert(error_specs(errors@) =~= error_specs(old(errors)@) + expected.take(at + 1));
        at += 1;
    }
    assert(expected.take(at as int) =~= expected);
}

/// Reads the entries of an `order` list, each for itself.
fn read_entries(
    places: &Places,
    rule: &RulePath,
    values: &Vec<Json>,
    nodes: &mut FoundNodes,
) -> (reports: Vec<OrderEntryReport>)
    ensures
        reports@.len() == values@.len(),
        forall|k: int|
            0 <= k < reports@.len() ==> is_report(
                #[trigger] reports@[k],
                places@,
                rule@,
                item_specs(values@)[k],
                k,
            ),
        final(nodes)@ == old(nodes)@ + Seq::new(
            values@.len(),
            |at: int|
                (
                    NodeAddress::OrderEntry(rule@.0, rule@.1, OrderIndex(at as usize)),
                    entry_range(places@, rule@, at),
                ),
        ),
{
    let ghost expected = Seq::new(
        values@.len(),
        |at: int|
            (
                NodeAddress::OrderEntry(rule@.0, rule@.1, OrderIndex(at as usize)),
                entry_range(places@, rule@, at),
            ),
    );
    let mut reports: Vec<OrderEntryReport> = Vec::new();
    let mut at: usize = 0;
    assert(nodes@ =~= old(nodes)@ + expected.take(0));
    while at < values.len()
        invariant
            at <= values@.len() == expected.len(),
            reports@.len() == at,
            forall|k: int|
                0 <= k < expected.len() ==> #[trigger] expected[k] == (
                    NodeAddress::OrderEntry(rule@.0, rule@.1, OrderIndex(k as usize)),
                    entry_range(places@, rule@, k),
                ),
            forall|k: int|
                0 <= k < at ==> is_report(
                    #[trigger] reports@[k],
                    places@,
                    rule@,
                    item_specs(values@)[k],
                    k,
                ),
            nodes@ == old(nodes)@ + expected.take(at as int),
        decreases values.len() - at,
    {
        let order_index = OrderIndex(at);
        let range = places.range(
            RangeKey::RuleOrderEntry(rule.scope.clone(), rule.index, order_index),
        );
        nodes.record(
            SchemaNode::OrderEntry(OrderEntryPath { rule: rule.clone(), order_index }),
            range,
        );
        assert(expected.take(at + 1) =~= expected.take(at as int).push(expected[at as int]));
        assert(nodes@ =~= old(nodes)@ + expected.take(at + 1));
        let (entry, faults) = parse_order_entry(&values[at]);
        reports.push(OrderEntryReport { range, entry, faults });
        at += 1;
    }
    assert(expected.take(at as int) =~= expected);
    reports
}

/// The faults in an entry that was read.
fn faults_of(
    reports: &Vec<OrderEntryReport>,
    captures: Option<&Captures>,
    cardinality: Option<Cardinality>,
    at: usize,
    Ghost(values): Ghost<Seq<JsonSpec>>,
) -> (faults: Vec<String>)
    requires
        at < reports@.len() == values.len(),
        forall|k: int|
            0 <= k < reports@.len() ==> optional_order((#[trigger] reports@[k]).entry) == entry_of(
                values[k],
            ) && text_specs(reports@[k].faults@) == entry_faults(values[k]),
    ensures
        text_specs(faults@) == faults_at(
            values,
            optional_captures(captures),
            cardinality,
            at as int,
        ),
{
    let ghost expected = faults_at(values, optional_captures(captures), cardinality, at as int);
    let report = &reports[at];
    assert(optional_order(reports@[at as int].entry) == entry_of(values[at as int]));
    let mut faults: Vec<String> = Vec::new();
    assert(text_specs(faults@) =~= Seq::empty());
    match &report.entry {
        None => {
            let mut next: usize = 0;
            let ghost all = text_specs(report.faults@);
            assert(text_specs(faults@) =~= all.take(0));
            while next < report.faults.len()
                invariant
                    next <= report.faults@.len(),
                    all == text_specs(report.faults@),
                    text_specs(faults@) == all.take(next as int),
                decreases report.faults.len() - next,
            {
                push_fault(&mut faults, report.faults[next].clone());
                assert(all.take(next + 1) =~= all.take(next as int).push(all[next as int]));
                next += 1;
            }
            assert(all.take(next as int) =~= all);
        },
        Some(entry) => {
            if is_repeated(reports, entry, at, Ghost(values)) {
                push_fault(
                    &mut faults,
                    join3(
                        "`order` already declares this ordering of capture `",
                        entry.by.as_str(),
                        "`",
                    ),
                );
            }
            if let Some(captures) = captures {
                if !is_declared(captures, entry.by.as_str()) {
                    push_fault(
                        &mut faults,
                        join3(
                            "`order` entry `by: ",
                            entry.by.as_str(),
                            "` names no capture declared by this rule",
                        ),
                    );
                }
            }
            if let Some(cardinality) = cardinality {
                if is_singular_maximum(cardinality.max) {
                    push_fault(
                        &mut faults,
                        "`order` needs a rule that can match more than once, and this rule's effective maximum is one".to_owned(),
                    );
                }
            }
            assert(text_specs(faults@) =~= expected);
        },
    }
    faults
}

/// Reports what is wrong with entries, and keeps those with which nothing is.
fn settle_entries(
    places: &Places,
    rule: &RulePath,
    reports: Vec<OrderEntryReport>,
    captures: Option<&Captures>,
    cardinality: Option<Cardinality>,
    Ghost(values): Ghost<Seq<JsonSpec>>,
    errors: &mut Vec<SchemaError>,
) -> (entries: Vec<ValueOrderEntry>)
    requires
        reports@.len() == values.len(),
        forall|k: int|
            0 <= k < reports@.len() ==> is_report(
                #[trigger] reports@[k],
                places@,
                rule@,
                values[k],
                k,
            ),
    ensures
        ({
            let expected = entry_list_errors(
                places@,
                rule@,
                values,
                optional_captures(captures),
                cardinality,
                values.len() as int,
            );
            &&& error_specs(final(errors)@) == error_specs(old(errors)@) + expected
            &&& expected.len() == 0 ==> order_specs(entries@) == Seq::new(
                values.len(),
                |at: int| entry_of(values[at])->0,
            )
        }),
{
    let ghost given = optional_captures(captures);
    let mut entries: Vec<ValueOrderEntry> = Vec::new();
    let mut at: usize = 0;
    assert(error_specs(errors@) =~= error_specs(old(errors)@) + Seq::<ErrorSpec>::empty());
    while at < reports.len()
        invariant
            at <= reports@.len() == values.len(),
            given == optional_captures(captures),
            forall|k: int|
                0 <= k < reports@.len() ==> is_report(
                    #[trigger] reports@[k],
                    places@,
                    rule@,
                    values[k],
                    k,
                ),
            error_specs(errors@) == error_specs(old(errors)@) + entry_list_errors(
                places@,
                rule@,
                values,
                given,
                cardinality,
                at as int,
            ),
            entry_list_errors(places@, rule@, values, given, cardinality, at as int).len() == 0
                ==> entries@.len() == at && forall|k: int|
                0 <= k < at ==> Some((#[trigger] entries@[k])@) == entry_of(values[k]),
        decreases reports.len() - at,
    {
        let faults = faults_of(&reports, captures, cardinality, at, Ghost(values));
        assert(is_report(reports@[at as int], places@, rule@, values[at as int], at as int));
        assert(text_specs(faults@).len() == faults@.len());
        report_faults(&faults, reports[at].range, errors);
        if faults.len() == 0 {
            if let Some(entry) = &reports[at].entry {
                entries.push(
                    ValueOrderEntry {
                        by: entry.by.clone(),
                        direction: entry.direction,
                        strict: entry.strict,
                    },
                );
            }
        }
        assert(error_specs(errors@) =~= error_specs(old(errors)@) + entry_list_errors(
            places@,
            rule@,
            values,
            given,
            cardinality,
            at + 1,
        ));
        at += 1;
    }
    proof {
        if entry_list_errors(places@, rule@, values, given, cardinality, at as int).len() == 0 {
            assert(order_specs(entries@) =~= Seq::new(
                values.len(),
                |at: int| entry_of(values[at])->0,
            ));
        }
    }
    entries
}

/// What optional orders are.
pub open spec fn optional_orders(entries: Option<Vec<ValueOrderEntry>>) -> Option<Seq<OrderSpec>> {
    match entries {
        None => None,
        Some(entries) => Some(order_specs(entries@)),
    }
}

/// Builds the orders of a rule.
pub fn build_rule_order(
    places: &Places,
    rule: &RulePath,
    value: Option<&Json>,
    captures: Option<&Captures>,
    cardinality: Option<Cardinality>,
    errors: &mut Vec<SchemaError>,
    nodes: &mut FoundNodes,
) -> (entries: Option<Vec<ValueOrderEntry>>)
    ensures
        ({
            let build = order_build(
                places@,
                rule@,
                optional_value(value),
                optional_captures(captures),
                cardinality,
            );
            &&& optional_orders(entries) == build.entries
            &&& error_specs(final(errors)@) == error_specs(old(errors)@) + build.errors
            &&& final(nodes)@ == old(nodes)@ + build.nodes
        }),
{
    let ghost build = order_build(
        places@,
        rule@,
        optional_value(value),
        optional_captures(captures),
        cardinality,
    );
    let ghost start = error_specs(errors@);
    let before = errors.len();
    let field = places.range(
        RangeKey::RuleField(rule.scope.clone(), rule.index, "order".to_owned()),
    );
    let value = match value {
        Some(value) => value,
        None => {
            assert(nodes@ =~= old(nodes)@ + build.nodes);
            let spelled = places.find(
                RangeKey::RuleField(rule.scope.clone(), rule.index, "order".to_owned()),
            );
            if spelled.is_some() {
                error_at(
                    errors,
                    SchemaErrorKind::InvalidOrder,
                    field,
                    "rule `order` must be a non-empty list and cannot be null".to_owned(),
                );
                assert(error_specs(errors@) =~= start + build.errors);
                return None;
            }
            assert(error_specs(errors@) =~= start + build.errors);
            let none: Vec<ValueOrderEntry> = Vec::new();
            assert(order_specs(none@) =~= Seq::empty());
            return Some(none);
        },
    };
    let values = match value.as_array() {
        Some(values) => values,
        None => {
            error_at(
                errors,
                SchemaErrorKind::InvalidOrder,
                field,
                "rule `order` must be a list of order entries".to_owned(),
            );
            assert(error_specs(errors@) =~= start + build.errors);
            assert(nodes@ =~= old(nodes)@ + build.nodes);
            return None;
        },
    };
    if values.len() == 0 {
        error_at(
            errors,
            SchemaErrorKind::InvalidOrder,
            field,
            "rule `order` must declare at least one entry".to_owned(),
        );
        assert(error_specs(errors@) =~= start + build.errors);
        assert(nodes@ =~= old(nodes)@ + build.nodes);
        return None;
    }
    let reports = read_entries(places, rule, values, nodes);
    let entries = settle_entries(
        places,
        rule,
        reports,
        captures,
        cardinality,
        Ghost(item_specs(values@)),
        errors,
    );
    assert(nodes@ =~= old(nodes)@ + build.nodes);
    assert(error_specs(errors@).len() == before + build.errors.len());
    if captures.is_some() && errors.len() == before {
        Some(entries)
    } else {
        None
    }
}

} // verus!
