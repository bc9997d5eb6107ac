//! Where the parts of a schema document stand in its source.

use vstd::prelude::*;
use vstd::utf8::encode_utf8;

use super::form::is_document_field;
use super::ranges::{
    declared_constraint_ranges, document_fields, document_ranges, encode_utf8_push, entries_of,
    entry_index, entry_value, expansion_of, field_key, field_ranges, frontmatter_fields, items_of,
    lookup, nested_field_ranges, offsets_of, one_rule_ranges, option_fields, range_of_chars,
    rule_fields, rule_key, rule_owner, rule_ranges, top_rule_ranges, KeySpec, OwnerSpec,
};
use crate::load_result::{ConstraintIndex, RuleIndex, SourceRange};
use crate::yaml::tree::{Tree, TreeKind};

verus! {

/// The range of characters of a source is that of their bytes.
pub proof fn characters_range_over_their_bytes(source: Seq<char>, start: usize, end: usize)
    requires
        start < end <= source.len(),
        encode_utf8(source).len() <= usize::MAX,
    ensures
        ({
            let range = range_of_chars(start, end, offsets_of(source));
            &&& range.source.0 == 0
            &&& range.range.start.0 == encode_utf8(source.take(start as int)).len()
            &&& range.range.end.0 == encode_utf8(source.take(end as int)).len()
        }),
{
    more_characters_have_more_bytes(source, start as int, end as int);
    more_characters_have_more_bytes(source, end as int, source.len() as int);
    assert(source.take(source.len() as int) =~= source);
    let offsets = offsets_of(source);
    assert(offsets[start as int] == encode_utf8(source.take(start as int)).len() as usize);
    assert(offsets[end as int] == encode_utf8(source.take(end as int)).len() as usize);
}

proof fn more_characters_have_more_bytes(source: Seq<char>, left: int, right: int)
    requires
        0 <= left <= right <= source.len(),
    ensures
        encode_utf8(source.take(left)).len() <= encode_utf8(source.take(right)).len(),
        left < right ==> encode_utf8(source.take(left)).len() < encode_utf8(
            source.take(right),
        ).len(),
    decreases right - left,
{
    if left < right {
        more_characters_have_more_bytes(source, left, right - 1);
        assert(source.take(right) =~= source.take(right - 1).push(source[right - 1]));
        encode_utf8_push(source.take(right - 1), source[right - 1]);
    }
}

/// Whether a tree is the value of an entry of a mapping.
pub open spec fn holds(tree: Tree, name: Seq<char>, value: Tree) -> bool {
    tree.kind matches TreeKind::Mapping(entries) && exists|at: int|
        0 <= at < entries.len() && (#[trigger] entries[at]).1 == value && (
        entries[at].0.kind matches TreeKind::Scalar(key) && key.value == name)
}

/// Whether nothing in a tree comes from an alias, and its lists can be counted.
pub open spec fn is_unaliased(tree: Tree) -> bool
    decreases tree,
{
    !tree.expanded && match tree.kind {
        TreeKind::Scalar(_) => true,
        TreeKind::Sequence(items) => items.len() <= usize::MAX && forall|at: int|
            0 <= at < items.len() ==> is_unaliased(#[trigger] items[at]),
        TreeKind::Mapping(entries) => forall|at: int|
            0 <= at < entries.len() ==> is_unaliased((#[trigger] entries[at]).1),
    }
}

/// Whether a tree is the rule at a position among rules and the `sections`
/// below them.
pub open spec fn is_rule_at(rules: Seq<Tree>, path: Seq<RuleIndex>, rule: Tree) -> bool
    decreases path.len(),
{
    &&& path.len() > 0
    &&& path[0].0 < rules.len()
    &&& if path.len() == 1 {
        rules[path[0].0 as int] == rule
    } else {
        exists|below: Tree| #[trigger]
            holds(rules[path[0].0 as int], "sections"@, below) && (below.kind matches
                TreeKind::Sequence(items) && is_rule_at(items, path.skip(1), rule))
    }
}

/// Whether a range is that of a tree.
pub open spec fn spans(range: SourceRange, tree: Tree, offsets: Seq<usize>) -> bool {
    range == range_of_chars(tree.start, tree.end, offsets)
}

/// Whether a range is that of the value of an entry.
pub open spec fn spans_field(
    tree: Tree,
    field: Seq<char>,
    range: SourceRange,
    offsets: Seq<usize>,
) -> bool {
    exists|value: Tree| #[trigger] holds(tree, field, value) && spans(range, value, offsets)
}

/// Whether a range is that of a field of an entry's value.
pub open spec fn spans_inner_field(
    tree: Tree,
    outer: Seq<char>,
    field: Seq<char>,
    range: SourceRange,
    offsets: Seq<usize>,
) -> bool {
    exists|value: Tree| #[trigger]
        holds(tree, outer, value) && spans_field(value, field, range, offsets)
}

/// Whether a range is that of one of the constraints of a mapping.
pub open spec fn spans_constraint(
    tree: Tree,
    index: ConstraintIndex,
    range: SourceRange,
    offsets: Seq<usize>,
) -> bool {
    exists|list: Tree| #[trigger]
        holds(tree, "constraints"@, list) && index.0 < items_of(list).len() && spans(
            range,
            items_of(list)[index.0 as int],
            offsets,
        )
}

/// Whether a range is that of the rule at a position.
pub open spec fn spans_rule(
    rules: Seq<Tree>,
    path: Seq<RuleIndex>,
    range: SourceRange,
    offsets: Seq<usize>,
) -> bool {
    exists|rule: Tree| #[trigger] is_rule_at(rules, path, rule) && spans(range, rule, offsets)
}

/// Whether a range is that of a field of the rule at a position.
pub open spec fn spans_rule_field(
    rules: Seq<Tree>,
    path: Seq<RuleIndex>,
    field: Seq<char>,
    range: SourceRange,
    offsets: Seq<usize>,
) -> bool {
    exists|rule: Tree| #[trigger]
        is_rule_at(rules, path, rule) && spans_field(rule, field, range, offsets)
}

/// Whether a range is that of a constraint of the rule at a position.
pub open spec fn spans_rule_constraint(
    rules: Seq<Tree>,
    path: Seq<RuleIndex>,
    index: ConstraintIndex,
    range: SourceRange,
    offsets: Seq<usize>,
) -> bool {
    exists|rule: Tree| #[trigger]
        is_rule_at(rules, path, rule) && spans_constraint(rule, index, range, offsets)
}

/// Whether a range is that of a rule among `rules`, which stand in a scope, of
/// one of its fields or of one of its constraints.
pub open spec fn spans_part_of(
    rules: Seq<Tree>,
    outline: bool,
    scope: Seq<RuleIndex>,
    key: KeySpec,
    range: SourceRange,
    offsets: Seq<usize>,
) -> bool {
    let depth = scope.len() as int;
    match key {
        KeySpec::Rule(inner, index) => {
            &&& scope.is_prefix_of(inner)
            &&& outline ==> scope.len() < inner.len()
            &&& spans_rule(rules, inner.push(index).skip(depth), range, offsets)
        },
        KeySpec::RuleField(inner, index, field) => {
            &&& scope.is_prefix_of(inner)
            &&& outline ==> scope.len() < inner.len()
            &&& spans_rule_field(rules, inner.push(index).skip(depth), field, range, offsets)
        },
        KeySpec::Constraint(inner, index) => {
            &&& scope.is_prefix_of(inner)
            &&& scope.len() < inner.len()
            &&& spans_rule_constraint(rules, inner.skip(depth), index, range, offsets)
        },
        KeySpec::OutlineRule(index) => outline && spans_rule(rules, seq![index], range, offsets),
        KeySpec::OutlineRuleField(index, field) => outline && spans_rule_field(
            rules,
            seq![index],
            field,
            range,
            offsets,
        ),
        _ => false,
    }
}

/// Whether a range is that of a part of the rules that an entry holds.
pub open spec fn spans_part_below(
    root: Tree,
    outline: bool,
    key: KeySpec,
    range: SourceRange,
    offsets: Seq<usize>,
) -> bool {
    exists|list: Tree| #[trigger]
        holds(
            root,
            rules_field(outline),
            list,
        ) && spans_part_of(items_of(list), outline, Seq::empty(), key, range, offsets)
}

/// The field that holds the rules of a document.
pub open spec fn rules_field(outline: bool) -> Seq<char> {
    if outline {
        "outline"@
    } else {
        "sections"@
    }
}

/// Whether a range is that of the part of a document which a key names.
pub open spec fn spans_part(
    root: Tree,
    key: KeySpec,
    range: SourceRange,
    offsets: Seq<usize>,
) -> bool {
    match key {
        KeySpec::DocumentField(field) => spans_field(root, field, range, offsets),
        KeySpec::OptionField(field) => spans_inner_field(
            root,
            "options"@,
            field,
            range,
            offsets,
        ),
        KeySpec::FrontmatterField(field) => spans_inner_field(
            root,
            "frontmatter"@,
            field,
            range,
            offsets,
        ),
        _ => {
            ||| spans_part_below(root, false, key, range, offsets)
            ||| spans_part_below(root, true, key, range, offsets)
            ||| (key matches KeySpec::Constraint(scope, index) && scope.len() == 0
                && spans_constraint(root, index, range, offsets))
        },
    }
}

proof fn first_entries_are_held(tree: Tree, entries: Seq<(Tree, Tree)>, name: Seq<char>, from: int)
    requires
        0 <= from,
        tree.kind == TreeKind::Mapping(entries),
    ensures
        entry_index(entries, name, from) matches Some(at) ==> 0 <= at < entries.len() && holds(
            tree,
            name,
            entries[at].1,
        ),
    decreases entries.len() - from,
{
    if from < entries.len() {
        first_entries_are_held(tree, entries, name, from + 1);
        if entry_index(entries, name, from) == Some(from) {
            assert(entries[from].1 == entries[from].1);
        }
    }
}

proof fn values_are_held(tree: Tree, name: Seq<char>)
    requires
        is_unaliased(tree),
    ensures
        entry_value(entries_of(tree), name) matches Some(value) ==> holds(tree, name, value)
            && is_unaliased(value),
{
    if let TreeKind::Mapping(entries) = tree.kind {
        first_entries_are_held(tree, entries, name, 0);
        if let Some(at) = entry_index(entries, name, 0) {
            assert(is_unaliased(entries[at].1));
        }
    }
}

/// Whether a range is that of the field which a key of an owner names.
pub open spec fn spans_some_field(
    tree: Tree,
    owner: OwnerSpec,
    entry: (KeySpec, SourceRange),
    offsets: Seq<usize>,
) -> bool {
    exists|field: Seq<char>|
        entry.0 == field_key(owner, field) && #[trigger] spans_field(
            tree,
            field,
            entry.1,
            offsets,
        )
}

proof fn fields_span_their_values(
    tree: Tree,
    fields: Seq<Seq<char>>,
    owner: OwnerSpec,
    offsets: Seq<usize>,
    at: int,
)
    requires
        is_unaliased(tree),
        0 <= at < field_ranges(entries_of(tree), fields, owner, None, offsets).len(),
    ensures
        ({
            let entry = field_ranges(entries_of(tree), fields, owner, None, offsets)[at];
            spans_some_field(tree, owner, entry, offsets)
        }),
    decreases fields.len(),
{
    if fields.len() > 0 {
        let before = field_ranges(entries_of(tree), fields.drop_last(), owner, None, offsets);
        if at < before.len() {
            fields_span_their_values(tree, fields.drop_last(), owner, offsets, at);
            assert(field_ranges(entries_of(tree), fields, owner, None, offsets)[at] == before[at]);
        } else {
            values_are_held(tree, fields.last());
            let value = entry_value(entries_of(tree), fields.last())->0;
            assert(holds(tree, fields.last(), value));
            let entry = field_ranges(entries_of(tree), fields, owner, None, offsets)[at];
            assert(spans_field(tree, fields.last(), entry.1, offsets));
        }
    }
}

proof fn rules_span_their_parts(
    rules: Seq<Tree>,
    count: int,
    outline: bool,
    scope: Seq<RuleIndex>,
    offsets: Seq<usize>,
    at: int,
)
    requires
        0 <= count <= rules.len() <= usize::MAX,
        forall|rule: int| 0 <= rule < rules.len() ==> is_unaliased(#[trigger] rules[rule]),
        0 <= at < rule_ranges(rules, count, outline, scope, None, offsets).len(),
    ensures
        ({
            let entry = rule_ranges(rules, count, outline, scope, None, offsets)[at];
            spans_part_of(rules, outline, scope, entry.0, entry.1, offsets)
        }),
    decreases rules, count,
{
    if count > 0 {
        let before = rule_ranges(rules, count - 1, outline, scope, None, offsets);
        if at < before.len() {
            rules_span_their_parts(rules, count - 1, outline, scope, offsets, at);
        } else {
            rule_spans_its_parts(rules, count - 1, outline, scope, offsets, at - before.len());
        }
    }
}

proof fn rule_spans_its_parts(
    rules: Seq<Tree>,
    index: int,
    outline: bool,
    scope: Seq<RuleIndex>,
    offsets: Seq<usize>,
    at: int,
)
    requires
        0 <= index < rules.len() <= usize::MAX,
        is_unaliased(rules[index]),
        ({
            let place = RuleIndex(index as usize);
            let owner = rule_owner(outline, scope, index as usize);
            0 <= at < one_rule_ranges(rules[index], owner, scope.push(place), None, offsets).len()
        }),
    ensures
        ({
            let place = RuleIndex(index as usize);
            let owner = rule_owner(outline, scope, index as usize);
            let entry = one_rule_ranges(
                rules[index],
                owner,
                scope.push(place),
                None,
                offsets,
            )[at];
            spans_part_of(rules, outline, scope, entry.0, entry.1, offsets)
        }),
    decreases rules, index,
{
    let place = RuleIndex(index as usize);
    let owner = rule_owner(outline, scope, index as usize);
    let child = scope.push(place);
    let rule = rules[index];
    let all = one_rule_ranges(rule, owner, child, None, offsets);
    assert(child.skip(scope.len() as int) =~= seq![place]);
    assert(is_rule_at(rules, seq![place], rule));
    assert(scope.subrange(0, scope.len() as int) =~= scope);
    assert(child.subrange(0, scope.len() as int) =~= scope);
    if at == 0 {
        assert(spans(all[at].1, rule, offsets));
        assert(spans_part_of(rules, outline, scope, all[at].0, all[at].1, offsets));
    } else {
        let entries = entries_of(rule);
        assert(rule.kind == TreeKind::Mapping(entries));
        let fields = field_ranges(entries, rule_fields(), owner, None, offsets);
        let constraints = declared_constraint_ranges(entries, child, None, offsets);
        first_entries_are_held(rule, entries, "sections"@, 0);
        if at <= fields.len() {
            assert(all[at] == fields[at - 1]);
            fields_span_their_values(rule, rule_fields(), owner, offsets, at - 1);
            assert(is_rule_at(rules, seq![place], rule));
            assert(spans_part_of(rules, outline, scope, all[at].0, all[at].1, offsets));
        } else if at >= all.len() - constraints.len() {
            let shift = all.len() - constraints.len();
            assert(all[at] == constraints[at - shift]);
            values_are_held(rule, "constraints"@);
            let list = entry_value(entries, "constraints"@)->0;
            assert(holds(rule, "constraints"@, list));
            assert(spans_part_of(rules, outline, scope, all[at].0, all[at].1, offsets));
        } else {
            let found = entry_index(entries, "sections"@, 0)->0;
            let below = entries[found].1;
            assert(is_unaliased(below));
            let items = items_of(below);
            let nested = rule_ranges(items, items.len() as int, false, child, None, offsets);
            let inner = at - 1 - fields.len();
            assert(all[at] == nested[inner]);
            rules_span_their_parts(items, items.len() as int, false, child, offsets, inner);
            nested_parts_stand_below(rules, place, below, outline, scope, nested[inner], offsets);
        }
    }
}

proof fn nested_parts_stand_below(
    rules: Seq<Tree>,
    place: RuleIndex,
    below: Tree,
    outline: bool,
    scope: Seq<RuleIndex>,
    entry: (KeySpec, SourceRange),
    offsets: Seq<usize>,
)
    requires
        place.0 < rules.len(),
        holds(rules[place.0 as int], "sections"@, below),
        below.kind is Sequence,
        spans_part_of(items_of(below), false, scope.push(place), entry.0, entry.1, offsets),
    ensures
        spans_part_of(rules, outline, scope, entry.0, entry.1, offsets),
{
    let items = items_of(below);
    let child = scope.push(place);
    let depth = scope.len() as int;
    let path = match entry.0 {
        KeySpec::Rule(inner, index) => inner.push(index),
        KeySpec::RuleField(inner, index, _) => inner.push(index),
        KeySpec::Constraint(inner, _) => inner,
        _ => Seq::empty(),
    };
    let scoped = match entry.0 {
        KeySpec::Rule(inner, _) => inner,
        KeySpec::RuleField(inner, _, _) => inner,
        KeySpec::Constraint(inner, _) => inner,
        _ => Seq::empty(),
    };
    assert(child.is_prefix_of(scoped));
    assert(scoped.subrange(0, child.len() as int) == child);
    assert(scope =~= scoped.subrange(0, depth)) by {
        assert forall|at: int| 0 <= at < depth implies scope[at] == scoped[at] by {
            assert(child[at] == scoped.subrange(0, child.len() as int)[at]);
        }
    }
    assert(scoped[depth] == place) by {
        assert(child[depth] == scoped.subrange(0, child.len() as int)[depth]);
    }
    assert(path[depth] == place);
    assert(path.skip(depth).skip(1) =~= path.skip(depth + 1));
    assert(path.skip(depth)[0] == place);
    assert forall|rule: Tree| #[trigger] is_rule_at(items, path.skip(depth + 1), rule) implies
        is_rule_at(rules, path.skip(depth), rule) by {
        assert(holds(rules[place.0 as int], "sections"@, below));
    }
    assert(child.len() == depth + 1);
}

/// In a document without aliases every part that has a range of its own has
/// the range of the node that it was read from: a field that of its value, a
/// rule and a constraint that of their mapping.
pub proof fn parts_stand_where_they_were_read(
    root: Tree,
    key: KeySpec,
    range: SourceRange,
    offsets: Seq<usize>,
)
    requires
        is_unaliased(root),
        lookup(document_ranges(root, offsets), key, 0) == Some(range),
    ensures
        spans_part(root, key, range, offsets),
{
    let ranges = document_ranges(root, offsets);
    found_ranges_are_listed(ranges, key, 0);
    let at = choose|at: int| 0 <= at < ranges.len() && ranges[at] == (key, range);
    let entries = entries_of(root);
    let fields = field_ranges(entries, document_fields(), OwnerSpec::Document, None, offsets);
    let options = nested_field_ranges(
        entries,
        "options"@,
        option_fields(),
        OwnerSpec::Options,
        None,
        offsets,
    );
    let policy = nested_field_ranges(
        entries,
        "frontmatter"@,
        frontmatter_fields(),
        OwnerSpec::Frontmatter,
        None,
        offsets,
    );
    let rules = top_rule_ranges(entries, None, offsets);
    let constraints = declared_constraint_ranges(entries, Seq::empty(), None, offsets);
    let first = fields.len() as int;
    let second = first + options.len();
    let third = second + policy.len();
    let fourth = third + rules.len();
    values_are_held(root, "options"@);
    values_are_held(root, "frontmatter"@);
    values_are_held(root, "sections"@);
    values_are_held(root, "outline"@);
    values_are_held(root, "constraints"@);
    if at < first {
        assert(ranges[at] == fields[at]);
        fields_span_their_values(root, document_fields(), OwnerSpec::Document, offsets, at);
        assert(spans_part(root, key, range, offsets));
    } else if at < second {
        assert(ranges[at] == options[at - first]);
        let node = entry_value(entries, "options"@)->0;
        fields_span_their_values(node, option_fields(), OwnerSpec::Options, offsets, at - first);
        assert(spans_part(root, key, range, offsets));
    } else if at < third {
        assert(ranges[at] == policy[at - second]);
        let node = entry_value(entries, "frontmatter"@)->0;
        fields_span_their_values(
            node,
            frontmatter_fields(),
            OwnerSpec::Frontmatter,
            offsets,
            at - second,
        );
        assert(spans_part(root, key, range, offsets));
    } else if at < fourth {
        assert(ranges[at] == rules[at - third]);
        let outline = entry_value(entries, "sections"@) is None;
        let list = if outline {
            entry_value(entries, "outline"@)->0
        } else {
            entry_value(entries, "sections"@)->0
        };
        let items = items_of(list);
        rules_span_their_parts(
            items,
            items.len() as int,
            outline,
            Seq::empty(),
            offsets,
            at - third,
        );
        assert(holds(root, rules_field(outline), list));
        assert(spans_part_below(root, outline, key, range, offsets));
        assert(spans_part(root, key, range, offsets));
    } else {
        assert(ranges[at] == constraints[at - fourth]);
        let list = entry_value(entries, "constraints"@)->0;
        assert(holds(root, "constraints"@, list));
        assert(spans_part(root, key, range, offsets));
    }
}

proof fn found_ranges_are_listed(ranges: Seq<(KeySpec, SourceRange)>, key: KeySpec, from: int)
    requires
        0 <= from,
    ensures
        lookup(ranges, key, from) matches Some(range) ==> exists|at: int|
            0 <= at < ranges.len() && ranges[at] == (key, range),
    decreases ranges.len() - from,
{
    if from < ranges.len() {
        found_ranges_are_listed(ranges, key, from + 1);
        if ranges[from].0 == key {
            assert(ranges[from] == (key, ranges[from].1));
        }
    }
}

proof fn listed_ranges_are_found(
    ranges: Seq<(KeySpec, SourceRange)>,
    key: KeySpec,
    from: int,
    at: int,
)
    requires
        0 <= from <= at < ranges.len(),
        ranges[at].0 == key,
    ensures
        lookup(ranges, key, from) is Some,
    decreases at - from,
{
    if ranges[from].0 != key {
        listed_ranges_are_found(ranges, key, from + 1, at);
    }
}

/// Whether a key is among ranges.
pub open spec fn is_listed(ranges: Seq<(KeySpec, SourceRange)>, key: KeySpec) -> bool {
    exists|at: int| 0 <= at < ranges.len() && (#[trigger] ranges[at]).0 == key
}

proof fn listing_goes_on(
    ranges: Seq<(KeySpec, SourceRange)>,
    key: KeySpec,
    before: Seq<(KeySpec, SourceRange)>,
    behind: Seq<(KeySpec, SourceRange)>,
)
    requires
        is_listed(ranges, key),
    ensures
        is_listed(before + ranges + behind, key),
{
    let at = choose|at: int| 0 <= at < ranges.len() && (#[trigger] ranges[at]).0 == key;
    assert((before + ranges + behind)[before.len() + at] == ranges[at]);
}

proof fn present_fields_are_listed(
    entries: Seq<(Tree, Tree)>,
    fields: Seq<Seq<char>>,
    owner: OwnerSpec,
    expansion: Option<(usize, usize)>,
    offsets: Seq<usize>,
    field: Seq<char>,
)
    requires
        fields.contains(field),
        entry_value(entries, field) is Some,
    ensures
        is_listed(
            field_ranges(entries, fields, owner, expansion, offsets),
            field_key(owner, field),
        ),
    decreases fields.len(),
{
    let all = field_ranges(entries, fields, owner, expansion, offsets);
    let before = field_ranges(entries, fields.drop_last(), owner, expansion, offsets);
    if fields.last() == field {
        assert(all[before.len() as int].0 == field_key(owner, field));
    } else {
        let at = fields.index_of(field);
        assert(fields.drop_last()[at] == field);
        present_fields_are_listed(entries, fields.drop_last(), owner, expansion, offsets, field);
        let place = choose|place: int|
            0 <= place < before.len() && (#[trigger] before[place]).0 == field_key(owner, field);
        assert(all[place] == before[place]);
    }
}

proof fn rules_are_listed(
    rules: Seq<Tree>,
    count: int,
    outline: bool,
    scope: Seq<RuleIndex>,
    expansion: Option<(usize, usize)>,
    offsets: Seq<usize>,
    index: int,
)
    requires
        0 <= index < count <= rules.len(),
    ensures
        is_listed(
            rule_ranges(rules, count, outline, scope, expansion, offsets),
            rule_key(rule_owner(outline, scope, index as usize)),
        ),
    decreases count,
{
    let before = rule_ranges(rules, count - 1, outline, scope, expansion, offsets);
    let last = (count - 1) as usize;
    let own = one_rule_ranges(
        rules[count - 1],
        rule_owner(outline, scope, last),
        scope.push(RuleIndex(last)),
        expansion,
        offsets,
    );
    let none = Seq::<(KeySpec, SourceRange)>::empty();
    let key = rule_key(rule_owner(outline, scope, index as usize));
    if index < count - 1 {
        rules_are_listed(rules, count - 1, outline, scope, expansion, offsets, index);
        listing_goes_on(before, key, none, own);
        assert(none + before + own =~= before + own);
    } else {
        assert(own[0].0 == key);
        listing_goes_on(own, key, before, none);
        assert(before + own + none =~= before + own);
    }
}

/// Every field of a document, of its options and of its frontmatter policy
/// that is there has a range, and so has every rule at the top and every
/// constraint of the document.
pub proof fn parts_of_documents_have_ranges(
    root: Tree,
    offsets: Seq<usize>,
    field: Seq<char>,
    index: usize,
)
    ensures
        ({
            let ranges = document_ranges(root, offsets);
            let value = |tree: Tree, name: Seq<char>| entry_value(entries_of(tree), name);
            let count = |name: Seq<char>| items_of(value(root, name)->0).len();
            &&& is_document_field(field) && value(root, field) is Some ==> lookup(
                ranges,
                KeySpec::DocumentField(field),
                0,
            ) is Some
            &&& (field == "match_case"@ || field == "strip_inline_markup"@ || field
                == "allow_skipped_levels"@) && value(root, "options"@) is Some && value(
                value(root, "options"@)->0,
                field,
            ) is Some ==> lookup(ranges, KeySpec::OptionField(field), 0) is Some
            &&& (field == "required"@ || field == "allow"@ || field == "schema"@) && value(
                root,
                "frontmatter"@,
            ) is Some && value(value(root, "frontmatter"@)->0, field) is Some ==> lookup(
                ranges,
                KeySpec::FrontmatterField(field),
                0,
            ) is Some
            &&& value(root, "sections"@) is Some && index < count("sections"@) ==> lookup(
                ranges,
                KeySpec::Rule(Seq::empty(), RuleIndex(index)),
                0,
            ) is Some
            &&& value(root, "sections"@) is None && value(root, "outline"@) is Some && index
                < count("outline"@) ==> lookup(ranges, KeySpec::OutlineRule(RuleIndex(index)), 0)
                is Some
            &&& value(root, "constraints"@) is Some && index < count("constraints"@) ==> lookup(
                ranges,
                KeySpec::Constraint(Seq::empty(), ConstraintIndex(index)),
                0,
            ) is Some
        }),
{
    let entries = entries_of(root);
    let expansion = expansion_of(root, None);
    let fields = field_ranges(entries, document_fields(), OwnerSpec::Document, expansion, offsets);
    let options = nested_field_ranges(
        entries,
        "options"@,
        option_fields(),
        OwnerSpec::Options,
        expansion,
        offsets,
    );
    let policy = nested_field_ranges(
        entries,
        "frontmatter"@,
        frontmatter_fields(),
        OwnerSpec::Frontmatter,
        expansion,
        offsets,
    );
    let rules = top_rule_ranges(entries, expansion, offsets);
    let constraints = declared_constraint_ranges(entries, Seq::empty(), expansion, offsets);
    let none = Seq::<(KeySpec, SourceRange)>::empty();
    let ranges = document_ranges(root, offsets);
    assert forall|key: KeySpec| #[trigger] is_listed(ranges, key) implies lookup(ranges, key, 0)
        is Some by {
        let at = choose|at: int| 0 <= at < ranges.len() && (#[trigger] ranges[at]).0 == key;
        listed_ranges_are_found(ranges, key, 0, at);
    }
    if is_document_field(field) && entry_value(entries, field) is Some {
        let names = document_fields();
        assert(names[0] == "version"@ && names[1] == "title"@ && names[2] == "options"@ && names[3]
            == "frontmatter"@ && names[4] == "outline"@ && names[5] == "sections"@ && names[6]
            == "constraints"@);
        let key = KeySpec::DocumentField(field);
        present_fields_are_listed(entries, names, OwnerSpec::Document, expansion, offsets, field);
        listing_goes_on(fields, key, none, options + policy + rules + constraints);
        assert(none + fields + (options + policy + rules + constraints) =~= ranges);
        assert(is_listed(ranges, key));
    }
    if (field == "match_case"@ || field == "strip_inline_markup"@ || field
        == "allow_skipped_levels"@) && entry_value(entries, "options"@) is Some {
        let node = entry_value(entries, "options"@)->0;
        if entry_value(entries_of(node), field) is Some {
            let names = option_fields();
            assert(names[0] == "match_case"@ && names[1] == "strip_inline_markup"@ && names[2]
                == "allow_skipped_levels"@);
            let key = KeySpec::OptionField(field);
            present_fields_are_listed(
                entries_of(node),
                names,
                OwnerSpec::Options,
                expansion_of(node, expansion),
                offsets,
                field,
            );
            listing_goes_on(options, key, fields, policy + rules + constraints);
            assert(fields + options + (policy + rules + constraints) =~= ranges);
            assert(is_listed(ranges, key));
        }
    }
    if (field == "required"@ || field == "allow"@ || field == "schema"@) && entry_value(
        entries,
        "frontmatter"@,
    ) is Some {
        let node = entry_value(entries, "frontmatter"@)->0;
        if entry_value(entries_of(node), field) is Some {
            let names = frontmatter_fields();
            assert(names[0] == "required"@ && names[1] == "allow"@ && names[2] == "schema"@);
            let key = KeySpec::FrontmatterField(field);
            present_fields_are_listed(
                entries_of(node),
                names,
                OwnerSpec::Frontmatter,
                expansion_of(node, expansion),
                offsets,
                field,
            );
            listing_goes_on(policy, key, fields + options, rules + constraints);
            assert(fields + options + policy + (rules + constraints) =~= ranges);
            assert(is_listed(ranges, key));
        }
    }
    let outline = entry_value(entries, "sections"@) is None;
    let list = entry_value(
        entries,
        if outline {
            "outline"@
        } else {
            "sections"@
        },
    );
    if list is Some && index < items_of(list->0).len() {
        let key = rule_key(rule_owner(outline, Seq::empty(), index));
        rules_are_listed(
            items_of(list->0),
            items_of(list->0).len() as int,
            outline,
            Seq::empty(),
            expansion_of(list->0, expansion),
            offsets,
            index as int,
        );
        listing_goes_on(rules, key, fields + options + policy, constraints);
        assert(is_listed(ranges, key));
    }
    if entry_value(entries, "constraints"@) is Some {
        let node = entry_value(entries, "constraints"@)->0;
        if index < items_of(node).len() {
            let key = KeySpec::Constraint(Seq::empty(), ConstraintIndex(index));
            assert(constraints[index as int].0 == key);
            listing_goes_on(constraints, key, fields + options + policy + rules, none);
            assert(fields + options + policy + rules + constraints + none =~= ranges);
            assert(is_listed(ranges, key));
        }
    }
}

} // verus!
