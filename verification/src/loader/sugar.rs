//! A title with its sections is an outline of one required rule.

use vstd::prelude::*;

use super::constraints::{
    constraint_read, implication_read, implication_refs, is_group_keyword, list_read,
    one_or_more, ordered_refs_read, proposition_read, spelled_refs, spoken_by, texts_in,
    value_read, IdentitySpec, RefContext,
};
use super::external::PreparedSpec;
use super::frontmatter::frontmatter_build;
use super::load::{
    all_declared, all_placed, constraint_range, constraints_build, declared_version,
    document_build, document_outline_build, document_range_of, load_of, outline_places,
    provenance_of, scope_constraints, AllConstraints,
};
use super::placement::{placed, placed_in_rules};
use super::places::PlacesSpec;
use super::ranges::{document_ranges, offsets_of};
use super::refs::{rule_ref_of, rule_with_id, rules_in, scope_positions, segments, target_in};
use super::rules::{
    children_are_built, children_build, declared_matcher, declared_options, declared_outcome,
    duplicate_id_errors, list_build, list_field, own_findings, rule_build, rule_id_of,
    scope_build, spelling_of, text_field,
};
use super::shape::{consequence_field, is_list_keyword, Members};
use super::validity::{both_spellings_have_a_valid_shape, says_nothing_else};
use crate::json::{member, member_index, member_index_bounds, JsonSpec};
use crate::load_result::{RuleIndex, SourceSpec};
use crate::schema::{
    addressed_rules, ConstraintSpec, OutlineProvenance, RuleSpec, SchemaSpec, SchemaVersion,
};
use crate::text::{find_either_bounds, starts_with};
use crate::yaml::convert::json_of;
use crate::yaml::reader::{parsed_tree, YamlFault};

verus! {

/// Whether `members` spell with `title`, `sections` and `constraints` what
/// `general` spells as an outline of the one rule `rule`, which is required
/// and says nothing else.
pub open spec fn spells_the_same(
    members: Members,
    general: Members,
    rule: Members,
    title: Seq<char>,
) -> bool {
    &&& member(general, "version"@) == member(members, "version"@)
    &&& member(general, "options"@) == member(members, "options"@)
    &&& member(general, "frontmatter"@) == member(members, "frontmatter"@)
    &&& member(members, "outline"@) is None
    &&& member(members, "title"@) == Some(JsonSpec::Text(title))
    &&& member(general, "outline"@) == Some(JsonSpec::Array(seq![JsonSpec::Object(rule)]))
    &&& member(general, "constraints"@) is None
    &&& member(rule, "match"@) == Some(JsonSpec::Text(title))
    &&& member(rule, "required"@) == Some(JsonSpec::Bool(true))
    &&& member(rule, "sections"@) == member(members, "sections"@)
    &&& member(rule, "constraints"@) == member(members, "constraints"@)
    &&& member(rule, "id"@) is None
    &&& member(rule, "repeat"@) is None
    &&& member(rule, "allow"@) is None
    &&& member(rule, "strict"@) is None
}

/// Whether no reference in constraints starts at the root of the schema.
pub open spec fn refs_stay_in_scope(declared: Seq<(Seq<RuleIndex>, Seq<JsonSpec>)>) -> bool {
    forall|scope: int, at: int|
        0 <= scope < declared.len() && 0 <= at < declared[scope].1.len() ==> stays_in_scope(
            #[trigger] declared[scope].1[at],
        )
}

/// Whether no reference in a constraint does.
pub open spec fn stays_in_scope(value: JsonSpec) -> bool {
    forall|at: int|
        0 <= at < spelled_refs(value).len() ==> !starts_with(
            #[trigger] spelled_refs(value)[at],
            "$."@,
        )
}

/// Whether no rule has the id that is kept for the frontmatter.
pub open spec fn leaves_frontmatter(rules: Seq<RuleSpec>) -> bool {
    forall|at: int| 0 <= at < rules.len() ==> (#[trigger] rules[at]).id != Some("fm"@)
}

/// The place of the one rule of the outline.
spec fn first() -> Seq<RuleIndex> {
    seq![RuleIndex(0)]
}

/// Declared constraints, with their scopes below the first rule.
spec fn lowered(declared: Seq<(Seq<RuleIndex>, Seq<JsonSpec>)>) -> Seq<
    (Seq<RuleIndex>, Seq<JsonSpec>),
> {
    declared.map_values(
        |entry: (Seq<RuleIndex>, Seq<JsonSpec>)| (first() + entry.0, entry.1),
    )
}

proof fn lowered_joins(
    head: Seq<(Seq<RuleIndex>, Seq<JsonSpec>)>,
    tail: Seq<(Seq<RuleIndex>, Seq<JsonSpec>)>,
)
    ensures
        lowered(head + tail) == lowered(head) + lowered(tail),
{
    assert(lowered(head + tail) =~= lowered(head) + lowered(tail));
}

proof fn duplicates_are_alike(
    one: PlacesSpec,
    one_scope: Seq<RuleIndex>,
    two: PlacesSpec,
    two_scope: Seq<RuleIndex>,
    built: Seq<(usize, RuleSpec)>,
)
    ensures
        duplicate_id_errors(one, one_scope, built).len() == duplicate_id_errors(
            two,
            two_scope,
            built,
        ).len(),
    decreases built.len(),
{
    if built.len() > 0 {
        duplicates_are_alike(one, one_scope, two, two_scope, built.drop_last());
    }
}

proof fn own_findings_are_alike(
    one: PlacesSpec,
    two: PlacesSpec,
    members: Members,
    scope: Seq<RuleIndex>,
    index: usize,
    match_case: bool,
)
    ensures
        ({
            let left = own_findings(one, members, scope, index, match_case);
            let right = own_findings(two, members, first() + scope, index, match_case);
            let matcher = declared_matcher(one, members, scope, index, match_case);
            let id = rule_id_of(text_field(members, "id"@), Some(matcher->Ok_0));
            &&& right.constraints == lowered(left.constraints)
            &&& left.errors.len() == 0 ==> right.errors.len() == 0
            &&& right.errors.len() == 0 && (scope.len() > 0 || !(matcher is Ok && id == Some(
                "fm"@,
            ))) ==> left.errors.len() == 0
            &&& matcher is Ok <==> declared_matcher(
                two,
                members,
                first() + scope,
                index,
                match_case,
            ) is Ok
            &&& matcher is Ok ==> matcher == declared_matcher(
                two,
                members,
                first() + scope,
                index,
                match_case,
            )
            &&& declared_outcome(one, members, scope, index) is Ok <==> declared_outcome(
                two,
                members,
                first() + scope,
                index,
            ) is Ok
            &&& declared_outcome(one, members, scope, index) is Ok ==> declared_outcome(
                one,
                members,
                scope,
                index,
            ) == declared_outcome(two, members, first() + scope, index)
        }),
{
    let left = own_findings(one, members, scope, index, match_case);
    let right = own_findings(two, members, first() + scope, index, match_case);
    assert((first() + scope).push(RuleIndex(index)) =~= first() + scope.push(RuleIndex(index)));
    assert(right.constraints =~= lowered(left.constraints));
}

proof fn rules_are_alike(
    one: PlacesSpec,
    two: PlacesSpec,
    value: JsonSpec,
    scope: Seq<RuleIndex>,
    index: usize,
    match_case: bool,
)
    ensures
        ({
            let left = rule_build(one, value, scope, index, match_case);
            let right = rule_build(two, value, first() + scope, index, match_case);
            &&& left.rule == right.rule
            &&& right.findings.constraints == lowered(left.findings.constraints)
            &&& left.findings.errors.len() == 0 ==> right.findings.errors.len() == 0
            &&& right.findings.errors.len() == 0 && (scope.len() > 0 || (left.rule matches Some(
                rule,
            ) && rule.id != Some("fm"@))) ==> left.findings.errors.len() == 0
        }),
    decreases value, 0int,
{
    let left = rule_build(one, value, scope, index, match_case);
    let right = rule_build(two, value, first() + scope, index, match_case);
    if let JsonSpec::Object(members) = value {
        children_are_built(one, value, scope, index, match_case);
        children_are_built(two, value, first() + scope, index, match_case);
        own_findings_are_alike(one, two, members, scope, index, match_case);
        let inner = scope.push(RuleIndex(index));
        assert((first() + scope).push(RuleIndex(index)) =~= first() + inner);
        if let Some(JsonSpec::Array(rules)) = member(members, "sections"@) {
            let at = member_index(members, "sections"@, 0)->0;
            member_index_bounds(members, "sections"@, 0);
            assert(members[at].1 == JsonSpec::Array(rules));
            scopes_are_alike(one, two, rules, inner, match_case);
        } else {
            let none = scope_build(one, Seq::empty(), inner, match_case);
            let other = scope_build(two, Seq::empty(), first() + inner, match_case);
            assert(other.rules->0 =~= none.rules->0);
            assert(other.findings.constraints =~= lowered(none.findings.constraints));
        }
        lowered_joins(
            own_findings(one, members, scope, index, match_case).constraints,
            children_build(one, members, inner, match_case).findings.constraints,
        );
    } else {
        assert(right.findings.constraints =~= lowered(left.findings.constraints));
    }
}

proof fn lists_are_alike(
    one: PlacesSpec,
    two: PlacesSpec,
    rules: Seq<JsonSpec>,
    scope: Seq<RuleIndex>,
    match_case: bool,
    count: int,
)
    ensures
        ({
            let left = list_build(one, rules, scope, match_case, count);
            let right = list_build(two, rules, first() + scope, match_case, count);
            &&& left.built == right.built
            &&& left.complete == right.complete
            &&& right.findings.constraints == lowered(left.findings.constraints)
            &&& left.findings.errors.len() == 0 ==> right.findings.errors.len() == 0
            &&& right.findings.errors.len() == 0 && (scope.len() > 0 || (left.complete
                && forall|at: int|
                0 <= at < left.built.len() ==> (#[trigger] left.built[at]).1.id != Some("fm"@)))
                ==> left.findings.errors.len() == 0
        }),
    decreases rules, count,
{
    let left = list_build(one, rules, scope, match_case, count);
    let right = list_build(two, rules, first() + scope, match_case, count);
    if 0 < count <= rules.len() {
        let index = (count - 1) as usize;
        lists_are_alike(one, two, rules, scope, match_case, count - 1);
        rules_are_alike(one, two, rules[count - 1], scope, index, match_case);
        let before = list_build(one, rules, scope, match_case, count - 1);
        let last = rule_build(one, rules[count - 1], scope, index, match_case);
        lowered_joins(before.findings.constraints, last.findings.constraints);
        if scope.len() == 0 && left.complete && (forall|at: int|
            0 <= at < left.built.len() ==> (#[trigger] left.built[at]).1.id != Some("fm"@)) {
            assert forall|at: int| 0 <= at < before.built.len() implies (
            #[trigger] before.built[at]).1.id != Some("fm"@) by {
                assert(left.built[at] == before.built[at]);
            }
            assert(left.built[before.built.len() as int].1 == last.rule->0);
        }
    } else {
        assert(right.findings.constraints =~= lowered(left.findings.constraints));
    }
}

proof fn scopes_are_alike(
    one: PlacesSpec,
    two: PlacesSpec,
    rules: Seq<JsonSpec>,
    scope: Seq<RuleIndex>,
    match_case: bool,
)
    ensures
        ({
            let left = scope_build(one, rules, scope, match_case);
            let right = scope_build(two, rules, first() + scope, match_case);
            &&& left.rules == right.rules
            &&& right.findings.constraints == lowered(left.findings.constraints)
            &&& left.findings.errors.len() == 0 ==> right.findings.errors.len() == 0
            &&& right.findings.errors.len() == 0 && (scope.len() > 0 || (left.rules is Some
                && leaves_frontmatter(left.rules->0))) ==> left.findings.errors.len() == 0
        }),
    decreases rules, rules.len() + 1,
{
    let count = rules.len() as int;
    lists_are_alike(one, two, rules, scope, match_case, count);
    let list = list_build(one, rules, scope, match_case, count);
    duplicates_are_alike(one, scope, two, first() + scope, list.built);
    let left = scope_build(one, rules, scope, match_case);
    if scope.len() == 0 && left.rules is Some && leaves_frontmatter(left.rules->0) {
        assert forall|at: int| 0 <= at < list.built.len() implies (
        #[trigger] list.built[at]).1.id != Some("fm"@) by {
            assert(left.rules->0[at] == list.built[at].1);
        }
    }
}

/// What an identity is below the first rule.
spec fn moved(identity: IdentitySpec) -> IdentitySpec {
    match identity {
        IdentitySpec::Rule(path) => IdentitySpec::Rule(seq![0int] + path),
        other => other,
    }
}

spec fn all_moved(identities: Seq<IdentitySpec>) -> Seq<IdentitySpec> {
    identities.map_values(|identity: IdentitySpec| moved(identity))
}

proof fn moved_identities_differ(one: IdentitySpec, two: IdentitySpec)
    requires
        moved(one) == moved(two),
    ensures
        one == two,
{
    if let (IdentitySpec::Rule(left), IdentitySpec::Rule(right)) = (one, two) {
        assert(left =~= (seq![0int] + left).skip(1));
        assert(right =~= (seq![0int] + right).skip(1));
    }
}

proof fn moving_keeps_membership(identities: Seq<IdentitySpec>, identity: IdentitySpec)
    ensures
        all_moved(identities).contains(moved(identity)) <==> identities.contains(identity),
{
    if identities.contains(identity) {
        let at = choose|at: int| 0 <= at < identities.len() && identities[at] == identity;
        assert(all_moved(identities)[at] == moved(identity));
    }
    if all_moved(identities).contains(moved(identity)) {
        let at = choose|at: int|
            0 <= at < all_moved(identities).len() && all_moved(identities)[at] == moved(identity);
        moved_identities_differ(identities[at], identity);
    }
}

/// Two contexts of one constraint: among the sections of a title, and below
/// the first rule of an outline.
spec fn correspond(one: RefContext, two: RefContext) -> bool {
    &&& two.root.len() == 1
    &&& two.root[0].sections == one.root
    &&& two.scope == first() + one.scope
    &&& two.match_case == one.match_case
}

proof fn segments_are_some(text: Seq<char>)
    ensures
        segments(text).len() > 0,
{
    find_either_bounds(text, '.', '.', 0);
}

proof fn targets_have_paths(rules: Seq<RuleSpec>, ids: Seq<Seq<char>>)
    ensures
        target_in(rules, ids) matches Some(target) ==> target.path.len() == ids.len(),
    decreases ids.len(),
{
    if ids.len() > 0 {
        if let Some(at) = rule_with_id(rules, ids[0], 0) {
            targets_have_paths(rules[at].sections, ids.skip(1));
        }
    }
}

proof fn propositions_are_alike(one: RefContext, two: RefContext, source: Seq<char>, ordered: bool)
    requires
        correspond(one, two),
        !starts_with(source, "$."@),
    ensures
        ({
            let left = proposition_read(one, source, ordered);
            let right = proposition_read(two, source, ordered);
            &&& left.errors.len() == right.errors.len()
            &&& left.found is Some <==> right.found is Some
            &&& left.found matches Some((proposition, identity)) ==> right.found == Some(
                (proposition, moved(identity)),
            )
            &&& left.found matches Some((_, IdentitySpec::Rule(path))) ==> path.len() > 0
        }),
{
    if !starts_with(source, "fm."@) {
        if let Some(reference) = rule_ref_of(source) {
            segments_are_some(source);
            let inner = first() + one.scope;
            assert(inner.skip(1) =~= one.scope);
            assert(inner[0] == RuleIndex(0));
            assert(rules_in(two.root, two.scope) == rules_in(one.root, one.scope));
            if let Some(rules) = rules_in(one.root, one.scope) {
                targets_have_paths(rules, reference.path);
                if let Some(target) = target_in(rules, reference.path) {
                    assert(scope_positions(inner) + target.path =~= seq![0int] + (scope_positions(
                        one.scope,
                    ) + target.path));
                }
            }
        }
    }
}

proof fn values_are_alike(one: RefContext, two: RefContext, value: JsonSpec, ordered: bool)
    requires
        correspond(one, two),
        value matches JsonSpec::Text(source) ==> !starts_with(source, "$."@),
    ensures
        ({
            let left = value_read(one, value, ordered);
            let right = value_read(two, value, ordered);
            &&& left.errors.len() == right.errors.len()
            &&& left.found is Some <==> right.found is Some
            &&& left.found matches Some((proposition, identity)) ==> right.found == Some(
                (proposition, moved(identity)),
            )
            &&& left.found matches Some((_, IdentitySpec::Rule(path))) ==> path.len() > 0
        }),
{
    if let JsonSpec::Text(source) = value {
        propositions_are_alike(one, two, source, ordered);
    }
}

/// No string among `values` starts at the root of the schema.
spec fn texts_stay(values: Seq<JsonSpec>) -> bool {
    forall|at: int|
        0 <= at < values.len() && (#[trigger] values[at]) is Text ==> !starts_with(
            values[at]->Text_0,
            "$."@,
        )
}

proof fn texts_are_refs(values: Seq<JsonSpec>)
    requires
        forall|at: int|
            0 <= at < texts_in(values).len() ==> !starts_with(
                #[trigger] texts_in(values)[at],
                "$."@,
            ),
    ensures
        texts_stay(values),
    decreases values.len(),
{
    if values.len() > 0 {
        let shorter = values.drop_last();
        let before = texts_in(shorter);
        assert forall|at: int| 0 <= at < before.len() implies !starts_with(
            #[trigger] before[at],
            "$."@,
        ) by {
            assert(texts_in(values)[at] == before[at]);
        }
        texts_are_refs(shorter);
        if let JsonSpec::Text(text) = values.last() {
            assert(texts_in(values)[before.len() as int] == text);
        }
        assert forall|at: int| 0 <= at < values.len() && (#[trigger] values[at]) is Text implies
            !starts_with(values[at]->Text_0, "$."@) by {
            if at < shorter.len() {
                assert(shorter[at] == values[at]);
            }
        }
    }
}

proof fn read_lists_are_alike(
    one: RefContext,
    two: RefContext,
    values: Seq<JsonSpec>,
    spoken: Seq<IdentitySpec>,
    duplicate: Seq<char>,
)
    requires
        correspond(one, two),
        texts_stay(values),
    ensures
        ({
            let left = list_read(one, values, spoken, duplicate);
            let right = list_read(two, values, all_moved(spoken), duplicate);
            &&& left.propositions == right.propositions
            &&& right.identities == all_moved(left.identities)
            &&& left.complete == right.complete
            &&& left.errors.len() == right.errors.len()
        }),
    decreases values.len(),
{
    if values.len() > 0 {
        let shorter = values.drop_last();
        assert forall|at: int| 0 <= at < shorter.len() && (#[trigger] shorter[at]) is Text implies
            !starts_with(shorter[at]->Text_0, "$."@) by {
            assert(shorter[at] == values[at]);
        }
        read_lists_are_alike(one, two, shorter, spoken, duplicate);
        assert(values[values.len() - 1] == values.last());
        values_are_alike(one, two, values.last(), false);
        let before = list_read(one, shorter, spoken, duplicate);
        if let Some(found) = value_read(one, values.last(), false).found {
            moving_keeps_membership(before.identities, found.1);
            assert(all_moved(before.identities.push(found.1)) =~= all_moved(
                before.identities,
            ).push(moved(found.1)));
        }
    }
}

spec fn moved_parent(parent: Option<Seq<int>>) -> Option<Seq<int>> {
    match parent {
        None => None,
        Some(path) => Some(seq![0int] + path),
    }
}

proof fn moved_parents_differ(one: Seq<int>, two: Seq<int>)
    requires
        seq![0int] + one == seq![0int] + two,
    ensures
        one == two,
{
    assert(one =~= (seq![0int] + one).skip(1));
    assert(two =~= (seq![0int] + two).skip(1));
}

proof fn ordered_refs_are_alike(one: RefContext, two: RefContext, values: Seq<JsonSpec>)
    requires
        correspond(one, two),
        texts_stay(values),
    ensures
        ({
            let left = ordered_refs_read(one, values);
            let right = ordered_refs_read(two, values);
            &&& left.refs == right.refs
            &&& right.identities == all_moved(left.identities)
            &&& right.parent == moved_parent(left.parent)
            &&& left.complete == right.complete
            &&& left.errors.len() == right.errors.len()
        }),
    decreases values.len(),
{
    if values.len() > 0 {
        let shorter = values.drop_last();
        assert forall|at: int| 0 <= at < shorter.len() && (#[trigger] shorter[at]) is Text implies
            !starts_with(shorter[at]->Text_0, "$."@) by {
            assert(shorter[at] == values[at]);
        }
        ordered_refs_are_alike(one, two, shorter);
        assert(values[values.len() - 1] == values.last());
        values_are_alike(one, two, values.last(), true);
        let before = ordered_refs_read(one, shorter);
        if let Some(found) = value_read(one, values.last(), true).found {
            moving_keeps_membership(before.identities, found.1);
            assert(all_moved(before.identities.push(found.1)) =~= all_moved(
                before.identities,
            ).push(moved(found.1)));
            if let IdentitySpec::Rule(path) = found.1 {
                assert((seq![0int] + path).drop_last() =~= seq![0int] + path.drop_last());
                if let Some(parent) = before.parent {
                    if seq![0int] + parent == seq![0int] + path.drop_last() {
                        moved_parents_differ(parent, path.drop_last());
                    }
                }
            }
        }
    } else {
        assert(all_moved(Seq::empty()) =~= Seq::empty());
    }
}

proof fn implications_are_alike(
    one: RefContext,
    two: RefContext,
    operand: JsonSpec,
    requires_keyword: bool,
)
    requires
        correspond(one, two),
        forall|at: int|
            0 <= at < implication_refs(operand, requires_keyword).len() ==> !starts_with(
                #[trigger] implication_refs(operand, requires_keyword)[at],
                "$."@,
            ),
    ensures
        ({
            let left = implication_read(one, operand, requires_keyword);
            let right = implication_read(two, operand, requires_keyword);
            &&& left.constraint == right.constraint
            &&& left.errors.len() == right.errors.len()
        }),
{
    let field = consequence_field(requires_keyword);
    if let JsonSpec::Object(members) = operand {
        if let (Some(condition), Some(consequence)) = (
            member(members, "if"@),
            member(members, field),
        ) {
            let refs = implication_refs(operand, requires_keyword);
            let values = one_or_more(consequence);
            let texts = texts_in(values);
            let start = refs.len() - texts.len();
            if let JsonSpec::Text(source) = condition {
                assert(refs[0] == source);
            }
            assert forall|at: int| 0 <= at < texts.len() implies !starts_with(
                #[trigger] texts[at],
                "$."@,
            ) by {
                assert(refs[start + at] == texts[at]);
            }
            texts_are_refs(values);
            values_are_alike(one, two, condition, false);
            let read = value_read(one, condition, false);
            let other = value_read(two, condition, false);
            assert(all_moved(spoken_by(read)) =~= spoken_by(other));
            read_lists_are_alike(
                one,
                two,
                values,
                spoken_by(read),
                "duplicate ref in `"@ + field + "`"@,
            );
        }
    }
}

proof fn constraints_are_alike(one: RefContext, two: RefContext, value: JsonSpec)
    requires
        correspond(one, two),
        stays_in_scope(value),
    ensures
        ({
            let left = constraint_read(one, value);
            let right = constraint_read(two, value);
            &&& left.constraint == right.constraint
            &&& left.errors.len() == right.errors.len()
        }),
{
    if let JsonSpec::Object(members) = value {
        if members.len() == 1 {
            let keyword = members[0].0;
            let operand = members[0].1;
            if is_list_keyword(keyword) {
                if let JsonSpec::Array(values) = operand {
                    assert(spelled_refs(value) == texts_in(values));
                    texts_are_refs(values);
                    assert(all_moved(Seq::empty()) =~= Seq::empty());
                    read_lists_are_alike(
                        one,
                        two,
                        values,
                        Seq::empty(),
                        "constraint contains a duplicate ref"@,
                    );
                    ordered_refs_are_alike(one, two, values);
                }
                keywords_differ();
            } else if keyword == "requires"@ {
                assert(spelled_refs(value) == implication_refs(operand, true));
                implications_are_alike(one, two, operand, true);
            } else if keyword == "conflicts"@ {
                keywords_differ();
                assert(spelled_refs(value) == implication_refs(operand, false));
                implications_are_alike(one, two, operand, false);
            }
        }
    }
}

proof fn keywords_differ()
    ensures
        "requires"@ != "conflicts"@,
        !is_list_keyword("requires"@),
        !is_list_keyword("conflicts"@),
        !is_group_keyword("ordered"@),
{
    reveal_strlit("requires");
    reveal_strlit("conflicts");
    reveal_strlit("ordered");
    reveal_strlit("one_of");
    reveal_strlit("any_of");
    reveal_strlit("at_most_one");
    reveal_strlit("all_or_none");
    assert("requires"@[0] == 'r');
    assert("conflicts"@[0] == 'c');
    assert("ordered"@.len() == 7);
    assert("one_of"@.len() == 6);
    assert("any_of"@.len() == 6);
    assert("at_most_one"@.len() == 11);
    assert("all_or_none"@.len() == 11);
    assert("requires"@.len() == 8);
    assert("conflicts"@.len() == 9);
}

proof fn scope_constraints_are_alike(
    one: PlacesSpec,
    two: PlacesSpec,
    sections: Seq<RuleSpec>,
    rule: RuleSpec,
    match_case: bool,
    scope: Seq<RuleIndex>,
    values: Seq<JsonSpec>,
    count: int,
)
    requires
        rule.sections == sections,
        forall|at: int| 0 <= at < values.len() ==> stays_in_scope(#[trigger] values[at]),
    ensures
        ({
            let left = scope_constraints(one, sections, match_case, scope, values, count);
            let right = scope_constraints(
                two,
                seq![rule],
                match_case,
                first() + scope,
                values,
                count,
            );
            &&& left.constraints == right.constraints
            &&& left.errors.len() == right.errors.len()
        }),
    decreases count,
{
    if 0 < count <= values.len() {
        scope_constraints_are_alike(
            one,
            two,
            sections,
            rule,
            match_case,
            scope,
            values,
            count - 1,
        );
        let left = RefContext {
            root: sections,
            match_case,
            scope,
            range: constraint_range(one, scope, count - 1),
        };
        let right = RefContext {
            root: seq![rule],
            match_case,
            scope: first() + scope,
            range: constraint_range(two, first() + scope, count - 1),
        };
        constraints_are_alike(left, right, values[count - 1]);
    }
}

/// Built constraints, with their scopes below the first rule, behind those of
/// the outline itself, of which there are none.
spec fn lists_lowered(lists: Seq<(Seq<RuleIndex>, Seq<ConstraintSpec>)>) -> Seq<
    (Seq<RuleIndex>, Seq<ConstraintSpec>),
> {
    seq![(Seq::<RuleIndex>::empty(), Seq::<ConstraintSpec>::empty())] + lists.map_values(
        |entry: (Seq<RuleIndex>, Seq<ConstraintSpec>)| (first() + entry.0, entry.1),
    )
}

/// Declared constraints, with their scopes below the first rule, behind those
/// of the outline itself, of which there are none.
spec fn declared_below(declared: Seq<(Seq<RuleIndex>, Seq<JsonSpec>)>) -> Seq<
    (Seq<RuleIndex>, Seq<JsonSpec>),
> {
    seq![(Seq::<RuleIndex>::empty(), Seq::<JsonSpec>::empty())] + lowered(declared)
}

proof fn all_constraints_are_alike(
    one: PlacesSpec,
    two: PlacesSpec,
    sections: Seq<RuleSpec>,
    rule: RuleSpec,
    match_case: bool,
    declared: Seq<(Seq<RuleIndex>, Seq<JsonSpec>)>,
    count: int,
)
    requires
        rule.sections == sections,
        refs_stay_in_scope(declared),
        0 <= count <= declared.len(),
    ensures
        ({
            let left = constraints_build(one, sections, match_case, declared, count);
            let right = constraints_build(
                two,
                seq![rule],
                match_case,
                declared_below(declared),
                count + 1,
            );
            &&& right.lists == lists_lowered(left.lists)
            &&& left.errors.len() == right.errors.len()
        }),
    decreases count,
{
    let below = declared_below(declared);
    let left = constraints_build(one, sections, match_case, declared, count);
    let right = constraints_build(two, seq![rule], match_case, below, count + 1);
    if count == 0 {
        reveal_with_fuel(constraints_build, 2);
        let (scope, values) = below[0];
        assert(right.lists =~= lists_lowered(left.lists));
    } else {
        all_constraints_are_alike(one, two, sections, rule, match_case, declared, count - 1);
        let (scope, values) = declared[count - 1];
        assert(below[count] == (first() + scope, values));
        assert forall|at: int| 0 <= at < values.len() implies stays_in_scope(
            #[trigger] values[at],
        ) by {
            assert(stays_in_scope(declared[count - 1].1[at]));
        }
        scope_constraints_are_alike(
            one,
            two,
            sections,
            rule,
            match_case,
            scope,
            values,
            values.len() as int,
        );
        assert(right.lists =~= lists_lowered(left.lists));
    }
}

/// The schema of an outline.
spec fn as_outline(schema: SchemaSpec) -> SchemaSpec {
    SchemaSpec { outline_provenance: OutlineProvenance::Outline, ..schema }
}

proof fn placing_is_alike(
    schema: SchemaSpec,
    scope: Seq<RuleIndex>,
    constraints: Seq<ConstraintSpec>,
)
    requires
        schema.outline_provenance != OutlineProvenance::Outline,
        schema.outline.len() == 1,
    ensures
        placed(as_outline(schema), first() + scope, constraints) == as_outline(
            placed(schema, scope, constraints),
        ),
        placed(schema, scope, constraints).outline.len() == 1,
        placed(schema, scope, constraints).outline_provenance == schema.outline_provenance,
        placed(schema, scope, constraints).constraints == schema.constraints,
{
    let path = first() + scope;
    assert(path[0] == RuleIndex(0));
    assert(path.skip(1) =~= scope);
}

proof fn all_placing_is_alike(
    schema: SchemaSpec,
    lists: Seq<(Seq<RuleIndex>, Seq<ConstraintSpec>)>,
    count: int,
)
    requires
        schema.outline_provenance != OutlineProvenance::Outline,
        schema.outline.len() == 1,
        schema.constraints.len() == 0,
        0 <= count <= lists.len(),
    ensures
        all_placed(as_outline(schema), lists_lowered(lists), count + 1) == as_outline(
            all_placed(schema, lists, count),
        ),
        all_placed(schema, lists, count).outline.len() == 1,
        all_placed(schema, lists, count).outline_provenance == schema.outline_provenance,
        all_placed(schema, lists, count).constraints.len() == 0,
    decreases count,
{
    let lower = lists_lowered(lists);
    if count == 0 {
        reveal_with_fuel(all_placed, 2);
        assert(lower[0].0 =~= Seq::empty());
        assert(schema.constraints =~= Seq::empty());
    } else {
        all_placing_is_alike(schema, lists, count - 1);
        assert(lower[count] == (first() + lists[count - 1].0, lists[count - 1].1));
        placing_is_alike(
            all_placed(schema, lists, count - 1),
            lists[count - 1].0,
            lists[count - 1].1,
        );
    }
}

proof fn policies_are_alike(
    one: PlacesSpec,
    two: PlacesSpec,
    members: Members,
    general: Members,
    one_sources: Seq<SourceSpec>,
    two_sources: Seq<SourceSpec>,
    prepared: Option<PreparedSpec>,
)
    requires
        member(general, "frontmatter"@) == member(members, "frontmatter"@),
    ensures
        ({
            let left = frontmatter_build(one, members, one_sources, prepared);
            let right = frontmatter_build(two, general, two_sources, prepared);
            &&& left.policy == right.policy
            &&& left.errors.len() == right.errors.len()
        }),
{
}

/// The one rule of the outline is the rule that the title stands for.
proof fn outlines_are_alike(
    one: PlacesSpec,
    two: PlacesSpec,
    members: Members,
    general: Members,
    rule: Members,
    title: Seq<char>,
    match_case: bool,
)
    requires
        spells_the_same(members, general, rule, title),
        !(spelling_of(title) is Exact),
    ensures
        ({
            let left = document_outline_build(one, members, match_case);
            let right = document_outline_build(two, general, match_case);
            &&& left.findings.errors.len() == 0 ==> right.findings.errors.len() == 0
            &&& right.findings.errors.len() == 0 && right.rules is Some && leaves_frontmatter(
                right.rules->0[0].sections,
            ) ==> left.findings.errors.len() == 0
            &&& left.findings.errors.len() == 0 ==> left.rules == right.rules
            &&& left.rules is Some ==> left.rules->0.len() == 1
            &&& right.findings.errors.len() == 0 && right.rules is Some ==> left.rules is Some
            &&& all_declared(general, right) == declared_below(all_declared(members, left))
        }),
{
    let places = outline_places(two, general);
    let value = JsonSpec::Object(rule);
    let rules = seq![value];
    let left = document_outline_build(one, members, match_case);
    let right = document_outline_build(two, general, match_case);
    let sections = list_field(members, "sections"@);
    let empty = Seq::<RuleIndex>::empty();
    reveal_with_fuel(list_build, 2);
    children_are_built(places, value, empty, 0, match_case);
    assert(empty.push(RuleIndex(0)) =~= first() + empty);
    scopes_are_alike(one, places, sections, empty, match_case);
    let inner = scope_build(one, sections, empty, match_case);
    let children = children_build(places, rule, first() + empty, match_case);
    assert(children == scope_build(places, sections, first() + empty, match_case));
    let built = rule_build(places, value, empty, 0, match_case);
    let list = list_build(places, rules, empty, match_case, 1);
    assert(list.findings.errors =~= built.findings.errors);
    assert(list.findings.constraints =~= built.findings.constraints);
    let declared_right = own_findings(places, rule, empty, 0, match_case);
    assert(list_field(rule, "constraints"@) == list_field(members, "constraints"@));
    assert(declared_right.constraints =~= lowered(
        seq![(empty, list_field(members, "constraints"@))],
    ));
    lowered_joins(
        seq![(empty, list_field(members, "constraints"@))],
        inner.findings.constraints,
    );
    assert(left.findings.constraints =~= inner.findings.constraints);
    assert(right.findings.constraints =~= lowered(all_declared(members, left)));
    assert(all_declared(general, right) =~= declared_below(all_declared(members, left)));
    if built.rule is Some {
        assert(list.built =~= seq![(0usize, built.rule->0)]);
        reveal_with_fuel(duplicate_id_errors, 2);
        assert(list.built.drop_last() =~= Seq::empty());
        assert(duplicate_id_errors(places, empty, list.built).len() == 0);
        assert(right.rules->0 =~= seq![built.rule->0]);
    } else {
        assert(list.built =~= Seq::empty());
        assert(duplicate_id_errors(places, empty, list.built).len() == 0);
    }
    assert(right.findings.errors =~= built.findings.errors);
}

/// The schema of a document before its constraints are placed.
pub(crate) open spec fn bare_schema(
    places: PlacesSpec,
    members: Members,
    sources: Seq<SourceSpec>,
    prepared: Option<PreparedSpec>,
) -> SchemaSpec {
    let options = declared_options(members);
    SchemaSpec {
        version: SchemaVersion::V1,
        options,
        frontmatter: frontmatter_build(places, members, sources, prepared).policy->0,
        outline: document_outline_build(places, members, options.match_case).rules->0,
        constraints: Seq::empty(),
        outline_provenance: provenance_of(members),
    }
}

/// The constraints of a document.
pub(crate) open spec fn built_constraints(places: PlacesSpec, members: Members) -> AllConstraints {
    let match_case = declared_options(members).match_case;
    let outline = document_outline_build(places, members, match_case);
    let declared = all_declared(members, outline);
    constraints_build(
        outline_places(places, members),
        addressed_rules(outline.rules->0, provenance_of(members)),
        match_case,
        declared,
        declared.len() as int,
    )
}

pub(crate) proof fn documents_are_built(
    places: PlacesSpec,
    members: Members,
    sources: Seq<SourceSpec>,
    prepared: Option<PreparedSpec>,
)
    ensures
        ({
            let frontmatter = frontmatter_build(places, members, sources, prepared);
            let outline = document_outline_build(
                places,
                members,
                declared_options(members).match_case,
            );
            let constraints = built_constraints(places, members);
            let build = document_build(places, members, sources, prepared);
            &&& build is Ok <==> {
                &&& declared_version(members) == Some(1int)
                &&& frontmatter.policy is Some
                &&& frontmatter.errors.len() == 0
                &&& outline.rules is Some
                &&& outline.findings.errors.len() == 0
                &&& constraints.errors.len() == 0
            }
            &&& build is Ok ==> build->Ok_0.0 == all_placed(
                bare_schema(places, members, sources, prepared),
                constraints.lists,
                constraints.lists.len() as int,
            )
        }),
{
    reveal(document_build);
}

proof fn placing_keeps_ids(
    rules: Seq<RuleSpec>,
    path: Seq<RuleIndex>,
    constraints: Seq<ConstraintSpec>,
)
    ensures
        placed_in_rules(rules, path, constraints).len() == rules.len(),
        forall|at: int|
            0 <= at < rules.len() ==> (#[trigger] placed_in_rules(
                rules,
                path,
                constraints,
            )[at]).id == rules[at].id,
{
}

proof fn all_placing_keeps_ids(
    schema: SchemaSpec,
    lists: Seq<(Seq<RuleIndex>, Seq<ConstraintSpec>)>,
    count: int,
)
    requires
        schema.outline_provenance == OutlineProvenance::Outline,
        schema.outline.len() == 1,
        0 <= count <= lists.len(),
    ensures
        ({
            let after = all_placed(schema, lists, count);
            &&& after.outline_provenance == OutlineProvenance::Outline
            &&& after.outline.len() == 1
            &&& leaves_frontmatter(after.outline[0].sections) ==> leaves_frontmatter(
                schema.outline[0].sections,
            )
        }),
    decreases count,
{
    if count > 0 {
        all_placing_keeps_ids(schema, lists, count - 1);
        let before = all_placed(schema, lists, count - 1);
        let (scope, constraints) = lists[count - 1];
        let after = all_placed(schema, lists, count);
        if scope.len() > 1 {
            let sections = before.outline[0].sections;
            placing_keeps_ids(sections, scope.skip(1), constraints);
            if leaves_frontmatter(after.outline[0].sections) {
                assert forall|at: int| 0 <= at < sections.len() implies (
                #[trigger] sections[at]).id != Some("fm"@) by {
                    assert(after.outline[0].sections[at].id == sections[at].id);
                }
            }
        }
    }
}

proof fn constraints_build_each(
    places: PlacesSpec,
    root: Seq<RuleSpec>,
    match_case: bool,
    declared: Seq<(Seq<RuleIndex>, Seq<JsonSpec>)>,
    count: int,
)
    requires
        0 <= count <= declared.len(),
    ensures
        constraints_build(places, root, match_case, declared, count).lists.len() == count,
    decreases count,
{
    if count > 0 {
        constraints_build_each(places, root, match_case, declared, count - 1);
    }
}

proof fn built_constraints_are_alike(
    one: PlacesSpec,
    two: PlacesSpec,
    members: Members,
    general: Members,
    rule: Members,
    title: Seq<char>,
)
    requires
        spells_the_same(members, general, rule, title),
        !(spelling_of(title) is Exact),
        refs_stay_in_scope(
            all_declared(
                members,
                document_outline_build(one, members, declared_options(members).match_case),
            ),
        ),
        document_outline_build(one, members, declared_options(members).match_case).rules is Some,
        document_outline_build(one, members, declared_options(members).match_case).rules
            == document_outline_build(two, general, declared_options(members).match_case).rules,
    ensures
        ({
            let left = built_constraints(one, members);
            let right = built_constraints(two, general);
            &&& right.lists == lists_lowered(left.lists)
            &&& right.errors.len() == left.errors.len()
        }),
{
    let match_case = declared_options(members).match_case;
    assert(declared_options(general) == declared_options(members));
    outlines_are_alike(one, two, members, general, rule, title, match_case);
    let left = document_outline_build(one, members, match_case);
    let outline = left.rules->0;
    let declared = all_declared(members, left);
    assert(outline =~= seq![outline[0]]);
    all_constraints_are_alike(
        outline_places(one, members),
        outline_places(two, general),
        outline[0].sections,
        outline[0],
        match_case,
        declared,
        declared.len() as int,
    );
}

/// A document that spells an outline with a title pattern and its sections,
/// and one that spells it as a single required rule, build the same schema but
/// for the spelling that the outline came from. No reference may start at the
/// root of the schema, which stands elsewhere in the two; and the second also
/// admits, below the rule, the id that is kept for the frontmatter.
pub proof fn sugar_and_outline_build_the_same(
    one: PlacesSpec,
    two: PlacesSpec,
    members: Members,
    general: Members,
    rule: Members,
    title: Seq<char>,
    one_sources: Seq<SourceSpec>,
    two_sources: Seq<SourceSpec>,
    prepared: Option<PreparedSpec>,
)
    requires
        spells_the_same(members, general, rule, title),
        !(spelling_of(title) is Exact),
        refs_stay_in_scope(
            all_declared(
                members,
                document_outline_build(one, members, declared_options(members).match_case),
            ),
        ),
    ensures
        ({
            let left = document_build(one, members, one_sources, prepared);
            let right = document_build(two, general, two_sources, prepared);
            &&& left matches Ok((schema, _)) ==> right is Ok && right->Ok_0.0 == (SchemaSpec {
                outline_provenance: OutlineProvenance::Outline,
                ..schema
            })
            &&& right is Ok && leaves_frontmatter(right->Ok_0.0.outline[0].sections)
                ==> left is Ok
        }),
{
    let match_case = declared_options(members).match_case;
    assert(declared_options(general) == declared_options(members));
    policies_are_alike(one, two, members, general, one_sources, two_sources, prepared);
    outlines_are_alike(one, two, members, general, rule, title, match_case);
    documents_are_built(one, members, one_sources, prepared);
    documents_are_built(two, general, two_sources, prepared);
    let left = document_build(one, members, one_sources, prepared);
    let right = document_build(two, general, two_sources, prepared);
    let below = built_constraints(two, general);
    let outline = document_outline_build(two, general, match_case);
    if left is Ok {
        built_constraints_are_alike(one, two, members, general, rule, title);
        let lists = built_constraints(one, members).lists;
        let schema = bare_schema(one, members, one_sources, prepared);
        all_placing_is_alike(schema, lists, lists.len() as int);
        assert(bare_schema(two, general, two_sources, prepared) =~= as_outline(schema));
    } else if right is Ok && leaves_frontmatter(right->Ok_0.0.outline[0].sections) {
        single_rule_outline(two, general, rule, match_case);
        all_placing_keeps_ids(
            bare_schema(two, general, two_sources, prepared),
            below.lists,
            below.lists.len() as int,
        );
        assert(leaves_frontmatter(outline.rules->0[0].sections));
        built_constraints_are_alike(one, two, members, general, rule, title);
    }
}

proof fn single_rule_outline(
    places: PlacesSpec,
    general: Members,
    rule: Members,
    match_case: bool,
)
    requires
        member(general, "outline"@) == Some(JsonSpec::Array(seq![JsonSpec::Object(rule)])),
        document_outline_build(places, general, match_case).rules is Some,
    ensures
        document_outline_build(places, general, match_case).rules->0.len() == 1,
{
    reveal_with_fuel(list_build, 2);
}

/// Whether a source reads as a document with these members.
pub open spec fn reads_as(source: Seq<char>, members: Members) -> bool {
    match parsed_tree(source) {
        Err(_) => false,
        Ok(tree) => json_of(tree) == Ok::<JsonSpec, YamlFault>(JsonSpec::Object(members)),
    }
}

/// The places of a source.
pub open spec fn source_places(source: Seq<char>) -> PlacesSpec {
    PlacesSpec {
        ranges: document_ranges(parsed_tree(source)->Ok_0, offsets_of(source)),
        document: document_range_of(source),
        outline_general: false,
    }
}

/// Two sources that spell one outline and nothing else, with a title pattern
/// and its sections and as a single required rule: where the first loads, so
/// does the second, to the same schema but for the spelling that the outline
/// came from; and where the second loads without the id that is kept for the
/// frontmatter, so does the first.
pub proof fn sugar_and_outline_load_the_same(
    one: Seq<char>,
    two: Seq<char>,
    members: Members,
    general: Members,
    rule: Members,
    title: Seq<char>,
    one_sources: Seq<SourceSpec>,
    two_sources: Seq<SourceSpec>,
    prepared: Option<PreparedSpec>,
)
    requires
        reads_as(one, members),
        reads_as(two, general),
        spells_the_same(members, general, rule, title),
        says_nothing_else(members, general, rule),
        member(members, "sections"@) is Some,
        !(spelling_of(title) is Exact),
        refs_stay_in_scope(
            all_declared(
                members,
                document_outline_build(
                    source_places(one),
                    members,
                    declared_options(members).match_case,
                ),
            ),
        ),
    ensures
        ({
            let left = load_of(one, one_sources, prepared);
            let right = load_of(two, two_sources, prepared);
            &&& left matches Ok(loaded) ==> right is Ok && right->Ok_0.schema == (SchemaSpec {
                outline_provenance: OutlineProvenance::Outline,
                ..loaded.schema
            })
            &&& right is Ok && leaves_frontmatter(right->Ok_0.schema.outline[0].sections)
                ==> left is Ok
        }),
{
    both_spellings_have_a_valid_shape(
        source_places(one),
        source_places(two),
        members,
        general,
        rule,
        title,
    );
    sugar_and_outline_build_the_same(
        source_places(one),
        source_places(two),
        members,
        general,
        rule,
        title,
        one_sources,
        two_sources,
        prepared,
    );
}

} // verus!
