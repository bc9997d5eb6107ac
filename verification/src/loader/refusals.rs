//! What the parts of a schema are refused for, and what they are not.

use vstd::prelude::*;
use vstd::utf8::encode_utf8;

use super::constraints::{
    lexical_ref_errors, list_read, one_or_more, proposition_read, spelled_refs, spells_ref,
    texts_in, value_read, IdentitySpec, ListRead, RefContext,
};
use super::form::is_constraint;
use super::frontmatter::linked_errors;
use super::keywords::{
    admits_on_the_way, is_named_on_the_way, is_single_on_the_way, keywords_differ,
    targets_are_admitted, targets_are_named,
};
use super::load::version_errors;
use super::patterns::{repeats_are_read_as_they_are_spelled, spells_cardinality};
use super::places::PlacesSpec;
use super::refs::{
    identity_of, rule_at, rule_with_id, rule_with_id_bounds, rules_in, target_in, target_of,
};
use super::rules::{
    duplicate_id_errors, first_declaration, outcome_of, outline_build, repeat_of, rule_id_errors, rule_id_of,
    scope_build, sound_rule, sound_rules,
};
use crate::case_fold::{folded, folded_char};
use crate::document_path::slug::has_slug_form;
use crate::json::{member, JsonSpec};
use crate::load_result::{
    node_ranges, ErrorSpec, NodeAddress, RuleIndex, SchemaErrorKind, SourceId, SourceRange,
    SourceSpec,
};
use crate::scalar::ScalarSpec;
use crate::schema::{
    addressed_rules, Cardinality, FrontmatterRefSpec, MatcherSpec, OutlineProvenance,
    PropositionSpec, RefAnchor, RefSpec, RuleOutcome, RuleSpec, UpperBound,
};
use crate::text::starts_with;

verus! {

/// Whether there is an error of a kind among errors.
pub open spec fn has_kind(errors: Seq<ErrorSpec>, kind: SchemaErrorKind) -> bool {
    exists|at: int| 0 <= at < errors.len() && (#[trigger] errors[at]).kind == kind
}

/// A rule declares its cardinality once, and none where it denies its
/// sections; it denies them where it says so and nowhere else; and what it
/// repeats has to spell a cardinality.
pub proof fn rules_admit_what_they_declare(
    allow: bool,
    required: Option<bool>,
    repeat: Option<Seq<char>>,
    range: SourceRange,
)
    ensures
        match outcome_of(allow, required, repeat, range) {
            Ok(RuleOutcome::Deny) => !allow && required is None && repeat is None,
            Ok(RuleOutcome::Allow(cardinality)) => allow && match (required, repeat) {
                (None, None) => cardinality.min == 0 && cardinality.max == UpperBound::Unbounded,
                (Some(true), None) => cardinality.min == 1 && cardinality.max
                    == UpperBound::Bounded(1),
                (Some(false), None) => cardinality.min == 0 && cardinality.max
                    == UpperBound::Bounded(1),
                (None, Some(repeat)) => spells_cardinality(repeat, cardinality),
                (Some(_), Some(_)) => false,
            },
            Err(error) => error.range == range && if error.kind
                == SchemaErrorKind::ConflictingCardinality {
                ||| required is Some && repeat is Some
                ||| !allow && (required is Some || repeat is Some)
            } else {
                &&& error.kind == SchemaErrorKind::InvalidRepeat
                &&& allow && required is None
                &&& (repeat matches Some(repeat) && forall|cardinality: Cardinality|
                    !spells_cardinality(repeat, cardinality))
            },
        },
{
    if let Some(spelling) = repeat {
        assert forall|cardinality: Cardinality| #[trigger]
            spells_cardinality(spelling, cardinality) implies repeat_of(spelling) == Some(
            cardinality,
        ) by {
            repeats_are_read_as_they_are_spelled(spelling, cardinality);
        }
        if let Some(cardinality) = repeat_of(spelling) {
            repeats_are_read_as_they_are_spelled(spelling, cardinality);
        }
    }
}

/// An id has to be a slug, and `fm` is no id at the top; nothing else is
/// refused.
pub proof fn ids_are_refused_by_their_form(
    explicit: Option<Seq<char>>,
    matcher: Option<MatcherSpec>,
    top_level: bool,
    range: SourceRange,
)
    ensures
        ({
            let errors = rule_id_errors(explicit, matcher, top_level, range);
            &&& forall|at: int| 0 <= at < errors.len() ==> (#[trigger] errors[at]).range == range
            &&& has_kind(errors, SchemaErrorKind::InvalidDocumentShape) <==> (explicit matches Some(
                id,
            ) && !has_slug_form(id))
            &&& has_kind(errors, SchemaErrorKind::ReservedId) <==> top_level && rule_id_of(
                explicit,
                matcher,
            ) == Some("fm"@)
            &&& errors.len() > 0 ==> has_kind(errors, SchemaErrorKind::InvalidDocumentShape)
                || has_kind(errors, SchemaErrorKind::ReservedId)
        }),
{
    let errors = rule_id_errors(explicit, matcher, top_level, range);
    if errors.len() > 0 {
        assert(errors[0].range == range);
        if errors[0].kind == SchemaErrorKind::InvalidDocumentShape {
            assert(has_kind(errors, SchemaErrorKind::InvalidDocumentShape));
        } else {
            assert(has_kind(errors, SchemaErrorKind::ReservedId));
        }
    }
}

/// A rule bears the id that it declares, if it is a slug; without one, only an
/// exact text names a rule.
pub proof fn rules_bear_the_id_that_they_declare(
    explicit: Option<Seq<char>>,
    matcher: Option<MatcherSpec>,
)
    ensures
        explicit matches Some(id) ==> rule_id_of(explicit, matcher) == if has_slug_form(id) {
            Some(id)
        } else {
            None
        },
        explicit is None && rule_id_of(explicit, matcher) is Some ==> matcher matches Some(
            MatcherSpec::Exact(_),
        ),
{
}

proof fn earlier_ids_are_found(built: Seq<(usize, RuleSpec)>, id: Seq<char>)
    ensures
        first_declaration(built, id) is None <==> forall|at: int|
            0 <= at < built.len() ==> (#[trigger] built[at]).1.id != Some(id),
        first_declaration(built, id) matches Some(first) ==> exists|at: int|
            0 <= at < built.len() && (#[trigger] built[at]).0 == first && built[at].1.id == Some(
                id,
            ) && forall|before: int|
                0 <= before < at ==> (#[trigger] built[before]).1.id != Some(id),
    decreases built.len(),
{
    if built.len() > 0 {
        let before = built.drop_last();
        earlier_ids_are_found(before, id);
        assert forall|at: int| 0 <= at < before.len() implies before[at] == built[at] by {}
        if first_declaration(before, id) is Some {
            let first = first_declaration(before, id)->0;
            let at = choose|at: int|
                0 <= at < before.len() && (#[trigger] before[at]).0 == first && before[at].1.id
                    == Some(id) && forall|earlier: int|
                    0 <= earlier < at ==> (#[trigger] before[earlier]).1.id != Some(id);
            assert(built[at] == before[at]);
            assert forall|earlier: int| 0 <= earlier < at implies (#[trigger] built[earlier]).1.id
                != Some(id) by {
                assert(before[earlier] == built[earlier]);
            }
        } else {
            assert forall|at: int| 0 <= at < before.len() implies (#[trigger] built[at]).1.id
                != Some(id) by {
                assert(before[at].1.id != Some(id));
            }
            if built.last().1.id == Some(id) {
                assert(built[built.len() - 1] == built.last());
            }
        }
        if forall|at: int| 0 <= at < built.len() ==> (#[trigger] built[at]).1.id != Some(id) {
            assert forall|at: int| 0 <= at < before.len() implies (#[trigger] before[at]).1.id
                != Some(id) by {
                assert(built[at].1.id != Some(id));
            }
            assert(built[built.len() - 1].1.id != Some(id));
        }
    }
}

/// Whether no two rules of a scope bear one id.
pub open spec fn ids_differ(built: Seq<(usize, RuleSpec)>) -> bool {
    forall|one: int, two: int|
        0 <= one < two < built.len() && (#[trigger] built[one]).1.id is Some ==> built[one].1.id
            != (#[trigger] built[two]).1.id
}

/// The ids of a scope are refused where one of them occurs twice, and only
/// there.
pub proof fn ids_are_refused_where_they_repeat(
    places: PlacesSpec,
    scope: Seq<RuleIndex>,
    built: Seq<(usize, RuleSpec)>,
)
    ensures
        duplicate_id_errors(places, scope, built).len() == 0 <==> ids_differ(built),
        forall|at: int|
            0 <= at < duplicate_id_errors(places, scope, built).len() ==> (
            #[trigger] duplicate_id_errors(places, scope, built)[at]).kind
                == SchemaErrorKind::DuplicateId,
    decreases built.len(),
{
    if built.len() > 0 {
        let before = built.drop_last();
        let last = built.last();
        ids_are_refused_where_they_repeat(places, scope, before);
        assert forall|at: int| 0 <= at < before.len() implies before[at] == built[at] by {}
        if last.1.id is Some {
            earlier_ids_are_found(before, last.1.id->0);
        }
        if ids_differ(built) {
            assert forall|one: int, two: int|
                0 <= one < two < before.len() && (#[trigger] before[one]).1.id
                    is Some implies before[one].1.id != (#[trigger] before[two]).1.id by {
                assert(built[one].1.id != built[two].1.id);
            }
            if last.1.id is Some {
                assert forall|at: int| 0 <= at < before.len() implies (#[trigger] before[at]).1.id
                    != last.1.id by {
                    assert(built[at] == before[at] && built[built.len() - 1] == last);
                }
            }
        }
        if duplicate_id_errors(places, scope, built).len() == 0 {
            assert forall|one: int, two: int|
                0 <= one < two < built.len() && (#[trigger] built[one]).1.id
                    is Some implies built[one].1.id != (#[trigger] built[two]).1.id by {
                assert(before[one] == built[one]);
                if two < before.len() {
                    assert(before[two] == built[two]);
                }
            }
        }
    }
}

proof fn denied_targets_are_not_admitted(rules: Seq<RuleSpec>, ids: Seq<Seq<char>>)
    ensures
        target_in(rules, ids) matches Some(target) ==> {
            &&& is_named_on_the_way(rules, target.path, ids)
            &&& target.denied ==> !admits_on_the_way(rules, target.path)
            &&& target.repeated ==> !is_single_on_the_way(rules, target.path)
            &&& !target.denied ==> admits_on_the_way(rules, target.path)
            &&& !target.repeated ==> is_single_on_the_way(rules, target.path)
        },
    decreases ids.len(),
{
    targets_are_admitted(rules, ids);
    targets_are_named(rules, ids);
    if ids.len() > 0 && target_in(rules, ids) is Some {
        let target = target_in(rules, ids)->0;
        rule_with_id_bounds(rules, ids[0], 0);
        let at = rule_with_id(rules, ids[0], 0)->0;
        let rest = target_in(rules[at].sections, ids.skip(1))->0;
        denied_targets_are_not_admitted(rules[at].sections, ids.skip(1));
        assert(target.path.len() == ids.len() && rest.path.len() == ids.len() - 1);
        assert forall|count: int| 0 < count <= target.path.len() implies #[trigger] rule_at(
            rules,
            target.path.take(count),
        ) == if count == 1 {
            Some(rules[at])
        } else {
            rule_at(rules[at].sections, rest.path.take(count - 1))
        } by {
            assert(target.path.take(count).skip(1) =~= rest.path.take(count - 1));
            assert(target.path.take(count)[0] == at);
        }
        assert(rule_at(rules, target.path.take(1)) == Some(rules[at]));
        if rest.denied && admits_on_the_way(rules, target.path) {
            assert forall|count: int| 0 < count <= rest.path.len() implies (#[trigger] rule_at(
                rules[at].sections,
                rest.path.take(count),
            ) matches Some(rule) && rule.outcome is Allow) by {
                assert(rule_at(rules, target.path.take(count + 1)) is Some);
            }
            assert(admits_on_the_way(rules[at].sections, rest.path));
        }
        if rest.repeated && is_single_on_the_way(rules, target.path) {
            assert forall|count: int| 0 < count < rest.path.len() implies (#[trigger] rule_at(
                rules[at].sections,
                rest.path.take(count),
            ) matches Some(rule) && (rule.outcome matches RuleOutcome::Allow(cardinality) && (
            cardinality.max matches UpperBound::Bounded(max) && max <= 1))) by {
                assert(rule_at(rules, target.path.take(count + 1)) is Some);
            }
            assert(is_single_on_the_way(rules[at].sections, rest.path));
        }
    }
}

/// A reference to a rule is refused where it passes through a rule that denies
/// its sections and, in an order, where it passes through one that repeats;
/// nothing else is refused of one that leads to a rule.
pub proof fn references_are_refused_for_what_they_pass(
    context: RefContext,
    source: Seq<char>,
    ordered: bool,
    reference: RefSpec,
    rules: Seq<RuleSpec>,
)
    requires
        proposition_read(context, source, ordered).found matches Some(found) && found.0
            == PropositionSpec::Rule(reference),
        reference.anchor == RefAnchor::SchemaRoot ==> rules == context.root,
        reference.anchor == RefAnchor::CurrentScope ==> rules_in(context.root, context.scope)
            == Some(rules),
    ensures
        exists|path: Seq<int>|
            {
                let errors = proposition_read(context, source, ordered).errors;
                &&& #[trigger] is_named_on_the_way(rules, path, reference.path)
                &&& has_kind(errors, SchemaErrorKind::ForbiddenRef) <==> !admits_on_the_way(
                    rules,
                    path,
                )
                &&& has_kind(errors, SchemaErrorKind::OrderedScopeMismatch) <==> ordered
                    && !is_single_on_the_way(rules, path)
                &&& !has_kind(errors, SchemaErrorKind::UnresolvedRef)
                &&& errors.len() > 0 ==> has_kind(errors, SchemaErrorKind::ForbiddenRef)
                    || has_kind(errors, SchemaErrorKind::OrderedScopeMismatch)
            },
{
    denied_targets_are_not_admitted(rules, reference.path);
    let target = target_in(rules, reference.path)->0;
    let resolved = target_of(context.root, context.scope, reference)->0;
    assert(resolved.denied == target.denied && resolved.repeated == target.repeated);
    let errors = proposition_read(context, source, ordered).errors;
    if target.denied {
        assert(errors[0].kind == SchemaErrorKind::ForbiddenRef);
    }
    if ordered && target.repeated {
        assert(errors[errors.len() - 1].kind == SchemaErrorKind::OrderedScopeMismatch);
    }
    assert(is_named_on_the_way(rules, target.path, reference.path));
}

proof fn first_ids_are_found(rules: Seq<RuleSpec>, id: Seq<char>, from: int, at: int)
    requires
        0 <= from <= at < rules.len(),
        rules[at].id == Some(id),
        forall|one: int, two: int|
            0 <= one < two < rules.len() && (#[trigger] rules[one]).id is Some ==> rules[one].id
                != (#[trigger] rules[two]).id,
    ensures
        rule_with_id(rules, id, from) == Some(at),
    decreases at - from,
{
    if from < at {
        assert(rules[from].id is Some ==> rules[from].id != rules[at].id);
        first_ids_are_found(rules, id, from + 1, at);
    }
}

/// Ids that name rules, one below the other, lead to the last of them.
pub proof fn named_rules_are_found(
    rules: Seq<RuleSpec>,
    path: Seq<int>,
    ids: Seq<Seq<char>>,
)
    requires
        sound_rules(rules),
        is_named_on_the_way(rules, path, ids),
    ensures
        target_in(rules, ids) matches Some(target) && target.path == path,
    decreases ids.len(),
{
    if ids.len() > 0 {
        assert(rule_at(rules, path.take(1)) is Some);
        let at = path[0];
        assert(path.take(1)[0] == at);
        let below = rules[at].sections;
        first_ids_are_found(rules, ids[0], 0, at);
        assert(sound_rule(rules[at]));
        assert forall|count: int| 0 < count <= ids.skip(1).len() implies (#[trigger] rule_at(
            below,
            path.skip(1).take(count),
        ) matches Some(rule) && rule.id == Some(ids.skip(1)[count - 1])) by {
            assert(path.take(count + 1).skip(1) =~= path.skip(1).take(count));
            assert(path.take(count + 1)[0] == at);
            assert(rule_at(rules, path.take(count + 1)) is Some);
            assert(ids.skip(1)[count - 1] == ids[count]);
        }
        named_rules_are_found(below, path.skip(1), ids.skip(1));
        assert(seq![at] + path.skip(1) =~= path);
    } else {
        assert(path =~= Seq::empty());
    }
}

/// A reference that is found nowhere is reported as unresolved, at the place
/// of its constraint.
pub proof fn lost_references_are_unresolved(context: RefContext, source: Seq<char>, ordered: bool)
    ensures
        ({
            let read = proposition_read(context, source, ordered);
            &&& has_kind(read.errors, SchemaErrorKind::UnresolvedRef) <==> read.found is None
            &&& read.found is None ==> read.errors.len() == 1 && read.errors[0].range
                == context.range
            &&& read.found matches Some(found) ==> (found.0 is Frontmatter <==> starts_with(
                source,
                "fm."@,
            ))
        }),
{
    let read = proposition_read(context, source, ordered);
    if read.found is None {
        assert(read.errors[0].kind == SchemaErrorKind::UnresolvedRef);
    }
}

/// Two queries of the frontmatter are about the same thing where they have one
/// path and compare with equal scalars; texts are equal character by
/// character, up to case where case does not count.
pub proof fn queries_agree_up_to_case(
    one: FrontmatterRefSpec,
    two: FrontmatterRefSpec,
    match_case: bool,
)
    ensures
        identity_of(one, match_case) == identity_of(two, match_case) <==> one.path == two.path
            && match (one.equals, two.equals) {
            (Some(ScalarSpec::Text(left)), Some(ScalarSpec::Text(right))) => left.len()
                == right.len() && forall|at: int|
                0 <= at < left.len() ==> (#[trigger] left[at] == right[at] || (!match_case
                    && folded_char(left[at]) == folded_char(right[at]))),
            (left, right) => left == right,
        },
{
    if let Some(ScalarSpec::Text(left)) = one.equals {
        if let Some(ScalarSpec::Text(right)) = two.equals {
            let (first, second) = (folded(left), folded(right));
            assert(first.len() == left.len() && second.len() == right.len());
            if first == second {
                assert forall|at: int| 0 <= at < left.len() implies folded_char(
                    #[trigger] left[at],
                ) == folded_char(right[at]) by {
                    assert(first[at] == second[at]);
                }
            }
            if left.len() == right.len() && forall|at: int|
                0 <= at < left.len() ==> (#[trigger] left[at] == right[at] || (!match_case
                    && folded_char(left[at]) == folded_char(right[at]))) {
                if match_case {
                    assert(left =~= right);
                } else {
                    assert(first =~= second);
                }
            }
        }
    }
}

proof fn lists_name_what_they_read(
    context: RefContext,
    values: Seq<JsonSpec>,
    spoken: Seq<IdentitySpec>,
    duplicate: Seq<char>,
)
    requires
        forall|at: int|
            0 <= at < values.len() ==> {
                &&& value_read(context, #[trigger] values[at], false).found is Some
                &&& value_read(context, values[at], false).errors.len() == 0
            },
    ensures
        ({
            let list = list_read(context, values, spoken, duplicate);
            &&& list.complete
            &&& list.identities.len() == spoken.len() + values.len()
            &&& spoken.no_duplicates() ==> (list.errors.len() == 0
                <==> list.identities.no_duplicates())
            &&& forall|at: int|
                0 <= at < list.errors.len() ==> (#[trigger] list.errors[at]).kind
                    == SchemaErrorKind::DuplicateRef
        }),
    decreases values.len(),
{
    if values.len() > 0 {
        let before = values.drop_last();
        assert forall|at: int| 0 <= at < before.len() implies {
            &&& value_read(context, #[trigger] before[at], false).found is Some
            &&& value_read(context, before[at], false).errors.len() == 0
        } by {
            assert(before[at] == values[at]);
        }
        lists_name_what_they_read(context, before, spoken, duplicate);
        assert(values[values.len() - 1] == values.last());
        let earlier = list_read(context, before, spoken, duplicate);
        let list = list_read(context, values, spoken, duplicate);
        let read = value_read(context, values.last(), false);
        assert(list.identities == earlier.identities.push((read.found->0).1));
        assert(list.identities.drop_last() =~= earlier.identities);
        if list.identities.no_duplicates() {
            assert forall|one: int, two: int|
                0 <= one < earlier.identities.len() && 0 <= two < earlier.identities.len() && one
                    != two implies earlier.identities[one] != earlier.identities[two] by {
                assert(list.identities[one] != list.identities[two]);
            }
            if earlier.identities.contains((read.found->0).1) {
                let at = earlier.identities.index_of((read.found->0).1);
                assert(list.identities[at] == list.identities[earlier.identities.len() as int]);
            }
        }
        if earlier.identities.no_duplicates() && !earlier.identities.contains((read.found->0).1) {
            assert forall|one: int, two: int|
                0 <= one < list.identities.len() && 0 <= two < list.identities.len() && one
                    != two implies list.identities[one] != list.identities[two] by {
                if one < earlier.identities.len() {
                    assert(earlier.identities.contains(earlier.identities[one]));
                }
                if two < earlier.identities.len() {
                    assert(earlier.identities.contains(earlier.identities[two]));
                }
            }
        }
    }
}

/// A list of references, each of which is found, is refused where it speaks
/// about one thing twice, and for nothing else.
pub proof fn lists_are_refused_for_repetitions_alone(
    context: RefContext,
    values: Seq<JsonSpec>,
    duplicate: Seq<char>,
)
    requires
        forall|at: int|
            0 <= at < values.len() ==> {
                &&& value_read(context, #[trigger] values[at], false).found is Some
                &&& value_read(context, values[at], false).errors.len() == 0
            },
    ensures
        ({
            let list: ListRead = list_read(context, values, Seq::empty(), duplicate);
            &&& list.complete
            &&& list.identities.len() == values.len()
            &&& list.errors.len() == 0 <==> list.identities.no_duplicates()
            &&& list.errors.len() > 0 ==> has_kind(list.errors, SchemaErrorKind::DuplicateRef)
        }),
{
    lists_name_what_they_read(context, values, Seq::empty(), duplicate);
    let list = list_read(context, values, Seq::empty(), duplicate);
    if list.errors.len() > 0 {
        assert(list.errors[0].kind == SchemaErrorKind::DuplicateRef);
    }
}

/// There is one version of schema documents; any other is reported as not
/// supported.
pub proof fn there_is_one_version(places: PlacesSpec, version: int)
    ensures
        version_errors(places, version).len() == 0 <==> version == 1,
        version != 1 ==> version_errors(places, version)[0].kind
            == SchemaErrorKind::UnsupportedVersion,
{
}

/// A node has the range with which it was found last, and no other node has a
/// range.
pub proof fn nodes_have_the_range_found_last(
    entries: Seq<(NodeAddress, SourceRange)>,
    node: NodeAddress,
    at: int,
)
    requires
        forall|later: int| at < later < entries.len() ==> (#[trigger] entries[later]).0 != node,
        at == -1 || (0 <= at < entries.len() && entries[at].0 == node),
    ensures
        at >= 0 ==> node_ranges(entries).contains_pair(node, entries[at].1),
        at == -1 ==> !node_ranges(entries).contains_key(node),
    decreases entries.len(),
{
    if entries.len() > 0 {
        let before = entries.drop_last();
        assert(entries[entries.len() - 1] == entries.last());
        if at < before.len() {
            assert forall|later: int| at < later < before.len() implies (
            #[trigger] before[later]).0 != node by {
                assert(before[later] == entries[later]);
            }
            if at >= 0 {
                assert(before[at] == entries[at]);
            }
            nodes_have_the_range_found_last(before, node, at);
        }
    }
}

/// Whether a text is written in a constraint: in its list, or as one side of
/// its implication.
pub open spec fn is_written(value: JsonSpec, text: Seq<char>) -> bool {
    value matches JsonSpec::Object(members) && members.len() == 1 && match members[0].1 {
        JsonSpec::Array(values) => values.contains(JsonSpec::Text(text)),
        JsonSpec::Object(parts) => {
            ||| member(parts, "if"@) == Some(JsonSpec::Text(text))
            ||| match member(
                parts,
                if members[0].0 == "requires"@ {
                    "then"@
                } else {
                    "then_not"@
                },
            ) {
                Some(JsonSpec::Array(values)) => values.contains(JsonSpec::Text(text)),
                other => other == Some(JsonSpec::Text(text)),
            }
        },
        _ => false,
    }
}

proof fn listed_texts_are_found(values: Seq<JsonSpec>, text: Seq<char>)
    ensures
        texts_in(values).contains(text) <==> values.contains(JsonSpec::Text(text)),
    decreases values.len(),
{
    if values.len() > 0 {
        let before = values.drop_last();
        listed_texts_are_found(before, text);
        assert(values =~= before.push(values.last()));
        let found = texts_in(before);
        if values.contains(JsonSpec::Text(text)) {
            let at = values.index_of(JsonSpec::Text(text));
            if at < before.len() {
                assert(before[at] == JsonSpec::Text(text));
                let place = found.index_of(text);
                assert(texts_in(values)[place] == text);
            } else {
                assert(texts_in(values)[found.len() as int] == text);
            }
        }
        if texts_in(values).contains(text) {
            let place = texts_in(values).index_of(text);
            if place < found.len() {
                assert(found[place] == text);
                let at = before.index_of(JsonSpec::Text(text));
                assert(values[at] == JsonSpec::Text(text));
            } else {
                assert(values[before.len() as int] == JsonSpec::Text(text));
            }
        }
    } else {
        assert(texts_in(values) =~= Seq::empty());
    }
}

/// The references of a constraint are the texts that are written in it.
pub proof fn references_are_the_texts_of_a_constraint(value: JsonSpec, text: Seq<char>)
    requires
        is_constraint(value),
    ensures
        spelled_refs(value).contains(text) <==> is_written(value, text),
{
    keywords_differ();
    let members = value->Object_0;
    if let JsonSpec::Array(values) = members[0].1 {
        listed_texts_are_found(values, text);
    }
    if let JsonSpec::Object(parts) = members[0].1 {
        let field = if members[0].0 == "requires"@ {
            "then"@
        } else {
            "then_not"@
        };
        let consequence = one_or_more(member(parts, field)->0);
        let condition = member(parts, "if"@)->0->Text_0;
        listed_texts_are_found(consequence, text);
        let refs = spelled_refs(value);
        assert(refs == seq![condition] + texts_in(consequence));
        if consequence.contains(JsonSpec::Text(text)) {
            let at = texts_in(consequence).index_of(text);
            assert(refs[at + 1] == text);
        }
        if condition == text {
            assert(refs[0] == text);
        }
        if refs.contains(text) {
            let at = refs.index_of(text);
            if at > 0 {
                assert(texts_in(consequence)[at - 1] == text);
            }
        }
        if member(parts, field)->0 is Text {
            assert(consequence =~= seq![member(parts, field)->0]);
            if member(parts, field) == Some(JsonSpec::Text(text)) {
                assert(consequence[0] == JsonSpec::Text(text));
            }
        }
    }
}

/// Of the references of a constraint, those that are spelled badly are
/// refused, and those that are spelled twice; no others.
pub proof fn spellings_are_refused_where_they_are_bad_or_repeat(
    refs: Seq<Seq<char>>,
    range: SourceRange,
)
    ensures
        lexical_ref_errors(refs, range).len() == 0 <==> refs.no_duplicates() && forall|at: int|
            0 <= at < refs.len() ==> spells_ref(#[trigger] refs[at]),
    decreases refs.len(),
{
    if refs.len() > 0 {
        let before = refs.drop_last();
        spellings_are_refused_where_they_are_bad_or_repeat(before, range);
        assert(refs[refs.len() - 1] == refs.last());
        assert forall|at: int| 0 <= at < before.len() implies before[at] == refs[at] by {}
        let fine = refs.no_duplicates() && forall|at: int|
            0 <= at < refs.len() ==> spells_ref(#[trigger] refs[at]);
        if fine {
            assert forall|at: int| 0 <= at < before.len() implies spells_ref(
                #[trigger] before[at],
            ) by {
                assert(spells_ref(refs[at]));
            }
            if before.contains(refs.last()) {
                let at = before.index_of(refs.last());
                assert(refs[at] == refs[refs.len() - 1]);
            }
        }
        if lexical_ref_errors(refs, range).len() == 0 {
            assert forall|one: int, two: int|
                0 <= one < refs.len() && 0 <= two < refs.len() && one
                    != two implies refs[one] != refs[two] by {
                if one < before.len() {
                    assert(before.contains(before[one]));
                }
                if two < before.len() {
                    assert(before.contains(before[two]));
                }
            }
            assert forall|at: int| 0 <= at < refs.len() implies spells_ref(#[trigger] refs[at]) by {
                if at < before.len() {
                    assert(spells_ref(before[at]));
                }
            }
        }
    }
}

/// A reference that is found is one that is spelled well.
pub proof fn found_references_are_spelled_well(
    context: RefContext,
    source: Seq<char>,
    ordered: bool,
)
    ensures
        proposition_read(context, source, ordered).found is Some ==> spells_ref(source),
{
}

/// References start at the rules of an outline, or at the sections below the
/// title where there is one rule for it.
pub proof fn references_start_below_the_title(outline: Seq<RuleSpec>, provenance: OutlineProvenance)
    ensures
        provenance is Outline ==> addressed_rules(outline, provenance) == outline,
        !(provenance is Outline) && outline.len() > 0 ==> addressed_rules(outline, provenance)
            == outline[0].sections,
        !(provenance is Outline) && outline.len() == 0 ==> addressed_rules(
            outline,
            provenance,
        ).len() == 0,
{
}

/// An outline has at least one rule; otherwise rules are built alike, wherever
/// they stand.
pub proof fn outlines_have_rules(places: PlacesSpec, rules: Seq<JsonSpec>, match_case: bool)
    ensures
        outline_build(places, rules, match_case).rules matches Some(built) ==> rules.len() > 0
            && scope_build(places, rules, Seq::empty(), match_case).rules == Some(built),
        rules.len() == 0 ==> has_kind(
            outline_build(places, rules, match_case).findings.errors,
            SchemaErrorKind::InvalidDocumentShape,
        ),
{
    let errors = outline_build(places, rules, match_case).findings.errors;
    if rules.len() == 0 {
        assert(errors[0].kind == SchemaErrorKind::InvalidDocumentShape);
    }
}

/// An error of a linked schema is reported over the whole of the source that
/// it is attributed to.
pub proof fn linked_errors_cover_their_source(
    sources: Seq<SourceSpec>,
    errors: Seq<(SourceId, Seq<char>)>,
    otherwise: SourceRange,
    at: int,
)
    requires
        0 <= at < errors.len(),
        errors[at].0.0 < sources.len(),
    ensures
        linked_errors(sources, errors, otherwise).len() == errors.len(),
        ({
            let error = linked_errors(sources, errors, otherwise)[at];
            &&& error.kind == SchemaErrorKind::InvalidFrontmatterSchema
            &&& error.message == errors[at].1
            &&& error.range.source == errors[at].0
            &&& error.range.range.start.0 == 0
            &&& error.range.range.end.0 == encode_utf8(
                sources[errors[at].0.0 as int].text,
            ).len() as usize
        }),
{
}

} // verus!
