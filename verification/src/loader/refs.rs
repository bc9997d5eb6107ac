//! References of constraints to rules and frontmatter values.

use vstd::prelude::*;

use crate::case_fold::{folded, simple_fold};
use crate::document_path::slug::{has_slug_form, is_slug_char, HeadingSlug};
use crate::load_result::{RuleIndex, ScopePath};
use crate::scalar::{parse_frontmatter_scalar, scalar_of, FrontmatterScalar, ScalarSpec};
use crate::schema::{
    addressed_rules, rule_spec, rule_specs, FrontmatterKey, FrontmatterRef, FrontmatterRefSpec,
    NonEmpty, RefAnchor, RefSpec, RuleId, RuleOutcome, RuleRef, RuleSpec, Schema, SectionRule,
    UpperBound,
};
use crate::text::{
    chars_of, find_either, find_either_is, has_prefix, same_text, starts_with, text_of,
};

verus! {

/// The parts of `text` between its dots.
pub open spec fn segments(text: Seq<char>) -> Seq<Seq<char>>
    decreases text.len(),
{
    let dot = find_either(text, '.', '.', 0);
    if dot < 0 || dot >= text.len() {
        seq![text]
    } else {
        seq![text.take(dot)] + segments(text.skip(dot + 1))
    }
}

/// Segments joined by dots.
pub open spec fn dotted(path: Seq<Seq<char>>) -> Seq<char>
    decreases path.len(),
{
    if path.len() == 0 {
        Seq::empty()
    } else if path.len() == 1 {
        path[0]
    } else {
        path[0] + seq!['.'] + dotted(path.skip(1))
    }
}

/// Segments without dots are taken apart as they were joined.
pub proof fn dotted_segments(path: Seq<Seq<char>>)
    requires
        path.len() > 0,
        forall|at: int, k: int|
            0 <= at < path.len() && 0 <= k < path[at].len() ==> #[trigger] path[at][k] != '.',
    ensures
        segments(dotted(path)) == path,
    decreases path.len(),
{
    let text = dotted(path);
    if path.len() == 1 {
        find_either_is(text, '.', '.', 0, text.len() as int);
        assert(segments(text) =~= path);
    } else {
        let rest = path.skip(1);
        assert forall|at: int, k: int|
            0 <= at < rest.len() && 0 <= k < rest[at].len() implies #[trigger] rest[at][k]
            != '.' by {
            assert(rest[at] == path[at + 1]);
            assert(path[at + 1][k] != '.');
        }
        dotted_segments(rest);
        let dot = path[0].len() as int;
        assert forall|at: int| 0 <= at < dot implies (#[trigger] text[at]) != '.' by {
            assert(text[at] == path[0][at]);
        }
        find_either_is(text, '.', '.', 0, dot);
        assert(text.take(dot) =~= path[0]);
        assert(text.skip(dot + 1) =~= dotted(rest));
        assert(segments(text) =~= path);
    }
}

/// Takes `chars[from..to]` apart at its dots.
fn split_dots(chars: &[char], from: usize, to: usize) -> (parts: Vec<String>)
    requires
        from <= to <= chars@.len(),
    ensures
        parts@.map_values(|part: String| part@) == segments(
            chars@.subrange(from as int, to as int),
        ),
        parts@.len() > 0,
{
    let ghost text = chars@.subrange(from as int, to as int);
    let mut parts: Vec<String> = Vec::new();
    let mut at: usize = from;
    assert(text.skip(0) =~= text);
    assert(parts@.map_values(|part: String| part@) + segments(text) =~= segments(text));
    loop
        invariant
            from <= at <= to <= chars@.len(),
            text == chars@.subrange(from as int, to as int),
            parts@.map_values(|part: String| part@) + segments(text.skip(at - from)) == segments(
                text,
            ),
        decreases to - at,
    {
        let ghost rest = text.skip(at - from);
        let ghost before = parts@.map_values(|part: String| part@);
        let mut dot: usize = at;
        while dot < to && chars[dot] != '.'
            invariant
                from <= at <= dot <= to <= chars@.len(),
                text == chars@.subrange(from as int, to as int),
                rest == text.skip(at - from),
                forall|k: int| 0 <= k < dot - at ==> (#[trigger] rest[k]) != '.',
            decreases to - dot,
        {
            assert(rest[dot - at] == chars@[dot as int]);
            dot += 1;
        }
        proof {
            if dot < to {
                assert(rest[dot - at] == chars@[dot as int]);
            }
            find_either_is(rest, '.', '.', 0, dot - at);
            assert(chars@.subrange(at as int, dot as int) =~= rest.take(dot - at));
        }
        let part = text_of(chars, at, dot);
        parts.push(part);
        assert(parts@.map_values(|part: String| part@) =~= before.push(part@));
        if dot == to {
            assert(rest.take(dot - at) =~= rest);
            assert(before.push(rest) =~= before + segments(rest));
            return parts;
        }
        proof {
            assert(rest.skip(dot - at + 1) =~= text.skip(dot + 1 - from));
            assert(before.push(part@) + segments(text.skip(dot + 1 - from)) =~= before + segments(
                rest,
            ));
        }
        at = dot + 1;
    }
}

/// Whether every segment is a slug.
pub open spec fn all_slugs(path: Seq<Seq<char>>) -> bool {
    forall|at: int| 0 <= at < path.len() ==> has_slug_form(#[trigger] path[at])
}

/// The rule reference that `source` spells: slugs joined by dots, behind `$.`
/// where the path starts at the root of the schema.
pub open spec fn rule_ref_of(source: Seq<char>) -> Option<RefSpec> {
    let rooted = starts_with(source, "$."@);
    let path = segments(
        if rooted {
            source.skip(2)
        } else {
            source
        },
    );
    if all_slugs(path) {
        Some(
            RefSpec {
                anchor: if rooted {
                    RefAnchor::SchemaRoot
                } else {
                    RefAnchor::CurrentScope
                },
                path,
            },
        )
    } else {
        None
    }
}

/// Reads a rule reference.
pub fn parse_rule_ref(source: &str) -> (reference: Option<RuleRef>)
    ensures
        reference is Some <==> rule_ref_of(source@) is Some,
        reference matches Some(reference) ==> rule_ref_of(source@) == Some(reference@),
{
    let chars = chars_of(source);
    let rooted = has_prefix(source, "$.");
    proof {
        reveal_strlit("$.");
    }
    let from: usize = if rooted {
        2
    } else {
        0
    };
    let parts = split_dots(chars.as_slice(), from, chars.len());
    let ghost path = segments(
        if rooted {
            source@.skip(2)
        } else {
            source@
        },
    );
    proof {
        assert(source@.subrange(from as int, source@.len() as int) =~= if rooted {
            source@.skip(2)
        } else {
            source@
        });
    }
    let mut ids: Vec<RuleId> = Vec::new();
    let mut at: usize = 0;
    while at < parts.len()
        invariant
            at <= parts@.len(),
            path == parts@.map_values(|part: String| part@),
            rooted == starts_with(source@, "$."@),
            path == segments(
                if rooted {
                    source@.skip(2)
                } else {
                    source@
                },
            ),
            ids@.len() == at,
            forall|k: int| 0 <= k < at ==> (#[trigger] ids@[k]).0@ == path[k] && has_slug_form(
                path[k],
            ),
        decreases parts.len() - at,
    {
        match HeadingSlug::parse(parts[at].as_str()) {
            Some(slug) => {
                ids.push(RuleId(slug.into_string()));
            },
            None => {
                assert(!has_slug_form(path[at as int]));
                return None;
            },
        }
        at += 1;
    }
    assert forall|k: int| 0 <= k < path.len() implies has_slug_form(#[trigger] path[k]) by {
        assert(ids@[k].0@ == path[k]);
    }
    match NonEmpty::from_vec(ids) {
        Some(ids) => {
            let reference = RuleRef {
                anchor: if rooted {
                    RefAnchor::SchemaRoot
                } else {
                    RefAnchor::CurrentScope
                },
                path: ids,
            };
            assert(reference@.path =~= path);
            Some(reference)
        },
        None => None,
    }
}

/// The spelling of a rule reference.
pub open spec fn ref_spelling(reference: RefSpec) -> Seq<char> {
    match reference.anchor {
        RefAnchor::SchemaRoot => "$."@ + dotted(reference.path),
        RefAnchor::CurrentScope => dotted(reference.path),
    }
}

/// A reference over slugs is read back from its spelling.
pub proof fn rule_refs_parse_back(reference: RefSpec)
    requires
        reference.path.len() > 0,
        all_slugs(reference.path),
    ensures
        rule_ref_of(ref_spelling(reference)) == Some(reference),
{
    let source = ref_spelling(reference);
    let path = reference.path;
    assert forall|at: int, k: int|
        0 <= at < path.len() && 0 <= k < path[at].len() implies #[trigger] path[at][k] != '.' by {
        assert(has_slug_form(path[at]));
        assert(is_slug_char(path[at][k]) || path[at][k] == '-');
    }
    dotted_segments(path);
    reveal_strlit("$.");
    match reference.anchor {
        RefAnchor::SchemaRoot => {
            assert(source.take(2) =~= "$."@);
            assert(source.skip(2) =~= dotted(path));
        },
        RefAnchor::CurrentScope => {
            assert(has_slug_form(path[0]));
            assert(is_slug_char(path[0][0]) || path[0][0] == '-');
            assert(source[0] == path[0][0]);
            if starts_with(source, "$."@) {
                assert(source.take(2)[0] == '$');
            }
        },
    }
}

/// The frontmatter reference that `source` spells: `fm.` and keys joined by
/// dots, and behind `=` the scalar to compare with.
pub open spec fn frontmatter_ref_of(source: Seq<char>) -> Option<FrontmatterRefSpec> {
    let body = source.skip(3);
    let equals = find_either(body, '=', '=', 0);
    let path = segments(body.take(equals));
    if starts_with(source, "fm."@) && forall|at: int|
        0 <= at < path.len() ==> (#[trigger] path[at]).len() > 0 {
        Some(
            FrontmatterRefSpec {
                path,
                equals: if equals < body.len() {
                    Some(scalar_of(body.skip(equals + 1)))
                } else {
                    None
                },
            },
        )
    } else {
        None
    }
}

/// Reads a frontmatter reference.
pub fn parse_frontmatter_ref(source: &str) -> (reference: Option<FrontmatterRef>)
    ensures
        reference is Some <==> frontmatter_ref_of(source@) is Some,
        reference matches Some(reference) ==> frontmatter_ref_of(source@) == Some(reference@),
{
    proof {
        reveal_strlit("fm.");
    }
    if !has_prefix(source, "fm.") {
        return None;
    }
    let whole = chars_of(source);
    let ghost body = source@.skip(3);
    let mut equals: usize = 3;
    while equals < whole.len() && whole[equals] != '='
        invariant
            3 <= equals <= whole@.len(),
            whole@ == source@,
            body == source@.skip(3),
            forall|k: int| 0 <= k < equals - 3 ==> (#[trigger] body[k]) != '=',
        decreases whole.len() - equals,
    {
        assert(body[equals - 3] == whole@[equals as int]);
        equals += 1;
    }
    proof {
        if equals < whole.len() {
            assert(body[equals - 3] == whole@[equals as int]);
        }
        find_either_is(body, '=', '=', 0, equals - 3);
        assert(source@.subrange(3, equals as int) =~= body.take(equals - 3));
    }
    let scalar = if equals < whole.len() {
        let literal = text_of(whole.as_slice(), equals + 1, whole.len());
        assert(literal@ =~= body.skip(equals - 3 + 1));
        Some(parse_frontmatter_scalar(literal.as_str()))
    } else {
        None
    };
    let parts = split_dots(whole.as_slice(), 3, equals);
    let ghost path = segments(body.take(equals - 3));
    let mut keys: Vec<FrontmatterKey> = Vec::new();
    let mut at: usize = 0;
    while at < parts.len()
        invariant
            at <= parts@.len(),
            path == parts@.map_values(|part: String| part@),
            path == segments(source@.skip(3).take(find_either(source@.skip(3), '=', '=', 0))),
            keys@.len() == at,
            forall|k: int| 0 <= k < at ==> (#[trigger] keys@[k]).0@ == path[k] && path[k].len() > 0,
        decreases parts.len() - at,
    {
        if chars_of(parts[at].as_str()).len() == 0 {
            assert(path[at as int].len() == 0);
            return None;
        }
        keys.push(FrontmatterKey(parts[at].clone()));
        at += 1;
    }
    assert forall|k: int| 0 <= k < path.len() implies (#[trigger] path[k]).len() > 0 by {
        assert(keys@[k].0@ == path[k]);
    }
    match NonEmpty::from_vec(keys) {
        Some(keys) => {
            let reference = FrontmatterRef { path: keys, equals: scalar };
            assert(reference@.path =~= path);
            assert(reference@ =~= frontmatter_ref_of(source@)->0);
            Some(reference)
        },
        None => None,
    }
}

/// What makes two frontmatter references the same: without matching case, the
/// text to compare with counts by its fold.
pub open spec fn identity_of(reference: FrontmatterRefSpec, match_case: bool) -> FrontmatterRefSpec {
    FrontmatterRefSpec {
        path: reference.path,
        equals: match reference.equals {
            Some(ScalarSpec::Text(text)) => Some(
                ScalarSpec::Text(
                    if match_case {
                        text
                    } else {
                        folded(text)
                    },
                ),
            ),
            other => other,
        },
    }
}

/// What makes two frontmatter references the same.
pub fn frontmatter_identity(reference: &FrontmatterRef, match_case: bool) -> (identity:
    FrontmatterRef)
    ensures
        identity@ == identity_of(reference@, match_case),
{
    let first = FrontmatterKey(reference.path.first.0.clone());
    let mut rest: Vec<FrontmatterKey> = Vec::new();
    let mut at: usize = 0;
    while at < reference.path.rest.len()
        invariant
            at <= reference.path.rest@.len(),
            rest@.len() == at,
            forall|k: int|
                0 <= k < at ==> (#[trigger] rest@[k]).0@ == reference.path.rest@[k].0@,
        decreases reference.path.rest.len() - at,
    {
        rest.push(FrontmatterKey(reference.path.rest[at].0.clone()));
        at += 1;
    }
    let equals = match &reference.equals {
        Some(FrontmatterScalar::String(value)) => if match_case {
            Some(FrontmatterScalar::String(value.clone()))
        } else {
            Some(FrontmatterScalar::String(simple_fold(value.as_str())))
        },
        Some(other) => Some(other.copy()),
        None => None,
    };
    let identity = FrontmatterRef { path: NonEmpty { first, rest }, equals };
    assert(identity@.path =~= reference@.path);
    assert(identity@ =~= identity_of(reference@, match_case));
    identity
}

/// The position of the first rule with the given id, from `from` on.
pub open spec fn rule_with_id(rules: Seq<RuleSpec>, id: Seq<char>, from: int) -> Option<int>
    decreases rules.len() - from,
{
    if from < 0 || from >= rules.len() {
        None
    } else if rules[from].id == Some(id) {
        Some(from)
    } else {
        rule_with_id(rules, id, from + 1)
    }
}

/// A rule that was found stands where it was found.
pub proof fn rule_with_id_bounds(rules: Seq<RuleSpec>, id: Seq<char>, from: int)
    requires
        0 <= from <= rules.len(),
    ensures
        rule_with_id(rules, id, from) matches Some(at) ==> from <= at < rules.len()
            && rules[at].id == Some(id),
    decreases rules.len() - from,
{
    if from < rules.len() && rules[from].id != Some(id) {
        rule_with_id_bounds(rules, id, from + 1);
    }
}

/// Whether a rule may match more than one section.
pub open spec fn repeats(rule: RuleSpec) -> bool {
    match rule.outcome {
        RuleOutcome::Allow(cardinality) => match cardinality.max {
            UpperBound::Bounded(max) => max > 1,
            UpperBound::Unbounded => true,
        },
        RuleOutcome::Deny => true,
    }
}

/// What a rule reference leads to.
#[verifier::ext_equal]
pub struct TargetSpec {
    /// The positions of the rules on the way, from the root of the schema.
    pub path: Seq<int>,
    /// Whether a rule on the way, or the target, admits no sections.
    pub denied: bool,
    /// Whether a rule on the way may match more than one section.
    pub repeated: bool,
}

/// Where `ids` lead from `rules`.
pub open spec fn target_in(rules: Seq<RuleSpec>, ids: Seq<Seq<char>>) -> Option<TargetSpec>
    decreases ids.len(),
{
    if ids.len() == 0 {
        Some(TargetSpec { path: Seq::empty(), denied: false, repeated: false })
    } else {
        match rule_with_id(rules, ids[0], 0) {
            None => None,
            Some(at) => match target_in(rules[at].sections, ids.skip(1)) {
                None => None,
                Some(rest) => Some(
                    TargetSpec {
                        path: seq![at] + rest.path,
                        denied: rules[at].outcome is Deny || rest.denied,
                        repeated: (ids.len() > 1 && repeats(rules[at])) || rest.repeated,
                    },
                ),
            },
        }
    }
}

/// The rules of the scope at `path`, from `rules` on.
pub open spec fn rules_in(rules: Seq<RuleSpec>, path: Seq<RuleIndex>) -> Option<Seq<RuleSpec>>
    decreases path.len(),
{
    if path.len() == 0 {
        Some(rules)
    } else if path[0].0 < rules.len() {
        rules_in(rules[path[0].0 as int].sections, path.skip(1))
    } else {
        None
    }
}

/// The positions that a scope path selects.
pub open spec fn scope_positions(scope: Seq<RuleIndex>) -> Seq<int> {
    scope.map_values(|index: RuleIndex| index.0 as int)
}

/// Positions as numbers.
pub open spec fn positions(path: Seq<usize>) -> Seq<int> {
    path.map_values(|at: usize| at as int)
}

/// The rule that positions lead to.
pub open spec fn rule_at(rules: Seq<RuleSpec>, path: Seq<int>) -> Option<RuleSpec>
    decreases path.len(),
{
    if path.len() == 0 || !(0 <= path[0] < rules.len()) {
        None
    } else if path.len() == 1 {
        Some(rules[path[0]])
    } else {
        rule_at(rules[path[0]].sections, path.skip(1))
    }
}

/// The positions that ids resolve to lead to a rule with the last of the ids.
pub proof fn targets_bear_their_id(rules: Seq<RuleSpec>, ids: Seq<Seq<char>>)
    requires
        ids.len() > 0,
    ensures
        target_in(rules, ids) matches Some(target) ==> {
            &&& target.path.len() == ids.len()
            &&& rule_at(rules, target.path) matches Some(rule) && rule.id == Some(ids.last())
        },
    decreases ids.len(),
{
    rule_with_id_bounds(rules, ids[0], 0);
    if let Some(at) = rule_with_id(rules, ids[0], 0) {
        if ids.len() > 1 {
            targets_bear_their_id(rules[at].sections, ids.skip(1));
        }
        if let Some(target) = target_in(rules, ids) {
            let rest = target_in(rules[at].sections, ids.skip(1))->0;
            assert(target.path.skip(1) =~= rest.path);
        }
    }
}

/// Where a reference in the scope at `scope` leads. Both anchors start from
/// the rules that the empty scope addresses.
pub open spec fn target_of(
    root: Seq<RuleSpec>,
    scope: Seq<RuleIndex>,
    reference: RefSpec,
) -> Option<TargetSpec> {
    match reference.anchor {
        RefAnchor::SchemaRoot => target_in(root, reference.path),
        RefAnchor::CurrentScope => match rules_in(root, scope) {
            None => None,
            Some(rules) => match target_in(rules, reference.path) {
                None => None,
                Some(target) => Some(
                    TargetSpec {
                        path: scope_positions(scope) + target.path,
                        ..target
                    },
                ),
            },
        },
    }
}

/// What a rule reference leads to.
pub struct ResolvedRule {
    /// The positions of the rules on the way, from the root of the schema.
    pub structural_path: Vec<usize>,
    /// Whether a rule on the way, or the target, admits no sections.
    pub denied: bool,
    /// Whether a rule on the way may match more than one section.
    pub repeated_non_final: bool,
}

impl View for ResolvedRule {
    type V = TargetSpec;

    open spec fn view(&self) -> TargetSpec {
        TargetSpec {
            path: positions(self.structural_path@),
            denied: self.denied,
            repeated: self.repeated_non_final,
        }
    }
}

/// The rules of the scope at `scope`.
pub fn rules_at_scope<'a>(schema: &'a Schema, scope: &ScopePath) -> (rules: Option<
    &'a [SectionRule],
>)
    ensures
        ({
            let found = rules_in(
                addressed_rules(schema@.outline, schema.outline_provenance),
                scope@,
            );
            &&& rules is Some <==> found is Some
            &&& rules matches Some(rules) ==> found == Some(rule_specs(rules@))
        }),
{
    let ghost found = rules_in(addressed_rules(schema@.outline, schema.outline_provenance), scope@);
    let mut rules = schema.addressed_root_rules();
    let mut at: usize = 0;
    assert(scope@.skip(0) =~= scope@);
    while at < scope.0.len()
        invariant
            at <= scope@.len(),
            found == rules_in(
                addressed_rules(schema@.outline, schema.outline_provenance),
                scope@,
            ),
            rules_in(rule_specs(rules@), scope@.skip(at as int)) == found,
        decreases scope.0.len() - at,
    {
        let index = scope.0[at].0;
        assert(scope@.skip(at as int).skip(1) =~= scope@.skip(at + 1));
        if index >= rules.len() {
            return None;
        }
        rules = rules[index].sections.as_slice();
        at += 1;
    }
    Some(rules)
}

fn find_rule(rules: &[SectionRule], id: &str) -> (found: Option<usize>)
    ensures
        rule_with_id(rule_specs(rules@), id@, 0) == match found {
            None => None::<int>,
            Some(at) => Some(at as int),
        },
        found matches Some(at) ==> at < rules@.len(),
{
    let mut at: usize = 0;
    while at < rules.len()
        invariant
            at <= rules@.len(),
            rule_with_id(rule_specs(rules@), id@, at as int) == rule_with_id(
                rule_specs(rules@),
                id@,
                0,
            ),
        decreases rules.len() - at,
    {
        if let Some(candidate) = &rules[at].id {
            if same_text(candidate.0.as_str(), id) {
                return Some(at);
            }
        }
        at += 1;
    }
    None
}

/// Whether a rule may match more than one section.
fn may_repeat(rule: &SectionRule) -> (may: bool)
    ensures
        may == repeats(rule_spec(*rule)),
{
    match rule.outcome {
        RuleOutcome::Allow(cardinality) => match cardinality.max {
            UpperBound::Bounded(max) => max > 1,
            UpperBound::Unbounded => true,
        },
        RuleOutcome::Deny => true,
    }
}

/// Follows a reference from the scope that holds it.
pub fn resolve_ref(schema: &Schema, scope: &ScopePath, reference: &RuleRef) -> (resolved: Option<
    ResolvedRule,
>)
    ensures
        ({
            let target = target_of(
                addressed_rules(schema@.outline, schema.outline_provenance),
                scope@,
                reference@,
            );
            &&& resolved is Some <==> target is Some
            &&& resolved matches Some(resolved) ==> target == Some(resolved@)
        }),
{
    let mut structural_path: Vec<usize> = Vec::new();
    let mut rules = match reference.anchor {
        RefAnchor::SchemaRoot => schema.addressed_root_rules(),
        RefAnchor::CurrentScope => match rules_at_scope(schema, scope) {
            Some(rules) => {
                let mut at: usize = 0;
                while at < scope.0.len()
                    invariant
                        at <= scope@.len(),
                        positions(structural_path@) =~= scope_positions(scope@).take(at as int),
                    decreases scope.0.len() - at,
                {
                    let ghost before = structural_path@;
                    structural_path.push(scope.0[at].0);
                    assert(positions(structural_path@) =~= positions(before).push(
                        scope_positions(scope@)[at as int],
                    ));
                    at += 1;
                }
                rules
            },
            None => {
                return None;
            },
        },
    };
    let ghost start = positions(structural_path@);
    let ghost ids = reference@.path;
    let ghost found = target_in(rule_specs(rules@), ids);
    let ghost target = target_of(
        addressed_rules(schema@.outline, schema.outline_provenance),
        scope@,
        reference@,
    );
    assert(found is Some <==> target is Some);
    let mut denied = false;
    let mut repeated_non_final = false;
    let path = reference.path.iter();
    let mut at: usize = 0;
    assert(ids.skip(0) =~= ids);
    assert forall|k: int| 0 <= k < ids.len() implies (#[trigger] path@[k]).0@ == ids[k] by {}
    proof {
        if let Some(rest) = found {
            assert(start + rest.path =~= positions(structural_path@) + rest.path);
        }
    }
    while at < path.len()
        invariant
            at <= path@.len() == ids.len(),
            target == target_of(
                addressed_rules(schema@.outline, schema.outline_provenance),
                scope@,
                reference@,
            ),
            found is Some <==> target is Some,
            forall|k: int| 0 <= k < ids.len() ==> (#[trigger] path@[k]).0@ == ids[k],
            match target_in(rule_specs(rules@), ids.skip(at as int)) {
                None => found is None,
                Some(rest) => found is Some && start + found->0.path == positions(
                    structural_path@,
                ) + rest.path && found->0.denied == (denied || rest.denied) && found->0.repeated
                    == (repeated_non_final || rest.repeated),
            },
        decreases path.len() - at,
    {
        let ghost remaining = ids.skip(at as int);
        let ghost specs = rule_specs(rules@);
        proof {
            assert(remaining.skip(1) =~= ids.skip(at + 1));
            assert(remaining[0] == ids[at as int]);
        }
        let index = match find_rule(rules, path[at].0.as_str()) {
            Some(index) => index,
            None => {
                return None;
            },
        };
        let rule = &rules[index];
        let ghost before = positions(structural_path@);
        structural_path.push(index);
        if matches!(rule.outcome, RuleOutcome::Deny) {
            denied = true;
        }
        if at + 1 < path.len() && may_repeat(rule) {
            repeated_non_final = true;
        }
        rules = rule.sections.as_slice();
        proof {
            assert(specs[index as int] == rule_spec(*rule));
            if let Some(rest) = target_in(specs[index as int].sections, ids.skip(at + 1)) {
                assert(positions(structural_path@) + rest.path =~= before + (seq![index as int]
                    + rest.path));
            }
        }
        at += 1;
    }
    proof {
        assert(ids.skip(at as int) =~= Seq::empty());
        assert(positions(structural_path@) + Seq::<int>::empty() =~= positions(structural_path@));
    }
    let resolved = ResolvedRule { structural_path, denied, repeated_non_final };
    proof {
        assert(start + found->0.path == resolved@.path);
        if reference.anchor == RefAnchor::SchemaRoot {
            assert(start + found->0.path =~= found->0.path);
        } else {
            assert(start =~= scope_positions(scope@));
        }
        assert(resolved@ =~= target->0);
    }
    Some(resolved)
}

} // verus!
