//! Where the constraints of a named schema come from.

use vstd::prelude::*;

use super::binding::BinderSpec;
use super::constraints::{named_constraint_read, NamedConstraint};
use super::document::{
    at_constraint, is_numbered, named_constraint_specs, named_constraints_build, named_list_specs,
    named_load_of, named_scope_constraints, numbered_members, root_build, shape_build, NamedLoad,
    NamedLoadSpec, Readings,
};
use super::exports::query_fault_specs;
use super::frontmatter::{capturing_build_of, policy_exports, DeclaredSchemaSpec, RawFrontmatter};
use super::keywords::{declares_named_constraint, named_constraints_are_read_as_they_are_declared};
use super::model::ScopeMode;
use super::names::DeclarationSpec;
use super::rules::{
    analysis_specs, capture_declarations, child_build, found, mode_of, named_build,
    named_build_is, named_captures, named_list_build, BuilderSpec,
};
use crate::json::{member, member_index, member_index_bounds, JsonSpec};
use crate::load_result::{ErrorSpec, RuleIndex, SourceSpec};
use crate::loader::load::outline_places;
use crate::loader::loaded::items_of;
use crate::loader::places::PlacesSpec;
use crate::loader::rules::declared_options;
use crate::loader::shape::Members;

verus! {

/// Whether the rule at a position among values and the `sections` below them
/// has members.
pub open spec fn is_declared_at(
    values: Seq<JsonSpec>,
    path: Seq<RuleIndex>,
    members: Members,
) -> bool
    decreases path.len(),
{
    &&& path.len() > 0
    &&& path[0].0 < values.len()
    &&& (values[path[0].0 as int] matches JsonSpec::Object(here) && if path.len() == 1 {
        here == members
    } else {
        member(here, "sections"@) matches Some(JsonSpec::Array(below)) && is_declared_at(
            below,
            path.skip(1),
            members,
        )
    })
}

/// Whether values are the constraints that a rule among `rules`, which stand
/// in a scope, declares of the scope below it.
pub open spec fn are_declared_below(
    rules: Seq<JsonSpec>,
    scope: Seq<RuleIndex>,
    entry: (Seq<RuleIndex>, Seq<JsonSpec>),
) -> bool {
    &&& scope.is_prefix_of(entry.0)
    &&& exists|members: Members| #[trigger]
        is_declared_at(rules, entry.0.skip(scope.len() as int), members) && entry.1 == items_of(
            member(members, "constraints"@),
        )
}

proof fn lists_are_numbered(members: Members, name: Seq<char>)
    requires
        is_numbered(JsonSpec::Object(members)),
    ensures
        is_numbered(JsonSpec::Array(items_of(member(members, name)))),
{
    member_index_bounds(members, name, 0);
    if let Some(at) = member_index(members, name, 0) {
        numbered_members(members, at);
    }
}

proof fn child_constraints_are(
    builder: BuilderSpec,
    members: Members,
    scope: Seq<RuleIndex>,
    given: Seq<DeclarationSpec>,
)
    ensures
        ({
            let found = child_build(builder, members, scope, given).findings.constraints;
            match member(members, "sections"@) {
                Some(JsonSpec::Array(rules)) => found == seq![
                    (scope, items_of(member(members, "constraints"@))),
                ] + named_list_build(
                    builder,
                    rules,
                    scope,
                    mode_of(members),
                    given,
                    rules.len() as int,
                ).findings.constraints,
                _ => found.len() == 0,
            }
        }),
{
    let found = child_build(builder, members, scope, given).findings.constraints;
    if let Some(JsonSpec::Array(rules)) = member(members, "sections"@) {
        let list = named_list_build(
            builder,
            rules,
            scope,
            mode_of(members),
            given,
            rules.len() as int,
        );
        assert(found =~= seq![(scope, items_of(member(members, "constraints"@)))]
            + list.findings.constraints);
    }
}

proof fn rules_constrain_what_is_below_them(
    builder: BuilderSpec,
    rules: Seq<JsonSpec>,
    scope: Seq<RuleIndex>,
    mode: ScopeMode,
    given: Seq<DeclarationSpec>,
    count: int,
    at: int,
)
    requires
        is_numbered(JsonSpec::Array(rules)),
        0 <= count <= rules.len(),
        0 <= at < named_list_build(
            builder,
            rules,
            scope,
            mode,
            given,
            count,
        ).findings.constraints.len(),
    ensures
        are_declared_below(
            rules,
            scope,
            named_list_build(builder, rules, scope, mode, given, count).findings.constraints[at],
        ),
    decreases rules, count,
{
    if count > 0 {
        let before = named_list_build(builder, rules, scope, mode, given, count - 1);
        let unreachable = mode == ScopeMode::Unordered && before.wildcard;
        if at < before.findings.constraints.len() {
            rules_constrain_what_is_below_them(builder, rules, scope, mode, given, count - 1, at);
        } else {
            rule_constrains_what_is_below_it(
                builder,
                rules,
                count - 1,
                scope,
                unreachable,
                at - before.findings.constraints.len(),
            );
        }
    }
}

proof fn rule_constrains_what_is_below_it(
    builder: BuilderSpec,
    rules: Seq<JsonSpec>,
    index: int,
    scope: Seq<RuleIndex>,
    unreachable: bool,
    at: int,
)
    requires
        is_numbered(JsonSpec::Array(rules)),
        0 <= index < rules.len(),
        0 <= at < named_build(
            builder,
            rules[index],
            scope,
            index as usize,
            unreachable,
        ).findings.constraints.len(),
    ensures
        are_declared_below(
            rules,
            scope,
            named_build(
                builder,
                rules[index],
                scope,
                index as usize,
                unreachable,
            ).findings.constraints[at],
        ),
    decreases rules, index,
{
    let place = RuleIndex(index as usize);
    let child = scope.push(place);
    assert(is_numbered(rules[index]));
    if let JsonSpec::Object(members) = rules[index] {
        let rule = (scope, place);
        let given = capture_declarations(
            builder.places,
            rule,
            named_captures(builder, rule, members).captures,
        );
        named_build_is(builder, members, scope, index as usize, unreachable);
        child_constraints_are(builder, members, child, given);
        let all = named_build(
            builder,
            rules[index],
            scope,
            index as usize,
            unreachable,
        ).findings.constraints;
        let own = child_build(builder, members, child, given).findings.constraints;
        assert(all =~= own);
        let below = member(members, "sections"@)->0->Array_0;
        assert(child.subrange(0, scope.len() as int) =~= scope);
        assert(child.skip(scope.len() as int) =~= seq![place]);
        assert(is_declared_at(rules, seq![place], members));
        if at == 0 {
            assert(all[0] == (child, items_of(member(members, "constraints"@))));
            assert(is_declared_at(rules, child.skip(scope.len() as int), members));
            assert(are_declared_below(rules, scope, all[at]));
        } else {
            lists_are_numbered(members, "sections"@);
            rules_constrain_what_is_below_them(
                builder,
                below,
                child,
                mode_of(members),
                given,
                below.len() as int,
                at - 1,
            );
            let list = named_list_build(
                builder,
                below,
                child,
                mode_of(members),
                given,
                below.len() as int,
            );
            assert(all[at] == list.findings.constraints[at - 1]);
            inner_rules_stand_below(rules, place, members, below, scope, all[at]);
        }
    }
}

proof fn inner_rules_stand_below(
    rules: Seq<JsonSpec>,
    place: RuleIndex,
    members: Members,
    below: Seq<JsonSpec>,
    scope: Seq<RuleIndex>,
    entry: (Seq<RuleIndex>, Seq<JsonSpec>),
)
    requires
        place.0 < rules.len(),
        rules[place.0 as int] == JsonSpec::Object(members),
        member(members, "sections"@) == Some(JsonSpec::Array(below)),
        are_declared_below(below, scope.push(place), entry),
    ensures
        are_declared_below(rules, scope, entry),
{
    let child = scope.push(place);
    let depth = scope.len() as int;
    let path = entry.0;
    assert(path.subrange(0, child.len() as int) == child);
    assert forall|at: int| 0 <= at < child.len() implies child[at] == path[at] by {
        assert(child[at] == path.subrange(0, child.len() as int)[at]);
    }
    assert(scope =~= path.subrange(0, depth)) by {
        assert forall|at: int| 0 <= at < depth implies scope[at] == path[at] by {
            assert(child[at] == path[at]);
        }
    }
    let found = choose|found: Members| #[trigger]
        is_declared_at(below, path.skip(child.len() as int), found) && entry.1 == items_of(
            member(found, "constraints"@),
        );
    assert(path.skip(depth).skip(1) =~= path.skip(child.len() as int));
    assert(path.skip(depth)[0] == place) by {
        assert(child[depth] == path[depth]);
    }
    assert(is_declared_at(rules, path.skip(depth), found));
}

/// The rules of a document, in either spelling.
pub open spec fn rules_of(members: Members) -> Seq<JsonSpec> {
    if member(members, "outline"@) is Some {
        items_of(member(members, "outline"@))
    } else {
        items_of(member(members, "sections"@))
    }
}

/// Whether values are the constraints that a document declares of a scope.
pub open spec fn are_declared(
    members: Members,
    scope: Seq<RuleIndex>,
    values: Seq<JsonSpec>,
) -> bool {
    if scope.len() == 0 {
        values == items_of(member(members, "constraints"@))
    } else {
        are_declared_below(rules_of(members), Seq::empty(), (scope, values))
    }
}

proof fn found_constraints_are_declared(builder: BuilderSpec, members: Members, at: int)
    requires
        is_numbered(JsonSpec::Object(members)),
        0 <= at < root_build(builder, members).findings.constraints.len(),
    ensures
        are_declared(
            members,
            root_build(builder, members).findings.constraints[at].0,
            root_build(builder, members).findings.constraints[at].1,
        ),
        root_build(builder, members).findings.constraints[0].0.len() == 0,
{
    let none = Seq::<RuleIndex>::empty();
    let given = Seq::<DeclarationSpec>::empty();
    lists_are_numbered(members, "outline"@);
    lists_are_numbered(members, "sections"@);
    let rules = rules_of(members);
    let all = root_build(builder, members).findings.constraints;
    let list = named_list_build(
        builder,
        rules,
        none,
        mode_of(members),
        given,
        rules.len() as int,
    );
    if member(members, "outline"@) is None {
        child_constraints_are(builder, members, none, given);
    }
    assert(all =~= seq![(none, items_of(member(members, "constraints"@)))]
        + list.findings.constraints);
    if at > 0 {
        rules_constrain_what_is_below_them(
            builder,
            rules,
            none,
            mode_of(members),
            given,
            rules.len() as int,
            at - 1,
        );
        let entry = all[at];
        assert(entry.0.skip(0) =~= entry.0);
    }
}

proof fn constraints_are_read_in_order(
    base: BinderSpec,
    places: PlacesSpec,
    scope: Seq<RuleIndex>,
    values: Seq<JsonSpec>,
    count: int,
)
    requires
        0 <= count <= values.len(),
    ensures
        ({
            let own = named_scope_constraints(base, places, scope, values, count).constraints;
            &&& own.len() <= count
            &&& own.len() == count ==> forall|at: int|
                0 <= at < count ==> named_constraint_read(
                    at_constraint(base, places, scope, at),
                    values[at],
                ).constraint == Some(#[trigger] own[at])
        }),
    decreases count,
{
    if count > 0 {
        constraints_are_read_in_order(base, places, scope, values, count - 1);
    }
}

proof fn lists_are_read_in_order(
    base: BinderSpec,
    places: PlacesSpec,
    declared: Seq<(Seq<RuleIndex>, Seq<JsonSpec>)>,
    count: int,
)
    requires
        0 <= count <= declared.len(),
    ensures
        ({
            let lists = named_constraints_build(base, places, declared, count).lists;
            &&& lists.len() == count
            &&& forall|at: int|
                0 <= at < count ==> (#[trigger] lists[at]).0 == declared[at].0 && lists[at].1
                    == named_scope_constraints(
                    base,
                    places,
                    declared[at].0,
                    declared[at].1,
                    declared[at].1.len() as int,
                ).constraints
        }),
    decreases count,
{
    if count > 0 {
        lists_are_read_in_order(base, places, declared, count - 1);
    }
}

/// Whether constraints are no more than values declare in a scope and, where
/// they are as many, what the values declare one by one in the same order.
pub open spec fn declare_constraints(
    scope: Seq<RuleIndex>,
    match_case: bool,
    values: Seq<JsonSpec>,
    constraints: Seq<NamedConstraint>,
) -> bool {
    &&& constraints.len() <= values.len()
    &&& values.len() == constraints.len() ==> forall|at: int|
        0 <= at < values.len() ==> is_declared_in(
            scope,
            match_case,
            values[at],
            #[trigger] constraints[at],
        )
}

/// Whether a constraint is what a value declares in a scope.
pub open spec fn is_declared_in(
    scope: Seq<RuleIndex>,
    match_case: bool,
    value: JsonSpec,
    constraint: NamedConstraint,
) -> bool {
    exists|binder: BinderSpec|
        binder.scope == scope && binder.match_case == match_case
            && #[trigger] declares_named_constraint(binder, value, constraint)
}

/// The constraints of a named schema are listed by scope, those of the document
/// itself first: of a scope no more are listed than the document declares of
/// it, and where they are as many they are what it declares, in its order.
pub proof fn named_constraints_follow_the_document(
    places: PlacesSpec,
    readings: Readings,
    members: Members,
    raw: Option<RawFrontmatter>,
    settled: Option<DeclaredSchemaSpec>,
    sources: Seq<SourceSpec>,
    load: NamedLoad,
    at: int,
)
    requires
        is_numbered(JsonSpec::Object(members)),
        named_load_of(places, readings, members, raw, settled, sources) == Ok::<
            NamedLoadSpec,
            Seq<ErrorSpec>,
        >(load@),
        0 <= at < load.constraints@.len(),
    ensures
        load.constraints@[0].0@.len() == 0,
        exists|values: Seq<JsonSpec>| #[trigger]
            are_declared(members, load.constraints@[at].0@, values) && declare_constraints(
                load.constraints@[at].0@,
                load.schema.options.match_case,
                values,
                load.constraints@[at].1@,
            ),
{
    let inner = outline_places(places, members);
    let frontmatter = capturing_build_of(
        inner,
        raw,
        member(members, "frontmatter"@) is Some,
        settled,
        sources,
        query_fault_specs(readings.queries@),
    );
    let builder = BuilderSpec {
        places: inner,
        match_case: declared_options(members).match_case,
        analyses: analysis_specs(readings.analyses@),
    };
    let earlier = found(frontmatter.errors, frontmatter.nodes);
    let shape = shape_build(builder, members);
    let findings = earlier.plus(shape.findings);
    let declared = findings.constraints;
    assert(declared =~= root_build(builder, members).findings.constraints);
    let base = BinderSpec {
        shape: shape.shape->0,
        match_case: builder.match_case,
        captures: policy_exports(frontmatter.policy->0),
        names: findings.names,
        locators: readings.locators@,
        scope: Seq::empty(),
        range: inner.document,
    };
    lists_are_read_in_order(base, inner, declared, declared.len() as int);
    let lists = named_constraints_build(base, inner, declared, declared.len() as int).lists;
    assert(named_list_specs(load.constraints@) == lists);
    assert(named_list_specs(load.constraints@).len() == load.constraints@.len());
    assert(named_list_specs(load.constraints@)[at] == lists[at]);
    assert(named_list_specs(load.constraints@)[0] == lists[0]);
    found_constraints_are_declared(builder, members, at);
    let (scope, list) = load.constraints@[at];
    let values = declared[at].1;
    constraints_are_read_in_order(base, inner, scope@, values, values.len() as int);
    let specs = named_constraint_specs(list@);
    assert(specs == lists[at].1);
    assert(specs.len() == list@.len());
    if values.len() == list@.len() {
        assert forall|index: int| 0 <= index < values.len() implies is_declared_in(
            scope@,
            load.schema.options.match_case,
            values[index],
            #[trigger] list@[index],
        ) by {
            let binder = at_constraint(base, inner, scope@, index);
            assert(specs[index] == list@[index]@);
            named_constraints_are_read_as_they_are_declared(binder, values[index], list@[index]);
            assert(declares_named_constraint(binder, values[index], list@[index]));
        }
    }
    assert(are_declared(members, scope@, values));
}

} // verus!
