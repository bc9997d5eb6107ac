//! Constraints stand in the scopes that declare them.

use vstd::prelude::*;

use super::constraints::{constraint_read, RefContext};
use super::external::PreparedSpec;
use super::keywords::{
    constraints_are_read_as_they_are_declared, declares_constraint,
    refused_constraints_are_reported,
};
use super::load::{
    all_declared, all_placed, constraint_range, constraints_build, document_outline_build, load_of,
    outline_places, provenance_of, scope_constraints,
};
use super::loaded::{declare_rules, declares_rule, items_of, rules_follow_the_document};
use super::placement::{constraints_in_rules, placed, placing_changes_one_scope};
use super::places::PlacesSpec;
use super::rules::{
    children_are_built, children_build, declared_options, list_build, own_findings, rule_build,
    scope_build,
};
use super::shape::Members;
use super::sugar::{bare_schema, built_constraints, documents_are_built, reads_as, source_places};
use crate::json::{member, JsonSpec};
use crate::load_result::{InvalidSpec, LoadedSchema, LoadedSpec, RuleIndex, SourceSpec};
use crate::schema::{
    addressed_rules, constraint_specs, rule_spec, rule_specs, Constraint, ConstraintSpec,
    OutlineProvenance, RuleSpec, SchemaSpec, SectionRule,
};

verus! {

/// Whether values declare constraints, one by one in the same order.
pub open spec fn declare_constraints(values: Seq<JsonSpec>, constraints: Seq<Constraint>) -> bool {
    &&& values.len() == constraints.len()
    &&& forall|at: int|
        0 <= at < values.len() ==> declares_constraint(values[at], #[trigger] constraints[at])
}

/// Whether a rule has the constraints that a value declares under
/// `constraints`, and so every rule below it.
pub open spec fn has_constraints(value: JsonSpec, rule: SectionRule) -> bool
    decreases rule,
{
    value matches JsonSpec::Object(members) && {
        &&& declare_constraints(items_of(member(members, "constraints"@)), rule.constraints@)
        &&& have_constraints(items_of(member(members, "sections"@)), rule.sections@)
    }
}

/// Whether rules have the constraints that values declare, one by one.
pub open spec fn have_constraints(values: Seq<JsonSpec>, rules: Seq<SectionRule>) -> bool
    decreases rules,
{
    &&& values.len() == rules.len()
    &&& forall|at: int|
        0 <= at < rules.len() ==> has_constraints(values[at], #[trigger] rules[at])
}

proof fn scopes_are_read_in_order(
    places: PlacesSpec,
    root: Seq<RuleSpec>,
    match_case: bool,
    scope: Seq<RuleIndex>,
    values: Seq<JsonSpec>,
    count: int,
)
    requires
        0 <= count <= values.len(),
        scope_constraints(places, root, match_case, scope, values, count).errors.len() == 0,
    ensures
        ({
            let build = scope_constraints(places, root, match_case, scope, values, count);
            &&& build.constraints.len() == count
            &&& forall|at: int|
                0 <= at < count ==> ({
                    let range = constraint_range(places, scope, at);
                    let read = constraint_read(
                        RefContext { root, match_case, scope, range },
                        values[at],
                    );
                    &&& read.constraint == Some(#[trigger] build.constraints[at])
                    &&& read.errors.len() == 0
                })
        }),
    decreases count,
{
    if count > 0 {
        scopes_are_read_in_order(places, root, match_case, scope, values, count - 1);
        let range = constraint_range(places, scope, count - 1);
        refused_constraints_are_reported(
            RefContext { root, match_case, scope, range },
            values[count - 1],
        );
    }
}

proof fn read_constraints_are_declared(
    places: PlacesSpec,
    root: Seq<RuleSpec>,
    match_case: bool,
    scope: Seq<RuleIndex>,
    values: Seq<JsonSpec>,
    constraints: Seq<Constraint>,
)
    requires
        ({
            let build = scope_constraints(
                places,
                root,
                match_case,
                scope,
                values,
                values.len() as int,
            );
            &&& build.errors.len() == 0
            &&& build.constraints == constraint_specs(constraints)
        }),
    ensures
        declare_constraints(values, constraints),
{
    let count = values.len() as int;
    let build = scope_constraints(places, root, match_case, scope, values, count);
    scopes_are_read_in_order(places, root, match_case, scope, values, count);
    assert(constraint_specs(constraints).len() == constraints.len());
    assert forall|at: int| 0 <= at < values.len() implies declares_constraint(
        values[at],
        #[trigger] constraints[at],
    ) by {
        assert(build.constraints[at] == constraints[at]@);
        let range = constraint_range(places, scope, at);
        constraints_are_read_as_they_are_declared(
            RefContext { root, match_case, scope, range },
            values[at],
            constraints[at],
        );
    }
}

type Declaration = (Seq<RuleIndex>, Seq<JsonSpec>);

proof fn all_scopes_are_read(
    places: PlacesSpec,
    root: Seq<RuleSpec>,
    match_case: bool,
    declared: Seq<Declaration>,
    count: int,
)
    requires
        0 <= count <= declared.len(),
        constraints_build(places, root, match_case, declared, count).errors.len() == 0,
    ensures
        ({
            let build = constraints_build(places, root, match_case, declared, count);
            &&& build.lists.len() == count
            &&& forall|at: int|
                0 <= at < count ==> ({
                    let own = scope_constraints(
                        places,
                        root,
                        match_case,
                        declared[at].0,
                        declared[at].1,
                        declared[at].1.len() as int,
                    );
                    &&& #[trigger] build.lists[at] == (declared[at].0, own.constraints)
                    &&& own.errors.len() == 0
                })
        }),
    decreases count,
{
    if count > 0 {
        all_scopes_are_read(places, root, match_case, declared, count - 1);
    }
}

/// Whether a scope stands below another.
spec fn is_below(scope: Seq<RuleIndex>, prefix: Seq<RuleIndex>) -> bool {
    scope.len() > prefix.len() && scope.take(prefix.len() as int) == prefix
}

/// Whether declarations are of different scopes, each below one.
spec fn are_apart(declared: Seq<Declaration>, prefix: Seq<RuleIndex>) -> bool {
    &&& forall|at: int| 0 <= at < declared.len() ==> is_below(#[trigger] declared[at].0, prefix)
    &&& forall|one: int, two: int|
        0 <= one < two < declared.len() ==> #[trigger] declared[one].0 != #[trigger] declared[two].0
}

proof fn rule_scopes_are_apart(
    places: PlacesSpec,
    value: JsonSpec,
    scope: Seq<RuleIndex>,
    index: usize,
    match_case: bool,
    rule: SectionRule,
)
    requires
        declares_rule(value, rule),
    ensures
        ({
            let declared = rule_build(
                places,
                value,
                scope,
                index,
                match_case,
            ).findings.constraints;
            &&& are_apart(declared, scope)
            &&& forall|at: int|
                0 <= at < declared.len() ==> (#[trigger] declared[at]).0[scope.len() as int]
                    == RuleIndex(index)
        }),
    decreases rule, 0int,
{
    if let JsonSpec::Object(members) = value {
        let below = scope.push(RuleIndex(index));
        children_are_built(places, value, scope, index, match_case);
        let declared = rule_build(places, value, scope, index, match_case).findings.constraints;
        let own = own_findings(places, members, scope, index, match_case).constraints;
        let children = children_build(places, members, below, match_case).findings.constraints;
        assert(rule.sections.len() == rule.sections@.len());
        scopes_are_apart(
            places,
            items_of(member(members, "sections"@)),
            below,
            match_case,
            rule.sections@,
        );
        assert(declared == own + children);
        assert(below.take(scope.len() as int) =~= scope);
        assert forall|at: int| 0 <= at < declared.len() implies is_below(
            #[trigger] declared[at].0,
            scope,
        ) && declared[at].0[scope.len() as int] == RuleIndex(index) by {
            if at > 0 {
                let path = children[at - 1].0;
                assert(declared[at] == children[at - 1]);
                assert(is_below(path, below));
                assert(path.take(below.len() as int)[scope.len() as int] == RuleIndex(index));
                assert(path.take(scope.len() as int) =~= path.take(below.len() as int).take(
                    scope.len() as int,
                ));
            }
        }
        assert forall|one: int, two: int| 0 <= one < two < declared.len() implies #[trigger]
            declared[one].0 != #[trigger] declared[two].0 by {
            assert(declared[two] == children[two - 1]);
            assert(is_below(children[two - 1].0, below));
            if one > 0 {
                assert(declared[one] == children[one - 1]);
            }
        }
    }
}

proof fn list_scopes_are_apart(
    places: PlacesSpec,
    rules: Seq<JsonSpec>,
    scope: Seq<RuleIndex>,
    match_case: bool,
    built: Seq<SectionRule>,
    count: int,
)
    requires
        declare_rules(rules, built),
        built.len() <= usize::MAX,
    ensures
        ({
            let declared = list_build(
                places,
                rules,
                scope,
                match_case,
                count,
            ).findings.constraints;
            &&& are_apart(declared, scope)
            &&& forall|at: int|
                0 <= at < declared.len() ==> (#[trigger] declared[at]).0[scope.len() as int].0
                    < count
        }),
    decreases built, count,
{
    if 0 < count <= rules.len() {
        list_scopes_are_apart(places, rules, scope, match_case, built, count - 1);
        let index = (count - 1) as usize;
        rule_scopes_are_apart(
            places,
            rules[count - 1],
            scope,
            index,
            match_case,
            built[count - 1],
        );
        let declared = list_build(places, rules, scope, match_case, count).findings.constraints;
        let before = list_build(places, rules, scope, match_case, count - 1).findings.constraints;
        let last = rule_build(
            places,
            rules[count - 1],
            scope,
            index,
            match_case,
        ).findings.constraints;
        assert(declared == before + last);
        let split = before.len() as int;
        assert forall|at: int| 0 <= at < declared.len() implies is_below(
            #[trigger] declared[at].0,
            scope,
        ) && declared[at].0[scope.len() as int].0 < count by {
            if at < split {
                assert(declared[at] == before[at]);
            } else {
                assert(declared[at] == last[at - split]);
            }
        }
        assert forall|one: int, two: int| 0 <= one < two < declared.len() implies #[trigger]
            declared[one].0 != #[trigger] declared[two].0 by {
            if two < split {
                assert(declared[one] == before[one] && declared[two] == before[two]);
            } else if one < split {
                assert(declared[one] == before[one] && declared[two] == last[two - split]);
                assert(before[one].0[scope.len() as int].0 < count - 1);
                assert(last[two - split].0[scope.len() as int] == RuleIndex(index));
            } else {
                assert(declared[one] == last[one - split] && declared[two] == last[two - split]);
            }
        }
    }
}

proof fn scopes_are_apart(
    places: PlacesSpec,
    rules: Seq<JsonSpec>,
    scope: Seq<RuleIndex>,
    match_case: bool,
    built: Seq<SectionRule>,
)
    requires
        declare_rules(rules, built),
        built.len() <= usize::MAX,
    ensures
        are_apart(scope_build(places, rules, scope, match_case).findings.constraints, scope),
    decreases built, built.len() + 1,
{
    list_scopes_are_apart(places, rules, scope, match_case, built, rules.len() as int);
}

/// The constraints that a schema has at the top.
spec fn top_constraints(schema: SchemaSpec) -> Seq<ConstraintSpec> {
    if schema.outline_provenance == OutlineProvenance::Outline {
        schema.constraints
    } else {
        schema.outline[0].constraints
    }
}

spec fn root_rules(schema: SchemaSpec) -> Seq<RuleSpec> {
    addressed_rules(schema.outline, schema.outline_provenance)
}

/// Whether a scope of a schema, if it is there, has these constraints.
spec fn has_at(
    schema: SchemaSpec,
    scope: Seq<RuleIndex>,
    constraints: Seq<ConstraintSpec>,
) -> bool {
    if scope.len() == 0 {
        top_constraints(schema) == constraints
    } else {
        match constraints_in_rules(root_rules(schema), scope) {
            None => true,
            Some(own) => own == constraints,
        }
    }
}

proof fn lists_are_placed(
    schema: SchemaSpec,
    lists: Seq<(Seq<RuleIndex>, Seq<ConstraintSpec>)>,
    count: int,
    at: int,
)
    requires
        0 <= at < count <= lists.len(),
        schema.outline_provenance != OutlineProvenance::Outline ==> schema.outline.len() > 0,
        forall|one: int, two: int|
            0 <= one < two < lists.len() ==> #[trigger] lists[one].0 != #[trigger] lists[two].0,
    ensures
        has_at(all_placed(schema, lists, count), lists[at].0, lists[at].1),
    decreases count,
{
    placing_keeps_the_form(schema, lists, count - 1);
    let before = all_placed(schema, lists, count - 1);
    let (scope, constraints) = lists[count - 1];
    let other = lists[at].0;
    if at < count - 1 {
        lists_are_placed(schema, lists, count - 1, at);
        assert(other != scope);
    }
    let after = placed(before, scope, constraints);
    if scope.len() == 0 {
        assert(root_rules(after) == root_rules(before));
        if other.len() == 0 {
            assert(other =~= scope);
        }
    } else {
        placing_changes_one_scope(root_rules(before), scope, constraints, other);
        assert(top_constraints(after) == top_constraints(before));
    }
}

proof fn placing_keeps_the_form(
    schema: SchemaSpec,
    lists: Seq<(Seq<RuleIndex>, Seq<ConstraintSpec>)>,
    count: int,
)
    ensures
        ({
            let after = all_placed(schema, lists, count);
            &&& after.outline_provenance == schema.outline_provenance
            &&& after.outline.len() == schema.outline.len()
        }),
    decreases count,
{
    if 0 < count <= lists.len() {
        placing_keeps_the_form(schema, lists, count - 1);
    }
}

/// Whether rules have the constraints of every declaration below a scope.
spec fn have_at(
    rules: Seq<RuleSpec>,
    prefix: Seq<RuleIndex>,
    lists: Seq<(Seq<RuleIndex>, Seq<ConstraintSpec>)>,
) -> bool {
    forall|at: int|
        0 <= at < lists.len() && is_below(#[trigger] lists[at].0, prefix) ==> match constraints_in_rules(
            rules,
            lists[at].0.skip(prefix.len() as int),
        ) {
            None => true,
            Some(own) => own == lists[at].1,
        }
}

/// Whether declarations are among others.
spec fn are_among(some: Seq<Declaration>, all: Seq<Declaration>) -> bool {
    forall|at: int| 0 <= at < some.len() ==> all.contains(#[trigger] some[at])
}

proof fn rules_are_among_their_list(
    places: PlacesSpec,
    rules: Seq<JsonSpec>,
    scope: Seq<RuleIndex>,
    match_case: bool,
    count: int,
    at: int,
)
    requires
        0 <= at < count <= rules.len(),
    ensures
        are_among(
            rule_build(places, rules[at], scope, at as usize, match_case).findings.constraints,
            list_build(places, rules, scope, match_case, count).findings.constraints,
        ),
    decreases count,
{
    let all = list_build(places, rules, scope, match_case, count).findings.constraints;
    let before = list_build(places, rules, scope, match_case, count - 1).findings.constraints;
    let last = rule_build(
        places,
        rules[count - 1],
        scope,
        (count - 1) as usize,
        match_case,
    ).findings.constraints;
    assert(all == before + last);
    let some = rule_build(places, rules[at], scope, at as usize, match_case).findings.constraints;
    if at < count - 1 {
        rules_are_among_their_list(places, rules, scope, match_case, count - 1, at);
    }
    assert forall|k: int| 0 <= k < some.len() implies all.contains(#[trigger] some[k]) by {
        if at < count - 1 {
            let j = choose|j: int| 0 <= j < before.len() && before[j] == some[k];
            assert(all[j] == some[k]);
        } else {
            assert(all[before.len() + k] == some[k]);
        }
    }
}

/// What the constraints of a schema are read against.
struct Reading {
    places: PlacesSpec,
    root: Seq<RuleSpec>,
    match_case: bool,
    declared: Seq<Declaration>,
}

spec fn lists_of(reading: Reading) -> Seq<(Seq<RuleIndex>, Seq<ConstraintSpec>)> {
    constraints_build(
        reading.places,
        reading.root,
        reading.match_case,
        reading.declared,
        reading.declared.len() as int,
    ).lists
}

spec fn reads_without_errors(reading: Reading) -> bool {
    constraints_build(
        reading.places,
        reading.root,
        reading.match_case,
        reading.declared,
        reading.declared.len() as int,
    ).errors.len() == 0
}

#[verifier::rlimit(40)]
proof fn rule_has_its_constraints(
    reading: Reading,
    value: JsonSpec,
    scope: Seq<RuleIndex>,
    index: usize,
    rule: SectionRule,
    rules: Seq<SectionRule>,
)
    requires
        reads_without_errors(reading),
        index < rules.len(),
        rules[index as int] == rule,
        declares_rule(value, rule),
        have_at(rule_specs(rules), scope, lists_of(reading)),
        are_among(
            rule_build(
                reading.places,
                value,
                scope,
                index,
                reading.match_case,
            ).findings.constraints,
            reading.declared,
        ),
    ensures
        has_constraints(value, rule),
    decreases rule, 0int,
{
    let members = value->Object_0;
    let below = scope.push(RuleIndex(index));
    let values = items_of(member(members, "constraints"@));
    let lists = lists_of(reading);
    let declared = reading.declared;
    all_scopes_are_read(
        reading.places,
        reading.root,
        reading.match_case,
        declared,
        declared.len() as int,
    );
    children_are_built(reading.places, value, scope, index, reading.match_case);
    let own = own_findings(
        reading.places,
        members,
        scope,
        index,
        reading.match_case,
    ).constraints;
    let children = children_build(
        reading.places,
        members,
        below,
        reading.match_case,
    ).findings.constraints;
    let found = rule_build(
        reading.places,
        value,
        scope,
        index,
        reading.match_case,
    ).findings.constraints;
    assert(found == own + children);
    assert(found[0] == (below, values));
    let at = choose|at: int| 0 <= at < declared.len() && declared[at] == found[0];
    assert(lists[at].0 == below);
    assert(below.take(scope.len() as int) =~= scope);
    assert(is_below(lists[at].0, scope));
    assert(below.skip(scope.len() as int) =~= seq![RuleIndex(index)]);
    assert(rule_specs(rules)[index as int] == rule_spec(rule));
    assert(constraints_in_rules(rule_specs(rules), seq![RuleIndex(index)]) == Some(
        constraint_specs(rule.constraints@),
    ));
    read_constraints_are_declared(
        reading.places,
        reading.root,
        reading.match_case,
        below,
        values,
        rule.constraints@,
    );
    let sections = rule_specs(rule.sections@);
    assert(have_at(sections, below, lists)) by {
        assert forall|k: int|
            0 <= k < lists.len() && is_below(#[trigger] lists[k].0, below) implies match constraints_in_rules(
            sections,
            lists[k].0.skip(below.len() as int),
        ) {
            None => true,
            Some(own) => own == lists[k].1,
        } by {
            let path = lists[k].0;
            let rest = path.skip(scope.len() as int);
            assert(path.take(scope.len() as int) =~= path.take(below.len() as int).take(
                scope.len() as int,
            ));
            assert(is_below(path, scope));
            assert(path.take(below.len() as int)[scope.len() as int] == RuleIndex(index));
            assert(rest[0] == RuleIndex(index));
            assert(rest.skip(1) =~= path.skip(below.len() as int));
        }
    }
    assert(are_among(children, declared)) by {
        assert forall|k: int| 0 <= k < children.len() implies declared.contains(
            #[trigger] children[k],
        ) by {
            assert(found[k + 1] == children[k]);
        }
    }
    assert(rule.sections.len() == rule.sections@.len());
    rules_have_their_constraints(
        reading,
        items_of(member(members, "sections"@)),
        below,
        rule.sections@,
    );
}

proof fn rules_have_their_constraints(
    reading: Reading,
    values: Seq<JsonSpec>,
    scope: Seq<RuleIndex>,
    rules: Seq<SectionRule>,
)
    requires
        reads_without_errors(reading),
        declare_rules(values, rules),
        rules.len() <= usize::MAX,
        have_at(rule_specs(rules), scope, lists_of(reading)),
        are_among(
            scope_build(
                reading.places,
                values,
                scope,
                reading.match_case,
            ).findings.constraints,
            reading.declared,
        ),
    ensures
        have_constraints(values, rules),
    decreases rules, 0int,
{
    assert forall|at: int| 0 <= at < rules.len() implies has_constraints(
        values[at],
        #[trigger] rules[at],
    ) by {
        let count = values.len() as int;
        rules_are_among_their_list(
            reading.places,
            values,
            scope,
            reading.match_case,
            count,
            at,
        );
        let some = rule_build(
            reading.places,
            values[at],
            scope,
            at as usize,
            reading.match_case,
        ).findings.constraints;
        let all = list_build(
            reading.places,
            values,
            scope,
            reading.match_case,
            count,
        ).findings.constraints;
        assert forall|k: int| 0 <= k < some.len() implies reading.declared.contains(
            #[trigger] some[k],
        ) by {
            let j = choose|j: int| 0 <= j < all.len() && all[j] == some[k];
            assert(reading.declared.contains(all[j]));
        }
        rule_has_its_constraints(reading, values[at], scope, at as usize, rules[at], rules);
    }
}

proof fn declared_scopes_differ(reading: Reading, found: Seq<Declaration>, top: Seq<JsonSpec>)
    requires
        reads_without_errors(reading),
        reading.declared == seq![(Seq::<RuleIndex>::empty(), top)] + found,
        are_apart(found, Seq::empty()),
    ensures
        ({
            let lists = lists_of(reading);
            &&& lists.len() == reading.declared.len()
            &&& forall|one: int, two: int|
                0 <= one < two < lists.len() ==> #[trigger] lists[one].0 != #[trigger] lists[two].0
        }),
{
    let lists = lists_of(reading);
    let declared = reading.declared;
    let count = declared.len() as int;
    all_scopes_are_read(reading.places, reading.root, reading.match_case, declared, count);
    assert forall|one: int, two: int| 0 <= one < two < lists.len() implies #[trigger] lists[one].0
        != #[trigger] lists[two].0 by {
        assert(declared[two] == found[two - 1]);
        assert(is_below(found[two - 1].0, Seq::empty()));
        if one > 0 {
            assert(declared[one] == found[one - 1]);
        }
    }
}

proof fn schemas_have_their_constraints(
    reading: Reading,
    bare: SchemaSpec,
    schema: SchemaSpec,
    values: Seq<JsonSpec>,
    top: Seq<JsonSpec>,
    rules: Seq<SectionRule>,
    own: Seq<Constraint>,
)
    requires
        reads_without_errors(reading),
        reading.declared == seq![(Seq::<RuleIndex>::empty(), top)] + scope_build(
            reading.places,
            values,
            Seq::empty(),
            reading.match_case,
        ).findings.constraints,
        declare_rules(values, rules),
        rules.len() <= usize::MAX,
        bare.outline_provenance != OutlineProvenance::Outline ==> bare.outline.len() > 0,
        schema == all_placed(bare, lists_of(reading), lists_of(reading).len() as int),
        root_rules(schema) == rule_specs(rules),
        top_constraints(schema) == constraint_specs(own),
    ensures
        declare_constraints(top, own),
        have_constraints(values, rules),
{
    let empty = Seq::<RuleIndex>::empty();
    let lists = lists_of(reading);
    let declared = reading.declared;
    let count = declared.len() as int;
    let found = scope_build(
        reading.places,
        values,
        empty,
        reading.match_case,
    ).findings.constraints;
    scopes_are_apart(reading.places, values, empty, reading.match_case, rules);
    declared_scopes_differ(reading, found, top);
    assert(have_at(rule_specs(rules), empty, lists)) by {
        assert forall|at: int|
            0 <= at < lists.len() && is_below(#[trigger] lists[at].0, empty) implies match constraints_in_rules(
            rule_specs(rules),
            lists[at].0.skip(empty.len() as int),
        ) {
            None => true,
            Some(own) => own == lists[at].1,
        } by {
            lists_are_placed(bare, lists, count, at);
            assert(lists[at].0.skip(0) =~= lists[at].0);
        }
    }
    assert(are_among(found, declared)) by {
        assert forall|k: int| 0 <= k < found.len() implies declared.contains(
            #[trigger] found[k],
        ) by {
            assert(declared[k + 1] == found[k]);
        }
    }
    rules_have_their_constraints(reading, values, empty, rules);
    assert(declared[0] == (empty, top));
    all_scopes_are_read(reading.places, reading.root, reading.match_case, declared, count);
    lists_are_placed(bare, lists, count, 0);
    assert(lists[0].0 == empty);
    read_constraints_are_declared(
        reading.places,
        reading.root,
        reading.match_case,
        empty,
        top,
        own,
    );
}

/// Every scope of a loaded schema has the constraints that the document
/// declares in it, in their order: at the top those of the document, which
/// stand in the schema for an `outline` and in the title's rule otherwise, and
/// in every rule those of the value that declares the rule.
pub proof fn constraints_follow_the_document(
    source: Seq<char>,
    sources: Seq<SourceSpec>,
    prepared: Option<PreparedSpec>,
    members: Members,
    loaded: LoadedSchema,
)
    requires
        reads_as(source, members),
        load_of(source, sources, prepared) == Ok::<LoadedSpec, InvalidSpec>(loaded@),
    ensures
        ({
            let schema = loaded.schema;
            let top = items_of(member(members, "constraints"@));
            if member(members, "outline"@) is Some {
                &&& declare_constraints(top, schema.constraints@)
                &&& have_constraints(items_of(member(members, "outline"@)), schema.outline@)
            } else {
                &&& declare_constraints(top, schema.outline@[0].constraints@)
                &&& have_constraints(
                    items_of(member(members, "sections"@)),
                    schema.outline@[0].sections@,
                )
            }
        }),
{
    rules_follow_the_document(source, sources, prepared, members, loaded);
    let plain = source_places(source);
    documents_are_built(plain, members, sources, prepared);
    let match_case = declared_options(members).match_case;
    let outline = document_outline_build(plain, members, match_case);
    let reading = Reading {
        places: outline_places(plain, members),
        root: addressed_rules(outline.rules->0, provenance_of(members)),
        match_case,
        declared: all_declared(members, outline),
    };
    assert(lists_of(reading) == built_constraints(plain, members).lists);
    let bare = bare_schema(plain, members, sources, prepared);
    let top = items_of(member(members, "constraints"@));
    let schema = loaded.schema;
    let empty = Seq::<RuleIndex>::empty();
    assert(schema.outline.len() == schema.outline@.len());
    if member(members, "outline"@) is Some {
        let values = items_of(member(members, "outline"@));
        assert(reading.declared == seq![(empty, top)] + scope_build(
            reading.places,
            values,
            empty,
            match_case,
        ).findings.constraints);
        schemas_have_their_constraints(
            reading,
            bare,
            schema@,
            values,
            top,
            schema.outline@,
            schema.constraints@,
        );
    } else {
        let rule = schema.outline@[0];
        let values = items_of(member(members, "sections"@));
        assert(rule.sections.len() == rule.sections@.len());
        assert(reading.places == plain);
        assert(outline.findings.constraints =~= scope_build(
            plain,
            values,
            empty,
            match_case,
        ).findings.constraints);
        assert(rule_specs(schema.outline@)[0] == rule_spec(rule));
        schemas_have_their_constraints(
            reading,
            bare,
            schema@,
            values,
            top,
            rule.sections@,
            rule.constraints@,
        );
    }
}

} // verus!
