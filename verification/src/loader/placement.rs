//! Placing constraints in the scopes that declare them.

use vstd::prelude::*;

use crate::load_result::{RuleIndex, ScopePath};
use crate::schema::{
    constraint_specs, rule_spec, rule_specs, Constraint, ConstraintSpec, OutlineProvenance,
    RuleSpec, Schema, SchemaSpec, SectionRule,
};

verus! {

/// The rules, with the constraints of the child scope at `path` replaced.
pub open spec fn placed_in_rules(
    rules: Seq<RuleSpec>,
    path: Seq<RuleIndex>,
    constraints: Seq<ConstraintSpec>,
) -> Seq<RuleSpec>
    decreases path.len(),
{
    if path.len() == 0 || path[0].0 >= rules.len() {
        rules
    } else {
        let at = path[0].0 as int;
        let rule = rules[at];
        rules.update(
            at,
            if path.len() == 1 {
                RuleSpec { constraints, ..rule }
            } else {
                RuleSpec {
                    sections: placed_in_rules(rule.sections, path.skip(1), constraints),
                    ..rule
                }
            },
        )
    }
}

/// The schema, with the constraints of the scope at `scope` replaced.
///
/// The empty scope names what the source's top level spelled: the outline
/// scope for the general form, and for the sugar forms the child scope of the
/// synthesized title rule.
pub open spec fn placed(
    schema: SchemaSpec,
    scope: Seq<RuleIndex>,
    constraints: Seq<ConstraintSpec>,
) -> SchemaSpec {
    if schema.outline_provenance == OutlineProvenance::Outline {
        if scope.len() == 0 {
            SchemaSpec { constraints, ..schema }
        } else {
            SchemaSpec {
                outline: placed_in_rules(schema.outline, scope, constraints),
                ..schema
            }
        }
    } else if schema.outline.len() == 0 {
        schema
    } else {
        let title = schema.outline[0];
        SchemaSpec {
            outline: schema.outline.update(
                0,
                if scope.len() == 0 {
                    RuleSpec { constraints, ..title }
                } else {
                    RuleSpec {
                        sections: placed_in_rules(title.sections, scope, constraints),
                        ..title
                    }
                },
            ),
            ..schema
        }
    }
}

/// The constraints of the child scope at `path`.
pub open spec fn constraints_in_rules(rules: Seq<RuleSpec>, path: Seq<RuleIndex>) -> Option<
    Seq<ConstraintSpec>,
>
    decreases path.len(),
{
    if path.len() == 0 || path[0].0 >= rules.len() {
        None
    } else if path.len() == 1 {
        Some(rules[path[0].0 as int].constraints)
    } else {
        constraints_in_rules(rules[path[0].0 as int].sections, path.skip(1))
    }
}

/// Constraints that are placed in a scope stand there, and those of every
/// other scope stay as they were.
pub proof fn placing_changes_one_scope(
    rules: Seq<RuleSpec>,
    path: Seq<RuleIndex>,
    constraints: Seq<ConstraintSpec>,
    other: Seq<RuleIndex>,
)
    ensures
        constraints_in_rules(placed_in_rules(rules, path, constraints), other) == if other == path
            && constraints_in_rules(rules, path) is Some {
            Some(constraints)
        } else {
            constraints_in_rules(rules, other)
        },
    decreases path.len(),
{
    let after = placed_in_rules(rules, path, constraints);
    if path.len() > 0 && path[0].0 < rules.len() && other.len() > 0 {
        let at = path[0].0 as int;
        if other[0] == path[0] {
            if path.len() == 1 {
                if other.len() == 1 {
                    assert(other =~= path);
                } else {
                    assert(after[at].sections == rules[at].sections);
                }
            } else {
                placing_changes_one_scope(
                    rules[at].sections,
                    path.skip(1),
                    constraints,
                    other.skip(1),
                );
                if other.skip(1) == path.skip(1) {
                    assert(other =~= path) by {
                        assert forall|k: int| 0 <= k < path.len() implies other[k] == path[k] by {
                            if k > 0 {
                                assert(other.skip(1)[k - 1] == path.skip(1)[k - 1]);
                            }
                        }
                        assert(other.len() == other.skip(1).len() + 1);
                    }
                }
            }
        }
    }
}

/// Replaces the constraints of the child scope at `path`, from `from` on.
fn place_in_rules(
    rules: &mut Vec<SectionRule>,
    path: &Vec<RuleIndex>,
    from: usize,
    constraints: Vec<Constraint>,
)
    requires
        from <= path@.len(),
    ensures
        rule_specs(final(rules)@) == placed_in_rules(
            rule_specs(old(rules)@),
            path@.skip(from as int),
            constraint_specs(constraints@),
        ),
    decreases path@.len() - from,
{
    let ghost before = rule_specs(rules@);
    let ghost rest = path@.skip(from as int);
    if from == path.len() || path[from].0 >= rules.len() {
        return;
    }
    assert(rest[0] == path@[from as int]);
    let at = path[from].0;
    let mut rule = rules.remove(at);
    let ghost earlier = rule;
    if from + 1 == path.len() {
        rule.constraints = constraints;
    } else {
        assert(rest.skip(1) =~= path@.skip(from + 1));
        let mut sections = rule.sections;
        place_in_rules(&mut sections, path, from + 1, constraints);
        rule =
        SectionRule {
            id: rule.id,
            matcher: rule.matcher,
            outcome: rule.outcome,
            strict: rule.strict,
            sections,
            constraints: rule.constraints,
        };
    }
    rules.insert(at, rule);
    assert(rule_specs(rules@) =~= before.update(at as int, rule_spec(rule)));
    assert(rule_specs(rules@) =~= placed_in_rules(before, rest, constraint_specs(constraints@)));
}

/// Replaces the constraints of the scope at `scope`.
pub fn place_constraints(schema: &mut Schema, scope: &ScopePath, constraints: Vec<Constraint>)
    ensures
        final(schema)@ == placed(old(schema)@, scope@, constraint_specs(constraints@)),
{
    let ghost before = schema@;
    assert(scope@.skip(0) =~= scope@);
    if schema.is_sugar() {
        if schema.outline.len() == 0 {
            return;
        }
        let mut title = schema.outline.remove(0);
        if scope.0.len() == 0 {
            title.constraints = constraints;
        } else {
            let mut sections = title.sections;
            place_in_rules(&mut sections, &scope.0, 0, constraints);
            title =
            SectionRule {
                id: title.id,
                matcher: title.matcher,
                outcome: title.outcome,
                strict: title.strict,
                sections,
                constraints: title.constraints,
            };
        }
        schema.outline.insert(0, title);
        assert(rule_specs(schema.outline@) =~= before.outline.update(0, rule_spec(title)));
    } else {
        if scope.0.len() == 0 {
            schema.constraints = constraints;
        } else {
            place_in_rules(&mut schema.outline, &scope.0, 0, constraints);
        }
    }
    assert(schema@ =~= placed(before, scope@, constraint_specs(constraints@)));
}

} // verus!
