//! Copies of schemas: a copy says what its original says.

use vstd::prelude::*;

use super::{
    constraint_specs, proposition_specs, ref_specs, rule_spec, rule_specs, AtLeastTwo, Constraint,
    ExactText, FrontmatterKey, FrontmatterRef, GlobPattern, Matcher, NonEmpty, Proposition,
    RegexPattern, RuleId, RuleRef, SectionRule,
};
use crate::scalar::FrontmatterScalar;

verus! {

impl Clone for RuleId {
    fn clone(&self) -> (id: Self)
        ensures
            id.0@ == self.0@,
    {
        RuleId(self.0.clone())
    }
}

impl Clone for FrontmatterKey {
    fn clone(&self) -> (key: Self)
        ensures
            key.0@ == self.0@,
    {
        FrontmatterKey(self.0.clone())
    }
}

impl Clone for FrontmatterScalar {
    fn clone(&self) -> (scalar: Self)
        ensures
            scalar@ == self@,
    {
        self.copy()
    }
}

impl Clone for Matcher {
    fn clone(&self) -> (matcher: Self)
        ensures
            matcher@ == self@,
    {
        match self {
            Matcher::Any => Matcher::Any,
            Matcher::Exact(text) => Matcher::Exact(ExactText(text.0.clone())),
            Matcher::Glob(pattern) => Matcher::Glob(GlobPattern(pattern.0.clone())),
            Matcher::Regex(pattern) => Matcher::Regex(RegexPattern(pattern.0.clone())),
        }
    }
}

impl<T: Clone> Clone for NonEmpty<T> {
    fn clone(&self) -> (list: Self)
        ensures
            list.all().len() == self.all().len(),
            forall|at: int|
                0 <= at < self.all().len() ==> cloned(self.all()[at], #[trigger] list.all()[at]),
    {
        let list = NonEmpty { first: self.first.clone(), rest: self.rest.clone() };
        assert forall|at: int| 0 <= at < self.all().len() implies cloned(
            self.all()[at],
            #[trigger] list.all()[at],
        ) by {
            if at > 0 {
                assert(cloned(self.rest@[at - 1], list.rest@[at - 1]));
            }
        }
        list
    }
}

impl<T: Clone> Clone for AtLeastTwo<T> {
    fn clone(&self) -> (list: Self)
        ensures
            list.all().len() == self.all().len(),
            forall|at: int|
                0 <= at < self.all().len() ==> cloned(self.all()[at], #[trigger] list.all()[at]),
    {
        let list = AtLeastTwo {
            first: self.first.clone(),
            second: self.second.clone(),
            rest: self.rest.clone(),
        };
        assert forall|at: int| 0 <= at < self.all().len() implies cloned(
            self.all()[at],
            #[trigger] list.all()[at],
        ) by {
            if at > 1 {
                assert(cloned(self.rest@[at - 2], list.rest@[at - 2]));
            }
        }
        list
    }
}

impl Clone for RuleRef {
    fn clone(&self) -> (reference: Self)
        ensures
            reference@ == self@,
    {
        let reference = RuleRef { anchor: self.anchor, path: self.path.clone() };
        assert forall|at: int| 0 <= at < self@.path.len() implies self@.path[at]
            == reference@.path[at] by {
            assert(cloned(self.path.all()[at], reference.path.all()[at]));
        }
        assert(reference@ =~= self@);
        reference
    }
}

impl Clone for FrontmatterRef {
    fn clone(&self) -> (reference: Self)
        ensures
            reference@ == self@,
    {
        let equals = match &self.equals {
            None => None,
            Some(scalar) => Some(scalar.copy()),
        };
        let reference = FrontmatterRef { path: self.path.clone(), equals };
        assert forall|at: int| 0 <= at < self@.path.len() implies self@.path[at]
            == reference@.path[at] by {
            assert(cloned(self.path.all()[at], reference.path.all()[at]));
        }
        assert(reference@ =~= self@);
        reference
    }
}

impl Clone for Proposition {
    fn clone(&self) -> (proposition: Self)
        ensures
            proposition@ == self@,
    {
        match self {
            Proposition::Rule(reference) => Proposition::Rule(reference.clone()),
            Proposition::Frontmatter(reference) => Proposition::Frontmatter(reference.clone()),
        }
    }
}

fn copy_list(list: &AtLeastTwo<Proposition>) -> (copied: AtLeastTwo<Proposition>)
    ensures
        proposition_specs(copied.all()) == proposition_specs(list.all()),
{
    let copied = list.clone();
    assert forall|at: int| 0 <= at < list.all().len() implies proposition_specs(copied.all())[at]
        == proposition_specs(list.all())[at] by {
        assert(cloned(list.all()[at], copied.all()[at]));
    }
    assert(proposition_specs(copied.all()) =~= proposition_specs(list.all()));
    copied
}

fn copy_others(list: &NonEmpty<Proposition>) -> (copied: NonEmpty<Proposition>)
    ensures
        proposition_specs(copied.all()) == proposition_specs(list.all()),
{
    let copied = list.clone();
    assert forall|at: int| 0 <= at < list.all().len() implies proposition_specs(copied.all())[at]
        == proposition_specs(list.all())[at] by {
        assert(cloned(list.all()[at], copied.all()[at]));
    }
    assert(proposition_specs(copied.all()) =~= proposition_specs(list.all()));
    copied
}

impl Clone for Constraint {
    fn clone(&self) -> (constraint: Self)
        ensures
            constraint@ == self@,
    {
        match self {
            Constraint::OneOf(list) => Constraint::OneOf(copy_list(list)),
            Constraint::AnyOf(list) => Constraint::AnyOf(copy_list(list)),
            Constraint::AtMostOne(list) => Constraint::AtMostOne(copy_list(list)),
            Constraint::AllOrNone(list) => Constraint::AllOrNone(copy_list(list)),
            Constraint::Requires { condition, consequences } => Constraint::Requires {
                condition: condition.clone(),
                consequences: copy_others(consequences),
            },
            Constraint::Conflicts { condition, exclusions } => Constraint::Conflicts {
                condition: condition.clone(),
                exclusions: copy_others(exclusions),
            },
            Constraint::Ordered(list) => {
                let copied = list.clone();
                assert forall|at: int| 0 <= at < list.all().len() implies ref_specs(
                    copied.all(),
                )[at] == ref_specs(list.all())[at] by {
                    assert(cloned(list.all()[at], copied.all()[at]));
                }
                assert(ref_specs(copied.all()) =~= ref_specs(list.all()));
                Constraint::Ordered(copied)
            },
        }
    }
}

fn copy_constraints(constraints: &Vec<Constraint>) -> (copied: Vec<Constraint>)
    ensures
        constraint_specs(copied@) == constraint_specs(constraints@),
{
    let copied = constraints.clone();
    assert forall|at: int| 0 <= at < constraints@.len() implies constraint_specs(copied@)[at]
        == constraint_specs(constraints@)[at] by {
        assert(cloned(constraints@[at], copied@[at]));
    }
    assert(constraint_specs(copied@) =~= constraint_specs(constraints@));
    copied
}

fn copy_rule(rule: &SectionRule) -> (copied: SectionRule)
    ensures
        rule_spec(copied) == rule_spec(*rule),
    decreases rule,
{
    let id = match &rule.id {
        None => None,
        Some(id) => Some(id.clone()),
    };
    let mut sections: Vec<SectionRule> = Vec::new();
    let mut at: usize = 0;
    while at < rule.sections.len()
        invariant
            at <= rule.sections@.len(),
            sections@.len() == at,
            forall|k: int|
                0 <= k < at ==> rule_spec(#[trigger] sections@[k]) == rule_spec(rule.sections@[k]),
        decreases rule.sections.len() - at,
    {
        sections.push(copy_rule(&rule.sections[at]));
        at += 1;
    }
    assert(rule_specs(sections@) =~= rule_specs(rule.sections@));
    let copied = SectionRule {
        id,
        matcher: rule.matcher.clone(),
        outcome: rule.outcome,
        strict: rule.strict,
        sections,
        constraints: copy_constraints(&rule.constraints),
    };
    assert(rule_spec(copied) =~= rule_spec(*rule));
    copied
}

impl Clone for SectionRule {
    fn clone(&self) -> (rule: Self)
        ensures
            rule_spec(rule) == rule_spec(*self),
    {
        copy_rule(self)
    }
}

} // verus!
