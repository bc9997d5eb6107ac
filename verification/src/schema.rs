//! The normalized schema that a schema document describes.

pub mod copies;

use vstd::prelude::*;

use crate::json::{Json, JsonSpec};
use crate::scalar::{FrontmatterScalar, ScalarSpec};

verus! {

/// A list of at least one value.
#[derive(Debug, PartialEq, Eq, Hash)]
pub struct NonEmpty<T> {
    /// The first value.
    pub first: T,
    /// The values after the first.
    pub rest: Vec<T>,
}

impl<T> NonEmpty<T> {
    /// All values in order.
    pub open spec fn all(self) -> Seq<T> {
        seq![self.first] + self.rest@
    }

    /// References to all values in order.
    pub fn iter(&self) -> (values: Vec<&T>)
        ensures
            values@.len() == self.all().len(),
            forall|at: int| 0 <= at < values@.len() ==> *(#[trigger] values@[at]) == self.all()[at],
    {
        let mut values: Vec<&T> = Vec::new();
        values.push(&self.first);
        let mut at: usize = 0;
        while at < self.rest.len()
            invariant
                at <= self.rest@.len(),
                values@.len() == at + 1,
                forall|k: int| 0 <= k <= at ==> *(#[trigger] values@[k]) == self.all()[k],
            decreases self.rest.len() - at,
        {
            values.push(&self.rest[at]);
            at += 1;
        }
        values
    }

    /// The list of `values`, if there are any.
    pub fn from_vec(values: Vec<T>) -> (list: Option<Self>)
        ensures
            list is Some <==> values@.len() > 0,
            list matches Some(list) ==> list.all() == values@,
    {
        let mut values = values;
        if values.len() == 0 {
            return None;
        }
        let ghost before = values@;
        let first = values.remove(0);
        let list = NonEmpty { first, rest: values };
        assert(list.all() =~= before);
        Some(list)
    }
}

/// A list of at least two values.
#[derive(Debug, PartialEq, Eq, Hash)]
pub struct AtLeastTwo<T> {
    /// The first value.
    pub first: T,
    /// The second value.
    pub second: T,
    /// The values after the second.
    pub rest: Vec<T>,
}

impl<T> AtLeastTwo<T> {
    /// All values in order.
    pub open spec fn all(self) -> Seq<T> {
        seq![self.first, self.second] + self.rest@
    }

    /// The list of `values`, if there are at least two.
    pub fn from_vec(values: Vec<T>) -> (list: Option<Self>)
        ensures
            list is Some <==> values@.len() >= 2,
            list matches Some(list) ==> list.all() == values@,
    {
        let mut values = values;
        if values.len() < 2 {
            return None;
        }
        let ghost before = values@;
        let first = values.remove(0);
        let second = values.remove(0);
        let list = AtLeastTwo { first, second, rest: values };
        assert(list.all() =~= before);
        Some(list)
    }
}

/// The version of a schema document.
#[derive(Debug, Clone, Copy, PartialEq, Eq, Hash, Structural)]
pub enum SchemaVersion {
    /// `version: 1`
    V1,
}

/// The options of a schema.
#[derive(Debug, Clone, Copy, PartialEq, Eq, Hash, Structural)]
pub struct Options {
    /// Whether matching distinguishes upper and lower case.
    pub match_case: bool,
    /// Whether matching sees headings without their inline markup.
    pub strip_inline_markup: bool,
    /// Whether a heading may be more than one level below its parent.
    pub allow_skipped_levels: bool,
}

/// The identifier of a rule, unique among its siblings.
#[derive(Debug, PartialEq, Eq, PartialOrd, Ord, Hash)]
pub struct RuleId(pub String);

/// A text that a heading must equal.
#[derive(Clone, Debug, PartialEq, Eq, Hash)]
pub struct ExactText(pub String);

/// A pattern in which `*` stands for any text.
#[derive(Clone, Debug, PartialEq, Eq, Hash)]
pub struct GlobPattern(pub String);

/// A regular expression that a heading must match as a whole.
#[derive(Clone, Debug, PartialEq, Eq, Hash)]
pub struct RegexPattern(pub String);

/// What headings a rule matches.
#[derive(Debug, PartialEq, Eq, Hash)]
pub enum Matcher {
    /// Any heading.
    Any,
    /// A heading with this text.
    Exact(ExactText),
    /// A heading that fits a pattern.
    Glob(GlobPattern),
    /// A heading that matches a regular expression.
    Regex(RegexPattern),
}

/// What a matcher is.
pub enum MatcherSpec {
    /// See [`Matcher::Any`].
    Any,
    /// See [`Matcher::Exact`].
    Exact(Seq<char>),
    /// See [`Matcher::Glob`].
    Glob(Seq<char>),
    /// See [`Matcher::Regex`].
    Regex(Seq<char>),
}

impl View for Matcher {
    type V = MatcherSpec;

    open spec fn view(&self) -> MatcherSpec {
        match *self {
            Matcher::Any => MatcherSpec::Any,
            Matcher::Exact(text) => MatcherSpec::Exact(text.0@),
            Matcher::Glob(pattern) => MatcherSpec::Glob(pattern.0@),
            Matcher::Regex(pattern) => MatcherSpec::Regex(pattern.0@),
        }
    }
}

/// The most sections that a rule admits.
#[derive(Debug, Clone, Copy, PartialEq, Eq, Hash, Structural)]
pub enum UpperBound {
    /// At most this many.
    Bounded(u32),
    /// Any number.
    Unbounded,
}

/// How many sections a rule admits.
#[derive(Debug, Clone, Copy, PartialEq, Eq, Hash, Structural)]
pub struct Cardinality {
    /// The fewest.
    pub min: u32,
    /// The most.
    pub max: UpperBound,
}

/// What a rule does with the sections that it matches.
#[derive(Debug, Clone, Copy, PartialEq, Eq, Hash, Structural)]
pub enum RuleOutcome {
    /// Admits this many.
    Allow(Cardinality),
    /// Admits none.
    Deny,
}

/// Where a rule reference starts.
#[derive(Debug, Clone, Copy, PartialEq, Eq, Hash, Structural)]
pub enum RefAnchor {
    /// At the scope that holds the constraint.
    CurrentScope,
    /// At the root of the schema.
    SchemaRoot,
}

/// A reference to a rule by the ids on the way to it.
#[derive(Debug, PartialEq, Eq, Hash)]
pub struct RuleRef {
    /// Where the path starts.
    pub anchor: RefAnchor,
    /// The ids of the rules passed through, the last of which is the target.
    pub path: NonEmpty<RuleId>,
}

/// What a rule reference is.
#[verifier::ext_equal]
pub struct RefSpec {
    /// See [`RuleRef::anchor`].
    pub anchor: RefAnchor,
    /// See [`RuleRef::path`].
    pub path: Seq<Seq<char>>,
}

impl View for RuleRef {
    type V = RefSpec;

    open spec fn view(&self) -> RefSpec {
        RefSpec {
            anchor: self.anchor,
            path: self.path.all().map_values(|id: RuleId| id.0@),
        }
    }
}

/// A key in a frontmatter mapping.
#[derive(Debug, PartialEq, Eq, Hash)]
pub struct FrontmatterKey(pub String);

/// A reference to a frontmatter value, and the scalar that it must equal.
#[derive(Debug, PartialEq, Eq, Hash)]
pub struct FrontmatterRef {
    /// The keys on the way to the value.
    pub path: NonEmpty<FrontmatterKey>,
    /// The scalar to compare with; without it, the value need only be there.
    pub equals: Option<FrontmatterScalar>,
}

/// What a frontmatter reference is.
#[verifier::ext_equal]
pub struct FrontmatterRefSpec {
    /// See [`FrontmatterRef::path`].
    pub path: Seq<Seq<char>>,
    /// See [`FrontmatterRef::equals`].
    pub equals: Option<ScalarSpec>,
}

/// What an optional scalar is.
pub open spec fn scalar_spec(scalar: Option<FrontmatterScalar>) -> Option<ScalarSpec> {
    match scalar {
        None => None,
        Some(scalar) => Some(scalar@),
    }
}

impl View for FrontmatterRef {
    type V = FrontmatterRefSpec;

    open spec fn view(&self) -> FrontmatterRefSpec {
        FrontmatterRefSpec {
            path: self.path.all().map_values(|key: FrontmatterKey| key.0@),
            equals: scalar_spec(self.equals),
        }
    }
}

/// What a constraint speaks about.
#[derive(Debug, PartialEq, Eq, Hash)]
pub enum Proposition {
    /// That sections match a rule.
    Rule(RuleRef),
    /// That the frontmatter holds a value.
    Frontmatter(FrontmatterRef),
}

/// What a proposition is.
pub enum PropositionSpec {
    /// See [`Proposition::Rule`].
    Rule(RefSpec),
    /// See [`Proposition::Frontmatter`].
    Frontmatter(FrontmatterRefSpec),
}

impl View for Proposition {
    type V = PropositionSpec;

    open spec fn view(&self) -> PropositionSpec {
        match *self {
            Proposition::Rule(reference) => PropositionSpec::Rule(reference@),
            Proposition::Frontmatter(reference) => PropositionSpec::Frontmatter(reference@),
        }
    }
}

/// What propositions are.
pub open spec fn proposition_specs(propositions: Seq<Proposition>) -> Seq<PropositionSpec> {
    propositions.map_values(|proposition: Proposition| proposition@)
}

/// What rule references are.
pub open spec fn ref_specs(references: Seq<RuleRef>) -> Seq<RefSpec> {
    references.map_values(|reference: RuleRef| reference@)
}

/// A constraint between propositions.
#[derive(Debug, PartialEq, Eq, Hash)]
pub enum Constraint {
    /// Exactly one holds.
    OneOf(AtLeastTwo<Proposition>),
    /// At least one holds.
    AnyOf(AtLeastTwo<Proposition>),
    /// At most one holds.
    AtMostOne(AtLeastTwo<Proposition>),
    /// All hold or none does.
    AllOrNone(AtLeastTwo<Proposition>),
    /// Where the condition holds, so do the consequences.
    Requires {
        /// The condition.
        condition: Proposition,
        /// What must hold then.
        consequences: NonEmpty<Proposition>,
    },
    /// Where the condition holds, the exclusions do not.
    Conflicts {
        /// The condition.
        condition: Proposition,
        /// What must not hold then.
        exclusions: NonEmpty<Proposition>,
    },
    /// The sections of the rules stand in this order.
    Ordered(AtLeastTwo<RuleRef>),
}

/// What a constraint is.
pub enum ConstraintSpec {
    /// See [`Constraint::OneOf`].
    OneOf(Seq<PropositionSpec>),
    /// See [`Constraint::AnyOf`].
    AnyOf(Seq<PropositionSpec>),
    /// See [`Constraint::AtMostOne`].
    AtMostOne(Seq<PropositionSpec>),
    /// See [`Constraint::AllOrNone`].
    AllOrNone(Seq<PropositionSpec>),
    /// See [`Constraint::Requires`].
    Requires(PropositionSpec, Seq<PropositionSpec>),
    /// See [`Constraint::Conflicts`].
    Conflicts(PropositionSpec, Seq<PropositionSpec>),
    /// See [`Constraint::Ordered`].
    Ordered(Seq<RefSpec>),
}

impl View for Constraint {
    type V = ConstraintSpec;

    open spec fn view(&self) -> ConstraintSpec {
        match *self {
            Constraint::OneOf(list) => ConstraintSpec::OneOf(proposition_specs(list.all())),
            Constraint::AnyOf(list) => ConstraintSpec::AnyOf(proposition_specs(list.all())),
            Constraint::AtMostOne(list) => ConstraintSpec::AtMostOne(proposition_specs(list.all())),
            Constraint::AllOrNone(list) => ConstraintSpec::AllOrNone(proposition_specs(list.all())),
            Constraint::Requires { condition, consequences } => ConstraintSpec::Requires(
                condition@,
                proposition_specs(consequences.all()),
            ),
            Constraint::Conflicts { condition, exclusions } => ConstraintSpec::Conflicts(
                condition@,
                proposition_specs(exclusions.all()),
            ),
            Constraint::Ordered(list) => ConstraintSpec::Ordered(ref_specs(list.all())),
        }
    }
}

/// What constraints are.
pub open spec fn constraint_specs(constraints: Seq<Constraint>) -> Seq<ConstraintSpec> {
    constraints.map_values(|constraint: Constraint| constraint@)
}

/// A rule on the sections of one scope.
#[derive(Debug, PartialEq, Eq, Hash)]
pub struct SectionRule {
    /// The rule's identifier, if it has one.
    pub id: Option<RuleId>,
    /// What headings the rule matches.
    pub matcher: Matcher,
    /// What the rule does with them.
    pub outcome: RuleOutcome,
    /// Whether sections that no child rule matches are refused.
    pub strict: bool,
    /// The rules on the subsections.
    pub sections: Vec<SectionRule>,
    /// The constraints on the subsections.
    pub constraints: Vec<Constraint>,
}

/// What a rule is.
#[verifier::ext_equal]
pub struct RuleSpec {
    /// See [`SectionRule::id`].
    pub id: Option<Seq<char>>,
    /// See [`SectionRule::matcher`].
    pub matcher: MatcherSpec,
    /// See [`SectionRule::outcome`].
    pub outcome: RuleOutcome,
    /// See [`SectionRule::strict`].
    pub strict: bool,
    /// See [`SectionRule::sections`].
    pub sections: Seq<RuleSpec>,
    /// See [`SectionRule::constraints`].
    pub constraints: Seq<ConstraintSpec>,
}

/// The text of an optional id.
pub open spec fn id_spec(id: Option<RuleId>) -> Option<Seq<char>> {
    match id {
        None => None,
        Some(id) => Some(id.0@),
    }
}

/// What `rule` is.
pub open spec fn rule_spec(rule: SectionRule) -> RuleSpec
    decreases rule,
{
    RuleSpec {
        id: id_spec(rule.id),
        matcher: rule.matcher@,
        outcome: rule.outcome,
        strict: rule.strict,
        sections: rule_specs(rule.sections@),
        constraints: constraint_specs(rule.constraints@),
    }
}

/// What `rules` are.
pub open spec fn rule_specs(rules: Seq<SectionRule>) -> Seq<RuleSpec>
    decreases rules,
{
    Seq::new(
        rules.len(),
        |at: int|
            if 0 <= at < rules.len() {
                rule_spec(rules[at])
            } else {
                arbitrary()
            },
    )
}

/// A compiled-in JSON Schema for the frontmatter, with the resources that it
/// refers to.
#[derive(Clone, Debug, PartialEq, Eq)]
pub struct FrontmatterSchema {
    /// The URI of the root document.
    pub root_uri: String,
    /// The root document.
    pub root: Json,
    /// The other documents by URI, in the order of their URIs.
    pub resources: Vec<(String, Json)>,
}

/// What a frontmatter schema is.
#[verifier::ext_equal]
pub struct FrontmatterSchemaSpec {
    /// See [`FrontmatterSchema::root_uri`].
    pub root_uri: Seq<char>,
    /// See [`FrontmatterSchema::root`].
    pub root: JsonSpec,
    /// See [`FrontmatterSchema::resources`].
    pub resources: Seq<(Seq<char>, JsonSpec)>,
}

impl View for FrontmatterSchema {
    type V = FrontmatterSchemaSpec;

    open spec fn view(&self) -> FrontmatterSchemaSpec {
        FrontmatterSchemaSpec {
            root_uri: self.root_uri@,
            root: self.root@,
            resources: crate::json::member_specs(self.resources@),
        }
    }
}

/// Whether a document has frontmatter, and what it must satisfy.
#[derive(Clone, Debug, PartialEq, Eq)]
pub enum FrontmatterPolicy {
    /// It may have some.
    Optional {
        /// The schema for it.
        schema: Option<FrontmatterSchema>,
    },
    /// It must have some.
    Required {
        /// The schema for it.
        schema: Option<FrontmatterSchema>,
    },
    /// It must have none.
    Forbidden {
        /// The schema for it.
        schema: Option<FrontmatterSchema>,
    },
}

/// What a frontmatter policy is.
pub enum PolicySpec {
    /// See [`FrontmatterPolicy::Optional`].
    Optional(Option<FrontmatterSchemaSpec>),
    /// See [`FrontmatterPolicy::Required`].
    Required(Option<FrontmatterSchemaSpec>),
    /// See [`FrontmatterPolicy::Forbidden`].
    Forbidden(Option<FrontmatterSchemaSpec>),
}

/// What an optional frontmatter schema is.
pub open spec fn frontmatter_schema_spec(schema: Option<FrontmatterSchema>) -> Option<
    FrontmatterSchemaSpec,
> {
    match schema {
        None => None,
        Some(schema) => Some(schema@),
    }
}

impl View for FrontmatterPolicy {
    type V = PolicySpec;

    open spec fn view(&self) -> PolicySpec {
        match *self {
            FrontmatterPolicy::Optional { schema } => PolicySpec::Optional(
                frontmatter_schema_spec(schema),
            ),
            FrontmatterPolicy::Required { schema } => PolicySpec::Required(
                frontmatter_schema_spec(schema),
            ),
            FrontmatterPolicy::Forbidden { schema } => PolicySpec::Forbidden(
                frontmatter_schema_spec(schema),
            ),
        }
    }
}

/// The spelling from which a schema's outline came.
#[derive(Debug, Clone, Copy, PartialEq, Eq, Hash, Structural)]
pub enum OutlineProvenance {
    /// An `outline` list.
    Outline,
    /// `title: null` and a `sections` list.
    NoTitle,
    /// A `title` and a `sections` list.
    Title,
    /// A bare `sections` list.
    BareSections,
}

/// A normalized schema.
#[derive(Clone, Debug, PartialEq, Eq)]
pub struct Schema {
    /// The version of the document.
    pub version: SchemaVersion,
    /// The options.
    pub options: Options,
    /// The frontmatter policy.
    pub frontmatter: FrontmatterPolicy,
    /// The rules on the first-level headings.
    pub outline: Vec<SectionRule>,
    /// The constraints on the first-level headings.
    pub constraints: Vec<Constraint>,
    /// The spelling from which the outline came.
    pub outline_provenance: OutlineProvenance,
}

/// What a schema is.
#[verifier::ext_equal]
pub struct SchemaSpec {
    /// See [`Schema::version`].
    pub version: SchemaVersion,
    /// See [`Schema::options`].
    pub options: Options,
    /// See [`Schema::frontmatter`].
    pub frontmatter: PolicySpec,
    /// See [`Schema::outline`].
    pub outline: Seq<RuleSpec>,
    /// See [`Schema::constraints`].
    pub constraints: Seq<ConstraintSpec>,
    /// See [`Schema::outline_provenance`].
    pub outline_provenance: OutlineProvenance,
}

impl View for Schema {
    type V = SchemaSpec;

    open spec fn view(&self) -> SchemaSpec {
        SchemaSpec {
            version: self.version,
            options: self.options,
            frontmatter: self.frontmatter@,
            outline: rule_specs(self.outline@),
            constraints: constraint_specs(self.constraints@),
            outline_provenance: self.outline_provenance,
        }
    }
}

/// The rules that the empty scope path addresses: the outline itself for an
/// `outline` document, and the child rules of the synthesized title rule for
/// the sugar forms.
pub open spec fn addressed_rules(
    outline: Seq<RuleSpec>,
    provenance: OutlineProvenance,
) -> Seq<RuleSpec> {
    if provenance == OutlineProvenance::Outline {
        outline
    } else if outline.len() == 0 {
        Seq::empty()
    } else {
        outline[0].sections
    }
}

impl Schema {
    /// Whether a sugar form spelled the outline.
    pub fn is_sugar(&self) -> (sugar: bool)
        ensures
            sugar == (self.outline_provenance != OutlineProvenance::Outline),
    {
        self.outline_provenance != OutlineProvenance::Outline
    }

    /// The rules that the empty scope path addresses.
    pub fn addressed_root_rules(&self) -> (rules: &[SectionRule])
        ensures
            rule_specs(rules@) == addressed_rules(self@.outline, self.outline_provenance),
    {
        if self.is_sugar() {
            if self.outline.len() == 0 {
                assert(rule_specs(self.outline@) =~= Seq::empty());
                self.outline.as_slice()
            } else {
                self.outline[0].sections.as_slice()
            }
        } else {
            self.outline.as_slice()
        }
    }
}

} // verus!
