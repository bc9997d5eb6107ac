//! Locators: what they say without a schema, and what they are bound to.

use vstd::prelude::*;

use super::model::ValueType;
use crate::load_result::RuleIndex;
use crate::scalar::{natural, parse_natural, FrontmatterScalar, ScalarSpec};
use crate::schema::{scalar_spec, NonEmpty, RefAnchor, RuleId};
use crate::text::{decimal, decimal_is_canonical, decimal_value, same_text};

verus! {

/// The zero-based position that a subscript names, of any size.
#[derive(Debug, PartialEq, Eq, Hash)]
pub struct Subscript {
    /// The position as a decimal numeral without leading zeros.
    numeral: String,
}

impl Subscript {
    #[verifier::type_invariant]
    spec fn is_numeral(self) -> bool {
        self.numeral@ == decimal(decimal_value(self.numeral@))
    }

    /// The position that digits name, if they do.
    pub fn parse(text: &str) -> (subscript: Option<Subscript>)
        ensures
            subscript is Some <==> natural(text@, 10) is Some,
            subscript matches Some(subscript) ==> natural(text@, 10) == Some(subscript@),
    {
        match parse_natural(text, 10) {
            Some(numeral) => {
                proof {
                    decimal_is_canonical(natural(text@, 10)->0);
                }
                Some(Subscript { numeral })
            },
            None => None,
        }
    }

    /// A copy of the subscript.
    pub fn copy(&self) -> (subscript: Subscript)
        ensures
            subscript@ == self@,
    {
        proof {
            use_type_invariant(self);
        }
        Subscript { numeral: self.numeral.clone() }
    }

    /// Whether two subscripts name one position.
    pub fn same(&self, other: &Subscript) -> (same: bool)
        ensures
            same == (self@ == other@),
    {
        proof {
            use_type_invariant(self);
            use_type_invariant(other);
        }
        same_text(self.numeral.as_str(), other.numeral.as_str())
    }

    /// Whether the subscript names the first position.
    pub fn is_zero(&self) -> (zero: bool)
        ensures
            zero == (self@ == 0),
    {
        proof {
            use_type_invariant(self);
            reveal_strlit("0");
            assert("0"@ =~= decimal(0));
            decimal_is_canonical(0);
        }
        same_text(self.numeral.as_str(), "0")
    }
}

impl View for Subscript {
    type V = nat;

    closed spec fn view(&self) -> nat {
        decimal_value(self.numeral@)
    }
}

/// What an optional subscript is.
pub open spec fn position_spec(position: Option<Subscript>) -> Option<nat> {
    match position {
        None => None,
        Some(position) => Some(position@),
    }
}

/// A copy of an optional subscript.
pub fn copy_position(position: &Option<Subscript>) -> (copied: Option<Subscript>)
    ensures
        position_spec(copied) == position_spec(*position),
{
    match position {
        None => None,
        Some(position) => Some(position.copy()),
    }
}

/// A step by a name.
#[derive(Debug, PartialEq, Eq)]
pub struct NameStep {
    /// The name.
    pub name: String,
    /// The match that the step is narrowed to.
    pub position: Option<Subscript>,
}

/// A step by a structural kind.
#[derive(Debug, PartialEq, Eq)]
pub struct StructuralStep {
    /// The kind.
    pub kind: String,
    /// The match that the step is narrowed to.
    pub position: Option<Subscript>,
}

/// The text of a heading or an item.
#[derive(Debug, PartialEq, Eq)]
pub struct IntrinsicText {
    /// The match that the text is narrowed to.
    pub position: Option<Subscript>,
}

/// A locator in the outline, as it is spelled.
#[derive(Debug, PartialEq, Eq)]
pub struct OutlineLocator {
    /// The spelling.
    pub source: String,
    /// Where the locator starts.
    pub anchor: RefAnchor,
    /// The steps by names.
    pub names: NonEmpty<NameStep>,
    /// The steps by structural kinds behind them.
    pub structural: Vec<StructuralStep>,
    /// The text at the end, if the locator names it.
    pub text: Option<IntrinsicText>,
}

/// A query of the frontmatter, as it is spelled.
#[derive(Debug, PartialEq, Eq)]
pub struct QueryLocator {
    /// The query.
    pub query: String,
    /// The scalar that a result must equal, as it is spelled.
    pub equality: Option<String>,
}

/// A reference to a declared capture of the frontmatter, as it is spelled.
#[derive(Debug, PartialEq, Eq)]
pub struct CaptureLocator {
    /// The capture's name.
    pub name: String,
}

/// What a locator says without a schema.
#[derive(Debug, PartialEq, Eq)]
pub enum ParsedLocator {
    /// A locator in the outline.
    Outline(OutlineLocator),
    /// A query of the frontmatter.
    Query(QueryLocator),
    /// A declared capture of the frontmatter.
    Capture(CaptureLocator),
}

/// What a step is: a name or a kind, and a position.
pub struct StepSpec {
    /// The name or the kind.
    pub name: Seq<char>,
    /// The match that the step is narrowed to.
    pub position: Option<nat>,
}

impl View for NameStep {
    type V = StepSpec;

    open spec fn view(&self) -> StepSpec {
        StepSpec { name: self.name@, position: position_spec(self.position) }
    }
}

impl View for StructuralStep {
    type V = StepSpec;

    open spec fn view(&self) -> StepSpec {
        StepSpec { name: self.kind@, position: position_spec(self.position) }
    }
}

/// What a locator in the outline is.
pub struct OutlineSpec {
    /// See [`OutlineLocator::source`].
    pub source: Seq<char>,
    /// See [`OutlineLocator::anchor`].
    pub anchor: RefAnchor,
    /// See [`OutlineLocator::names`].
    pub names: Seq<StepSpec>,
    /// See [`OutlineLocator::structural`].
    pub structural: Seq<StepSpec>,
    /// See [`OutlineLocator::text`].
    pub text: Option<Option<nat>>,
}

impl View for OutlineLocator {
    type V = OutlineSpec;

    open spec fn view(&self) -> OutlineSpec {
        OutlineSpec {
            source: self.source@,
            anchor: self.anchor,
            names: self.names.all().map_values(|step: NameStep| step@),
            structural: self.structural@.map_values(|step: StructuralStep| step@),
            text: match self.text {
                None => None,
                Some(text) => Some(position_spec(text.position)),
            },
        }
    }
}

/// What an optional text is.
pub open spec fn optional_text(text: Option<String>) -> Option<Seq<char>> {
    match text {
        None => None,
        Some(text) => Some(text@),
    }
}

/// What a parsed locator is.
pub enum ParsedSpec {
    /// See [`ParsedLocator::Outline`].
    Outline(OutlineSpec),
    /// See [`ParsedLocator::Query`].
    Query(Seq<char>, Option<Seq<char>>),
    /// See [`ParsedLocator::Capture`].
    Capture(Seq<char>),
}

impl View for ParsedLocator {
    type V = ParsedSpec;

    open spec fn view(&self) -> ParsedSpec {
        match *self {
            ParsedLocator::Outline(locator) => ParsedSpec::Outline(locator@),
            ParsedLocator::Query(locator) => ParsedSpec::Query(
                locator.query@,
                optional_text(locator.equality),
            ),
            ParsedLocator::Capture(locator) => ParsedSpec::Capture(locator.name@),
        }
    }
}

/// What spellings of locators say, or why they say nothing.
#[derive(Debug, PartialEq, Eq)]
pub struct Locators {
    /// The spellings that are locators.
    pub parsed: Vec<(String, ParsedLocator)>,
    /// The spellings that are none, with the reason.
    pub faults: Vec<(String, String)>,
}

/// What locators are.
pub struct LocatorsSpec {
    /// See [`Locators::parsed`].
    pub parsed: Seq<(Seq<char>, ParsedSpec)>,
    /// See [`Locators::faults`].
    pub faults: Seq<(Seq<char>, Seq<char>)>,
}

impl View for Locators {
    type V = LocatorsSpec;

    open spec fn view(&self) -> LocatorsSpec {
        LocatorsSpec {
            parsed: self.parsed@.map_values(|entry: (String, ParsedLocator)| (entry.0@, entry.1@)),
            faults: self.faults@.map_values(|entry: (String, String)| (entry.0@, entry.1@)),
        }
    }
}

/// The value of the first entry for a spelling, from `from` on.
pub open spec fn entry_from<T>(
    entries: Seq<(Seq<char>, T)>,
    source: Seq<char>,
    from: int,
) -> Option<T>
    decreases entries.len() - from,
{
    if from < 0 || from >= entries.len() {
        None
    } else if entries[from].0 == source {
        Some(entries[from].1)
    } else {
        entry_from(entries, source, from + 1)
    }
}

/// What a spelling says, or why it says nothing. A spelling of which nothing
/// is known says nothing, for no reason.
pub open spec fn parse_of(locators: LocatorsSpec, source: Seq<char>) -> Result<
    ParsedSpec,
    Seq<char>,
> {
    match entry_from(locators.parsed, source, 0) {
        Some(parsed) => Ok(parsed),
        None => match entry_from(locators.faults, source, 0) {
            Some(fault) => Err(fault),
            None => Err(Seq::empty()),
        },
    }
}

impl Locators {
    /// What a spelling says, or why it says nothing.
    pub fn parse<'l>(&'l self, source: &str) -> (parsed: Result<&'l ParsedLocator, String>)
        ensures
            match parse_of(self@, source@) {
                Ok(expected) => parsed matches Ok(parsed) && parsed@ == expected,
                Err(fault) => parsed matches Err(reason) && reason@ == fault,
            },
    {
        let ghost parsed = self@.parsed;
        let ghost faults = self@.faults;
        let mut at: usize = 0;
        while at < self.parsed.len()
            invariant
                at <= self.parsed@.len(),
                parsed == self@.parsed,
                entry_from(parsed, source@, 0) == entry_from(parsed, source@, at as int),
            decreases self.parsed.len() - at,
        {
            assert(parsed[at as int] == (self.parsed@[at as int].0@, self.parsed@[at as int].1@));
            if same_text(self.parsed[at].0.as_str(), source) {
                return Ok(&self.parsed[at].1);
            }
            at += 1;
        }
        let mut next: usize = 0;
        while next < self.faults.len()
            invariant
                next <= self.faults@.len(),
                faults == self@.faults,
                entry_from(self@.parsed, source@, 0) is None,
                entry_from(faults, source@, 0) == entry_from(faults, source@, next as int),
            decreases self.faults.len() - next,
        {
            assert(faults[next as int] == (
                self.faults@[next as int].0@,
                self.faults@[next as int].1@,
            ));
            if same_text(self.faults[next].0.as_str(), source) {
                return Err(self.faults[next].1.clone());
            }
            next += 1;
        }
        let none = String::new();
        assert(none@ =~= Seq::empty());
        Err(none)
    }
}

/// A step that is bound to a rule.
#[derive(Debug, PartialEq, Eq)]
pub struct BoundRuleStep {
    /// The rule's id.
    pub id: RuleId,
    /// The rule's position among its siblings.
    pub index: RuleIndex,
    /// The match that the step is narrowed to.
    pub position: Option<Subscript>,
}

/// What a bound step is.
pub struct BoundStepSpec {
    /// See [`BoundRuleStep::id`].
    pub id: Seq<char>,
    /// See [`BoundRuleStep::index`].
    pub index: RuleIndex,
    /// See [`BoundRuleStep::position`].
    pub position: Option<nat>,
}

impl View for BoundRuleStep {
    type V = BoundStepSpec;

    open spec fn view(&self) -> BoundStepSpec {
        BoundStepSpec {
            id: self.id.0@,
            index: self.index,
            position: position_spec(self.position),
        }
    }
}

/// What bound steps are.
pub open spec fn bound_steps(steps: Seq<BoundRuleStep>) -> Seq<BoundStepSpec> {
    steps.map_values(|step: BoundRuleStep| step@)
}

/// A locator that is bound to a rule.
#[derive(Debug, PartialEq, Eq)]
pub struct ResolvedRuleLocator {
    /// The spelling.
    pub source: String,
    /// Where the locator starts.
    pub anchor: RefAnchor,
    /// The steps.
    pub steps: NonEmpty<BoundRuleStep>,
}

/// What a locator that is bound to a rule is.
#[verifier::ext_equal]
pub struct RuleLocatorSpec {
    /// See [`ResolvedRuleLocator::source`].
    pub source: Seq<char>,
    /// See [`ResolvedRuleLocator::anchor`].
    pub anchor: RefAnchor,
    /// See [`ResolvedRuleLocator::steps`].
    pub steps: Seq<BoundStepSpec>,
}

impl View for ResolvedRuleLocator {
    type V = RuleLocatorSpec;

    open spec fn view(&self) -> RuleLocatorSpec {
        RuleLocatorSpec {
            source: self.source@,
            anchor: self.anchor,
            steps: bound_steps(self.steps.all()),
        }
    }
}

/// A locator that is bound to a capture of a rule.
#[derive(Debug, PartialEq, Eq)]
pub struct ResolvedRuleCaptureLocator {
    /// The spelling.
    pub source: String,
    /// Where the locator starts.
    pub anchor: RefAnchor,
    /// The steps to the rule.
    pub steps: Vec<BoundRuleStep>,
    /// The capture's name.
    pub name: String,
    /// The capture's type.
    pub value_type: ValueType,
    /// The value that the capture is narrowed to.
    pub position: Option<Subscript>,
}

/// A locator that is bound to the text of a heading.
#[derive(Debug, PartialEq, Eq)]
pub struct ResolvedIntrinsicTextLocator {
    /// The spelling.
    pub source: String,
    /// Where the locator starts.
    pub anchor: RefAnchor,
    /// The steps to the heading's rule.
    pub steps: NonEmpty<BoundRuleStep>,
    /// The text that the locator is narrowed to.
    pub position: Option<Subscript>,
}

/// A query of the frontmatter with what its results must equal.
#[derive(Debug, PartialEq, Eq)]
pub struct ResolvedFrontmatterQuery {
    /// The query.
    pub query: String,
    /// The scalar that a result must equal.
    pub equals: Option<FrontmatterScalar>,
}

/// A declared capture of the frontmatter.
#[derive(Debug, PartialEq, Eq)]
pub struct ResolvedFrontmatterCapture {
    /// The capture's name.
    pub name: String,
    /// The capture's type.
    pub value_type: ValueType,
}

/// The occurrence of a rule to which a step's scope belongs.
#[derive(Debug, PartialEq, Eq, Hash)]
pub enum ScopeSelector {
    /// No subscript: the rule matches once at most, so it opens one scope.
    ImplicitSingular,
    /// An explicit subscript.
    ExplicitIndex(Subscript),
    /// The occurrence that holds the constraint itself, of a rule that may
    /// match more than once.
    CurrentOccurrence,
}

/// What a selector is.
pub enum SelectorSpec {
    /// See [`ScopeSelector::ImplicitSingular`].
    ImplicitSingular,
    /// See [`ScopeSelector::ExplicitIndex`].
    ExplicitIndex(nat),
    /// See [`ScopeSelector::CurrentOccurrence`].
    CurrentOccurrence,
}

impl View for ScopeSelector {
    type V = SelectorSpec;

    open spec fn view(&self) -> SelectorSpec {
        match *self {
            ScopeSelector::ImplicitSingular => SelectorSpec::ImplicitSingular,
            ScopeSelector::ExplicitIndex(index) => SelectorSpec::ExplicitIndex(index@),
            ScopeSelector::CurrentOccurrence => SelectorSpec::CurrentOccurrence,
        }
    }
}

/// One step of a locator's key: the rule's position among its siblings, so that
/// a relative and an absolute spelling of one rule have one key.
#[derive(Debug, PartialEq, Eq, Hash)]
pub struct CanonicalStep {
    /// The rule's position.
    pub index: usize,
    /// The occurrence.
    pub selector: ScopeSelector,
}

/// What a step of a key is.
pub struct KeyStep {
    /// See [`CanonicalStep::index`].
    pub index: usize,
    /// See [`CanonicalStep::selector`].
    pub selector: SelectorSpec,
}

impl View for CanonicalStep {
    type V = KeyStep;

    open spec fn view(&self) -> KeyStep {
        KeyStep { index: self.index, selector: self.selector@ }
    }
}

/// What a key is.
pub open spec fn key_specs(key: Seq<CanonicalStep>) -> Seq<KeyStep> {
    key.map_values(|step: CanonicalStep| step@)
}

impl CanonicalStep {
    /// A copy of the step.
    pub fn copy(&self) -> (step: CanonicalStep)
        ensures
            step@ == self@,
    {
        CanonicalStep {
            index: self.index,
            selector: match &self.selector {
                ScopeSelector::ImplicitSingular => ScopeSelector::ImplicitSingular,
                ScopeSelector::ExplicitIndex(index) => ScopeSelector::ExplicitIndex(index.copy()),
                ScopeSelector::CurrentOccurrence => ScopeSelector::CurrentOccurrence,
            },
        }
    }

    /// Whether two steps are the same.
    pub fn same(&self, other: &CanonicalStep) -> (same: bool)
        ensures
            same == (self@ == other@),
    {
        self.index == other.index && match (&self.selector, &other.selector) {
            (ScopeSelector::ImplicitSingular, ScopeSelector::ImplicitSingular) => true,
            (
                ScopeSelector::ExplicitIndex(left),
                ScopeSelector::ExplicitIndex(right),
            ) => left.same(right),
            (ScopeSelector::CurrentOccurrence, ScopeSelector::CurrentOccurrence) => true,
            _ => false,
        }
    }
}

/// Whether two keys are the same.
pub fn same_key(left: &Vec<CanonicalStep>, right: &Vec<CanonicalStep>) -> (same: bool)
    ensures
        same == (key_specs(left@) == key_specs(right@)),
{
    let ghost ours = key_specs(left@);
    let ghost theirs = key_specs(right@);
    if left.len() != right.len() {
        assert(ours.len() != theirs.len());
        return false;
    }
    let mut at: usize = 0;
    while at < left.len()
        invariant
            at <= left@.len() == right@.len(),
            ours == key_specs(left@),
            theirs == key_specs(right@),
            forall|k: int| 0 <= k < at ==> #[trigger] ours[k] == theirs[k],
        decreases left.len() - at,
    {
        assert(ours[at as int] == left@[at as int]@);
        assert(theirs[at as int] == right@[at as int]@);
        if !left[at].same(&right[at]) {
            return false;
        }
        at += 1;
    }
    assert(ours =~= theirs);
    true
}

/// A copy of a key.
pub fn copy_key(key: &Vec<CanonicalStep>) -> (copied: Vec<CanonicalStep>)
    ensures
        key_specs(copied@) == key_specs(key@),
{
    let mut copied: Vec<CanonicalStep> = Vec::new();
    let mut at: usize = 0;
    while at < key.len()
        invariant
            at <= key@.len(),
            copied@.len() == at,
            forall|k: int| 0 <= k < at ==> (#[trigger] copied@[k])@ == key@[k]@,
        decreases key.len() - at,
    {
        copied.push(key[at].copy());
        at += 1;
    }
    assert(key_specs(copied@) =~= key_specs(key@));
    copied
}

/// What a bound operand is.
pub enum OperandSpec {
    /// A rule, the locator's identity, and the key of its scope.
    Rule(RuleLocatorSpec, Seq<KeyStep>, Seq<KeyStep>),
    /// A capture of a rule: the steps to it, its name, its type, its position.
    Capture(RuleLocatorSpec, Seq<char>, ValueType, Option<nat>),
    /// The text of a heading.
    IntrinsicText(RuleLocatorSpec, Option<nat>),
    /// A content or item rule.
    StructuralTerminal,
    /// The text of an item.
    ItemTextTerminal,
    /// A query of the frontmatter.
    Query(Seq<char>, Option<ScalarSpec>),
    /// A declared capture of the frontmatter.
    FrontmatterCapture(Seq<char>, ValueType),
}

/// A bound operand of a constraint.
#[derive(Debug, PartialEq, Eq)]
pub enum BoundOperand {
    /// A rule.
    Rule {
        /// The locator.
        locator: ResolvedRuleLocator,
        /// The locator's identity: every subscript exactly as written.
        identity: Vec<CanonicalStep>,
        /// The key of its scope: each subscript reduced to the occurrence that
        /// it can denote.
        scope: Vec<CanonicalStep>,
    },
    /// A capture of a rule.
    Capture(ResolvedRuleCaptureLocator),
    /// The text of a heading.
    IntrinsicText(ResolvedIntrinsicTextLocator),
    /// A content or item rule.
    StructuralTerminal,
    /// The text of an item.
    ItemTextTerminal,
    /// A query of the frontmatter.
    Query(ResolvedFrontmatterQuery),
    /// A declared capture of the frontmatter.
    FrontmatterCapture(ResolvedFrontmatterCapture),
}

impl View for BoundOperand {
    type V = OperandSpec;

    open spec fn view(&self) -> OperandSpec {
        match *self {
            BoundOperand::Rule { locator, identity, scope } => OperandSpec::Rule(
                locator@,
                key_specs(identity@),
                key_specs(scope@),
            ),
            BoundOperand::Capture(capture) => OperandSpec::Capture(
                RuleLocatorSpec {
                    source: capture.source@,
                    anchor: capture.anchor,
                    steps: bound_steps(capture.steps@),
                },
                capture.name@,
                capture.value_type,
                position_spec(capture.position),
            ),
            BoundOperand::IntrinsicText(text) => OperandSpec::IntrinsicText(
                RuleLocatorSpec {
                    source: text.source@,
                    anchor: text.anchor,
                    steps: bound_steps(text.steps.all()),
                },
                position_spec(text.position),
            ),
            BoundOperand::StructuralTerminal => OperandSpec::StructuralTerminal,
            BoundOperand::ItemTextTerminal => OperandSpec::ItemTextTerminal,
            BoundOperand::Query(query) => OperandSpec::Query(
                query.query@,
                scalar_spec(query.equals),
            ),
            BoundOperand::FrontmatterCapture(capture) => OperandSpec::FrontmatterCapture(
                capture.name@,
                capture.value_type,
            ),
        }
    }
}

} // verus!
