//! The rules of named scopes.

use vstd::prelude::*;

use super::frontmatter::CapturingPolicy;
use crate::schema::{
    id_spec, AtLeastTwo, Cardinality, Matcher, MatcherSpec, NonEmpty, Options, OutlineProvenance,
    RuleId,
};
use crate::text::same_text;

verus! {

/// The type of a captured value.
#[derive(Debug, Clone, Copy, PartialEq, Eq, Hash, Structural)]
pub enum ValueType {
    /// `int`
    Int,
    /// `bool`
    Bool,
    /// `date`
    Date,
    /// `semver`
    Semver,
    /// `dotted`
    Dotted,
    /// `text`
    Text,
}

/// How a type is spelled.
pub open spec fn type_spelling(value_type: ValueType) -> Seq<char> {
    match value_type {
        ValueType::Int => "int"@,
        ValueType::Bool => "bool"@,
        ValueType::Date => "date"@,
        ValueType::Semver => "semver"@,
        ValueType::Dotted => "dotted"@,
        ValueType::Text => "text"@,
    }
}

/// The type that `name` spells.
pub open spec fn type_named(name: Seq<char>) -> Option<ValueType> {
    if name == "int"@ {
        Some(ValueType::Int)
    } else if name == "bool"@ {
        Some(ValueType::Bool)
    } else if name == "date"@ {
        Some(ValueType::Date)
    } else if name == "semver"@ {
        Some(ValueType::Semver)
    } else if name == "dotted"@ {
        Some(ValueType::Dotted)
    } else if name == "text"@ {
        Some(ValueType::Text)
    } else {
        None
    }
}

/// Every type is read back from its spelling, and nothing else is.
pub proof fn type_spellings_parse_back(value_type: ValueType, name: Seq<char>)
    ensures
        type_named(type_spelling(value_type)) == Some(value_type),
        type_named(name) == Some(value_type) <==> name == type_spelling(value_type),
{
    reveal_strlit("int");
    reveal_strlit("bool");
    reveal_strlit("date");
    reveal_strlit("semver");
    reveal_strlit("dotted");
    reveal_strlit("text");
    assert("int"@[0] == 'i');
    assert("bool"@[0] == 'b');
    assert("date"@.len() == 4);
    assert("dotted"@.len() == 6);
    assert("dotted"@[0] == 'd');
    assert("date"@[0] == 'd');
    assert("semver"@[0] == 's');
    assert("text"@[0] == 't');
}

impl ValueType {
    /// The type that `name` spells.
    pub fn from_name(name: &str) -> (value_type: Option<ValueType>)
        ensures
            value_type == type_named(name@),
    {
        if same_text(name, "int") {
            Some(ValueType::Int)
        } else if same_text(name, "bool") {
            Some(ValueType::Bool)
        } else if same_text(name, "date") {
            Some(ValueType::Date)
        } else if same_text(name, "semver") {
            Some(ValueType::Semver)
        } else if same_text(name, "dotted") {
            Some(ValueType::Dotted)
        } else if same_text(name, "text") {
            Some(ValueType::Text)
        } else {
            None
        }
    }

    /// How the type is spelled.
    pub fn as_str(self) -> (spelling: &'static str)
        ensures
            spelling@ == type_spelling(self),
    {
        match self {
            ValueType::Int => "int",
            ValueType::Bool => "bool",
            ValueType::Date => "date",
            ValueType::Semver => "semver",
            ValueType::Dotted => "dotted",
            ValueType::Text => "text",
        }
    }
}

/// The typed captures of a rule by name, in the order of their names.
pub type Captures = Vec<(String, ValueType)>;

/// What captures are.
pub open spec fn capture_specs(captures: Seq<(String, ValueType)>) -> Seq<(Seq<char>, ValueType)> {
    captures.map_values(|capture: (String, ValueType)| (capture.0@, capture.1))
}

/// The direction of a value order.
#[derive(Debug, Clone, Copy, PartialEq, Eq, Hash, Structural)]
pub enum ValueOrderDirection {
    /// `asc`
    Ascending,
    /// `desc`
    Descending,
}

/// One order of a rule's matches by a captured value.
#[derive(Debug, PartialEq, Eq, Hash)]
pub struct ValueOrderEntry {
    /// The capture to order by.
    pub by: String,
    /// The direction.
    pub direction: ValueOrderDirection,
    /// Whether equal values are refused.
    pub strict: bool,
}

/// What a value order is.
pub struct OrderSpec {
    /// See [`ValueOrderEntry::by`].
    pub by: Seq<char>,
    /// See [`ValueOrderEntry::direction`].
    pub direction: ValueOrderDirection,
    /// See [`ValueOrderEntry::strict`].
    pub strict: bool,
}

impl View for ValueOrderEntry {
    type V = OrderSpec;

    open spec fn view(&self) -> OrderSpec {
        OrderSpec { by: self.by@, direction: self.direction, strict: self.strict }
    }
}

/// What value orders are.
pub open spec fn order_specs(entries: Seq<ValueOrderEntry>) -> Seq<OrderSpec> {
    entries.map_values(|entry: ValueOrderEntry| entry@)
}

/// A kind of list.
#[derive(Debug, Clone, Copy, PartialEq, Eq, Hash, Structural)]
pub enum ListKind {
    /// A list with bullets.
    Bullet,
    /// A list with numbers.
    Ordered,
}

/// What blocks an alternative matches.
#[derive(Debug, Clone, Copy, PartialEq, Eq, Hash)]
pub enum BlockMatcher {
    /// A paragraph.
    Paragraph,
    /// A list, of the given kind where there is one.
    List {
        /// The kind.
        list_kind: Option<ListKind>,
    },
    /// Any block.
    Any,
}

impl BlockMatcher {
    /// Whether two matchers are the same.
    pub fn same(&self, other: &BlockMatcher) -> (same: bool)
        ensures
            same == (*self == *other),
    {
        match (self, other) {
            (BlockMatcher::Paragraph, BlockMatcher::Paragraph) => true,
            (BlockMatcher::Any, BlockMatcher::Any) => true,
            (BlockMatcher::List { list_kind: left }, BlockMatcher::List { list_kind: right }) => {
                match (left, right) {
                    (None, None) => true,
                    (Some(left), Some(right)) => *left == *right,
                    _ => false,
                }
            },
            _ => false,
        }
    }
}

/// A rule on the items of a list.
#[derive(Debug, PartialEq, Eq, Hash)]
pub struct ItemRule {
    /// The rule's identifier, if it has one.
    pub id: Option<RuleId>,
    /// What items the rule matches.
    pub matcher: Matcher,
    /// How many it admits.
    pub cardinality: Cardinality,
}

/// What an item rule is.
pub struct ItemSpec {
    /// See [`ItemRule::id`].
    pub id: Option<Seq<char>>,
    /// See [`ItemRule::matcher`].
    pub matcher: MatcherSpec,
    /// See [`ItemRule::cardinality`].
    pub cardinality: Cardinality,
}

impl View for ItemRule {
    type V = ItemSpec;

    open spec fn view(&self) -> ItemSpec {
        ItemSpec {
            id: id_spec(self.id),
            matcher: self.matcher@,
            cardinality: self.cardinality,
        }
    }
}

/// What item rules are.
pub open spec fn item_rule_specs(rules: Seq<ItemRule>) -> Seq<ItemSpec> {
    rules.map_values(|rule: ItemRule| rule@)
}

/// The rules on the items of a list.
#[derive(Debug, PartialEq, Eq, Hash)]
pub enum ItemScope {
    /// None are declared.
    Omitted,
    /// These are.
    Declared(Vec<ItemRule>),
}

impl View for ItemScope {
    type V = Option<Seq<ItemSpec>>;

    open spec fn view(&self) -> Option<Seq<ItemSpec>> {
        match *self {
            ItemScope::Omitted => None,
            ItemScope::Declared(rules) => Some(item_rule_specs(rules@)),
        }
    }
}

/// A rule on the blocks of a preamble.
#[derive(Debug, PartialEq, Eq, Hash)]
pub enum ContentRule {
    /// A rule on paragraphs.
    Paragraph {
        /// The rule's identifier, if it has one.
        id: Option<RuleId>,
        /// How many blocks it admits.
        cardinality: Cardinality,
    },
    /// A rule on lists.
    List {
        /// The rule's identifier, if it has one.
        id: Option<RuleId>,
        /// How many blocks it admits.
        cardinality: Cardinality,
        /// The kind of list, where only one is admitted.
        list_kind: Option<ListKind>,
        /// The rules on the items.
        items: ItemScope,
    },
    /// A rule on any blocks.
    Any {
        /// The rule's identifier, if it has one.
        id: Option<RuleId>,
        /// How many blocks it admits.
        cardinality: Cardinality,
    },
    /// A rule on blocks that one of the alternatives matches.
    OneOf {
        /// The rule's identifier, if it has one.
        id: Option<RuleId>,
        /// How many blocks it admits.
        cardinality: Cardinality,
        /// The alternatives.
        alternatives: AtLeastTwo<BlockMatcher>,
    },
}

/// What the blocks of a content rule are.
pub enum BlockSpec {
    /// See [`ContentRule::Paragraph`].
    Paragraph,
    /// See [`ContentRule::List`].
    List(Option<ListKind>, Option<Seq<ItemSpec>>),
    /// See [`ContentRule::Any`].
    Any,
    /// See [`ContentRule::OneOf`].
    OneOf(Seq<BlockMatcher>),
}

/// What a content rule is.
pub struct ContentSpec {
    /// The rule's identifier, if it has one.
    pub id: Option<Seq<char>>,
    /// How many blocks it admits.
    pub cardinality: Cardinality,
    /// What blocks they are.
    pub block: BlockSpec,
}

impl View for ContentRule {
    type V = ContentSpec;

    open spec fn view(&self) -> ContentSpec {
        match *self {
            ContentRule::Paragraph { id, cardinality } => ContentSpec {
                id: id_spec(id),
                cardinality,
                block: BlockSpec::Paragraph,
            },
            ContentRule::List { id, cardinality, list_kind, items } => ContentSpec {
                id: id_spec(id),
                cardinality,
                block: BlockSpec::List(list_kind, items@),
            },
            ContentRule::Any { id, cardinality } => ContentSpec {
                id: id_spec(id),
                cardinality,
                block: BlockSpec::Any,
            },
            ContentRule::OneOf { id, cardinality, alternatives } => ContentSpec {
                id: id_spec(id),
                cardinality,
                block: BlockSpec::OneOf(alternatives.all()),
            },
        }
    }
}

/// What content rules are.
pub open spec fn content_rule_specs(rules: Seq<ContentRule>) -> Seq<ContentSpec> {
    rules.map_values(|rule: ContentRule| rule@)
}

/// The rules on the blocks of a preamble.
#[derive(Debug, PartialEq, Eq, Hash)]
pub enum ContentScope {
    /// None are declared.
    Omitted,
    /// These are.
    Declared(Vec<ContentRule>),
}

impl View for ContentScope {
    type V = Option<Seq<ContentSpec>>;

    open spec fn view(&self) -> Option<Seq<ContentSpec>> {
        match *self {
            ContentScope::Omitted => None,
            ContentScope::Declared(rules) => Some(content_rule_specs(rules@)),
        }
    }
}

/// A matcher whose headings a scope refuses.
#[derive(Debug, PartialEq, Eq, Hash)]
pub struct SectionGuard {
    /// What headings are refused.
    pub matcher: Matcher,
}

/// What guards are.
pub open spec fn guard_specs(guards: Seq<SectionGuard>) -> Seq<MatcherSpec> {
    guards.map_values(|guard: SectionGuard| guard.matcher@)
}

/// What a scope does with headings that no rule matches.
#[derive(Debug, Clone, Copy, PartialEq, Eq, Hash, Structural)]
pub enum ExtrasMode {
    /// Refuses them.
    Reject,
    /// Admits them anywhere.
    Anywhere,
}

/// How a scope assigns headings to its rules.
#[derive(Debug, Clone, Copy, PartialEq, Eq, Hash, Structural)]
pub enum ScopeMode {
    /// In the order of the rules.
    Ordered,
    /// To the first rule that matches.
    Unordered,
}

/// A scope with its own rules.
#[derive(Debug, PartialEq, Eq, Hash)]
pub struct DeclaredScope {
    /// The rules.
    pub rules: Vec<NamedRule>,
    /// The guards, which refuse before any rule matches.
    pub guards: Vec<SectionGuard>,
    /// What becomes of headings that no rule matches.
    pub extras: ExtrasMode,
    /// How headings are assigned.
    pub mode: ScopeMode,
}

/// What is declared of the sections below a heading.
#[derive(Debug, PartialEq, Eq, Hash)]
pub enum ChildScope {
    /// Nothing.
    Omitted,
    /// Only what is refused.
    GuardsOnly(NonEmpty<SectionGuard>),
    /// A scope with its own rules.
    Declared(DeclaredScope),
}

/// A rule on the sections of a named scope.
#[derive(Debug, PartialEq, Eq, Hash)]
pub struct NamedRule {
    /// The rule's identifier, if it has one.
    pub id: Option<RuleId>,
    /// What headings the rule matches.
    pub matcher: Matcher,
    /// How many it admits.
    pub cardinality: Cardinality,
    /// What is declared of the subsections.
    pub children: ChildScope,
    /// The rules on the preamble.
    pub content: ContentScope,
    /// The typed captures, by name.
    pub captures: Captures,
    /// The orders of the rule's matches.
    pub order: Vec<ValueOrderEntry>,
}

/// What a scope with its own rules is.
#[verifier::ext_equal]
pub struct ScopeSpec {
    /// See [`DeclaredScope::rules`].
    pub rules: Seq<NamedSpec>,
    /// See [`DeclaredScope::guards`].
    pub guards: Seq<MatcherSpec>,
    /// See [`DeclaredScope::extras`].
    pub extras: ExtrasMode,
    /// See [`DeclaredScope::mode`].
    pub mode: ScopeMode,
}

/// What a child scope is.
#[verifier::ext_equal]
pub enum ChildSpec {
    /// See [`ChildScope::Omitted`].
    Omitted,
    /// See [`ChildScope::GuardsOnly`].
    GuardsOnly(Seq<MatcherSpec>),
    /// See [`ChildScope::Declared`].
    Declared(ScopeSpec),
}

/// What a rule of a named scope is.
#[verifier::ext_equal]
pub struct NamedSpec {
    /// See [`NamedRule::id`].
    pub id: Option<Seq<char>>,
    /// See [`NamedRule::matcher`].
    pub matcher: MatcherSpec,
    /// See [`NamedRule::cardinality`].
    pub cardinality: Cardinality,
    /// See [`NamedRule::children`].
    pub children: ChildSpec,
    /// See [`NamedRule::content`].
    pub content: Option<Seq<ContentSpec>>,
    /// See [`NamedRule::captures`].
    pub captures: Seq<(Seq<char>, ValueType)>,
    /// See [`NamedRule::order`].
    pub order: Seq<OrderSpec>,
}

/// What `rule` is.
pub open spec fn named_spec(rule: NamedRule) -> NamedSpec
    decreases rule,
{
    NamedSpec {
        id: id_spec(rule.id),
        matcher: rule.matcher@,
        cardinality: rule.cardinality,
        children: child_spec(rule.children),
        content: rule.content@,
        captures: capture_specs(rule.captures@),
        order: order_specs(rule.order@),
    }
}

/// What `rules` are.
pub open spec fn named_specs(rules: Seq<NamedRule>) -> Seq<NamedSpec>
    decreases rules,
{
    Seq::new(
        rules.len(),
        |at: int|
            if 0 <= at < rules.len() {
                named_spec(rules[at])
            } else {
                arbitrary()
            },
    )
}

/// What `scope` is.
pub open spec fn scope_spec(scope: DeclaredScope) -> ScopeSpec
    decreases scope,
{
    ScopeSpec {
        rules: named_specs(scope.rules@),
        guards: guard_specs(scope.guards@),
        extras: scope.extras,
        mode: scope.mode,
    }
}

/// What `children` are.
pub open spec fn child_spec(children: ChildScope) -> ChildSpec
    decreases children,
{
    match children {
        ChildScope::Omitted => ChildSpec::Omitted,
        ChildScope::GuardsOnly(guards) => ChildSpec::GuardsOnly(guard_specs(guards.all())),
        ChildScope::Declared(scope) => ChildSpec::Declared(scope_spec(scope)),
    }
}

/// The rules of a child scope.
pub open spec fn child_rules(children: ChildSpec) -> Seq<NamedSpec> {
    match children {
        ChildSpec::Declared(scope) => scope.rules,
        _ => Seq::empty(),
    }
}

/// Whether a child scope assigns headings in the order of its rules.
pub open spec fn child_is_ordered(children: ChildSpec) -> bool {
    match children {
        ChildSpec::Declared(scope) => scope.mode == ScopeMode::Ordered,
        _ => true,
    }
}

impl ChildScope {
    /// The rules.
    pub fn rules(&self) -> (rules: &[NamedRule])
        ensures
            named_specs(rules@) == child_rules(child_spec(*self)),
    {
        match self {
            ChildScope::Declared(scope) => scope.rules.as_slice(),
            _ => {
                let none: &[NamedRule] = &[];
                assert(named_specs(none@) =~= Seq::empty());
                none
            },
        }
    }

    /// Whether headings are assigned in the order of the rules.
    pub fn is_ordered(&self) -> (ordered: bool)
        ensures
            ordered == child_is_ordered(child_spec(*self)),
    {
        match self {
            ChildScope::Declared(scope) => scope.mode == ScopeMode::Ordered,
            _ => true,
        }
    }
}

/// The title of a document.
#[derive(Debug, PartialEq, Eq, Hash)]
pub enum TitleSlot {
    /// There is none.
    Forbidden {
        /// What is declared of the sections.
        children: ChildScope,
        /// The rules on the document's preamble.
        content: ContentScope,
    },
    /// There is one.
    Required {
        /// What titles are admitted.
        matcher: Matcher,
        /// Whether the title is spelled, and not implied by the sections.
        spelled: bool,
        /// What is declared of the sections.
        children: ChildScope,
        /// The rules on the preamble below the title.
        content: ContentScope,
    },
}

/// The shape of a document.
#[derive(Debug, PartialEq, Eq, Hash)]
pub enum DocumentShape {
    /// First-level headings with rules of their own.
    Outline {
        /// The rules on the first-level headings.
        scope: DeclaredScope,
        /// The rules on the document's preamble.
        content: ContentScope,
    },
    /// A title and the sections below it.
    Title(TitleSlot),
}

/// What the shape of a document is.
pub struct ShapeSpec {
    /// The declared scope at the root.
    pub root: ChildSpec,
    /// The rules on the document's own preamble, where the shape has one.
    pub document_content: Option<Seq<ContentSpec>>,
    /// The rules on the preamble below the title, where there is one.
    pub title_content: Option<Seq<ContentSpec>>,
    /// What titles are admitted, where the shape has one.
    pub title: Option<MatcherSpec>,
    /// The spelling from which the shape came.
    pub provenance: OutlineProvenance,
}

impl View for DocumentShape {
    type V = ShapeSpec;

    open spec fn view(&self) -> ShapeSpec {
        match *self {
            DocumentShape::Outline { scope, content } => ShapeSpec {
                root: ChildSpec::Declared(scope_spec(scope)),
                document_content: content@,
                title_content: None,
                title: None,
                provenance: OutlineProvenance::Outline,
            },
            DocumentShape::Title(TitleSlot::Forbidden { children, content }) => ShapeSpec {
                root: child_spec(children),
                document_content: content@,
                title_content: content@,
                title: None,
                provenance: OutlineProvenance::NoTitle,
            },
            DocumentShape::Title(
                TitleSlot::Required { matcher, spelled, children, content },
            ) => ShapeSpec {
                root: child_spec(children),
                document_content: None,
                title_content: content@,
                title: Some(matcher@),
                provenance: if spelled {
                    OutlineProvenance::Title
                } else {
                    OutlineProvenance::BareSections
                },
            },
        }
    }
}

impl DocumentShape {
    /// The rules at the root: the outline, or the sections below the title.
    pub fn addressed_root_rules(&self) -> (rules: &[NamedRule])
        ensures
            named_specs(rules@) == child_rules(self@.root),
    {
        match self {
            DocumentShape::Outline { scope, .. } => scope.rules.as_slice(),
            DocumentShape::Title(TitleSlot::Forbidden { children, .. }) => children.rules(),
            DocumentShape::Title(TitleSlot::Required { children, .. }) => children.rules(),
        }
    }

    /// Whether the root scope assigns headings in the order of its rules.
    pub fn root_is_ordered(&self) -> (ordered: bool)
        ensures
            ordered == child_is_ordered(self@.root),
    {
        match self {
            DocumentShape::Outline { scope, .. } => scope.mode == ScopeMode::Ordered,
            DocumentShape::Title(TitleSlot::Forbidden { children, .. }) => children.is_ordered(),
            DocumentShape::Title(TitleSlot::Required { children, .. }) => children.is_ordered(),
        }
    }
}

/// A typed value that the frontmatter exports.
#[derive(Debug, PartialEq, Eq, Hash)]
pub struct FrontmatterCapture {
    /// The query of the value.
    pub path: String,
    /// The value's type.
    pub value_type: ValueType,
    /// Whether the value must be there.
    pub required: bool,
}

/// What a typed value of the frontmatter is.
pub struct ExportSpec {
    /// See [`FrontmatterCapture::path`].
    pub path: Seq<char>,
    /// See [`FrontmatterCapture::value_type`].
    pub value_type: ValueType,
    /// See [`FrontmatterCapture::required`].
    pub required: bool,
}

impl View for FrontmatterCapture {
    type V = ExportSpec;

    open spec fn view(&self) -> ExportSpec {
        ExportSpec { path: self.path@, value_type: self.value_type, required: self.required }
    }
}

/// The typed values of the frontmatter by name, in the order of their names.
pub type FrontmatterCaptures = Vec<(String, FrontmatterCapture)>;

/// What typed values of the frontmatter are.
pub open spec fn export_specs(captures: Seq<(String, FrontmatterCapture)>) -> Seq<
    (Seq<char>, ExportSpec),
> {
    captures.map_values(|capture: (String, FrontmatterCapture)| (capture.0@, capture.1@))
}

/// A schema of named scopes.
#[derive(Debug, PartialEq, Eq)]
pub struct NamedSchema {
    /// The options.
    pub options: Options,
    /// What is declared of the frontmatter.
    pub frontmatter: CapturingPolicy,
    /// The shape of the document.
    pub document: DocumentShape,
}

} // verus!
