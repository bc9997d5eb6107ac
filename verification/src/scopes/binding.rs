//! Binding locators against the rules of named scopes.
//!
//! A name step resolves in exactly one namespace, the one that the locator has
//! reached; there is no upward or downward search. Concrete positions and
//! empty sets of matches stay document data.

use vstd::prelude::*;

use super::cardinality::{is_singular, is_singular_maximum};
use super::frontmatter::policy_exports;
use super::locators::{
    bound_steps, copy_key, copy_position, key_specs, parse_of, position_spec, BoundOperand,
    BoundRuleStep, BoundStepSpec, CanonicalStep, KeyStep, Locators, LocatorsSpec, OperandSpec,
    NameStep, OutlineLocator, OutlineSpec, ParsedLocator, ParsedSpec,
    ResolvedFrontmatterCapture, ResolvedFrontmatterQuery, ResolvedIntrinsicTextLocator,
    ResolvedRuleCaptureLocator, ResolvedRuleLocator, RuleLocatorSpec, ScopeSelector,
    SelectorSpec, StepSpec, StructuralStep, Subscript,
};
use super::model::{
    capture_specs, child_is_ordered, child_rules, content_rule_specs, export_specs,
    item_rule_specs, named_spec, named_specs, BlockMatcher, BlockSpec, Captures, ContentRule,
    ContentScope, ContentSpec, DocumentShape, ExportSpec, FrontmatterCapture, ItemRule,
    ItemScope, ItemSpec, NamedRule, NamedSchema, NamedSpec, ShapeSpec, TitleSlot, ValueType,
};
use super::names::{
    entry_maximum, named_from, names_fit, names_resolve_where_they_stand, DeclarationSpec, EntrySpec, NamedEntry, NamedScope, NamedScopeSpec,
    Namespaces,
};
use crate::json::{Json, JsonSpec};
use crate::load_result::{
    error_specs, ContentOwner, ContentOwnerSpec, ContentRulePath, ErrorSpec, ItemRulePath,
    RuleIndex, RulePath, SchemaError, SchemaErrorKind, ScopePath, SourceRange,
};
use crate::loader::places::{error_at, plain_error, shape_error, shape_error_at};
use crate::scalar::{parse_frontmatter_scalar, scalar_of};
use crate::schema::{Matcher, NonEmpty, RefAnchor, RuleId};
use crate::text::{join2, join3, join5, same_text};

verus! {

/// The rules of the scope that a path leads to.
pub open spec fn rules_at(rules: Seq<NamedSpec>, scope: Seq<RuleIndex>) -> Option<Seq<NamedSpec>>
    decreases scope.len(),
{
    if scope.len() == 0 {
        Some(rules)
    } else if scope[0].0 < rules.len() {
        rules_at(child_rules(rules[scope[0].0 as int].children), scope.skip(1))
    } else {
        None
    }
}

/// The rule at a path.
pub open spec fn rule_at(rules: Seq<NamedSpec>, path: (Seq<RuleIndex>, RuleIndex)) -> Option<
    NamedSpec,
> {
    match rules_at(rules, path.0) {
        Some(siblings) => if path.1.0 < siblings.len() {
            Some(siblings[path.1.0 as int])
        } else {
            None
        },
        None => None,
    }
}

/// The rules of the scope that a path leads to.
pub fn rules_at_scope<'s>(schema: &'s NamedSchema, scope: &ScopePath) -> (rules: Option<
    &'s [NamedRule],
>)
    ensures
        rules is Some <==> rules_at(child_rules(schema.document@.root), scope@) is Some,
        rules matches Some(rules) ==> rules_at(child_rules(schema.document@.root), scope@) == Some(
            named_specs(rules@),
        ),
{
    let ghost root = child_rules(schema.document@.root);
    let mut rules = schema.document.addressed_root_rules();
    let mut at: usize = 0;
    assert(scope@.skip(0) =~= scope@);
    while at < scope.0.len()
        invariant
            at <= scope@.len(),
            rules_at(root, scope@) == rules_at(named_specs(rules@), scope@.skip(at as int)),
            root == child_rules(schema.document@.root),
        decreases scope.0.len() - at,
    {
        let index = scope.0[at].0;
        assert(scope@.skip(at as int).skip(1) =~= scope@.skip(at + 1));
        assert(scope@.skip(at as int)[0] == scope@[at as int]);
        if index >= rules.len() {
            return None;
        }
        assert(named_specs(rules@)[index as int] == named_spec(rules@[index as int]));
        rules = rules[index].children.rules();
        at += 1;
    }
    Some(rules)
}

/// The rule at a path.
fn section_rule_at_path<'s>(schema: &'s NamedSchema, path: &RulePath) -> (rule: Option<
    &'s NamedRule,
>)
    ensures
        rule is Some <==> rule_at(child_rules(schema.document@.root), path@) is Some,
        rule matches Some(rule) ==> rule_at(child_rules(schema.document@.root), path@) == Some(
            named_spec(*rule),
        ),
{
    match rules_at_scope(schema, &path.scope) {
        Some(rules) => if path.index.0 < rules.len() {
            assert(named_specs(rules@)[path.index.0 as int] == named_spec(
                rules@[path.index.0 as int],
            ));
            Some(&rules[path.index.0])
        } else {
            None
        },
        None => None,
    }
}

/// The rules on the preamble of an owner.
pub open spec fn content_at(shape: ShapeSpec, owner: ContentOwnerSpec) -> Option<
    Seq<ContentSpec>,
> {
    match owner {
        ContentOwnerSpec::Document => shape.document_content,
        ContentOwnerSpec::Title => shape.title_content,
        ContentOwnerSpec::Rule(path) => match rule_at(child_rules(shape.root), path) {
            Some(rule) => rule.content,
            None => None,
        },
    }
}

/// The content rule at a path.
pub open spec fn content_rule_at(shape: ShapeSpec, path: (ContentOwnerSpec, usize)) -> Option<
    ContentSpec,
> {
    match content_at(shape, path.0) {
        Some(rules) => if path.1 < rules.len() {
            Some(rules[path.1 as int])
        } else {
            None
        },
        None => None,
    }
}

/// The item rule at a path.
pub open spec fn item_rule_at(
    shape: ShapeSpec,
    path: ((ContentOwnerSpec, usize), usize),
) -> Option<ItemSpec> {
    match content_rule_at(shape, path.0) {
        Some(rule) => match rule.block {
            BlockSpec::List(_, Some(items)) => if path.1 < items.len() {
                Some(items[path.1 as int])
            } else {
                None
            },
            _ => None,
        },
        None => None,
    }
}

/// The content rules of a scope.
fn content_rules(scope: &ContentScope) -> (rules: &[ContentRule])
    ensures
        match scope@ {
            Some(expected) => content_rule_specs(rules@) == expected,
            None => rules@.len() == 0,
        },
{
    match scope {
        ContentScope::Omitted => {
            let none: &[ContentRule] = &[];
            none
        },
        ContentScope::Declared(rules) => rules.as_slice(),
    }
}

/// The content rule at a path.
fn content_rule_at_path<'s>(schema: &'s NamedSchema, path: &ContentRulePath) -> (rule: Option<
    &'s ContentRule,
>)
    ensures
        rule is Some <==> content_rule_at(schema.document@, path@) is Some,
        rule matches Some(rule) ==> content_rule_at(schema.document@, path@) == Some(rule@),
{
    let scope = match &path.owner {
        ContentOwner::Document => match &schema.document {
            DocumentShape::Outline { content, .. } => content,
            DocumentShape::Title(TitleSlot::Forbidden { content, .. }) => content,
            DocumentShape::Title(TitleSlot::Required { .. }) => {
                return None;
            },
        },
        ContentOwner::Title => match &schema.document {
            DocumentShape::Outline { .. } => {
                return None;
            },
            DocumentShape::Title(TitleSlot::Forbidden { content, .. }) => content,
            DocumentShape::Title(TitleSlot::Required { content, .. }) => content,
        },
        ContentOwner::Rule(rule) => match section_rule_at_path(schema, rule) {
            Some(rule) => &rule.content,
            None => {
                return None;
            },
        },
    };
    assert(scope@ == content_at(schema.document@, path.owner@));
    let rules = content_rules(scope);
    if path.index < rules.len() {
        assert(content_rule_specs(rules@)[path.index as int] == rules@[path.index as int]@);
        Some(&rules[path.index])
    } else {
        None
    }
}

/// The item rule at a path.
fn item_rule_at_path<'s>(schema: &'s NamedSchema, path: &ItemRulePath) -> (rule: Option<
    &'s ItemRule,
>)
    ensures
        rule is Some <==> item_rule_at(schema.document@, path@) is Some,
        rule matches Some(rule) ==> item_rule_at(schema.document@, path@) == Some(rule@),
{
    match content_rule_at_path(schema, &path.content) {
        Some(ContentRule::List { items: ItemScope::Declared(items), .. }) => {
            assert(item_rule_specs(items@).len() == items@.len());
            if path.index < items.len() {
                assert(item_rule_specs(items@)[path.index as int] == items@[path.index as int]@);
                Some(&items[path.index])
            } else {
                None
            }
        },
        _ => None,
    }
}

/// Reduces a selector to the occurrence that it can denote.
///
/// On a rule that matches once at most, the first position selects that match
/// whenever there is one, which is just what no subscript does: the two denote
/// one concrete scope. Any other position is left alone.
pub open spec fn reduced(selector: SelectorSpec, singular: bool) -> SelectorSpec {
    match selector {
        SelectorSpec::ExplicitIndex(index) => if singular && index == 0 {
            SelectorSpec::ImplicitSingular
        } else {
            selector
        },
        _ => selector,
    }
}

fn scope_equivalent(position: &Option<Subscript>, singular: bool) -> (selector: ScopeSelector)
    ensures
        selector@ == reduced(written(position_spec(*position)), singular),
{
    match position {
        Some(index) => if singular && index.is_zero() {
            ScopeSelector::ImplicitSingular
        } else {
            ScopeSelector::ExplicitIndex(index.copy())
        },
        None => ScopeSelector::ImplicitSingular,
    }
}

/// The selector that a step's position spells.
pub open spec fn written(position: Option<nat>) -> SelectorSpec {
    match position {
        Some(index) => SelectorSpec::ExplicitIndex(index),
        None => SelectorSpec::ImplicitSingular,
    }
}

/// The key that a relative locator inherits from the path to its scope.
pub open spec fn attachment_key(rules: Seq<NamedSpec>, scope: Seq<RuleIndex>) -> Seq<KeyStep>
    decreases scope.len(),
{
    if scope.len() == 0 || scope[0].0 >= rules.len() {
        Seq::empty()
    } else {
        let rule = rules[scope[0].0 as int];
        seq![
            KeyStep {
                index: scope[0].0,
                selector: if is_singular(rule.cardinality.max) {
                    SelectorSpec::ImplicitSingular
                } else {
                    SelectorSpec::CurrentOccurrence
                },
            },
        ] + attachment_key(child_rules(rule.children), scope.skip(1))
    }
}

/// The key that a relative locator inherits from the path to its scope.
fn attachment_identity(schema: &NamedSchema, scope: &ScopePath) -> (key: Vec<CanonicalStep>)
    ensures
        key_specs(key@) == attachment_key(child_rules(schema.document@.root), scope@),
{
    let ghost root = child_rules(schema.document@.root);
    let mut rules = schema.document.addressed_root_rules();
    let mut key: Vec<CanonicalStep> = Vec::new();
    let mut at: usize = 0;
    assert(scope@.skip(0) =~= scope@);
    assert(key_specs(key@) + attachment_key(root, scope@) =~= attachment_key(root, scope@));
    while at < scope.0.len()
        invariant
            at <= scope@.len(),
            attachment_key(root, scope@) == key_specs(key@) + attachment_key(
                named_specs(rules@),
                scope@.skip(at as int),
            ),
            root == child_rules(schema.document@.root),
        decreases scope.0.len() - at,
    {
        let index = scope.0[at].0;
        assert(scope@.skip(at as int)[0] == scope@[at as int]);
        assert(scope@.skip(at as int).skip(1) =~= scope@.skip(at + 1));
        if index >= rules.len() {
            assert(attachment_key(root, scope@) =~= key_specs(key@));
            return key;
        }
        assert(named_specs(rules@)[index as int] == named_spec(rules@[index as int]));
        let rule = &rules[index];
        let selector = if is_singular_maximum(rule.cardinality.max) {
            ScopeSelector::ImplicitSingular
        } else {
            ScopeSelector::CurrentOccurrence
        };
        let ghost before = key_specs(key@);
        let step = CanonicalStep { index, selector };
        key.push(step);
        rules = rule.children.rules();
        proof {
            assert(key_specs(key@) =~= before.push(step@));
            let rest = attachment_key(named_specs(rules@), scope@.skip(at + 1));
            assert(before + (seq![step@] + rest) =~= before.push(step@) + rest);
        }
        at += 1;
    }
    assert(attachment_key(root, scope@) =~= key_specs(key@));
    key
}

/// Whether the scope that a key leads to assigns headings in the order of its
/// rules.
pub open spec fn ordered_at(
    rules: Seq<NamedSpec>,
    ordered: bool,
    key: Seq<KeyStep>,
) -> bool
    decreases key.len(),
{
    if key.len() == 0 || key[0].index >= rules.len() {
        ordered
    } else {
        let rule = rules[key[0].index as int];
        ordered_at(child_rules(rule.children), child_is_ordered(rule.children), key.skip(1))
    }
}

/// Whether the scope that a key leads to assigns headings in the order of its
/// rules.
pub fn scope_is_ordered(schema: &NamedSchema, key: &Vec<CanonicalStep>) -> (ordered: bool)
    ensures
        ordered == ordered_at(
            child_rules(schema.document@.root),
            child_is_ordered(schema.document@.root),
            key_specs(key@),
        ),
{
    let ghost root = child_rules(schema.document@.root);
    let ghost steps = key_specs(key@);
    let ghost expected = ordered_at(root, child_is_ordered(schema.document@.root), steps);
    let mut rules = schema.document.addressed_root_rules();
    let mut ordered = schema.document.root_is_ordered();
    let mut at: usize = 0;
    assert(steps.skip(0) =~= steps);
    while at < key.len()
        invariant
            at <= key@.len(),
            steps == key_specs(key@),
            expected == ordered_at(
                child_rules(schema.document@.root),
                child_is_ordered(schema.document@.root),
                key_specs(key@),
            ),
            expected == ordered_at(named_specs(rules@), ordered, steps.skip(at as int)),
        decreases key.len() - at,
    {
        let index = key[at].index;
        assert(steps.skip(at as int)[0] == key@[at as int]@);
        assert(steps.skip(at as int).skip(1) =~= steps.skip(at + 1));
        if index >= rules.len() {
            return ordered;
        }
        assert(named_specs(rules@)[index as int] == named_spec(rules@[index as int]));
        ordered = rules[index].children.is_ordered();
        rules = rules[index].children.rules();
        at += 1;
    }
    ordered
}

/// What locators are bound against.
pub struct Binder<'a> {
    /// The schema.
    pub schema: &'a NamedSchema,
    /// The names of its scopes.
    pub names: &'a Namespaces,
    /// What spellings of locators say.
    pub locators: &'a Locators,
    /// The scope that holds the constraint.
    pub scope: &'a ScopePath,
    /// Where the constraint stands.
    pub range: SourceRange,
}

/// What a binder is.
pub struct BinderSpec {
    /// The shape of the schema's document.
    pub shape: ShapeSpec,
    /// Whether case counts.
    pub match_case: bool,
    /// The typed values of the frontmatter.
    pub captures: Seq<(Seq<char>, ExportSpec)>,
    /// See [`Binder::names`].
    pub names: Seq<(NamedScopeSpec, Seq<DeclarationSpec>)>,
    /// See [`Binder::locators`].
    pub locators: LocatorsSpec,
    /// See [`Binder::scope`].
    pub scope: Seq<RuleIndex>,
    /// See [`Binder::range`].
    pub range: SourceRange,
}

impl<'a> View for Binder<'a> {
    type V = BinderSpec;

    open spec fn view(&self) -> BinderSpec {
        BinderSpec {
            shape: self.schema.document@,
            match_case: self.schema.options.match_case,
            captures: policy_exports(self.schema.frontmatter@),
            names: self.names@,
            locators: self.locators@,
            scope: self.scope@,
            range: self.range,
        }
    }
}

impl BinderSpec {
    /// The rules at the root.
    pub open spec fn root(self) -> Seq<NamedSpec> {
        child_rules(self.shape.root)
    }
}

/// Where a locator stands in the schema, which decides its next step.
pub enum CursorSpec {
    /// Before its first step.
    SectionScope,
    /// At a section rule.
    Section((Seq<RuleIndex>, RuleIndex)),
    /// At a content rule.
    Content((ContentOwnerSpec, usize)),
    /// At an item rule, by its name.
    NamedItem(((ContentOwnerSpec, usize), usize)),
    /// At the paragraphs of a section.
    Paragraphs,
    /// At the lists of a section, by these rules.
    Lists(Seq<(ContentOwnerSpec, usize)>),
    /// At the items of lists.
    Items,
}

/// A name that a locator has passed.
#[verifier::ext_equal]
pub struct PassedSpec {
    /// Its spelling.
    pub spelling: Seq<char>,
    /// Whether a subscript narrows it.
    pub narrowed: bool,
    /// Whether what it names matches once at most.
    pub singular: bool,
}

/// How far a locator has come.
#[verifier::ext_equal]
pub struct WalkSpec {
    /// The namespace that it has reached.
    pub scope: NamedScopeSpec,
    /// Where it stands.
    pub cursor: CursorSpec,
    /// The key of what it has passed, as written.
    pub identity: Seq<KeyStep>,
    /// The same with each subscript reduced.
    pub scope_key: Seq<KeyStep>,
    /// The rules that it has passed.
    pub steps: Seq<BoundStepSpec>,
    /// The names that it has passed.
    pub names: Seq<PassedSpec>,
}

/// What binding a locator yields.
#[verifier::ext_equal]
pub struct BoundSpec {
    /// What it is bound to, if it could be.
    pub operand: Option<OperandSpec>,
    /// The errors.
    pub errors: Seq<ErrorSpec>,
}

/// A locator that cannot be bound, for one reason.
pub open spec fn unbound(error: ErrorSpec) -> BoundSpec {
    BoundSpec { operand: None, errors: seq![error] }
}

/// A locator whose names and rules do not fit together.
pub open spec fn lost() -> BoundSpec {
    BoundSpec { operand: None, errors: Seq::empty() }
}

/// A locator that is bound.
pub open spec fn bound(operand: OperandSpec) -> BoundSpec {
    BoundSpec { operand: Some(operand), errors: Seq::empty() }
}

/// Either how far a locator has come, or what it has come to.
pub enum WalkResult {
    /// It goes on.
    At(WalkSpec),
    /// It has ended.
    Ended(BoundSpec),
}

/// The error of a name that does not resolve.
pub open spec fn unresolved(binder: BinderSpec, source: Seq<char>, reason: Seq<char>) -> ErrorSpec {
    plain_error(
        SchemaErrorKind::UnresolvedRef,
        binder.range,
        "unresolved ref `"@ + source + "`"@ + reason,
    )
}

/// The error of a step that may match more than once before the last.
pub open spec fn plural_error(
    binder: BinderSpec,
    source: Seq<char>,
    step: Seq<char>,
    structural: bool,
    ordered: bool,
) -> ErrorSpec {
    plain_error(
        if ordered {
            SchemaErrorKind::OrderedScopeMismatch
        } else {
            SchemaErrorKind::InvalidDocumentShape
        },
        binder.range,
        if structural {
            "ref `"@ + source + "` descends through plural step `/"@ + step
                + "`; narrow it with `[i]`"@
        } else {
            "ref `"@ + source + "` descends through the repeatable rule `"@ + step
                + "`; narrow that step with `[i]`"@
        },
    )
}

/// The first of the first `count` names that is neither narrowed nor singular.
pub open spec fn first_plural(names: Seq<PassedSpec>, count: int) -> Option<int>
    decreases count,
{
    if count <= 0 {
        None
    } else {
        match first_plural(names, count - 1) {
            Some(at) => Some(at),
            None => if !names[count - 1].narrowed && !names[count - 1].singular {
                Some(count - 1)
            } else {
                None
            },
        }
    }
}

/// The type of the first capture of that name, from `from` on.
pub open spec fn capture_type(
    captures: Seq<(Seq<char>, ValueType)>,
    name: Seq<char>,
    from: int,
) -> Option<ValueType>
    decreases captures.len() - from,
{
    if from < 0 || from >= captures.len() {
        None
    } else if captures[from].0 == name {
        Some(captures[from].1)
    } else {
        capture_type(captures, name, from + 1)
    }
}

/// What a locator that ends at a capture is bound to.
pub open spec fn capture_bound(
    binder: BinderSpec,
    locator: OutlineSpec,
    state: WalkSpec,
    names: Seq<PassedSpec>,
    at: int,
    rule: (Seq<RuleIndex>, RuleIndex),
    name: Seq<char>,
    ordered: bool,
) -> BoundSpec {
    let spelling = locator.names[at].name;
    if at + 1 != locator.names.len() || locator.structural.len() > 0 || locator.text is Some {
        unbound(
            shape_error(
                binder.range,
                "ref `"@ + locator.source + "` continues past the declared capture `"@ + spelling
                    + "`, which is a terminal value"@,
            ),
        )
    } else {
        match first_plural(names, names.len() - 1) {
            Some(plural) => unbound(
                plural_error(binder, locator.source, names[plural].spelling, false, ordered),
            ),
            None => match rule_at(binder.root(), rule) {
                None => lost(),
                Some(declaring) => match capture_type(declaring.captures, name, 0) {
                    None => lost(),
                    Some(value_type) => bound(
                        OperandSpec::Capture(
                            RuleLocatorSpec {
                                source: locator.source,
                                anchor: locator.anchor,
                                steps: state.steps,
                            },
                            name,
                            value_type,
                            locator.names[at].position,
                        ),
                    ),
                },
            },
        }
    }
}

/// Where the name step at `at` takes a locator.
pub open spec fn name_step(
    binder: BinderSpec,
    locator: OutlineSpec,
    state: WalkSpec,
    at: int,
    ordered: bool,
) -> WalkResult {
    let step = locator.names[at];
    match named_from(binder.names, state.scope, step.name, 0) {
        None => WalkResult::Ended(unbound(unresolved(binder, locator.source, Seq::empty()))),
        Some(declaration) => {
            let names = state.names.push(
                PassedSpec {
                    spelling: step.name,
                    narrowed: step.position is Some,
                    singular: match entry_maximum(declaration.entry) {
                        Some(maximum) => is_singular(maximum),
                        None => false,
                    },
                },
            );
            match declaration.entry {
                EntrySpec::Section(path, _) => match rule_at(binder.root(), path) {
                    None => WalkResult::Ended(lost()),
                    Some(rule) => match rule.id {
                        None => WalkResult::Ended(lost()),
                        Some(id) => {
                            let selector = written(step.position);
                            WalkResult::At(
                                WalkSpec {
                                    scope: NamedScopeSpec::Sections(path.0.push(path.1)),
                                    cursor: CursorSpec::Section(path),
                                    identity: state.identity.push(
                                        KeyStep { index: path.1.0, selector },
                                    ),
                                    scope_key: state.scope_key.push(
                                        KeyStep {
                                            index: path.1.0,
                                            selector: reduced(
                                                selector,
                                                is_singular(rule.cardinality.max),
                                            ),
                                        },
                                    ),
                                    steps: state.steps.push(
                                        BoundStepSpec {
                                            id,
                                            index: path.1,
                                            position: step.position,
                                        },
                                    ),
                                    names,
                                },
                            )
                        },
                    },
                },
                EntrySpec::Content(path, _) => WalkResult::At(
                    WalkSpec {
                        scope: NamedScopeSpec::Content(path),
                        cursor: CursorSpec::Content(path),
                        names,
                        ..state
                    },
                ),
                EntrySpec::Item(path, _) => WalkResult::At(
                    WalkSpec {
                        scope: NamedScopeSpec::Item(path),
                        cursor: CursorSpec::NamedItem(path),
                        names,
                        ..state
                    },
                ),
                EntrySpec::Capture(rule, name) => WalkResult::Ended(
                    capture_bound(binder, locator, state, names, at, rule, name, ordered),
                ),
            }
        },
    }
}

/// Where a locator starts.
pub open spec fn walk_start(binder: BinderSpec, anchor: RefAnchor) -> WalkSpec {
    let key = match anchor {
        RefAnchor::SchemaRoot => Seq::empty(),
        RefAnchor::CurrentScope => attachment_key(binder.root(), binder.scope),
    };
    WalkSpec {
        scope: NamedScopeSpec::Sections(
            match anchor {
                RefAnchor::SchemaRoot => Seq::empty(),
                RefAnchor::CurrentScope => binder.scope,
            },
        ),
        cursor: CursorSpec::SectionScope,
        identity: key,
        scope_key: key,
        steps: Seq::empty(),
        names: Seq::empty(),
    }
}

/// Where the first `count` name steps take a locator.
pub open spec fn walk(
    binder: BinderSpec,
    locator: OutlineSpec,
    ordered: bool,
    count: int,
) -> WalkResult
    decreases count,
{
    if count <= 0 {
        WalkResult::At(walk_start(binder, locator.anchor))
    } else {
        match walk(binder, locator, ordered, count - 1) {
            WalkResult::At(state) => name_step(binder, locator, state, count - 1, ordered),
            ended => ended,
        }
    }
}

/// Whether a content rule declares paragraphs.
pub open spec fn declares_paragraph(rule: ContentSpec) -> bool {
    match rule.block {
        BlockSpec::Paragraph => true,
        BlockSpec::OneOf(blocks) => exists|at: int|
            0 <= at < blocks.len() && #[trigger] blocks[at] == BlockMatcher::Paragraph,
        _ => false,
    }
}

/// Whether a content rule declares lists.
pub open spec fn declares_list(rule: ContentSpec) -> bool {
    match rule.block {
        BlockSpec::List(_, _) => true,
        BlockSpec::OneOf(blocks) => exists|at: int|
            0 <= at < blocks.len() && (#[trigger] blocks[at]) is List,
        _ => false,
    }
}

/// Whether a content rule declares items.
pub open spec fn declares_items(rule: ContentSpec) -> bool {
    rule.block matches BlockSpec::List(_, Some(items)) && items.len() > 0
}

/// The paths of the first `count` content rules of a section that are for
/// lists.
pub open spec fn list_paths(
    rules: Seq<ContentSpec>,
    section: (Seq<RuleIndex>, RuleIndex),
    count: int,
) -> Seq<(ContentOwnerSpec, usize)>
    decreases count,
{
    if count <= 0 {
        Seq::empty()
    } else {
        let before = list_paths(rules, section, count - 1);
        if rules[count - 1].block is List {
            before.push((ContentOwnerSpec::Rule(section), (count - 1) as usize))
        } else {
            before
        }
    }
}

/// The content rules of the section at a cursor.
pub open spec fn section_content(binder: BinderSpec, cursor: CursorSpec) -> Seq<ContentSpec> {
    match cursor {
        CursorSpec::Section(path) => match rule_at(binder.root(), path) {
            Some(rule) => match rule.content {
                Some(rules) => rules,
                None => Seq::empty(),
            },
            None => Seq::empty(),
        },
        _ => Seq::empty(),
    }
}

/// Whether some content rule declares paragraphs.
pub open spec fn some_paragraph(rules: Seq<ContentSpec>) -> bool {
    exists|at: int| 0 <= at < rules.len() && declares_paragraph(#[trigger] rules[at])
}

/// Whether some content rule declares lists.
pub open spec fn some_list(rules: Seq<ContentSpec>) -> bool {
    exists|at: int| 0 <= at < rules.len() && declares_list(#[trigger] rules[at])
}

/// Whether the content rule at some path declares items.
pub open spec fn some_items(binder: BinderSpec, paths: Seq<(ContentOwnerSpec, usize)>) -> bool {
    exists|at: int|
        0 <= at < paths.len() && match content_rule_at(binder.shape, #[trigger] paths[at]) {
            Some(rule) => declares_items(rule),
            None => false,
        }
}

/// Where a structural step takes a cursor, if something is declared there.
pub open spec fn structural_cursor(
    binder: BinderSpec,
    cursor: CursorSpec,
    kind: Seq<char>,
) -> Option<CursorSpec> {
    if kind == "p"@ {
        if some_paragraph(section_content(binder, cursor)) {
            Some(CursorSpec::Paragraphs)
        } else {
            None
        }
    } else if kind == "list"@ {
        let rules = section_content(binder, cursor);
        match cursor {
            CursorSpec::Section(path) => if some_list(rules) {
                Some(CursorSpec::Lists(list_paths(rules, path, rules.len() as int)))
            } else {
                None
            },
            _ => None,
        }
    } else {
        let declared = match cursor {
            CursorSpec::Content(path) => some_items(binder, seq![path]),
            CursorSpec::Lists(paths) => some_items(binder, paths),
            _ => false,
        };
        if declared {
            Some(CursorSpec::Items)
        } else {
            None
        }
    }
}

/// Where the first `count` structural steps take a locator.
pub open spec fn structural_walk(
    binder: BinderSpec,
    locator: OutlineSpec,
    cursor: CursorSpec,
    count: int,
) -> Result<CursorSpec, ErrorSpec>
    decreases count,
{
    if count <= 0 {
        Ok(cursor)
    } else {
        match structural_walk(binder, locator, cursor, count - 1) {
            Err(error) => Err(error),
            Ok(before) => {
                let kind = locator.structural[count - 1].name;
                if kind != "p"@ && kind != "list"@ && kind != "item"@ {
                    Err(
                        unresolved(
                            binder,
                            locator.source,
                            ": structural kind `/"@ + kind + "` is not allocated"@,
                        ),
                    )
                } else {
                    match structural_cursor(binder, before, kind) {
                        Some(after) => Ok(after),
                        None => Err(
                            unresolved(
                                binder,
                                locator.source,
                                ": no specific `/"@ + kind + "` declaration exists here"@,
                            ),
                        ),
                    }
                }
            },
        }
    }
}

/// The first of the first `count` structural steps that is not narrowed though
/// something follows it.
pub open spec fn first_open(steps: Seq<StepSpec>, followed: bool, count: int) -> Option<int>
    decreases count,
{
    if count <= 0 {
        None
    } else {
        match first_open(steps, followed, count - 1) {
            Some(at) => Some(at),
            None => if (count < steps.len() || followed) && steps[count - 1].position is None {
                Some(count - 1)
            } else {
                None
            },
        }
    }
}

/// What the text of a named item is bound to.
pub open spec fn item_text_bound(
    binder: BinderSpec,
    source: Seq<char>,
    path: ((ContentOwnerSpec, usize), usize),
    name: PassedSpec,
) -> BoundSpec {
    match item_rule_at(binder.shape, path) {
        None => unbound(
            shape_error(binder.range, "ref `"@ + source + "` has no named item before `/text`"@),
        ),
        Some(item) => if item.matcher is Any {
            unbound(
                shape_error(
                    binder.range,
                    "ref `"@ + source + "` uses `/text` after a wildcard item rule"@,
                ),
            )
        } else if !name.narrowed && !name.singular {
            unbound(
                shape_error(
                    binder.range,
                    "ref `"@ + source + "` uses `/text` after plural item rule `"@ + name.spelling
                        + "`; narrow it with `[i]`"@,
                ),
            )
        } else {
            bound(OperandSpec::ItemTextTerminal)
        },
    }
}

/// What the text at the end of a locator is bound to.
pub open spec fn text_bound(
    binder: BinderSpec,
    locator: OutlineSpec,
    state: WalkSpec,
    cursor: CursorSpec,
    position: Option<nat>,
) -> BoundSpec {
    match cursor {
        CursorSpec::Section(_) => if state.steps.len() == 0 {
            unbound(
                shape_error(
                    binder.range,
                    "ref `"@ + locator.source + "` has no bound heading"@,
                ),
            )
        } else {
            bound(
                OperandSpec::IntrinsicText(
                    RuleLocatorSpec {
                        source: locator.source,
                        anchor: locator.anchor,
                        steps: state.steps,
                    },
                    position,
                ),
            )
        },
        CursorSpec::NamedItem(path) => if state.names.len() > 0 {
            item_text_bound(binder, locator.source, path, state.names.last())
        } else {
            unbound(
                shape_error(
                    binder.range,
                    "ref `"@ + locator.source + "` uses `/text` after structural `/item`"@,
                ),
            )
        },
        CursorSpec::Items => unbound(
            shape_error(
                binder.range,
                "ref `"@ + locator.source + "` uses `/text` after structural `/item`"@,
            ),
        ),
        _ => unbound(
            shape_error(
                binder.range,
                "ref `"@ + locator.source + "` has no `/text` intrinsic at this terminal"@,
            ),
        ),
    }
}

/// How many of a locator's names must be singular: all but the last step, which
/// alone may stay plural. The text of a named item has rules of its own.
pub open spec fn singular_names(
    locator: OutlineSpec,
    state: WalkSpec,
    cursor: CursorSpec,
) -> int {
    if locator.structural.len() == 0 && (locator.text is None || cursor is NamedItem) {
        state.names.len() - 1
    } else {
        state.names.len() as int
    }
}

/// What a locator that has taken all its steps is bound to.
pub open spec fn terminal_bound(
    binder: BinderSpec,
    locator: OutlineSpec,
    state: WalkSpec,
    cursor: CursorSpec,
    ordered: bool,
) -> BoundSpec {
    match first_plural(state.names, singular_names(locator, state, cursor)) {
        Some(at) => unbound(
            plural_error(binder, locator.source, state.names[at].spelling, false, ordered),
        ),
        None => match first_open(
            locator.structural,
            locator.text is Some,
            locator.structural.len() as int,
        ) {
            Some(at) => unbound(
                plural_error(binder, locator.source, locator.structural[at].name, true, ordered),
            ),
            None => match locator.text {
                Some(position) => text_bound(binder, locator, state, cursor, position),
                None => if cursor is Section {
                    if state.steps.len() == 0 {
                        lost()
                    } else {
                        bound(
                            OperandSpec::Rule(
                                RuleLocatorSpec {
                                    source: locator.source,
                                    anchor: locator.anchor,
                                    steps: state.steps,
                                },
                                state.identity,
                                state.scope_key,
                            ),
                        )
                    }
                } else {
                    bound(OperandSpec::StructuralTerminal)
                },
            },
        },
    }
}

/// What a locator in the outline is bound to. That a step is plural is said
/// only of a locator that binds otherwise.
pub open spec fn outline_bound(
    binder: BinderSpec,
    locator: OutlineSpec,
    ordered: bool,
) -> BoundSpec {
    match walk(binder, locator, ordered, locator.names.len() as int) {
        WalkResult::Ended(ended) => ended,
        WalkResult::At(state) => match structural_walk(
            binder,
            locator,
            state.cursor,
            locator.structural.len() as int,
        ) {
            Err(error) => unbound(error),
            Ok(cursor) => terminal_bound(binder, locator, state, cursor, ordered),
        },
    }
}

/// Where a locator stands in the schema.
enum Cursor {
    SectionScope,
    Section(RulePath),
    Content(ContentRulePath),
    NamedItem(ItemRulePath),
    Paragraphs,
    Lists(Vec<ContentRulePath>),
    Items,
}

spec fn content_paths(paths: Seq<ContentRulePath>) -> Seq<(ContentOwnerSpec, usize)> {
    paths.map_values(|path: ContentRulePath| path@)
}

spec fn cursor_spec(cursor: Cursor) -> CursorSpec {
    match cursor {
        Cursor::SectionScope => CursorSpec::SectionScope,
        Cursor::Section(path) => CursorSpec::Section(path@),
        Cursor::Content(path) => CursorSpec::Content(path@),
        Cursor::NamedItem(path) => CursorSpec::NamedItem(path@),
        Cursor::Paragraphs => CursorSpec::Paragraphs,
        Cursor::Lists(paths) => CursorSpec::Lists(content_paths(paths@)),
        Cursor::Items => CursorSpec::Items,
    }
}

/// A name that a locator has passed.
struct Passed {
    spelling: String,
    narrowed: bool,
    singular: bool,
}

spec fn passed_spec(passed: Passed) -> PassedSpec {
    PassedSpec {
        spelling: passed.spelling@,
        narrowed: passed.narrowed,
        singular: passed.singular,
    }
}

spec fn passed_specs(names: Seq<Passed>) -> Seq<PassedSpec> {
    names.map_values(|name: Passed| passed_spec(name))
}

/// How far a locator has come.
struct Walk {
    scope: NamedScope,
    cursor: Cursor,
    identity: Vec<CanonicalStep>,
    scope_key: Vec<CanonicalStep>,
    steps: Vec<BoundRuleStep>,
    names: Vec<Passed>,
}

spec fn walk_spec(walk: Walk) -> WalkSpec {
    WalkSpec {
        scope: walk.scope@,
        cursor: cursor_spec(walk.cursor),
        identity: key_specs(walk.identity@),
        scope_key: key_specs(walk.scope_key@),
        steps: bound_steps(walk.steps@),
        names: passed_specs(walk.names@),
    }
}

/// Either how far a locator has come, or what it has come to.
enum Walked {
    At(Walk),
    Ended(Option<BoundOperand>),
}

spec fn operand_spec(operand: Option<BoundOperand>) -> Option<OperandSpec> {
    match operand {
        None => None,
        Some(operand) => Some(operand@),
    }
}

fn find_plural(names: &Vec<Passed>, count: usize) -> (found: Option<usize>)
    requires
        count <= names@.len(),
    ensures
        found is Some <==> first_plural(passed_specs(names@), count as int) is Some,
        found matches Some(at) ==> at < count && first_plural(
            passed_specs(names@),
            count as int,
        ) == Some(at as int),
{
    let ghost specs = passed_specs(names@);
    let mut found: Option<usize> = None;
    let mut at: usize = 0;
    while at < count
        invariant
            at <= count <= names@.len(),
            specs == passed_specs(names@),
            found is Some <==> first_plural(specs, at as int) is Some,
            found matches Some(found) ==> found < at && first_plural(specs, at as int) == Some(
                found as int,
            ),
        decreases count - at,
    {
        assert(specs[at as int] == passed_spec(names@[at as int]));
        if found.is_none() && !names[at].narrowed && !names[at].singular {
            found = Some(at);
        }
        at += 1;
    }
    found
}

fn find_capture_type(captures: &Captures, name: &str) -> (value_type: Option<ValueType>)
    ensures
        value_type == capture_type(capture_specs(captures@), name@, 0),
{
    let ghost specs = capture_specs(captures@);
    let mut at: usize = 0;
    while at < captures.len()
        invariant
            at <= captures@.len(),
            specs == capture_specs(captures@),
            capture_type(specs, name@, 0) == capture_type(specs, name@, at as int),
        decreases captures.len() - at,
    {
        assert(specs[at as int] == (captures@[at as int].0@, captures@[at as int].1));
        if same_text(captures[at].0.as_str(), name) {
            return Some(captures[at].1);
        }
        at += 1;
    }
    None
}

/// Reports a step that may match more than once before the last.
fn plural_step_error<'a>(
    binder: &Binder<'a>,
    source: &str,
    step: &str,
    structural: bool,
    ordered: bool,
    errors: &mut Vec<SchemaError>,
)
    ensures
        error_specs(final(errors)@) == error_specs(old(errors)@).push(
            plural_error(binder@, source@, step@, structural, ordered),
        ),
{
    let kind = if ordered {
        SchemaErrorKind::OrderedScopeMismatch
    } else {
        SchemaErrorKind::InvalidDocumentShape
    };
    let message = if structural {
        join5(
            "ref `",
            source,
            "` descends through plural step `/",
            step,
            "`; narrow it with `[i]`",
        )
    } else {
        join5(
            "ref `",
            source,
            "` descends through the repeatable rule `",
            step,
            "`; narrow that step with `[i]`",
        )
    };
    error_at(errors, kind, binder.range, message);
}

/// Reports a name that does not resolve.
fn unresolved_error<'a>(
    binder: &Binder<'a>,
    source: &str,
    reason: &str,
    errors: &mut Vec<SchemaError>,
)
    ensures
        error_specs(final(errors)@) == error_specs(old(errors)@).push(
            unresolved(binder@, source@, reason@),
        ),
{
    error_at(
        errors,
        SchemaErrorKind::UnresolvedRef,
        binder.range,
        join2(join3("unresolved ref `", source, "`").as_str(), reason),
    );
}

/// Binds a locator that ends at a capture.
fn bind_capture<'a>(
    binder: &Binder<'a>,
    locator: &OutlineLocator,
    steps: Vec<BoundRuleStep>,
    names: &Vec<Passed>,
    at: usize,
    position: &Option<Subscript>,
    rule: &RulePath,
    name: &str,
    ordered: bool,
    errors: &mut Vec<SchemaError>,
    Ghost(state): Ghost<WalkSpec>,
) -> (operand: Option<BoundOperand>)
    requires
        at < locator@.names.len(),
        locator@.names.len() <= usize::MAX,
        names@.len() > 0,
        bound_steps(steps@) == state.steps,
        position_spec(*position) == locator@.names[at as int].position,
        passed_specs(names@).last().spelling == locator@.names[at as int].name,
    ensures
        ({
            let expected = capture_bound(
                binder@,
                locator@,
                state,
                passed_specs(names@),
                at as int,
                rule@,
                name@,
                ordered,
            );
            &&& operand_spec(operand) == expected.operand
            &&& error_specs(final(errors)@) == error_specs(old(errors)@) + expected.errors
        }),
{
    let ghost expected = capture_bound(
        binder@,
        locator@,
        state,
        passed_specs(names@),
        at as int,
        rule@,
        name@,
        ordered,
    );
    let source = locator.source.as_str();
    let count = names.len();
    assert(passed_specs(names@).last() == passed_spec(names@[count - 1]));
    assert(locator@.names.len() == locator.names.rest@.len() + 1);
    if at != locator.names.rest.len() || locator.structural.len() > 0 || locator.text.is_some() {
        shape_error_at(
            errors,
            binder.range,
            join5(
                "ref `",
                source,
                "` continues past the declared capture `",
                names[count - 1].spelling.as_str(),
                "`, which is a terminal value",
            ),
        );
        assert(error_specs(errors@) =~= error_specs(old(errors)@) + expected.errors);
        return None;
    }
    if let Some(plural) = find_plural(names, count - 1) {
        assert(passed_specs(names@)[plural as int] == passed_spec(names@[plural as int]));
        plural_step_error(binder, source, names[plural].spelling.as_str(), false, ordered, errors);
        assert(error_specs(errors@) =~= error_specs(old(errors)@) + expected.errors);
        return None;
    }
    assert(error_specs(errors@) =~= error_specs(old(errors)@) + Seq::<ErrorSpec>::empty());
    let declaring = match section_rule_at_path(binder.schema, rule) {
        Some(declaring) => declaring,
        None => {
            return None;
        },
    };
    let value_type = match find_capture_type(&declaring.captures, name) {
        Some(value_type) => value_type,
        None => {
            return None;
        },
    };
    Some(
        BoundOperand::Capture(
            ResolvedRuleCaptureLocator {
                source: locator.source.clone(),
                anchor: locator.anchor,
                steps,
                name: name.to_owned(),
                value_type,
                position: copy_position(position),
            },
        ),
    )
}

spec fn walked_as(walked: Walked, expected: WalkResult) -> bool {
    match expected {
        WalkResult::At(state) => walked is At && walk_spec(walked->At_0) == state,
        WalkResult::Ended(ended) => walked is Ended && operand_spec(walked->Ended_0)
            == ended.operand,
    }
}

spec fn walk_errors(expected: WalkResult) -> Seq<ErrorSpec> {
    match expected {
        WalkResult::At(_) => Seq::empty(),
        WalkResult::Ended(ended) => ended.errors,
    }
}

/// Takes a name step to a section rule.
fn step_to_section<'a>(
    binder: &Binder<'a>,
    step: &NameStep,
    state: Walk,
    names: Vec<Passed>,
    path: &RulePath,
) -> (walked: Walked)
    ensures
        ({
            let before = walk_spec(state);
            walked_as(
                walked,
                match rule_at(binder@.root(), path@) {
                    None => WalkResult::Ended(lost()),
                    Some(rule) => match rule.id {
                        None => WalkResult::Ended(lost()),
                        Some(id) => WalkResult::At(
                            WalkSpec {
                                scope: NamedScopeSpec::Sections(path@.0.push(path@.1)),
                                cursor: CursorSpec::Section(path@),
                                identity: before.identity.push(
                                    KeyStep {
                                        index: path@.1.0,
                                        selector: written(step@.position),
                                    },
                                ),
                                scope_key: before.scope_key.push(
                                    KeyStep {
                                        index: path@.1.0,
                                        selector: reduced(
                                            written(step@.position),
                                            is_singular(rule.cardinality.max),
                                        ),
                                    },
                                ),
                                steps: before.steps.push(
                                    BoundStepSpec {
                                        id,
                                        index: path@.1,
                                        position: step@.position,
                                    },
                                ),
                                names: passed_specs(names@),
                            },
                        ),
                    },
                },
            )
        }),
{
    let rule = match section_rule_at_path(binder.schema, path) {
        Some(rule) => rule,
        None => {
            return Walked::Ended(None);
        },
    };
    let id = match &rule.id {
        Some(id) => RuleId(id.0.clone()),
        None => {
            return Walked::Ended(None);
        },
    };
    let selector = match &step.position {
        Some(index) => ScopeSelector::ExplicitIndex(index.copy()),
        None => ScopeSelector::ImplicitSingular,
    };
    let singular = is_singular_maximum(rule.cardinality.max);
    let key_step = CanonicalStep { index: path.index.0, selector };
    let scope_step = CanonicalStep {
        index: path.index.0,
        selector: scope_equivalent(&step.position, singular),
    };
    let bound_step = BoundRuleStep {
        id,
        index: path.index,
        position: copy_position(&step.position),
    };
    let mut identity = state.identity;
    let mut scope_key = state.scope_key;
    let mut steps = state.steps;
    let ghost before = walk_spec(state);
    identity.push(key_step);
    scope_key.push(scope_step);
    steps.push(bound_step);
    assert(key_specs(identity@) =~= before.identity.push(key_step@));
    assert(key_specs(scope_key@) =~= before.scope_key.push(scope_step@));
    assert(bound_steps(steps@) =~= before.steps.push(bound_step@));
    Walked::At(
        Walk {
            scope: NamedScope::Sections(path.scope.child(path.index.0)),
            cursor: Cursor::Section(path.clone()),
            identity,
            scope_key,
            steps,
            names,
        },
    )
}

/// Takes the name step at `at`.
fn take_name_step<'a>(
    binder: &Binder<'a>,
    locator: &OutlineLocator,
    step: &NameStep,
    state: Walk,
    at: usize,
    ordered: bool,
    errors: &mut Vec<SchemaError>,
) -> (walked: Walked)
    requires
        at < locator@.names.len(),
        locator@.names.len() <= usize::MAX,
        step@ == locator@.names[at as int],
    ensures
        ({
            let expected = name_step(
                binder@,
                locator@,
                walk_spec(state),
                at as int,
                ordered,
            );
            &&& walked_as(walked, expected)
            &&& error_specs(final(errors)@) == error_specs(old(errors)@) + walk_errors(expected)
        }),
{
    let ghost before = walk_spec(state);
    let ghost expected = name_step(binder@, locator@, before, at as int, ordered);
    let declaration = match binder.names.find(&state.scope, step.name.as_str()) {
        Some(declaration) => declaration,
        None => {
            proof {
                reveal_strlit("");
                assert(""@ =~= Seq::empty());
            }
            unresolved_error(binder, locator.source.as_str(), "", errors);
            assert(error_specs(errors@) =~= error_specs(old(errors)@) + walk_errors(expected));
            return Walked::Ended(None);
        },
    };
    let singular = match declaration.entry.effective_maximum() {
        Some(maximum) => is_singular_maximum(maximum),
        None => false,
    };
    let passed = Passed {
        spelling: step.name.clone(),
        narrowed: step.position.is_some(),
        singular,
    };
    let Walk { scope, cursor, identity, scope_key, steps, names } = state;
    let mut names = names;
    names.push(passed);
    assert(passed_specs(names@) =~= before.names.push(passed_spec(passed)));
    assert(passed_specs(names@).last() == passed_spec(passed));
    match &declaration.entry {
        NamedEntry::Section { path, .. } => {
            assert(error_specs(errors@) =~= error_specs(old(errors)@) + walk_errors(expected));
            let rest = Walk { scope, cursor, identity, scope_key, steps, names: Vec::new() };
            step_to_section(binder, step, rest, names, path)
        },
        NamedEntry::Content { path, .. } => {
            assert(error_specs(errors@) =~= error_specs(old(errors)@) + walk_errors(expected));
            Walked::At(
                Walk {
                    scope: NamedScope::Content(path.clone()),
                    cursor: Cursor::Content(path.clone()),
                    identity,
                    scope_key,
                    steps,
                    names,
                },
            )
        },
        NamedEntry::Item { path, .. } => {
            assert(error_specs(errors@) =~= error_specs(old(errors)@) + walk_errors(expected));
            Walked::At(
                Walk {
                    scope: NamedScope::Item(path.clone()),
                    cursor: Cursor::NamedItem(path.clone()),
                    identity,
                    scope_key,
                    steps,
                    names,
                },
            )
        },
        NamedEntry::Capture(path) => Walked::Ended(
            bind_capture(
                binder,
                locator,
                steps,
                &names,
                at,
                &step.position,
                &path.rule,
                path.name.as_str(),
                ordered,
                errors,
                Ghost(before),
            ),
        ),
    }
}

/// Takes all name steps.
fn take_name_steps<'a>(
    binder: &Binder<'a>,
    locator: &OutlineLocator,
    ordered: bool,
    errors: &mut Vec<SchemaError>,
) -> (walked: Walked)
    ensures
        ({
            let expected = walk(binder@, locator@, ordered, locator@.names.len() as int);
            &&& walked_as(walked, expected)
            &&& error_specs(final(errors)@) == error_specs(old(errors)@) + walk_errors(expected)
        }),
{
    let (scope, identity) = match locator.anchor {
        RefAnchor::SchemaRoot => (ScopePath::root(), Vec::new()),
        RefAnchor::CurrentScope => (
            binder.scope.clone(),
            attachment_identity(binder.schema, binder.scope),
        ),
    };
    let scope_key = copy_key(&identity);
    let mut state = Walk {
        scope: NamedScope::Sections(scope),
        cursor: Cursor::SectionScope,
        identity,
        scope_key,
        steps: Vec::new(),
        names: Vec::new(),
    };
    proof {
        let start = walk_start(binder@, locator@.anchor);
        assert(walk_spec(state).identity =~= start.identity);
        assert(walk_spec(state).scope_key =~= start.scope_key);
        assert(walk_spec(state).steps =~= start.steps);
        assert(walk_spec(state).names =~= start.names);
        assert(walk_spec(state) =~= start);
    }
    let steps = locator.names.iter();
    let count = steps.len();
    assert(locator@.names.len() == count);
    assert(error_specs(errors@) =~= error_specs(old(errors)@) + Seq::<ErrorSpec>::empty());
    let mut at: usize = 0;
    while at < count
        invariant
            at <= count == steps@.len() == locator@.names.len(),
            forall|k: int|
                0 <= k < steps@.len() ==> *(#[trigger] steps@[k]) == locator.names.all()[k],
            walk(binder@, locator@, ordered, at as int) == WalkResult::At(walk_spec(state)),
            error_specs(errors@) == error_specs(old(errors)@),
        decreases count - at,
    {
        assert(steps@[at as int]@ == locator@.names[at as int]);
        let ghost before = walk_spec(state);
        match take_name_step(binder, locator, steps[at], state, at, ordered, errors) {
            Walked::At(next) => {
                assert(error_specs(errors@) =~= error_specs(old(errors)@));
                state = next;
            },
            Walked::Ended(operand) => {
                let ghost ended = name_step(binder@, locator@, before, at as int, ordered);
                proof {
                    walk_has_ended(
                        binder@,
                        locator@,
                        ordered,
                        at + 1,
                        locator@.names.len() as int,
                    );
                }
                return Walked::Ended(operand);
            },
        }
        at += 1;
    }
    Walked::At(state)
}

proof fn walk_has_ended(
    binder: BinderSpec,
    locator: OutlineSpec,
    ordered: bool,
    count: int,
    total: int,
)
    requires
        0 <= count <= total,
        walk(binder, locator, ordered, count) is Ended,
    ensures
        walk(binder, locator, ordered, total) == walk(binder, locator, ordered, count),
    decreases total - count,
{
    if count < total {
        walk_has_ended(binder, locator, ordered, count, total - 1);
    }
}

fn blocks_hold_paragraph(blocks: &[BlockMatcher]) -> (found: bool)
    ensures
        found == exists|at: int|
            0 <= at < blocks@.len() && #[trigger] blocks@[at] == BlockMatcher::Paragraph,
{
    let mut at: usize = 0;
    while at < blocks.len()
        invariant
            at <= blocks@.len(),
            forall|k: int| 0 <= k < at ==> #[trigger] blocks@[k] != BlockMatcher::Paragraph,
        decreases blocks.len() - at,
    {
        if matches!(blocks[at], BlockMatcher::Paragraph) {
            assert(blocks@[at as int] == BlockMatcher::Paragraph);
            return true;
        }
        at += 1;
    }
    false
}

fn blocks_hold_list(blocks: &[BlockMatcher]) -> (found: bool)
    ensures
        found == exists|at: int| 0 <= at < blocks@.len() && (#[trigger] blocks@[at]) is List,
{
    let mut at: usize = 0;
    while at < blocks.len()
        invariant
            at <= blocks@.len(),
            forall|k: int| 0 <= k < at ==> !((#[trigger] blocks@[k]) is List),
        decreases blocks.len() - at,
    {
        if matches!(blocks[at], BlockMatcher::List { .. }) {
            assert(blocks@[at as int] is List);
            return true;
        }
        at += 1;
    }
    false
}

fn content_rule_declares_paragraph(rule: &ContentRule) -> (declares: bool)
    ensures
        declares == declares_paragraph(rule@),
{
    match rule {
        ContentRule::Paragraph { .. } => true,
        ContentRule::OneOf { alternatives, .. } => {
            let ghost all = alternatives.all();
            let first = matches!(alternatives.first, BlockMatcher::Paragraph);
            let second = matches!(alternatives.second, BlockMatcher::Paragraph);
            let rest = blocks_hold_paragraph(alternatives.rest.as_slice());
            proof {
                assert(all[0] == alternatives.first);
                assert(all[1] == alternatives.second);
                if rest {
                    let at = choose|at: int|
                        0 <= at < alternatives.rest@.len() && #[trigger] alternatives.rest@[at]
                            == BlockMatcher::Paragraph;
                    assert(all[at + 2] == alternatives.rest@[at]);
                }
                assert forall|at: int| 0 <= at < all.len() && #[trigger] all[at]
                    == BlockMatcher::Paragraph implies first || second || rest by {
                    if at >= 2 {
                        assert(all[at] == alternatives.rest@[at - 2]);
                    }
                }
            }
            first || second || rest
        },
        _ => false,
    }
}

fn content_rule_declares_list(rule: &ContentRule) -> (declares: bool)
    ensures
        declares == declares_list(rule@),
{
    match rule {
        ContentRule::List { .. } => true,
        ContentRule::OneOf { alternatives, .. } => {
            let ghost all = alternatives.all();
            let first = matches!(alternatives.first, BlockMatcher::List { .. });
            let second = matches!(alternatives.second, BlockMatcher::List { .. });
            let rest = blocks_hold_list(alternatives.rest.as_slice());
            proof {
                assert(all[0] == alternatives.first);
                assert(all[1] == alternatives.second);
                if rest {
                    let at = choose|at: int|
                        0 <= at < alternatives.rest@.len() && (
                        #[trigger] alternatives.rest@[at]) is List;
                    assert(all[at + 2] == alternatives.rest@[at]);
                }
                assert forall|at: int| 0 <= at < all.len() && (#[trigger] all[at]) is List
                    implies first || second || rest by {
                    if at >= 2 {
                        assert(all[at] == alternatives.rest@[at - 2]);
                    }
                }
            }
            first || second || rest
        },
        _ => false,
    }
}

fn list_rule_has_items(rule: &ContentRule) -> (has: bool)
    ensures
        has == declares_items(rule@),
{
    match rule {
        ContentRule::List { items: ItemScope::Declared(items), .. } => {
            assert(item_rule_specs(items@).len() == items@.len());
            items.len() > 0
        },
        _ => false,
    }
}

/// The content rules of the section at a cursor.
fn get_section_content<'s>(schema: &'s NamedSchema, cursor: &Cursor, Ghost(binder): Ghost<
    BinderSpec,
>) -> (rules: &'s [ContentRule])
    requires
        binder.shape == schema.document@,
    ensures
        content_rule_specs(rules@) == section_content(binder, cursor_spec(*cursor)),
{
    let none: &[ContentRule] = &[];
    assert(content_rule_specs(none@) =~= Seq::empty());
    match cursor {
        Cursor::Section(path) => match section_rule_at_path(schema, path) {
            Some(rule) => {
                let rules = content_rules(&rule.content);
                assert(content_rule_specs(rules@) =~= section_content(
                    binder,
                    cursor_spec(*cursor),
                ));
                rules
            },
            None => none,
        },
        _ => none,
    }
}

/// Takes a step to the paragraphs of a section.
fn bind_paragraph_step<'a>(binder: &Binder<'a>, cursor: &Cursor) -> (next: Option<Cursor>)
    ensures
        match structural_cursor(binder@, cursor_spec(*cursor), "p"@) {
            Some(expected) => next matches Some(next) && cursor_spec(next) == expected,
            None => next is None,
        },
{
    let rules = get_section_content(binder.schema, cursor, Ghost(binder@));
    let ghost specs = content_rule_specs(rules@);
    let mut at: usize = 0;
    while at < rules.len()
        invariant
            at <= rules@.len(),
            specs == content_rule_specs(rules@),
            specs == section_content(binder@, cursor_spec(*cursor)),
            forall|k: int| 0 <= k < at ==> !declares_paragraph(#[trigger] specs[k]),
        decreases rules.len() - at,
    {
        assert(specs[at as int] == rules@[at as int]@);
        if content_rule_declares_paragraph(&rules[at]) {
            assert(some_paragraph(specs));
            return Some(Cursor::Paragraphs);
        }
        at += 1;
    }
    None
}

/// Takes a step to the lists of a section.
fn bind_list_step<'a>(binder: &Binder<'a>, cursor: &Cursor) -> (next: Option<Cursor>)
    ensures
        match structural_cursor(binder@, cursor_spec(*cursor), "list"@) {
            Some(expected) => next matches Some(next) && cursor_spec(next) == expected,
            None => next is None,
        },
{
    proof {
        reveal_strlit("p");
        reveal_strlit("list");
        assert("p"@.len() != "list"@.len());
    }
    let section = match cursor {
        Cursor::Section(section) => section,
        _ => {
            return None;
        },
    };
    let rules = get_section_content(binder.schema, cursor, Ghost(binder@));
    let ghost specs = content_rule_specs(rules@);
    let mut lists: Vec<ContentRulePath> = Vec::new();
    let mut declared = false;
    let mut at: usize = 0;
    assert(content_paths(lists@) =~= Seq::empty());
    while at < rules.len()
        invariant
            at <= rules@.len(),
            specs == content_rule_specs(rules@),
            declared <==> exists|k: int| 0 <= k < at && declares_list(#[trigger] specs[k]),
            content_paths(lists@) == list_paths(specs, section@, at as int),
        decreases rules.len() - at,
    {
        assert(specs[at as int] == rules@[at as int]@);
        if content_rule_declares_list(&rules[at]) {
            declared = true;
        }
        if let ContentRule::List { .. } = &rules[at] {
            let ghost before = content_paths(lists@);
            let path = ContentRulePath { owner: ContentOwner::Rule(section.clone()), index: at };
            lists.push(path);
            assert(content_paths(lists@) =~= before.push(path@));
        }
        at += 1;
    }
    if declared {
        Some(Cursor::Lists(lists))
    } else {
        None
    }
}

/// Takes a step to the items of lists.
fn bind_item_step<'a>(binder: &Binder<'a>, cursor: &Cursor) -> (next: Option<Cursor>)
    ensures
        match structural_cursor(binder@, cursor_spec(*cursor), "item"@) {
            Some(expected) => next matches Some(next) && cursor_spec(next) == expected,
            None => next is None,
        },
{
    proof {
        reveal_strlit("p");
        reveal_strlit("list");
        reveal_strlit("item");
        assert("p"@.len() != "item"@.len());
        assert("list"@[0] == 'l');
        assert("item"@[0] == 'i');
    }
    let declared = match cursor {
        Cursor::Content(path) => {
            let declared = match content_rule_at_path(binder.schema, path) {
                Some(rule) => list_rule_has_items(rule),
                None => false,
            };
            proof {
                let paths = seq![path@];
                assert(paths[0] == path@);
                assert(declared ==> some_items(binder@, paths));
            }
            declared
        },
        Cursor::Lists(paths) => {
            let ghost specs = content_paths(paths@);
            let mut declared = false;
            let mut at: usize = 0;
            while at < paths.len()
                invariant
                    at <= paths@.len(),
                    specs == content_paths(paths@),
                    declared <==> exists|k: int|
                        0 <= k < at && match content_rule_at(
                            binder@.shape,
                            #[trigger] specs[k],
                        ) {
                            Some(rule) => declares_items(rule),
                            None => false,
                        },
                decreases paths.len() - at,
            {
                assert(specs[at as int] == paths@[at as int]@);
                if let Some(rule) = content_rule_at_path(binder.schema, &paths[at]) {
                    if list_rule_has_items(rule) {
                        declared = true;
                    }
                }
                at += 1;
            }
            declared
        },
        _ => false,
    };
    if declared {
        Some(Cursor::Items)
    } else {
        None
    }
}

/// Takes all structural steps.
fn take_structural_steps<'a>(
    binder: &Binder<'a>,
    locator: &OutlineLocator,
    start: Cursor,
    errors: &mut Vec<SchemaError>,
) -> (cursor: Option<Cursor>)
    ensures
        match structural_walk(
            binder@,
            locator@,
            cursor_spec(start),
            locator@.structural.len() as int,
        ) {
            Ok(expected) => cursor matches Some(cursor) && cursor_spec(cursor) == expected
                && error_specs(final(errors)@) == error_specs(old(errors)@),
            Err(error) => cursor is None && error_specs(final(errors)@) == error_specs(
                old(errors)@,
            ).push(error),
        },
{
    let ghost from = cursor_spec(start);
    let mut cursor = start;
    let mut at: usize = 0;
    assert(locator@.structural.len() == locator.structural@.len());
    while at < locator.structural.len()
        invariant
            at <= locator.structural@.len() == locator@.structural.len(),
            from == cursor_spec(start),
            structural_walk(binder@, locator@, from, at as int) == Ok::<CursorSpec, ErrorSpec>(
                cursor_spec(cursor),
            ),
            error_specs(errors@) == error_specs(old(errors)@),
        decreases locator.structural.len() - at,
    {
        assert(locator@.structural[at as int] == locator.structural@[at as int]@);
        let kind = locator.structural[at].kind.as_str();
        let next = if same_text(kind, "p") {
            bind_paragraph_step(binder, &cursor)
        } else if same_text(kind, "list") {
            bind_list_step(binder, &cursor)
        } else if same_text(kind, "item") {
            bind_item_step(binder, &cursor)
        } else {
            unresolved_error(
                binder,
                locator.source.as_str(),
                join3(": structural kind `/", kind, "` is not allocated").as_str(),
                errors,
            );
            proof {
                structural_walk_has_failed(
                    binder@,
                    locator@,
                    from,
                    at + 1,
                    locator@.structural.len() as int,
                );
            }
            return None;
        };
        match next {
            Some(next) => {
                cursor = next;
            },
            None => {
                unresolved_error(
                    binder,
                    locator.source.as_str(),
                    join3(": no specific `/", kind, "` declaration exists here").as_str(),
                    errors,
                );
                proof {
                    structural_walk_has_failed(
                        binder@,
                        locator@,
                        from,
                        at + 1,
                        locator@.structural.len() as int,
                    );
                }
                return None;
            },
        }
        at += 1;
    }
    Some(cursor)
}

proof fn structural_walk_has_failed(
    binder: BinderSpec,
    locator: OutlineSpec,
    cursor: CursorSpec,
    count: int,
    total: int,
)
    requires
        0 <= count <= total,
        structural_walk(binder, locator, cursor, count) is Err,
    ensures
        structural_walk(binder, locator, cursor, total) == structural_walk(
            binder,
            locator,
            cursor,
            count,
        ),
    decreases total - count,
{
    if count < total {
        structural_walk_has_failed(binder, locator, cursor, count, total - 1);
    }
}

fn find_open(steps: &Vec<StructuralStep>, followed: bool, Ghost(specs): Ghost<Seq<StepSpec>>)
    -> (found: Option<usize>)
    requires
        specs == steps@.map_values(|step: StructuralStep| step@),
    ensures
        found is Some <==> first_open(specs, followed, specs.len() as int) is Some,
        found matches Some(at) ==> at < steps@.len() && first_open(
            specs,
            followed,
            specs.len() as int,
        ) == Some(at as int),
{
    let mut found: Option<usize> = None;
    let mut at: usize = 0;
    while at < steps.len()
        invariant
            at <= steps@.len() == specs.len(),
            specs == steps@.map_values(|step: StructuralStep| step@),
            found is Some <==> first_open(specs, followed, at as int) is Some,
            found matches Some(found) ==> found < at && first_open(specs, followed, at as int)
                == Some(found as int),
        decreases steps.len() - at,
    {
        assert(specs[at as int] == steps@[at as int]@);
        let last = at == steps.len() - 1;
        if found.is_none() && (!last || followed) && steps[at].position.is_none() {
            found = Some(at);
        }
        at += 1;
    }
    found
}

/// Binds the text of a named item.
fn bind_item_text_intrinsic<'a>(
    binder: &Binder<'a>,
    source: &str,
    path: &ItemRulePath,
    name: &Passed,
    errors: &mut Vec<SchemaError>,
) -> (operand: Option<BoundOperand>)
    ensures
        ({
            let expected = item_text_bound(binder@, source@, path@, passed_spec(*name));
            &&& operand_spec(operand) == expected.operand
            &&& error_specs(final(errors)@) == error_specs(old(errors)@) + expected.errors
        }),
{
    let ghost expected = item_text_bound(binder@, source@, path@, passed_spec(*name));
    let item = match item_rule_at_path(binder.schema, path) {
        Some(item) => item,
        None => {
            shape_error_at(
                errors,
                binder.range,
                join3("ref `", source, "` has no named item before `/text`"),
            );
            assert(error_specs(errors@) =~= error_specs(old(errors)@) + expected.errors);
            return None;
        },
    };
    if matches!(item.matcher, Matcher::Any) {
        shape_error_at(
            errors,
            binder.range,
            join3("ref `", source, "` uses `/text` after a wildcard item rule"),
        );
        assert(error_specs(errors@) =~= error_specs(old(errors)@) + expected.errors);
        return None;
    }
    if !name.narrowed && !name.singular {
        shape_error_at(
            errors,
            binder.range,
            join5(
                "ref `",
                source,
                "` uses `/text` after plural item rule `",
                name.spelling.as_str(),
                "`; narrow it with `[i]`",
            ),
        );
        assert(error_specs(errors@) =~= error_specs(old(errors)@) + expected.errors);
        return None;
    }
    assert(error_specs(errors@) =~= error_specs(old(errors)@) + expected.errors);
    Some(BoundOperand::ItemTextTerminal)
}

/// Binds the text at the end of a locator.
fn bind_text<'a>(
    binder: &Binder<'a>,
    locator: &OutlineLocator,
    state: Walk,
    cursor: &Cursor,
    position: &Option<Subscript>,
    errors: &mut Vec<SchemaError>,
) -> (operand: Option<BoundOperand>)
    ensures
        ({
            let expected = text_bound(
                binder@,
                locator@,
                walk_spec(state),
                cursor_spec(*cursor),
                position_spec(*position),
            );
            &&& operand_spec(operand) == expected.operand
            &&& error_specs(final(errors)@) == error_specs(old(errors)@) + expected.errors
        }),
{
    let ghost expected = text_bound(
        binder@,
        locator@,
        walk_spec(state),
        cursor_spec(*cursor),
        position_spec(*position),
    );
    let source = locator.source.as_str();
    let message = match cursor {
        Cursor::Section(_) => {
            let ghost all = state.steps@;
            match NonEmpty::from_vec(state.steps) {
                Some(steps) => {
                    assert(error_specs(errors@) =~= error_specs(old(errors)@) + expected.errors);
                    assert(bound_steps(steps.all()) == bound_steps(all));
                    return Some(
                        BoundOperand::IntrinsicText(
                            ResolvedIntrinsicTextLocator {
                                source: locator.source.clone(),
                                anchor: locator.anchor,
                                steps,
                                position: copy_position(position),
                            },
                        ),
                    );
                },
                None => join3("ref `", source, "` has no bound heading"),
            }
        },
        Cursor::NamedItem(path) => {
            let count = state.names.len();
            if count > 0 {
                assert(passed_specs(state.names@).last() == passed_spec(state.names@[count - 1]));
                return bind_item_text_intrinsic(
                    binder,
                    source,
                    path,
                    &state.names[count - 1],
                    errors,
                );
            }
            join3("ref `", source, "` uses `/text` after structural `/item`")
        },
        Cursor::Items => join3("ref `", source, "` uses `/text` after structural `/item`"),
        _ => join3("ref `", source, "` has no `/text` intrinsic at this terminal"),
    };
    shape_error_at(errors, binder.range, message);
    assert(error_specs(errors@) =~= error_specs(old(errors)@) + expected.errors);
    None
}

/// Binds a locator that has taken all its steps.
fn bind_terminal<'a>(
    binder: &Binder<'a>,
    locator: &OutlineLocator,
    state: Walk,
    cursor: Cursor,
    ordered: bool,
    errors: &mut Vec<SchemaError>,
) -> (operand: Option<BoundOperand>)
    requires
        state.names@.len() > 0,
    ensures
        ({
            let expected = terminal_bound(
                binder@,
                locator@,
                walk_spec(state),
                cursor_spec(cursor),
                ordered,
            );
            &&& operand_spec(operand) == expected.operand
            &&& error_specs(final(errors)@) == error_specs(old(errors)@) + expected.errors
        }),
{
    let ghost expected = terminal_bound(
        binder@,
        locator@,
        walk_spec(state),
        cursor_spec(cursor),
        ordered,
    );
    let source = locator.source.as_str();
    let at_item = match &cursor {
        Cursor::NamedItem(_) => true,
        _ => false,
    };
    let count = state.names.len();
    let limit = if locator.structural.len() == 0 && (locator.text.is_none() || at_item) {
        count - 1
    } else {
        count
    };
    assert(passed_specs(state.names@).len() == count);
    if let Some(at) = find_plural(&state.names, limit) {
        assert(passed_specs(state.names@)[at as int] == passed_spec(state.names@[at as int]));
        plural_step_error(
            binder,
            source,
            state.names[at].spelling.as_str(),
            false,
            ordered,
            errors,
        );
        assert(error_specs(errors@) =~= error_specs(old(errors)@) + expected.errors);
        return None;
    }
    if let Some(at) = find_open(
        &locator.structural,
        locator.text.is_some(),
        Ghost(locator@.structural),
    ) {
        assert(locator@.structural[at as int] == locator.structural@[at as int]@);
        plural_step_error(
            binder,
            source,
            locator.structural[at].kind.as_str(),
            true,
            ordered,
            errors,
        );
        assert(error_specs(errors@) =~= error_specs(old(errors)@) + expected.errors);
        return None;
    }
    if let Some(text) = &locator.text {
        return bind_text(binder, locator, state, &cursor, &text.position, errors);
    }
    assert(error_specs(errors@) =~= error_specs(old(errors)@) + expected.errors);
    match cursor {
        Cursor::Section(_) => {
            let ghost all = state.steps@;
            match NonEmpty::from_vec(state.steps) {
                Some(steps) => {
                    assert(bound_steps(steps.all()) == bound_steps(all));
                    Some(
                        BoundOperand::Rule {
                            locator: ResolvedRuleLocator {
                                source: locator.source.clone(),
                                anchor: locator.anchor,
                                steps,
                            },
                            identity: state.identity,
                            scope: state.scope_key,
                        },
                    )
                },
                None => None,
            }
        },
        _ => Some(BoundOperand::StructuralTerminal),
    }
}

proof fn walk_passes_names(
    binder: BinderSpec,
    locator: OutlineSpec,
    ordered: bool,
    count: int,
)
    requires
        0 <= count,
    ensures
        walk(binder, locator, ordered, count) matches WalkResult::At(state) ==> state.names.len()
            == count,
    decreases count,
{
    if count > 0 {
        walk_passes_names(binder, locator, ordered, count - 1);
    }
}

/// Resolves the names of a locator in the outline against the rules.
pub fn bind_outline<'a>(
    binder: &Binder<'a>,
    locator: &OutlineLocator,
    ordered: bool,
    errors: &mut Vec<SchemaError>,
) -> (operand: Option<BoundOperand>)
    ensures
        ({
            let expected = outline_bound(binder@, locator@, ordered);
            &&& operand is Some <==> expected.operand is Some
            &&& operand matches Some(operand) ==> expected.operand == Some(operand@)
            &&& error_specs(final(errors)@) == error_specs(old(errors)@) + expected.errors
        }),
{
    let ghost expected = outline_bound(binder@, locator@, ordered);
    let state = match take_name_steps(binder, locator, ordered, errors) {
        Walked::Ended(operand) => {
            return operand;
        },
        Walked::At(state) => state,
    };
    proof {
        walk_passes_names(binder@, locator@, ordered, locator@.names.len() as int);
        assert(passed_specs(state.names@).len() == state.names@.len());
        assert(locator@.names.len() > 0);
        assert(error_specs(errors@) =~= error_specs(old(errors)@));
    }
    let ghost reached = walk_spec(state);
    let Walk { scope, cursor, identity, scope_key, steps, names } = state;
    match take_structural_steps(binder, locator, cursor, errors) {
        None => {
            assert(error_specs(errors@) =~= error_specs(old(errors)@) + expected.errors);
            None
        },
        Some(cursor) => {
            let state = Walk {
                scope,
                cursor: Cursor::SectionScope,
                identity,
                scope_key,
                steps,
                names,
            };
            proof {
                let settled = walk_spec(state);
                assert(settled == WalkSpec { cursor: CursorSpec::SectionScope, ..reached });
            }
            bind_terminal(binder, locator, state, cursor, ordered, errors)
        },
    }
}

/// The type of the first typed value of the frontmatter of that name, from
/// `from` on.
pub open spec fn export_type(
    captures: Seq<(Seq<char>, ExportSpec)>,
    name: Seq<char>,
    from: int,
) -> Option<ValueType>
    decreases captures.len() - from,
{
    if from < 0 || from >= captures.len() {
        None
    } else if captures[from].0 == name {
        Some(captures[from].1.value_type)
    } else {
        export_type(captures, name, from + 1)
    }
}

fn find_export_type(captures: &[(String, FrontmatterCapture)], name: &str) -> (value_type: Option<ValueType>)
    ensures
        value_type == export_type(export_specs(captures@), name@, 0),
{
    let ghost specs = export_specs(captures@);
    let mut at: usize = 0;
    while at < captures.len()
        invariant
            at <= captures@.len(),
            specs == export_specs(captures@),
            export_type(specs, name@, 0) == export_type(specs, name@, at as int),
        decreases captures.len() - at,
    {
        assert(specs[at as int] == (captures@[at as int].0@, captures@[at as int].1@));
        if same_text(captures[at].0.as_str(), name) {
            return Some(captures[at].1.value_type);
        }
        at += 1;
    }
    None
}

/// What a spelling is bound to. A query of the frontmatter binds no name: what
/// it finds is document data. A capture of the frontmatter that is not
/// declared does not resolve, even if a key of that name exists.
pub open spec fn source_bound(binder: BinderSpec, source: Seq<char>, ordered: bool) -> BoundSpec {
    match parse_of(binder.locators, source) {
        Err(fault) => unbound(
            shape_error(binder.range, "invalid locator `"@ + source + "`: "@ + fault),
        ),
        Ok(ParsedSpec::Outline(locator)) => outline_bound(binder, locator, ordered),
        Ok(ParsedSpec::Query(query, equality)) => bound(
            OperandSpec::Query(
                query,
                match equality {
                    None => None,
                    Some(text) => Some(scalar_of(text)),
                },
            ),
        ),
        Ok(ParsedSpec::Capture(name)) => match export_type(binder.captures, name, 0) {
            None => unbound(unresolved(binder, source, Seq::empty())),
            Some(value_type) => bound(OperandSpec::FrontmatterCapture(name, value_type)),
        },
    }
}

/// What a constraint's operand is bound to.
pub open spec fn value_bound(binder: BinderSpec, value: JsonSpec, ordered: bool) -> BoundSpec {
    match value {
        JsonSpec::Text(source) => source_bound(binder, source, ordered),
        _ => unbound(shape_error(binder.range, "constraint refs must be strings"@)),
    }
}

/// Binds every schema name that an operand spells.
pub fn bind_operand<'a>(
    binder: &Binder<'a>,
    value: &Json,
    ordered: bool,
    errors: &mut Vec<SchemaError>,
) -> (operand: Option<BoundOperand>)
    ensures
        ({
            let expected = value_bound(binder@, value@, ordered);
            &&& operand is Some <==> expected.operand is Some
            &&& operand matches Some(operand) ==> expected.operand == Some(operand@)
            &&& error_specs(final(errors)@) == error_specs(old(errors)@) + expected.errors
        }),
{
    let ghost expected = value_bound(binder@, value@, ordered);
    let source = match value.as_str() {
        Some(source) => source,
        None => {
            shape_error_at(errors, binder.range, "constraint refs must be strings".to_owned());
            assert(error_specs(errors@) =~= error_specs(old(errors)@) + expected.errors);
            return None;
        },
    };
    let parsed = match binder.locators.parse(source) {
        Ok(parsed) => parsed,
        Err(fault) => {
            shape_error_at(
                errors,
                binder.range,
                join2(join3("invalid locator `", source, "`: ").as_str(), fault.as_str()),
            );
            assert(error_specs(errors@) =~= error_specs(old(errors)@) + expected.errors);
            return None;
        },
    };
    match parsed {
        ParsedLocator::Outline(locator) => bind_outline(binder, locator, ordered, errors),
        ParsedLocator::Query(locator) => {
            let equals = match &locator.equality {
                Some(text) => Some(parse_frontmatter_scalar(text.as_str())),
                None => None,
            };
            assert(error_specs(errors@) =~= error_specs(old(errors)@) + expected.errors);
            Some(
                BoundOperand::Query(
                    ResolvedFrontmatterQuery { query: locator.query.clone(), equals },
                ),
            )
        },
        ParsedLocator::Capture(locator) => {
            match find_export_type(binder.schema.frontmatter.exports(), locator.name.as_str()) {
                Some(value_type) => {
                    assert(error_specs(errors@) =~= error_specs(old(errors)@) + expected.errors);
                    Some(
                        BoundOperand::FrontmatterCapture(
                            ResolvedFrontmatterCapture { name: locator.name.clone(), value_type },
                        ),
                    )
                },
                None => {
                    proof {
                        reveal_strlit("");
                        assert(""@ =~= Seq::empty());
                    }
                    unresolved_error(binder, source, "", errors);
                    assert(error_specs(errors@) =~= error_specs(old(errors)@) + expected.errors);
                    None
                },
            }
        },
    }
}

/// The positions that a key leads through.
pub open spec fn key_path(key: Seq<KeyStep>) -> Seq<RuleIndex> {
    key.map_values(|step: KeyStep| RuleIndex(step.index))
}

/// The positions on the way to a rule, its own last.
pub open spec fn rule_path(path: (Seq<RuleIndex>, RuleIndex)) -> Seq<RuleIndex> {
    path.0.push(path.1)
}

proof fn attachment_keys_follow_scopes(rules: Seq<NamedSpec>, scope: Seq<RuleIndex>)
    requires
        rules_at(rules, scope) is Some,
    ensures
        key_path(attachment_key(rules, scope)) =~= scope,
    decreases scope.len(),
{
    if scope.len() > 0 {
        attachment_keys_follow_scopes(
            child_rules(rules[scope[0].0 as int].children),
            scope.skip(1),
        );
        assert(scope =~= seq![scope[0]] + scope.skip(1));
    }
}

spec fn walk_stands(binder: BinderSpec, state: WalkSpec) -> bool {
    &&& key_path(state.identity) == key_path(state.scope_key)
    &&& state.scope matches NamedScopeSpec::Sections(scope) ==> key_path(state.identity) == scope
    &&& state.cursor matches CursorSpec::Section(path) ==> {
        &&& key_path(state.identity) == rule_path(path)
        &&& rule_at(binder.root(), path) is Some
        &&& state.steps.len() > 0
        &&& rule_at(binder.root(), path)->0.id == Some(state.steps.last().id)
    }
}

proof fn walks_stand(binder: BinderSpec, locator: OutlineSpec, ordered: bool, count: int)
    requires
        names_fit(binder.names),
        rules_at(binder.root(), binder.scope) is Some,
        0 <= count <= locator.names.len(),
    ensures
        walk(binder, locator, ordered, count) matches WalkResult::At(state) ==> walk_stands(
            binder,
            state,
        ),
    decreases count,
{
    if count <= 0 {
        attachment_keys_follow_scopes(binder.root(), binder.scope);
        let state = walk_start(binder, locator.anchor);
        assert(key_path(Seq::<KeyStep>::empty()) =~= Seq::empty());
    } else {
        walks_stand(binder, locator, ordered, count - 1);
        if let WalkResult::At(before) = walk(binder, locator, ordered, count - 1) {
            let name = locator.names[count - 1].name;
            names_resolve_where_they_stand(binder.names, before.scope, name, 0);
            if let WalkResult::At(state) = name_step(binder, locator, before, count - 1, ordered) {
                let declaration = named_from(binder.names, before.scope, name, 0)->0;
                if let EntrySpec::Section(path, _) = declaration.entry {
                    assert(key_path(state.identity) =~= key_path(before.identity).push(path.1));
                    assert(key_path(state.scope_key) =~= key_path(before.scope_key).push(path.1));
                }
            }
        }
    }
}

/// The key of a locator that is bound to a rule is the way to that rule from
/// the root, whether the locator is spelled from the root or from the scope of
/// its constraint; and its last step has the rule's id. So two spellings of
/// one rule differ in nothing but their subscripts.
pub proof fn keys_lead_to_their_rules(
    binder: BinderSpec,
    locator: OutlineSpec,
    ordered: bool,
)
    requires
        names_fit(binder.names),
        rules_at(binder.root(), binder.scope) is Some,
    ensures
        outline_bound(binder, locator, ordered).operand matches Some(
            OperandSpec::Rule(bound, identity, key),
        ) ==> exists|path: (Seq<RuleIndex>, RuleIndex)|
            {
                &&& (#[trigger] rule_at(binder.root(), path)) is Some
                &&& rule_at(binder.root(), path)->0.id == Some(bound.steps.last().id)
                &&& key_path(identity) == rule_path(path)
                &&& key_path(key) == rule_path(path)
            },
{
    walks_stand(binder, locator, ordered, locator.names.len() as int);
    if let Some(OperandSpec::Rule(bound, identity, key)) = outline_bound(
        binder,
        locator,
        ordered,
    ).operand {
        if let WalkResult::At(state) = walk(
            binder,
            locator,
            ordered,
            locator.names.len() as int,
        ) {
            let cursor = structural_walk(
                binder,
                locator,
                state.cursor,
                locator.structural.len() as int,
            )->Ok_0;
            structural_steps_leave_sections(
                binder,
                locator,
                state.cursor,
                locator.structural.len() as int,
            );
            assert(cursor == state.cursor);
            assert(rule_at(binder.root(), cursor->Section_0) is Some);
        } else {
            captures_are_no_rules(binder, locator, ordered, locator.names.len() as int);
        }
    }
}

proof fn structural_steps_leave_sections(
    binder: BinderSpec,
    locator: OutlineSpec,
    cursor: CursorSpec,
    count: int,
)
    ensures
        structural_walk(binder, locator, cursor, count) matches Ok(after) ==> after is Section
            ==> after == cursor,
    decreases count,
{
    if count > 0 {
        structural_steps_leave_sections(binder, locator, cursor, count - 1);
    }
}

proof fn captures_are_no_rules(
    binder: BinderSpec,
    locator: OutlineSpec,
    ordered: bool,
    count: int,
)
    ensures
        walk(binder, locator, ordered, count) matches WalkResult::Ended(ended) ==> !(ended.operand
            matches Some(OperandSpec::Rule(_, _, _))),
    decreases count,
{
    if count > 0 {
        captures_are_no_rules(binder, locator, ordered, count - 1);
    }
}

proof fn no_plural_among(names: Seq<PassedSpec>, count: int)
    ensures
        first_plural(names, count) is None ==> forall|at: int|
            0 <= at < count ==> (#[trigger] names[at]).narrowed || names[at].singular,
    decreases count,
{
    if count > 0 {
        no_plural_among(names, count - 1);
    }
}

/// A locator that is bound to a rule passes no rule that may match more than
/// once without narrowing it: only its last step may stay plural.
pub proof fn bound_locators_descend_through_single_rules(
    binder: BinderSpec,
    locator: OutlineSpec,
    ordered: bool,
)
    ensures
        outline_bound(binder, locator, ordered).operand is Some ==> match walk(
            binder,
            locator,
            ordered,
            locator.names.len() as int,
        ) {
            WalkResult::At(state) => forall|at: int|
                0 <= at < state.names.len() - 1 ==> (#[trigger] state.names[at]).narrowed
                    || state.names[at].singular,
            WalkResult::Ended(_) => true,
        },
{
    if let WalkResult::At(state) = walk(binder, locator, ordered, locator.names.len() as int) {
        no_plural_among(state.names, state.names.len() - 1);
        no_plural_among(state.names, state.names.len() as int);
    }
}

} // verus!
