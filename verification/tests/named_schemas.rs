//! Schemas of named scopes: frontmatter, locators, and constraints.

use outlint_core::json::Json;
use outlint_core::json_value::{read_value, to_json};
use outlint_core::load_result::{FoundNodes, NodeRanges};
use outlint_core::loader::external::{GraphFault, RegistryFault};
use outlint_core::loader::places::Places;
use outlint_core::loader::ranges::{RangeIndex, RangeKey};
use outlint_core::schema::{NonEmpty, RefAnchor};
use outlint_core::scopes::binding::{bind_operand, scope_is_ordered, Binder};
use outlint_core::scopes::captures::GroupFacts;
use outlint_core::scopes::constraints::{NamedConstraint, NamedProposition};
use outlint_core::scopes::document::{
    classify_version, load_named_schema, NamedLoad, Readings,
};
use outlint_core::scopes::exports::{
    build_frontmatter_capture, build_frontmatter_captures, DeclaredCaptures,
};
use outlint_core::scopes::frontmatter::{
    settle_frontmatter, CapturingPolicy, DeclaredSchema, RawFrontmatter, RawSchema,
};
use outlint_core::scopes::inline::{
    invalid_inline_references, prepare_inline_schema, settle_inline,
};
use outlint_core::scopes::locators::{
    BoundOperand, CanonicalStep, CaptureLocator, IntrinsicText, Locators, NameStep,
    OutlineLocator, ParsedLocator, QueryLocator, ScopeSelector, StructuralStep, Subscript,
};
use outlint_core::scopes::model::{DocumentShape, FrontmatterCapture, TitleSlot, ValueType};
use outlint_core::scopes::names::{NamedDeclaration, NamedEntry, NamedScope, Namespaces};
use outlint_core::schema::UpperBound;
use outlint_core::{
    ByteOffset, ConstraintIndex, ConstraintPath, RuleIndex, RulePath, SchemaError,
    SchemaErrorKind, SchemaNode, SchemaSource, SchemaSources, ScopePath, SourceId, SourceRange,
    TextRange,
};

fn range(start: usize, end: usize) -> SourceRange {
    SourceRange {
        source: SourceId(0),
        range: TextRange {
            start: ByteOffset(start),
            end: ByteOffset(end),
        },
    }
}

fn json(text: &str) -> Json {
    to_json(&read_value(text).expect("the text is valid JSON"))
}

fn members(text: &str) -> Vec<(String, Json)> {
    match json(text) {
        Json::Object(members) => members,
        _ => panic!("expected an object"),
    }
}

fn places(ranges: Vec<(RangeKey, SourceRange)>) -> Places {
    Places {
        ranges: RangeIndex { ranges },
        document: range(0, 100),
        outline_general: false,
    }
}

fn sources() -> SchemaSources {
    SchemaSources {
        primary: SourceId(0),
        documents: vec![SchemaSource {
            label: None,
            text: "version: 2\n".to_owned(),
        }],
    }
}

fn messages(errors: &[SchemaError]) -> Vec<&str> {
    errors.iter().map(|error| error.message.as_str()).collect()
}

fn all_messages(errors: &NonEmpty<SchemaError>) -> Vec<&str> {
    errors
        .iter()
        .into_iter()
        .map(|error| error.message.as_str())
        .collect()
}

fn position(text: Option<&str>) -> Option<Subscript> {
    text.map(|text| Subscript::parse(text).expect("the text is a number"))
}

fn outline(
    source: &str,
    anchor: RefAnchor,
    names: &[(&str, Option<&str>)],
    structural: &[(&str, Option<&str>)],
    text: bool,
) -> (String, ParsedLocator) {
    let steps = names
        .iter()
        .map(|(name, at)| NameStep {
            name: (*name).to_owned(),
            position: position(*at),
        })
        .collect();
    (
        source.to_owned(),
        ParsedLocator::Outline(OutlineLocator {
            source: source.to_owned(),
            anchor,
            names: NonEmpty::from_vec(steps).expect("there is a step"),
            structural: structural
                .iter()
                .map(|(kind, at)| StructuralStep {
                    kind: (*kind).to_owned(),
                    position: position(*at),
                })
                .collect(),
            text: if text {
                Some(IntrinsicText { position: None })
            } else {
                None
            },
        }),
    )
}

fn here(source: &str) -> (String, ParsedLocator) {
    let names: Vec<(&str, Option<&str>)> = source.split('.').map(|name| (name, None)).collect();
    outline(source, RefAnchor::CurrentScope, &names, &[], false)
}

fn root(source: &str, names: &[(&str, Option<&str>)]) -> (String, ParsedLocator) {
    outline(source, RefAnchor::SchemaRoot, names, &[], false)
}

fn readings(parsed: Vec<(String, ParsedLocator)>) -> Readings {
    Readings {
        analyses: vec![(
            "v(?<v>[0-9]+)".to_owned(),
            vec![(
                "v".to_owned(),
                GroupFacts {
                    alternation: false,
                    min_zero_repetition: false,
                },
            )],
        )],
        locators: Locators {
            parsed,
            faults: vec![("a..b".to_owned(), "empty step".to_owned())],
        },
        queries: vec![("$..x".to_owned(), "not singular".to_owned())],
    }
}

fn load_with(
    text: &str,
    readings: &Readings,
    raw: Option<RawFrontmatter>,
    ranges: Vec<(RangeKey, SourceRange)>,
) -> Result<NamedLoad, NonEmpty<SchemaError>> {
    load_named_schema(
        places(ranges),
        readings,
        &members(text),
        raw,
        &sources(),
        None,
    )
}

const DOCUMENT: &str = r#"{
    "version": 2,
    "title": "*",
    "content": [{"block": "p"}],
    "unordered": true,
    "sections": [
        {"id": "overview", "match": "Overview", "required": true},
        {"id": "release", "match": "/v(?<v>[0-9]+)/", "repeat": "0..n", "captures": {"v": "int"},
         "unordered": true,
         "content": [{"block": "p"}, {"block": "list", "items": [{"match": "*", "repeat": "1..n"}]}],
         "sections": [{"id": "notes", "match": "Notes"}, {"id": "more", "match": "More"}],
         "constraints": [{"ordered": ["notes", "more"]}]}
    ],
    "constraints": [
        {"requires": {"if": "overview", "then": "release"}},
        {"ordered": ["overview", "release"]}
    ]
}"#;

#[test]
fn a_document_of_named_scopes_is_loaded_with_its_constraints() {
    let readings = readings(vec![
        here("overview"),
        here("release"),
        here("notes"),
        here("more"),
    ]);
    let load = load_with(DOCUMENT, &readings, None, Vec::new()).unwrap();
    let DocumentShape::Title(TitleSlot::Required {
        spelled, children, ..
    }) = &load.schema.document
    else {
        panic!("expected a title")
    };
    assert!(*spelled);
    assert_eq!(children.rules().len(), 2);
    assert_eq!(load.schema.frontmatter, CapturingPolicy::Optional { schema: None });
    assert_eq!(load.constraints.len(), 2);
    assert_eq!(load.constraints[0].0, ScopePath(vec![]));
    assert!(matches!(
        load.constraints[0].1[0],
        NamedConstraint::Requires {
            condition: NamedProposition::Rule(_),
            ..
        }
    ));
    assert!(matches!(load.constraints[0].1[1], NamedConstraint::Ordered(_)));
    assert_eq!(load.constraints[1].0, ScopePath(vec![RuleIndex(1)]));
    assert!(load.nodes.contains_key(&SchemaNode::Constraint(ConstraintPath {
        scope: ScopePath(vec![RuleIndex(1)]),
        index: ConstraintIndex(0),
    })));
}

#[test]
fn versions_are_classified() {
    let mut errors = Vec::new();
    let version = RangeKey::DocumentField("version".to_owned());
    let places = places(vec![(version, range(9, 10))]);
    assert!(classify_version(
        &places,
        &members(r#"{"version": 2}"#),
        &mut errors
    ));
    assert!(errors.is_empty());
    assert!(!classify_version(
        &places,
        &members(r#"{"version": 1}"#),
        &mut errors
    ));
    assert_eq!(
        messages(&errors),
        ["unsupported schema version 1; expected 2"]
    );
    assert_eq!(errors[0].kind, SchemaErrorKind::UnsupportedVersion);
    assert_eq!(errors[0].range, range(9, 10));
    errors.clear();
    for text in [
        r#"{"version": "2"}"#,
        "{}",
        r#"{"version": 99999999999999999999}"#,
    ] {
        assert!(!classify_version(&places, &members(text), &mut errors));
    }
    assert!(errors.is_empty());
}

#[test]
fn a_refused_document_is_explained() {
    let readings = readings(Vec::new());
    let refused = load_with(r#"{"version": 3}"#, &readings, None, Vec::new()).unwrap_err();
    assert_eq!(
        all_messages(&refused),
        ["unsupported schema version 3; expected 2"]
    );
    let refused = load_with("{}", &readings, None, Vec::new()).unwrap_err();
    assert_eq!(all_messages(&refused), ["schema could not be loaded"]);
    let refused = load_with(
        r#"{"version": 2, "outline": null}"#,
        &readings,
        None,
        Vec::new(),
    )
    .unwrap_err();
    assert_eq!(all_messages(&refused), ["schema could not be loaded"]);
}

#[test]
fn locators_are_judged_by_their_spelling_where_nothing_can_be_built() {
    let readings = readings(vec![here("a")]);
    let refused = load_with(
        r#"{"version": 2, "sections": [{"match": "/(/"}],
            "constraints": [{"any_of": ["a", "a..b"]}]}"#,
        &readings,
        None,
        Vec::new(),
    )
    .unwrap_err();
    let all = all_messages(&refused);
    assert_eq!(all.last(), Some(&"invalid locator `a..b`: empty step"));
    assert!(!all.iter().any(|message| message.contains("unresolved")));
}

#[test]
fn constraints_are_checked_against_the_scope_they_stand_in() {
    let readings = readings(vec![
        here("overview"),
        here("gone"),
        root("$.release.notes", &[("release", None), ("notes", None)]),
        here("release"),
        here("notes"),
        here("more"),
    ]);
    for (constraint, kind, message) in [
        (
            r#"{"any_of": ["overview", "gone"]}"#,
            SchemaErrorKind::UnresolvedRef,
            "unresolved ref `gone`",
        ),
        (
            r#"{"any_of": ["overview", "overview"]}"#,
            SchemaErrorKind::DuplicateRef,
            "duplicate",
        ),
        (
            r#"{"any_of": ["overview", "$.release.notes"]}"#,
            SchemaErrorKind::InvalidDocumentShape,
            "ref `$.release.notes` descends through the repeatable rule `release`; narrow that step with `[i]`",
        ),
        (
            r#"{"ordered": ["overview", "$.release.notes"]}"#,
            SchemaErrorKind::OrderedScopeMismatch,
            "descends through the repeatable rule `release`",
        ),
        (
            r#"{"ordered": ["overview"]}"#,
            SchemaErrorKind::InvalidDocumentShape,
            "ordered requires at least two refs",
        ),
        (
            r#"{"some_of": ["overview"]}"#,
            SchemaErrorKind::InvalidDocumentShape,
            "unknown constraint keyword `some_of`",
        ),
        (
            r#"{"any_of": [], "one_of": []}"#,
            SchemaErrorKind::InvalidDocumentShape,
            "constraint must contain exactly one keyword",
        ),
        (
            "1",
            SchemaErrorKind::InvalidDocumentShape,
            "constraint must be a single-key object",
        ),
    ] {
        let text = DOCUMENT.replace(
            r#"{"requires": {"if": "overview", "then": "release"}}"#,
            constraint,
        );
        let refused = load_with(&text, &readings, None, Vec::new()).unwrap_err();
        assert_eq!(refused.first.kind, kind, "{constraint}");
        assert!(
            refused.first.message.contains(message),
            "{constraint}: {}",
            refused.first.message
        );
    }
}

#[test]
fn a_scope_that_its_rules_order_takes_no_order_again() {
    let readings = readings(vec![
        here("overview"),
        here("release"),
        here("notes"),
        here("more"),
    ]);
    let text = DOCUMENT.replacen(r#""unordered": true,"#, "", 1);
    let refused = load_with(&text, &readings, None, Vec::new()).unwrap_err();
    assert_eq!(refused.first.kind, SchemaErrorKind::OrderedScopeMismatch);
    assert!(refused
        .first
        .message
        .starts_with("the scope these refs resolve in is already ordered by its rule list"));
}

fn loaded() -> NamedLoad {
    let readings = readings(vec![
        here("overview"),
        here("release"),
        here("notes"),
        here("more"),
    ]);
    load_with(DOCUMENT, &readings, None, Vec::new()).unwrap()
}

fn section(name: &str, scope: &[usize], index: usize, maximum: UpperBound) -> NamedDeclaration {
    NamedDeclaration {
        name: name.to_owned(),
        range: range(0, 1),
        entry: NamedEntry::Section {
            path: RulePath {
                scope: ScopePath(scope.iter().copied().map(RuleIndex).collect()),
                index: RuleIndex(index),
            },
            effective_maximum: maximum,
        },
    }
}

fn names() -> Namespaces {
    let mut names = Namespaces::new();
    names.register(
        NamedScope::Sections(ScopePath(vec![])),
        vec![
            section("overview", &[], 0, UpperBound::Bounded(1)),
            section("release", &[], 1, UpperBound::Unbounded),
        ],
    );
    names.register(
        NamedScope::Sections(ScopePath(vec![RuleIndex(1)])),
        vec![
            section("notes", &[1], 0, UpperBound::Bounded(1)),
            section("more", &[1], 1, UpperBound::Bounded(1)),
        ],
    );
    names
}

fn bind(
    parsed: (String, ParsedLocator),
    scope: &[usize],
) -> (Option<BoundOperand>, Vec<SchemaError>) {
    let load = loaded();
    let names = names();
    let source = parsed.0.clone();
    let locators = Locators {
        parsed: vec![parsed],
        faults: Vec::new(),
    };
    let scope = ScopePath(scope.iter().copied().map(RuleIndex).collect());
    let binder = Binder {
        schema: &load.schema,
        names: &names,
        locators: &locators,
        scope: &scope,
        range: range(4, 5),
    };
    let mut errors = Vec::new();
    let operand = bind_operand(&binder, &Json::Text(source), false, &mut errors);
    (operand, errors)
}

#[test]
fn relative_and_absolute_spellings_lead_to_one_rule() {
    let (relative, errors) = bind(here("notes"), &[1]);
    assert!(errors.is_empty(), "{:?}", messages(&errors));
    let (absolute, errors) = bind(
        root("$.release[0].notes", &[("release", Some("0")), ("notes", None)]),
        &[1],
    );
    assert!(errors.is_empty(), "{:?}", messages(&errors));
    let (Some(BoundOperand::Rule { identity: left, .. }), Some(BoundOperand::Rule { identity: right, .. })) =
        (relative, absolute)
    else {
        panic!("expected rules")
    };
    let path = |key: &Vec<CanonicalStep>| key.iter().map(|step| step.index).collect::<Vec<_>>();
    assert_eq!(path(&left), [1, 0]);
    assert_eq!(path(&right), [1, 0]);
    assert_eq!(left[0].selector, ScopeSelector::CurrentOccurrence);
    assert_eq!(
        right[0].selector,
        ScopeSelector::ExplicitIndex(Subscript::parse("0").unwrap())
    );
}

#[test]
fn only_the_last_step_may_stay_plural() {
    let (operand, errors) = bind(here("release"), &[]);
    assert!(operand.is_some() && errors.is_empty());
    let (operand, errors) = bind(here("release.notes"), &[]);
    assert!(operand.is_none());
    assert_eq!(
        messages(&errors),
        ["ref `release.notes` descends through the repeatable rule `release`; narrow that step with `[i]`"]
    );
    let (operand, _) = bind(
        outline(
            "release[2].notes",
            RefAnchor::CurrentScope,
            &[("release", Some("2")), ("notes", None)],
            &[],
            false,
        ),
        &[],
    );
    assert!(operand.is_some());
}

#[test]
fn structural_steps_need_a_declaration() {
    let step = |kind: &str| {
        outline(
            "release[0]/x",
            RefAnchor::CurrentScope,
            &[("release", Some("0"))],
            &[(kind, None)],
            false,
        )
    };
    let (operand, errors) = bind(step("p"), &[]);
    assert_eq!(operand, Some(BoundOperand::StructuralTerminal));
    assert!(errors.is_empty());
    let (operand, _) = bind(step("list"), &[]);
    assert_eq!(operand, Some(BoundOperand::StructuralTerminal));
    let (operand, errors) = bind(step("item"), &[]);
    assert_eq!(operand, None);
    assert_eq!(
        messages(&errors),
        ["unresolved ref `release[0]/x`: no specific `/item` declaration exists here"]
    );
    let (_, errors) = bind(step("table"), &[]);
    assert_eq!(
        messages(&errors),
        ["unresolved ref `release[0]/x`: structural kind `/table` is not allocated"]
    );
    let (operand, errors) = bind(
        outline(
            "release[0]/list/item",
            RefAnchor::CurrentScope,
            &[("release", Some("0"))],
            &[("list", None), ("item", None)],
            false,
        ),
        &[],
    );
    assert_eq!(operand, None);
    assert_eq!(
        messages(&errors),
        ["ref `release[0]/list/item` descends through plural step `/list`; narrow it with `[i]`"]
    );
}

#[test]
fn texts_belong_to_headings() {
    let (operand, errors) = bind(
        outline(
            "overview/text",
            RefAnchor::CurrentScope,
            &[("overview", None)],
            &[],
            true,
        ),
        &[],
    );
    assert!(errors.is_empty());
    assert!(matches!(operand, Some(BoundOperand::IntrinsicText(_))));
    let (operand, errors) = bind(
        outline(
            "release[0]/p[0]/text",
            RefAnchor::CurrentScope,
            &[("release", Some("0"))],
            &[("p", Some("0"))],
            true,
        ),
        &[],
    );
    assert_eq!(operand, None);
    assert_eq!(
        messages(&errors),
        ["ref `release[0]/p[0]/text` has no `/text` intrinsic at this terminal"]
    );
}

#[test]
fn queries_and_undeclared_captures_of_the_frontmatter() {
    let query = (
        "fm:$.status=draft".to_owned(),
        ParsedLocator::Query(QueryLocator {
            query: "$.status".to_owned(),
            equality: Some("draft".to_owned()),
        }),
    );
    let (operand, errors) = bind(query, &[]);
    assert!(errors.is_empty());
    assert!(matches!(operand, Some(BoundOperand::Query(_))));
    let capture = (
        "fm.released".to_owned(),
        ParsedLocator::Capture(CaptureLocator {
            name: "released".to_owned(),
        }),
    );
    let (operand, errors) = bind(capture, &[]);
    assert_eq!(operand, None);
    assert_eq!(messages(&errors), ["unresolved ref `fm.released`"]);
}

#[test]
fn scopes_are_ordered_by_their_rules_or_not() {
    let load = loaded();
    assert!(!scope_is_ordered(&load.schema, &Vec::new()));
    let key = vec![CanonicalStep {
        index: 0,
        selector: ScopeSelector::ImplicitSingular,
    }];
    assert!(scope_is_ordered(&load.schema, &key));
}

#[test]
fn subscripts_have_any_size() {
    let large = Subscript::parse("340282366920938463463374607431768211456").unwrap();
    assert!(large.same(&Subscript::parse("0340282366920938463463374607431768211456").unwrap()));
    assert!(!large.is_zero());
    assert!(Subscript::parse("000").unwrap().is_zero());
    assert!(Subscript::parse("-1").is_none());
    assert!(Subscript::parse("").is_none());
}

#[test]
fn typed_values_are_declared_by_name() {
    let queries = vec![
        ("$..x".to_owned(), "not singular".to_owned()),
        ("$['odd']".to_owned(), "odd".to_owned()),
    ];
    let (capture, faults) = build_frontmatter_capture(
        "released",
        &json(r#"{"type": "date", "path": "$.release.date", "required": true}"#),
        &queries,
    );
    assert_eq!(
        capture,
        Some(FrontmatterCapture {
            path: "$.release.date".to_owned(),
            value_type: ValueType::Date,
            required: true,
        })
    );
    assert!(faults.is_empty());
    let (capture, _) = build_frontmatter_capture("draft", &json(r#"{"type": "bool"}"#), &queries);
    assert_eq!(
        capture,
        Some(FrontmatterCapture {
            path: "$['draft']".to_owned(),
            value_type: ValueType::Bool,
            required: false,
        })
    );
    for (name, text, expected) in [
        (
            "No",
            r#"{"type": "int"}"#,
            "capture name `No` must match `[a-z][a-z0-9_]*`",
        ),
        (
            "a",
            "1",
            "frontmatter capture `a` must be a mapping declaring a `type`",
        ),
        (
            "a",
            r#"{"type": "int", "kind": 1}"#,
            "unknown field `kind` in frontmatter capture `a`",
        ),
        (
            "a",
            "{}",
            "frontmatter capture `a` is missing required field `type`",
        ),
        (
            "a",
            r#"{"type": "string"}"#,
            "unknown capture type `string` in frontmatter capture `a`; expected one of `int`, `bool`, `date`, `semver`, `dotted`, `text`",
        ),
        (
            "a",
            r#"{"type": null}"#,
            "frontmatter capture `a` `type` must be a string and cannot be null",
        ),
        (
            "a",
            r#"{"type": "int", "required": null}"#,
            "frontmatter capture `a` `required` must be a bool and cannot be null",
        ),
        (
            "a",
            r#"{"type": "int", "path": null}"#,
            "frontmatter capture `a` `path` must be a string and cannot be null",
        ),
        (
            "a",
            r#"{"type": "int", "path": "$..x"}"#,
            "frontmatter capture `a` path `$..x` is not an absolute singular JSONPath query: not singular",
        ),
        (
            "odd",
            r#"{"type": "int"}"#,
            "frontmatter capture `odd` has no usable default path",
        ),
    ] {
        let (capture, faults) = build_frontmatter_capture(name, &json(text), &queries);
        assert_eq!(capture, None, "{text}");
        assert_eq!(faults, [expected], "{text}");
    }
    let (_, faults) = build_frontmatter_capture(
        "No",
        &json(r#"{"type": "no", "path": "$..x", "required": 1}"#),
        &queries,
    );
    assert_eq!(faults.len(), 4);
}

#[test]
fn one_unsound_declaration_refuses_all_but_hides_none() {
    let queries = Vec::new();
    let places = places(vec![
        (
            RangeKey::FrontmatterField("captures".to_owned()),
            range(1, 2),
        ),
        (RangeKey::FrontmatterCapture("a".to_owned()), range(3, 4)),
        (RangeKey::FrontmatterCapture("b".to_owned()), range(5, 6)),
    ]);
    let mut errors = Vec::new();
    let mut nodes = FoundNodes::new();
    let value = json(r#"{"a": {"type": "int"}, "b": {}, "c": 1}"#);
    let captures = build_frontmatter_captures(
        &places,
        Some(&value),
        true,
        &queries,
        &mut errors,
        &mut nodes,
    );
    assert_eq!(captures, DeclaredCaptures::Invalid);
    assert_eq!(errors.len(), 2);
    assert_eq!(errors[0].range, range(5, 6));
    assert_eq!(
        NodeRanges::of(&nodes).get(&SchemaNode::FrontmatterCapture("a".to_owned())),
        Some(range(3, 4))
    );
    assert!(!NodeRanges::of(&nodes).contains_key(&SchemaNode::FrontmatterCapture("b".to_owned())));
    errors.clear();
    for value in [None, Some(&Json::Null), Some(&Json::Object(Vec::new()))] {
        let captures =
            build_frontmatter_captures(&places, value, true, &queries, &mut errors, &mut nodes);
        assert_eq!(captures, DeclaredCaptures::Invalid);
    }
    assert_eq!(errors.len(), 3);
    assert_eq!(errors[0].range, range(1, 2));
    assert_eq!(
        errors[0].message,
        "frontmatter.captures must be a non-empty mapping of capture declarations"
    );
    assert_eq!(
        build_frontmatter_captures(&places, None, false, &queries, &mut errors, &mut nodes),
        DeclaredCaptures::Absent
    );
}

fn settled(
    required: bool,
    allow: bool,
    captures: Option<&Json>,
    schema: Option<DeclaredSchema>,
) -> (Option<CapturingPolicy>, Vec<SchemaError>) {
    let ranges = if captures.is_some() {
        vec![(
            RangeKey::FrontmatterField("captures".to_owned()),
            range(1, 2),
        )]
    } else {
        Vec::new()
    };
    let mut errors = Vec::new();
    let mut nodes = FoundNodes::new();
    let policy = settle_frontmatter(
        &places(ranges),
        required,
        allow,
        captures,
        schema,
        &sources(),
        &Vec::new(),
        &mut errors,
        &mut nodes,
    );
    assert!(NodeRanges::of(&nodes).contains_key(&SchemaNode::Frontmatter));
    (policy, errors)
}

#[test]
fn policies_say_whether_frontmatter_may_be_there() {
    let captures = json(r#"{"a": {"type": "int"}}"#);
    assert_eq!(
        settled(true, true, None, None).0,
        Some(CapturingPolicy::Required { schema: None })
    );
    assert_eq!(
        settled(false, true, None, None).0,
        Some(CapturingPolicy::Optional { schema: None })
    );
    assert_eq!(
        settled(false, false, None, None).0,
        Some(CapturingPolicy::Forbidden { schema: None })
    );
    assert!(matches!(
        settled(true, true, Some(&captures), None).0,
        Some(CapturingPolicy::RequiredWithCaptures { .. })
    ));
    let Some(policy) = settled(false, true, Some(&captures), None).0 else {
        panic!("expected a policy")
    };
    assert_eq!(policy.exports().len(), 1);
    let (policy, errors) = settled(true, false, None, None);
    assert_eq!(policy, None);
    assert_eq!(
        messages(&errors),
        ["frontmatter cannot be both required and forbidden"]
    );
    let (policy, errors) = settled(false, false, Some(&Json::Null), None);
    assert_eq!(policy, None);
    assert_eq!(
        messages(&errors),
        [
            "frontmatter cannot declare captures and be forbidden",
            "frontmatter.captures must be a non-empty mapping of capture declarations",
        ]
    );
    assert_eq!(errors[0].kind, SchemaErrorKind::ConflictingFrontmatter);
    let (policy, errors) = settled(false, true, None, Some(DeclaredSchema::Linked(None)));
    assert_eq!(policy, None);
    assert_eq!(
        messages(&errors),
        ["linked frontmatter schema requires a schema file path context"]
    );
    let (policy, errors) = settled(
        false,
        true,
        None,
        Some(DeclaredSchema::Inline(Err(NonEmpty {
            first: "one".to_owned(),
            rest: vec!["two".to_owned()],
        }))),
    );
    assert_eq!(policy, None);
    assert_eq!(messages(&errors), ["one", "two"]);
}

#[test]
fn inline_schemas_refer_to_themselves_alone() {
    assert!(invalid_inline_references(&json(r##"{"$ref": "#/$defs/a", "a": [1]}"##)).is_empty());
    assert_eq!(
        invalid_inline_references(&json(
            r##"{"$ref": "other.json", "a": {"$dynamicRef": 1}, "b": [{"$ref": "x#"}]}"##
        )),
        [
            "inline frontmatter JSON Schema `$ref` must be fragment-only, found `other.json`",
            "inline frontmatter JSON Schema `$ref` must be fragment-only, found `x#`",
            "inline frontmatter JSON Schema `$dynamicRef` must be a string beginning with `#`",
        ]
    );
}

#[test]
fn inline_schemas_are_prepared_under_a_uri_of_their_own() {
    let value = read_value(
        r##"{"type": "object", "properties": {"a": {"$ref": "#/$defs/n"}}, "$defs": {"n": {"type": "integer"}}}"##,
    )
    .unwrap();
    let schema = prepare_inline_schema(&value).expect("the schema is sound");
    assert_eq!(
        schema.root_uri,
        "https://outlint.invalid/inline/frontmatter.schema.json"
    );
    assert_eq!(schema.root, to_json(&value));
    assert!(schema.resources.is_empty());
    let faulty = read_value(r#"{"type": 1}"#).unwrap();
    let faults = prepare_inline_schema(&faulty).unwrap_err();
    assert!(faults
        .first
        .starts_with("invalid draft 2020-12 JSON Schema: "));
    let remote = read_value(r#"{"$ref": "https://example.com/x.json", "type": 1}"#).unwrap();
    let faults = prepare_inline_schema(&remote).unwrap_err();
    assert_eq!(
        faults.first,
        "inline frontmatter JSON Schema `$ref` must be fragment-only, found `https://example.com/x.json`"
    );
    assert!(faults.rest.is_empty());
}

#[test]
fn inline_schemas_are_settled_by_how_they_compile() {
    let document = json("{}");
    assert!(settle_inline(&document, None, None).is_ok());
    let fault = |outcome: GraphFault| settle_inline(&document, None, Some(outcome)).unwrap_err();
    assert_eq!(
        fault(GraphFault::Compile("no".to_owned())).first,
        "cannot compile inline frontmatter JSON Schema: no"
    );
    assert_eq!(
        fault(GraphFault::Registry(RegistryFault::Other("no".to_owned()))).first,
        "cannot prepare inline frontmatter JSON Schema: no"
    );
    let told = settle_inline(
        &document,
        Some("bad".to_owned()),
        Some(GraphFault::Compile("no".to_owned())),
    )
    .unwrap_err();
    assert_eq!(told.first, "bad");
    let mut references = Vec::new();
    for at in 0..129 {
        references.push((
            format!("p{at:03}"),
            Json::Object(vec![("$ref".to_owned(), Json::Text("#".to_owned()))]),
        ));
    }
    let crowded = settle_inline(&Json::Object(references), None, None).unwrap_err();
    assert_eq!(
        crowded.first,
        "frontmatter JSON Schema declares more than 128 `$ref` or `$dynamicRef` members"
    );
}

#[test]
fn typed_values_of_the_frontmatter_can_be_constrained() {
    let captures = json(r#"{"draft": {"type": "bool"}}"#);
    let value = read_value(r#"{"type": "object"}"#).unwrap();
    let raw = RawFrontmatter {
        required: Some(true),
        allow: None,
        schema: Some(RawSchema::Mapping(&value)),
        captures: Some(&captures),
    };
    let parsed = vec![
        (
            "fm.draft".to_owned(),
            ParsedLocator::Capture(CaptureLocator {
                name: "draft".to_owned(),
            }),
        ),
        here("overview"),
    ];
    let load = load_with(
        r#"{"version": 2, "frontmatter": {}, "sections": [{"match": "Overview"}],
            "constraints": [{"conflicts": {"if": "fm.draft", "then_not": ["overview"]}}]}"#,
        &readings(parsed),
        Some(raw),
        vec![(
            RangeKey::FrontmatterField("captures".to_owned()),
            range(1, 2),
        )],
    )
    .unwrap();
    let CapturingPolicy::RequiredWithCaptures {
        schema: Some(schema),
        captures,
    } = &load.schema.frontmatter
    else {
        panic!("expected a schema and typed values")
    };
    assert_eq!(schema.root, to_json(&value));
    assert_eq!(captures[0].0, "draft");
    assert!(matches!(
        load.constraints[0].1[0],
        NamedConstraint::Conflicts {
            condition: NamedProposition::Capture(_),
            ..
        }
    ));
}
