//! Rules of named scopes: their parts, their names, and their shape.

use outlint_core::json::Json;
use outlint_core::json_value::{read_value, to_json};
use outlint_core::load_result::{ContentOwner, ContentRulePath, FoundNodes, NodeRanges};
use outlint_core::loader::places::Places;
use outlint_core::loader::ranges::{RangeIndex, RangeKey};
use outlint_core::schema::{
    AtLeastTwo, Cardinality, ExactText, Matcher, NonEmpty, RegexPattern, RuleId, UpperBound,
};
use outlint_core::scopes::captures::{build_rule_captures, is_capture_name, GroupFacts, Groups};
use outlint_core::scopes::cardinality::{
    build_cardinality, effective_maximum, is_singular_maximum,
};
use outlint_core::scopes::content::{build_content_rule, build_content_scope};
use outlint_core::scopes::model::{
    BlockMatcher, ChildScope, ContentRule, ContentScope, ExtrasMode, ItemScope, ListKind,
    ScopeMode, ValueOrderDirection, ValueOrderEntry, ValueType,
};
use outlint_core::scopes::names::{
    check_named_scope, reserved_root_id, sort_by_place, NamedDeclaration, NamedEntry, NamedScope,
    Namespaces,
};
use outlint_core::scopes::order::{build_rule_order, parse_order_entry};
use outlint_core::scopes::rules::{build_child_scope, build_named_id, Builder, ScopeFindings};
use outlint_core::{
    ByteOffset, CapturePath, RuleIndex, RulePath, SchemaError, SchemaErrorKind, SchemaNode,
    ScopePath, SourceId, SourceRange, TextRange,
};

fn range(start: usize, end: usize) -> SourceRange {
    SourceRange {
        source: SourceId(0),
        range: TextRange {
            start: ByteOffset(start),
            end: ByteOffset(end),
        },
    }
}

fn json(text: &str) -> Json {
    to_json(&read_value(text).expect("the text is valid JSON"))
}

fn members(text: &str) -> Vec<(String, Json)> {
    match json(text) {
        Json::Object(members) => members,
        _ => panic!("expected an object"),
    }
}

fn places(ranges: Vec<(RangeKey, SourceRange)>) -> Places {
    Places {
        ranges: RangeIndex { ranges },
        document: range(0, 100),
        outline_general: false,
    }
}

fn rule(scope: &[usize], index: usize) -> RulePath {
    RulePath {
        scope: ScopePath(scope.iter().copied().map(RuleIndex).collect()),
        index: RuleIndex(index),
    }
}

fn messages(errors: &[SchemaError]) -> Vec<&str> {
    errors.iter().map(|error| error.message.as_str()).collect()
}

fn kinds(errors: &[SchemaError]) -> Vec<SchemaErrorKind> {
    errors.iter().map(|error| error.kind).collect()
}

fn exactly(count: u32) -> Cardinality {
    Cardinality {
        min: count,
        max: UpperBound::Bounded(count),
    }
}

fn groups(names: &[(&str, bool, bool)]) -> Groups {
    names
        .iter()
        .map(|(name, alternation, min_zero_repetition)| {
            (
                (*name).to_owned(),
                GroupFacts {
                    alternation: *alternation,
                    min_zero_repetition: *min_zero_repetition,
                },
            )
        })
        .collect()
}

#[test]
fn every_type_is_read_back_from_its_spelling() {
    for value_type in [
        ValueType::Int,
        ValueType::Bool,
        ValueType::Date,
        ValueType::Semver,
        ValueType::Dotted,
        ValueType::Text,
    ] {
        assert_eq!(ValueType::from_name(value_type.as_str()), Some(value_type));
    }
    assert_eq!(ValueType::from_name("string"), None);
}

#[test]
fn capture_names_start_with_a_letter() {
    for name in ["a", "release_2", "x9_"] {
        assert!(is_capture_name(name), "{name}");
    }
    for name in ["", "_a", "9a", "A", "a-b", "é"] {
        assert!(!is_capture_name(name), "{name}");
    }
}

#[test]
fn bounds_multiply_and_saturate() {
    let two = UpperBound::Bounded(2);
    let three = UpperBound::Bounded(3);
    assert_eq!(effective_maximum(two, three), UpperBound::Bounded(6));
    assert_eq!(effective_maximum(three, two), UpperBound::Bounded(6));
    assert_eq!(
        effective_maximum(two, UpperBound::Unbounded),
        UpperBound::Unbounded
    );
    assert_eq!(
        effective_maximum(UpperBound::Bounded(u32::MAX), two),
        UpperBound::Unbounded
    );
    assert!(is_singular_maximum(UpperBound::Bounded(1)));
    assert!(!is_singular_maximum(two));
    assert!(!is_singular_maximum(UpperBound::Unbounded));
}

#[test]
fn orders_by_place_are_stable() {
    let ranges = vec![range(5, 6), range(1, 9), range(5, 5), range(0, 1)];
    assert_eq!(sort_by_place(&ranges), [3, 1, 0, 2]);
}

fn declared(name: &str, at: usize, index: usize) -> NamedDeclaration {
    NamedDeclaration {
        name: name.to_owned(),
        range: range(at, at + 1),
        entry: NamedEntry::Section {
            path: rule(&[], index),
            effective_maximum: UpperBound::Bounded(1),
        },
    }
}

#[test]
fn a_namespace_is_free_where_its_names_differ() {
    let mut errors = Vec::new();
    assert!(check_named_scope(
        &vec![declared("a", 1, 0), declared("b", 2, 1)],
        &mut errors
    ));
    assert!(errors.is_empty());
    assert!(!check_named_scope(
        &vec![declared("a", 9, 0), declared("b", 2, 1), declared("a", 4, 2)],
        &mut errors
    ));
    assert_eq!(kinds(&errors), [SchemaErrorKind::DuplicateId]);
    assert_eq!(errors[0].range, range(9, 10));
    assert_eq!(errors[0].related[0].range, range(4, 5));
}

#[test]
fn names_resolve_in_their_own_namespace() {
    let mut names = Namespaces::new();
    names.register(
        NamedScope::Sections(ScopePath(vec![])),
        vec![declared("a", 1, 0)],
    );
    names.register(
        NamedScope::Sections(ScopePath(vec![RuleIndex(0)])),
        vec![declared("b", 2, 3)],
    );
    let root = NamedScope::Sections(ScopePath(vec![]));
    let nested = NamedScope::Sections(ScopePath(vec![RuleIndex(0)]));
    assert!(names.find(&root, "a").is_some());
    assert!(names.find(&root, "b").is_none());
    assert_eq!(names.find(&nested, "b").unwrap().range, range(2, 3));
}

#[test]
fn root_ids_can_be_reserved() {
    assert!(reserved_root_id("fm").is_some());
    assert!(reserved_root_id("overview").is_none());
    let mut errors = Vec::new();
    let at = range(2, 4);
    assert_eq!(
        build_named_id(Some("fm"), &Some(Matcher::Any), true, at, &mut errors),
        Some(RuleId("fm".to_owned()))
    );
    assert_eq!(
        build_named_id(Some("fm"), &Some(Matcher::Any), false, at, &mut errors),
        Some(RuleId("fm".to_owned()))
    );
    assert_eq!(
        build_named_id(Some("Not a slug"), &None, true, at, &mut errors),
        None
    );
    assert_eq!(
        build_named_id(
            None,
            &Some(Matcher::Exact(ExactText("Getting Started".to_owned()))),
            true,
            at,
            &mut errors
        ),
        Some(RuleId("getting-started".to_owned()))
    );
    assert_eq!(
        kinds(&errors),
        [
            SchemaErrorKind::ReservedId,
            SchemaErrorKind::InvalidDocumentShape
        ]
    );
}

#[test]
fn cardinalities_are_declared_in_one_way() {
    let at = range(1, 2);
    let mut errors = Vec::new();
    assert_eq!(
        build_cardinality(Some(true), None, false, at, &mut errors),
        Some(exactly(1))
    );
    assert_eq!(
        build_cardinality(Some(false), None, false, at, &mut errors),
        Some(Cardinality {
            min: 0,
            max: UpperBound::Bounded(1)
        })
    );
    assert_eq!(
        build_cardinality(None, Some("2..3"), false, at, &mut errors),
        Some(Cardinality {
            min: 2,
            max: UpperBound::Bounded(3)
        })
    );
    assert!(errors.is_empty());
    assert_eq!(build_cardinality(None, Some("3..2"), true, at, &mut errors), None);
    assert_eq!(
        build_cardinality(Some(true), Some("1"), true, at, &mut errors),
        None
    );
    assert_eq!(
        kinds(&errors),
        [
            SchemaErrorKind::InvalidRepeat,
            SchemaErrorKind::ConflictingCardinality
        ]
    );
    errors.clear();
    assert_eq!(
        build_cardinality(None, None, true, at, &mut errors),
        Some(exactly(1))
    );
    assert_eq!(build_cardinality(None, None, false, at, &mut errors), None);
    assert_eq!(kinds(&errors), [SchemaErrorKind::MissingCardinality]);
}

fn built_captures(
    value: Option<&Json>,
    matcher: &Option<Matcher>,
    groups: Option<&Groups>,
    ranges: Vec<(RangeKey, SourceRange)>,
) -> (Option<Vec<(String, ValueType)>>, Vec<SchemaError>, NodeRanges) {
    let mut errors = Vec::new();
    let mut nodes = FoundNodes::new();
    let captures = build_rule_captures(
        &places(ranges),
        &rule(&[], 0),
        value,
        matcher,
        groups,
        &mut errors,
        &mut nodes,
    );
    (captures, errors, NodeRanges::of(&nodes))
}

#[test]
fn captures_name_groups_that_take_part_in_every_match() {
    let matcher = Some(Matcher::Regex(RegexPattern("(?<v>.*)".to_owned())));
    let known = groups(&[("v", false, false), ("w", true, false), ("x", false, true)]);
    let value = json(r#"{"v": "semver"}"#);
    let (captures, errors, nodes) =
        built_captures(Some(&value), &matcher, Some(&known), Vec::new());
    assert_eq!(
        captures,
        Some(vec![("v".to_owned(), ValueType::Semver)])
    );
    assert!(errors.is_empty());
    assert!(nodes.contains_key(&SchemaNode::Capture(CapturePath {
        rule: rule(&[], 0),
        name: "v".to_owned()
    })));

    let value = json(
        r#"{"No": "int", "v": "string", "w": "int", "x": "int", "y": "int", "z": 1}"#,
    );
    let (captures, errors, _) = built_captures(Some(&value), &matcher, Some(&known), Vec::new());
    assert_eq!(captures, None);
    assert_eq!(
        messages(&errors),
        [
            "capture name `No` must match `[a-z][a-z0-9_]*`",
            "capture `v` declares unknown type `string`",
            "capture `w` is enclosed by an alternation, so its group does not participate in every match",
            "capture `x` is enclosed by a zero-minimum repetition, so its group does not participate in every match",
            "capture `y` names no group in this rule's regex",
            "capture `z` must declare its type as a string",
        ]
    );
    assert!(errors
        .iter()
        .all(|error| error.kind == SchemaErrorKind::InvalidCapture));
}

#[test]
fn captures_need_a_mapping_and_a_regex() {
    let exact = Some(Matcher::Exact(ExactText("A".to_owned())));
    let (captures, errors, _) = built_captures(None, &exact, None, Vec::new());
    assert_eq!(captures, Some(Vec::new()));
    assert!(errors.is_empty());
    let value = json(r#"{"v": "int"}"#);
    let (captures, errors, _) = built_captures(Some(&value), &exact, None, Vec::new());
    assert_eq!(captures, None);
    assert_eq!(
        messages(&errors),
        ["capture `v` needs a regex matcher; only a regex declares the named groups a capture binds"]
    );
    for (text, message) in [
        ("{}", "rule `captures` must declare at least one capture"),
        (
            "[]",
            "rule `captures` must be a mapping from capture names to types",
        ),
    ] {
        let value = json(text);
        let (captures, errors, _) = built_captures(Some(&value), &exact, None, Vec::new());
        assert_eq!(captures, None);
        assert_eq!(messages(&errors), [message]);
    }
    let spelled = vec![(
        RangeKey::RuleField(ScopePath(vec![]), RuleIndex(0), "captures".to_owned()),
        range(7, 8),
    )];
    let (captures, errors, _) = built_captures(None, &exact, None, spelled);
    assert_eq!(captures, None);
    assert_eq!(errors[0].range, range(7, 8));
}

#[test]
fn order_entries_are_read_field_by_field() {
    let (entry, faults) = parse_order_entry(&json(r#"{"by": "v", "dir": "desc"}"#));
    assert_eq!(
        entry,
        Some(ValueOrderEntry {
            by: "v".to_owned(),
            direction: ValueOrderDirection::Descending,
            strict: false,
        })
    );
    assert!(faults.is_empty());
    let (entry, faults) = parse_order_entry(&json(r#"{"by": 1, "extra": true}"#));
    assert_eq!(entry, None);
    assert_eq!(faults.len(), 2);
    assert_eq!(faults[1], "`order` entry `by` must be a capture name string");
    let (entry, faults) = parse_order_entry(&json(r#"{"dir": "up", "strict": 1}"#));
    assert_eq!(entry, None);
    assert_eq!(
        faults,
        [
            "each `order` entry must declare `by`",
            "`order` entry `dir` must be `asc` or `desc`",
            "`order` entry `strict` must be a bool",
        ]
    );
    let (_, faults) = parse_order_entry(&Json::Null);
    assert_eq!(faults, ["each `order` entry must be a mapping"]);
}

#[test]
fn orders_are_by_declared_captures_and_differ() {
    let captures = vec![("v".to_owned(), ValueType::Semver)];
    let many = Some(Cardinality {
        min: 0,
        max: UpperBound::Unbounded,
    });
    let mut errors = Vec::new();
    let mut nodes = FoundNodes::new();
    let value = json(r#"[{"by": "v"}]"#);
    let order = build_rule_order(
        &places(Vec::new()),
        &rule(&[], 0),
        Some(&value),
        Some(&captures),
        many,
        &mut errors,
        &mut nodes,
    );
    assert_eq!(order.unwrap().len(), 1);
    assert!(errors.is_empty());
    let value = json(r#"[{"by": "v"}, {"by": "v"}, {"by": "w"}]"#);
    let order = build_rule_order(
        &places(Vec::new()),
        &rule(&[], 0),
        Some(&value),
        Some(&captures),
        many,
        &mut errors,
        &mut nodes,
    );
    assert_eq!(order, None);
    assert_eq!(
        messages(&errors),
        [
            "`order` already declares this ordering of capture `v`",
            "`order` entry `by: w` names no capture declared by this rule",
        ]
    );
    assert!(errors
        .iter()
        .all(|error| error.kind == SchemaErrorKind::InvalidOrder));
    errors.clear();
    let value = json(r#"[{"by": "v"}]"#);
    build_rule_order(
        &places(Vec::new()),
        &rule(&[], 0),
        Some(&value),
        Some(&captures),
        Some(exactly(1)),
        &mut errors,
        &mut nodes,
    );
    assert_eq!(
        messages(&errors),
        ["`order` needs a rule that can match more than once, and this rule's effective maximum is one"]
    );
}

fn built_content(text: &str) -> (Option<ContentRule>, Vec<SchemaError>, NodeRanges) {
    let mut errors = Vec::new();
    let mut nodes = FoundNodes::new();
    let built = build_content_scope(
        &places(Vec::new()),
        &ContentOwner::Document,
        &ContentOwner::Title,
        Some(&json(&format!("[{text}]"))),
        true,
        &mut errors,
        &mut nodes,
    );
    let rule = match built {
        Some(ContentScope::Declared(mut rules)) => rules.pop(),
        _ => None,
    };
    (rule, errors, NodeRanges::of(&nodes))
}

#[test]
fn content_rules_declare_one_block_each() {
    let (rule, errors, nodes) = built_content(r#"{"block": "p", "id": "lead", "repeat": "1..n"}"#);
    assert!(errors.is_empty(), "{:?}", messages(&errors));
    assert_eq!(
        rule,
        Some(ContentRule::Paragraph {
            id: Some(RuleId("lead".to_owned())),
            cardinality: Cardinality {
                min: 1,
                max: UpperBound::Unbounded
            },
        })
    );
    assert!(nodes.contains_key(&SchemaNode::ContentRule(ContentRulePath {
        owner: ContentOwner::Title,
        index: 0,
    })));
    for (text, message) in [
        (
            r#"{"required": true}"#,
            "content rule must declare exactly one of `block` and `one_of`",
        ),
        (
            r#"{"block": "p", "one_of": []}"#,
            "content rule cannot declare both `block` and `one_of`",
        ),
        (
            r#"{"block": "code"}"#,
            "`block` must be one of `p`, `list`, or `any`",
        ),
        (r#"{"one_of": {}}"#, "`one_of` must be a sequence"),
        (
            r#"{"block": "p", "items": []}"#,
            "`items` is only applicable to `block: list`",
        ),
        (
            r#"{"block": "list", "list_kind": "round"}"#,
            "`list_kind` must be one of `bullet`, `ordered`, or `any`",
        ),
        (
            r#"{"block": "list", "items": null}"#,
            "`items` must be a sequence and cannot be null",
        ),
    ] {
        let (rule, errors, _) = built_content(text);
        assert_eq!(rule, None, "{text}");
        assert_eq!(messages(&errors), [message], "{text}");
        assert_eq!(kinds(&errors), [SchemaErrorKind::InvalidContentRule]);
    }
}

#[test]
fn list_rules_hold_rules_on_items() {
    let (rule, errors, _) = built_content(
        r#"{"block": "list", "list_kind": "ordered",
            "items": [{"id": "step", "match": "*", "required": true}, {"match": "Done"}]}"#,
    );
    assert!(errors.is_empty(), "{:?}", messages(&errors));
    let Some(ContentRule::List {
        list_kind, items, ..
    }) = rule
    else {
        panic!("expected a list rule")
    };
    assert_eq!(list_kind, Some(ListKind::Ordered));
    let ItemScope::Declared(items) = items else {
        panic!("expected item rules")
    };
    assert_eq!(items[0].id, Some(RuleId("step".to_owned())));
    assert_eq!(items[0].matcher, Matcher::Any);
    assert_eq!(items[1].cardinality, exactly(1));
    let (rule, errors, _) = built_content(r#"{"block": "list", "items": [{"match": "*"}, {}, 1]}"#);
    assert_eq!(rule, None);
    assert_eq!(
        kinds(&errors),
        [
            SchemaErrorKind::MissingCardinality,
            SchemaErrorKind::InvalidDocumentShape,
            SchemaErrorKind::InvalidContentRule,
        ]
    );
}

#[test]
fn alternatives_are_different_blocks() {
    let (rule, errors, _) =
        built_content(r#"{"one_of": [{"block": "p"}, {"block": "list", "list_kind": "bullet"}]}"#);
    assert!(errors.is_empty(), "{:?}", messages(&errors));
    assert_eq!(
        rule,
        Some(ContentRule::OneOf {
            id: None,
            cardinality: exactly(1),
            alternatives: AtLeastTwo {
                first: BlockMatcher::Paragraph,
                second: BlockMatcher::List {
                    list_kind: Some(ListKind::Bullet)
                },
                rest: vec![],
            },
        })
    );
    let (_, errors, _) = built_content(r#"{"one_of": [{"block": "p"}]}"#);
    assert_eq!(
        messages(&errors),
        ["`one_of` requires at least two alternatives"]
    );
    let (_, errors, _) = built_content(
        r#"{"one_of": [{"block": "list"}, {"block": "list", "list_kind": "any"}]}"#,
    );
    assert_eq!(
        messages(&errors),
        ["duplicate normalized `one_of` alternative"]
    );
    assert_eq!(
        errors[0].related[0].message,
        "first equivalent alternative declared here"
    );
    let (_, errors, _) =
        built_content(r#"{"one_of": [{"block": "p"}, {}, {"block": "x"}, 1]}"#);
    assert_eq!(errors.len(), 3);
}

#[test]
fn a_single_content_rule_is_built_alone() {
    let mut errors = Vec::new();
    let built = build_content_rule(
        &places(Vec::new()),
        &ContentOwner::Document,
        0,
        &json(r#"{"block": "any", "required": false}"#),
        true,
        &mut errors,
    );
    assert_eq!(
        built,
        Some(ContentRule::Any {
            id: None,
            cardinality: Cardinality {
                min: 0,
                max: UpperBound::Bounded(1)
            },
        })
    );
}

#[test]
fn content_must_be_a_sequence() {
    let mut errors = Vec::new();
    let mut nodes = FoundNodes::new();
    let owner = ContentOwner::Document;
    assert_eq!(
        build_content_scope(
            &places(Vec::new()),
            &owner,
            &owner,
            None,
            true,
            &mut errors,
            &mut nodes
        ),
        Some(ContentScope::Omitted)
    );
    assert_eq!(
        build_content_scope(
            &places(Vec::new()),
            &owner,
            &owner,
            Some(&Json::Null),
            true,
            &mut errors,
            &mut nodes
        ),
        None
    );
    assert_eq!(
        messages(&errors),
        ["content must be a sequence and cannot be null"]
    );
}

fn built_scope(
    text: &str,
    ranges: Vec<(RangeKey, SourceRange)>,
) -> (Option<ChildScope>, Vec<SchemaError>, Vec<String>) {
    let places = places(ranges);
    let analyses = vec![(
        "(?<v>[0-9]+)".to_owned(),
        groups(&[("v", false, false)]),
    )];
    let builder = Builder {
        places: &places,
        match_case: true,
        analyses: &analyses,
    };
    let declared = members(text);
    let mut findings = ScopeFindings::new();
    let scope = build_child_scope(
        &builder,
        &declared,
        &ScopePath(vec![]),
        Vec::new(),
        &mut findings,
    );
    let names = findings
        .names
        .scopes
        .iter()
        .flat_map(|(_, declarations)| declarations.iter().map(|one| one.name.clone()))
        .collect();
    (scope, findings.errors, names)
}

#[test]
fn scopes_hold_rules_guards_and_modes() {
    let (scope, errors, names) = built_scope(
        r#"{"sections": [
                {"match": "Overview", "required": true},
                {"id": "release", "match": "/(?<v>[0-9]+)/", "repeat": "0..n",
                 "captures": {"v": "int"}, "order": [{"by": "v", "dir": "desc"}],
                 "sections": [{"match": "Notes"}]}
            ],
            "forbid_sections": [{"match": "Draft"}],
            "extras": "anywhere", "unordered": true}"#,
        Vec::new(),
    );
    assert!(errors.is_empty(), "{:?}", messages(&errors));
    let Some(ChildScope::Declared(scope)) = scope else {
        panic!("expected a declared scope")
    };
    assert_eq!(scope.mode, ScopeMode::Unordered);
    assert_eq!(scope.extras, ExtrasMode::Anywhere);
    assert_eq!(scope.guards.len(), 1);
    assert_eq!(scope.rules[0].id, Some(RuleId("overview".to_owned())));
    assert_eq!(
        scope.rules[1].captures,
        vec![("v".to_owned(), ValueType::Int)]
    );
    assert_eq!(
        scope.rules[1].order[0].direction,
        ValueOrderDirection::Descending
    );
    assert_eq!(scope.rules[1].children.rules().len(), 1);
    let mut names = names;
    names.sort();
    assert_eq!(names, ["notes", "overview", "release", "v"]);
}

#[test]
fn scopes_without_rules_are_omitted_or_guarded() {
    let (scope, errors, _) = built_scope("{}", Vec::new());
    assert_eq!(scope, Some(ChildScope::Omitted));
    assert!(errors.is_empty());
    let (scope, errors, _) =
        built_scope(r#"{"forbid_sections": [{"match": "Draft*"}]}"#, Vec::new());
    assert!(errors.is_empty());
    let Some(ChildScope::GuardsOnly(NonEmpty { rest, .. })) = scope else {
        panic!("expected guards")
    };
    assert!(rest.is_empty());
}

#[test]
fn names_of_one_scope_differ() {
    let (scope, errors, _) = built_scope(
        r#"{"sections": [{"id": "a", "match": "A"}, {"id": "a", "match": "B"}]}"#,
        Vec::new(),
    );
    assert_eq!(scope, None);
    assert_eq!(kinds(&errors), [SchemaErrorKind::DuplicateId]);
    let (scope, errors, _) = built_scope(
        r#"{"sections": [{"match": "/(?<v>[0-9]+)/", "repeat": "0..n", "captures": {"v": "int"},
            "sections": [{"id": "v", "match": "V"}]}]}"#,
        Vec::new(),
    );
    assert_eq!(scope, None);
    assert_eq!(
        messages(&errors),
        ["rule id `v` collides with a capture in the same named scope"]
    );
}

#[test]
fn rules_behind_a_wildcard_are_unreachable_in_an_unordered_scope() {
    let rules = r#"[{"match": "*", "repeat": "0..n"}, {"match": "B"}]"#;
    let (scope, errors, _) = built_scope(
        &format!(r#"{{"unordered": true, "sections": {rules}}}"#),
        Vec::new(),
    );
    assert!(scope.is_some());
    assert_eq!(kinds(&errors), [SchemaErrorKind::UnreachableRule]);
    let (_, errors, _) = built_scope(&format!(r#"{{"sections": {rules}}}"#), Vec::new());
    assert!(errors.is_empty());
}

#[test]
fn faults_of_a_rule_are_reported_where_they_stand() {
    let field = |name: &str| {
        RangeKey::RuleField(ScopePath(vec![]), RuleIndex(0), name.to_owned())
    };
    let (scope, errors, _) = built_scope(
        r#"{"sections": [{"id": "fm", "match": "/(/", "repeat": "9..1"}]}"#,
        vec![
            (field("id"), range(1, 2)),
            (field("match"), range(3, 4)),
            (field("repeat"), range(5, 6)),
        ],
    );
    assert_eq!(scope, None);
    assert_eq!(
        kinds(&errors),
        [
            SchemaErrorKind::InvalidMatcher,
            SchemaErrorKind::ReservedId,
            SchemaErrorKind::InvalidRepeat
        ]
    );
    let starts: Vec<usize> = errors.iter().map(|error| error.range.range.start.0).collect();
    assert_eq!(starts, [3, 1, 5]);
}
