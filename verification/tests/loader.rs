//! Loading schema documents.

use outlint_core::json::Json;
use outlint_core::json_value::{read_value, to_json};
use outlint_core::loader::external::{
    external_source_id, json_schema_reference_budget_message, json_schema_reference_count,
    MAX_JSON_SCHEMA_REFERENCES,
};
use outlint_core::loader::rules::{parse_repeat, regex_body};
use outlint_core::matcher::{compile_anchored_pattern, compile_glob_pattern};
use outlint_core::scalar::{
    canonical_float, canonical_integer, parse_frontmatter_scalar, CanonicalFloat,
    CanonicalInteger, FrontmatterScalar,
};
use outlint_core::schema::{
    Cardinality, Constraint, ExactText, FrontmatterKey, FrontmatterPolicy, FrontmatterRef,
    FrontmatterSchema, Matcher, NonEmpty, OutlineProvenance, Proposition, RegexPattern, RuleId,
    RuleOutcome, Schema, SchemaVersion, UpperBound,
};
use outlint_core::{
    json_schema_external_references, linked_frontmatter_schema_path, load_schema,
    load_schema_with_resources, ByteOffset, ConstraintIndex, ConstraintPath, InvalidSchema,
    JsonSchemaExternalReference, JsonSchemaResourceContents, JsonSchemaResourceInput,
    LinkedJsonSchemaInput, LoadSchemaResult, RuleIndex, RulePath, SchemaErrorKind, SchemaNode,
    ScopePath, SourceId, SourceLabel, SourceRange, TextRange,
};

/// The JSON value that a text spells.
fn json(text: &str) -> Json {
    to_json(&read_value(text).expect("the text is valid JSON"))
}

/// The value that JSON Schema works on.
fn value(json: &Json) -> serde_json::Value {
    match json {
        Json::Null => serde_json::Value::Null,
        Json::Bool(value) => serde_json::Value::Bool(*value),
        Json::Number(spelling) => {
            serde_json::from_str(spelling).expect("a number keeps its spelling")
        }
        Json::Text(text) => serde_json::Value::String(text.clone()),
        Json::Array(items) => serde_json::Value::Array(items.iter().map(value).collect()),
        Json::Object(members) => serde_json::Value::Object(
            members
                .iter()
                .map(|(name, member)| (name.clone(), value(member)))
                .collect(),
        ),
    }
}

/// How many faults the linked schema of `schema` finds in `frontmatter`.
fn frontmatter_faults(schema: &Schema, frontmatter: &str) -> usize {
    let FrontmatterPolicy::Optional {
        schema: Some(linked),
    } = &schema.frontmatter
    else {
        panic!("expected an optional linked frontmatter schema")
    };
    let linked: &FrontmatterSchema = linked;
    let root = value(&linked.root);
    let others: Vec<(String, serde_json::Value)> = linked
        .resources
        .iter()
        .map(|(uri, document)| (uri.clone(), value(document)))
        .collect();
    let mut builder = jsonschema::Registry::new()
        .add(&linked.root_uri, &root)
        .expect("the root URI is valid");
    for (uri, document) in &others {
        builder = builder.add(uri, document).expect("the URI is valid");
    }
    let registry = builder.prepare().expect("the graph is complete");
    let validator = jsonschema::draft202012::options()
        .with_registry(&registry)
        .with_base_uri(linked.root_uri.clone())
        .build(&root)
        .expect("the schema compiles");
    let instance: serde_json::Value =
        serde_json::from_str(frontmatter).expect("the frontmatter is valid JSON");
    let count = validator.iter_errors(&instance).count();
    count
}

fn valid(source: &str) -> Schema {
    match load_schema(source) {
        Ok(loaded) => loaded.schema,
        Err(invalid) => panic!("unexpected errors: {:#?}", invalid.errors),
    }
}

fn error_kinds(source: &str) -> Vec<SchemaErrorKind> {
    match load_schema(source) {
        Ok(loaded) => panic!("unexpected valid schema: {:#?}", loaded.schema),
        Err(invalid) => invalid.errors.iter().into_iter().map(|error| error.kind).collect(),
    }
}

fn invalid(source: &str) -> InvalidSchema {
    match load_schema(source) {
        Ok(loaded) => panic!("unexpected valid schema: {:#?}", loaded.schema),
        Err(invalid) => invalid,
    }
}

fn source_slice(source: &str, range: SourceRange) -> &str {
    source
        .get(range.range.start.0..range.range.end.0)
        .unwrap_or("<invalid range>")
}

#[test]
fn yaml_syntax_error_ranges_convert_character_columns_to_bytes() {
    for source in [
        "version: 1\ntitle: å: bad\nsections: []\n",
        "version: 1\ntitle: a: bad\nsections: []\n",
        "version: 1\rtitle: å: bad\rsections: []\r",
    ] {
        let invalid = load_schema(source).expect_err("schema has invalid YAML");
        let error = &invalid.errors.first;
        let expected_start = source
            .find(": bad")
            .unwrap_or_else(|| panic!("test source contains the bad colon"));

        assert_eq!(error.kind, SchemaErrorKind::Syntax);
        assert_eq!(error.range.range.start, ByteOffset(expected_start));
        assert_eq!(source_slice(source, error.range), ":");
        assert!(source.is_char_boundary(error.range.range.start.0));
        assert!(source.is_char_boundary(error.range.range.end.0));
    }
}

#[test]
fn a_second_schema_document_is_refused_at_its_own_start_marker() {
    for (source, line) in [
        (
            "version: 1\nsections: []\n---\nversion: 1\nsections: []\n",
            3,
        ),
        ("version: 1\nsections: []\n...\n---\nsections: []\n", 4),
    ] {
        let invalid = invalid(source);
        assert_eq!(invalid.errors.first.kind, SchemaErrorKind::Syntax);
        assert_eq!(
            invalid.errors.first.message,
            format!(
                "invalid YAML: a second document opens at line {line} column 1; \
                 a schema is a single YAML document"
            )
        );
        assert_eq!(source_slice(source, invalid.errors.first.range), "---");
        let start = invalid.errors.first.range.range.start.0;
        assert!(
            start == 0 || source.as_bytes()[start - 1] == b'\n',
            "the `---` anchor must sit in the first column"
        );
    }

    assert_eq!(
        valid("version: 1\nsections: []\n...\n")
            .addressed_root_rules()
            .len(),
        0
    );
}

#[test]
fn a_merge_key_is_an_ordinary_schema_field() {
    let source =
        "version: 1\nbase: &b\n  strip_inline_markup: true\noptions:\n  <<: *b\nsections: []\n";
    let invalid = invalid(source);
    let reported = invalid
        .errors
        .iter()
        .into_iter()
        .map(|error| (error.kind, error.message.as_str()))
        .collect::<Vec<_>>();
    assert_eq!(
        reported,
        vec![
            (
                SchemaErrorKind::InvalidDocumentShape,
                "unknown field `base`"
            ),
            (SchemaErrorKind::InvalidDocumentShape, "unknown field `<<`"),
        ],
    );
}

fn nested_rule_schema(rules: usize) -> String {
    let mut source = String::from("version: 1\n");
    for rule in 0..rules {
        let indent = "  ".repeat(rule * 2);
        source.push_str(&format!(
            "{indent}sections:\n{indent}  - match: \"h{rule}\"\n"
        ));
    }
    source
}

#[test]
fn schema_nesting_is_bounded() {
    let schema = valid(&nested_rule_schema(63));
    assert_eq!(schema.addressed_root_rules().len(), 1);

    for rules in [64, 5_000] {
        let source = nested_rule_schema(rules);
        let invalid = invalid(&source);
        assert_eq!(invalid.errors.first.kind, SchemaErrorKind::Syntax);
        assert_eq!(
            invalid.errors.first.message,
            "invalid YAML: nesting exceeds the depth limit"
        );
        let overrun = source
            .match_indices("match")
            .nth(63)
            .map(|(offset, _)| offset)
            .expect("the fixture spells one `match` per rule");
        assert_eq!(invalid.errors.first.range.range.start, ByteOffset(overrun));
    }
}

fn alias_deepened_schema(links: usize) -> String {
    let mut source =
        String::from("version: 1\nsections:\n  - match: Title\nconstraints:\n  - &x0 [1]\n");
    for line in 1..links {
        source.push_str(&format!("  - &x{line} [*x{}]\n", line - 1));
    }
    source
}

#[test]
fn alias_expanded_schema_nesting_is_bounded_only_by_the_readers_own_limit() {
    let at_limit = alias_deepened_schema(126);
    let built = invalid(&at_limit);
    assert_eq!(
        built.errors.first.kind,
        SchemaErrorKind::InvalidDocumentShape
    );
    assert_eq!(
        built.errors.first.message,
        "constraint must be a single-key object"
    );

    for links in [127, 2_000] {
        let source = alias_deepened_schema(links);
        let refused = invalid(&source);
        assert_eq!(refused.errors.first.kind, SchemaErrorKind::Syntax);
        assert_eq!(
            refused.errors.first.message,
            "invalid YAML: nesting exceeds the depth limit"
        );
        assert_eq!(source_slice(&source, refused.errors.first.range), "*x125");
        assert_eq!(linked_frontmatter_schema_path(&source), None);
    }
}

fn alias_bomb_schema(depth: usize) -> String {
    let mut bomb = String::from("version: 1\nsections: []\nx0: &x0 [1,1,1,1]\n");
    for level in 1..=depth {
        let alias = format!("*x{}", level - 1);
        bomb.push_str(&format!(
            "x{level}: &x{level} [{alias},{alias},{alias},{alias}]\n"
        ));
    }
    bomb
}

#[test]
fn schema_alias_expansion_is_bounded_by_the_node_budget() {
    for depth in [9, 12, 15] {
        let bomb = alias_bomb_schema(depth);
        let started = std::time::Instant::now();
        let refused = invalid(&bomb);
        let elapsed = started.elapsed();
        assert_eq!(refused.errors.first.kind, SchemaErrorKind::Syntax);
        assert_eq!(
            refused.errors.first.message,
            "invalid YAML: alias expansion exceeds the document's size limit"
        );
        assert!(source_slice(&bomb, refused.errors.first.range).starts_with("*x"));
        assert!(
            elapsed < std::time::Duration::from_secs(1),
            "an alias bomb at depth {depth} took {elapsed:?}, \
             so it was expanded before being refused"
        );
    }

    let schema =
        valid("version: 1\nsections:\n  - match: &m Intro\n  - id: other\n    match: *m\n");
    assert_eq!(schema.addressed_root_rules().len(), 2);
}

#[test]
fn non_standard_tags_are_rejected_anywhere_in_a_schema_document() {
    let scalar = invalid("version: 1\ntitle: !custom Doc\nsections: []\n");
    assert_eq!(scalar.errors.first.kind, SchemaErrorKind::Syntax);
    assert_eq!(
        scalar.errors.first.message,
        "invalid YAML: non-standard tag `!custom`"
    );
    assert_eq!(
        source_slice(
            "version: 1\ntitle: !custom Doc\nsections: []\n",
            scalar.errors.first.range
        ),
        "Doc"
    );

    let root = invalid("--- !custom\nversion: 1\nsections: []\n");
    assert_eq!(root.errors.first.kind, SchemaErrorKind::Syntax);
    assert_eq!(
        root.errors.first.message,
        "invalid YAML: non-standard tag `!custom`"
    );

    let schema = valid("version: !!int 1\ntitle: !!str Doc\nsections: []\n");
    assert!(matches!(
        schema.outline.first().map(|rule| &rule.matcher),
        Some(Matcher::Exact(_))
    ));
}

#[test]
fn a_standard_tag_on_a_schema_collection_must_name_the_collection_kind() {
    let schema = valid("version: 1\nsections: !!seq\n  - match: A\n");
    assert_eq!(schema.addressed_root_rules().len(), 1);

    let source = "version: 1\nsections: !!map\n  - match: A\n";
    let refused = invalid(source);
    assert_eq!(refused.errors.first.kind, SchemaErrorKind::Syntax);
    assert_eq!(
        refused.errors.first.message,
        "invalid YAML: invalid tag for a YAML seq"
    );
    assert_eq!(source_slice(source, refused.errors.first.range), "-");
    assert_eq!(refused.errors.first.range.range.start, ByteOffset(29));
}

#[test]
fn an_oversized_version_is_a_shape_error_at_the_value() {
    let source = "version: 99999999999999999999999999\nsections: []\n";
    let invalid = invalid(source);
    assert_eq!(
        invalid.errors.first.kind,
        SchemaErrorKind::InvalidDocumentShape
    );
    assert_eq!(
        invalid.errors.first.message,
        "version must be an integer that fits in 64 bits and cannot be null"
    );
    assert_eq!(
        source_slice(source, invalid.errors.first.range),
        "99999999999999999999999999"
    );
}

#[test]
fn one_leading_byte_order_mark_is_removed_before_parsing() {
    let schema = valid("\u{feff}version: 1\nsections: []\n");
    assert_eq!(schema.version, SchemaVersion::V1);

    let source = "\u{feff}\u{feff}version: 1\nsections: []\n";
    let doubled = invalid(source);
    assert!(doubled
        .errors
        .iter()
        .into_iter()
        .any(|error| error.message == "unknown field `\u{feff}version`"));
}

#[test]
fn duplicate_keys_are_rejected_on_resolved_text_at_the_duplicate() {
    for source in [
        "version: 1\nversion: 2\nsections: []\n",
        "version: 1\n\"version\": 2\nsections: []\n",
    ] {
        let refused = invalid(source);
        assert_eq!(refused.errors.first.kind, SchemaErrorKind::Syntax);
        assert_eq!(
            refused.errors.first.message,
            "invalid YAML: duplicate mapping key `version`"
        );
        assert!(refused.errors.first.range.range.start >= ByteOffset(11));
    }
}

#[test]
fn applies_defaults_and_normalizes_rules() {
    let schema = valid(
        r#"
version: 1
sections:
  - match: API Reference
    required: true
  - id: api
    match: "/API: .+/"
    repeat: 0..n
  - match: "*"
    allow: false
"#,
    );
    assert!(!schema.options.match_case);
    assert!(schema.options.strip_inline_markup);
    assert!(!schema.options.allow_skipped_levels);
    let rules = schema.addressed_root_rules();
    assert_eq!(rules[0].id, Some(RuleId("api-reference".into())));
    assert_eq!(
        rules[0].outcome,
        RuleOutcome::Allow(Cardinality {
            min: 1,
            max: UpperBound::Bounded(1)
        })
    );
    assert!(matches!(rules[2].outcome, RuleOutcome::Deny));
}

#[test]
fn classifies_matcher_forms_and_unescapes_regex_delimiter() {
    let schema = valid(
        r#"
version: 1
sections:
  - match: exact
  - match: prefix*suffix
  - match: "*"
  - match: /a\/b/
"#,
    );
    let rules = schema.addressed_root_rules();
    assert!(matches!(rules[0].matcher, Matcher::Exact(_)));
    assert!(matches!(rules[1].matcher, Matcher::Glob(_)));
    assert_eq!(rules[2].matcher, Matcher::Any);
    assert_eq!(rules[3].matcher, Matcher::Regex(RegexPattern("a/b".into())));
}

#[test]
fn rejects_invalid_regex_and_repeat_while_collecting_errors() {
    let kinds = error_kinds(
        r#"
version: 1
sections:
  - match: /(?=lookaround)/
    repeat: 01..2
  - match: ok
    allow: false
    required: true
"#,
    );
    assert!(kinds.contains(&SchemaErrorKind::InvalidMatcher));
    assert!(kinds.contains(&SchemaErrorKind::InvalidRepeat));
    assert!(kinds.contains(&SchemaErrorKind::ConflictingCardinality));
}

#[test]
fn rejects_a_single_regex_delimiter_without_panicking() {
    let kinds = error_kinds(
        r#"
version: 1
sections:
  - match: "/"
"#,
    );
    assert_eq!(kinds, vec![SchemaErrorKind::InvalidMatcher]);
}

#[test]
fn regex_load_validation_uses_the_normalized_match_case_setting() {
    let body = "[a-z]{100000}";
    let case_insensitive = format!("version: 1\nsections:\n  - match: \"/{body}/\"\n");
    let invalid = load_schema(&case_insensitive)
        .expect_err("case-insensitive compiled regex exceeds the size limit");
    assert_eq!(invalid.errors.first.kind, SchemaErrorKind::InvalidMatcher);

    let case_sensitive = format!(
        "version: 1\noptions:\n  match_case: true\nsections:\n  - match: \"/{body}/\"\n"
    );
    let loaded = load_schema(&case_sensitive).expect("the same regex fits when case-sensitive");
    assert!(matches!(
        loaded.schema.addressed_root_rules()[0].matcher,
        Matcher::Regex(_)
    ));
    assert_eq!(compile_anchored_pattern(body, true), None);
    assert!(compile_anchored_pattern(body, false).is_some());
}

#[test]
fn oversized_glob_is_invalid_at_its_matcher_range_and_errors_are_collected() {
    let glob = format!("{}*", "a".repeat(200_000));
    let source = format!("version: 1\nsections:\n  - match: {glob}\n    repeat: 01..2\n");
    let invalid = load_schema(&source).expect_err("oversized glob must fail during loading");
    let errors = invalid.errors.iter().into_iter().collect::<Vec<_>>();

    assert_eq!(errors.len(), 2);
    assert_eq!(errors[0].kind, SchemaErrorKind::InvalidMatcher);
    assert_eq!(source_slice(&source, errors[0].range), glob);
    assert_eq!(errors[1].kind, SchemaErrorKind::InvalidRepeat);

    let case_sensitive =
        format!("version: 1\noptions:\n  match_case: true\nsections:\n  - match: {glob}\n");
    let loaded = load_schema(&case_sensitive)
        .expect("the same glob fits when matching case-sensitively");
    assert!(matches!(
        loaded.schema.addressed_root_rules()[0].matcher,
        Matcher::Glob(_)
    ));
    assert_eq!(compile_glob_pattern(&glob, true), None);
    assert!(compile_glob_pattern(&glob, false).is_some());
}

#[test]
fn detects_auto_id_collisions_per_scope() {
    let kinds = error_kinds(
        r#"
version: 1
sections:
  - match: API
  - id: api
    match: Something else
"#,
    );
    assert!(kinds.contains(&SchemaErrorKind::DuplicateId));
}

#[test]
fn rejects_auto_generated_reserved_fm_id() {
    let kinds = error_kinds(
        r#"
version: 1
sections:
  - match: fm
"#,
    );
    assert_eq!(kinds, vec![SchemaErrorKind::ReservedId]);
}

#[test]
fn rejects_the_removed_root_level_option() {
    let source = "version: 1\noptions:\n  root_level: 3\nsections: []\n";
    let invalid = invalid(source);
    let messages = invalid
        .errors
        .iter()
        .into_iter()
        .map(|error| (error.kind, error.message.clone()))
        .collect::<Vec<_>>();
    assert_eq!(
        messages,
        vec![(
            SchemaErrorKind::InvalidDocumentShape,
            "unknown field `root_level`".to_owned()
        )]
    );
}

#[test]
fn rejects_every_explicit_null_typed_field_and_collects_them() {
    let source = r#"version: 1
title: null
options:
  match_case: null
sections:
  - id: null
    match: valid
    required: null
    repeat: null
"#;
    let invalid = invalid(source);
    let errors = invalid.errors.iter().into_iter().collect::<Vec<_>>();
    assert_eq!(errors.len(), 4);
    assert!(errors
        .iter()
        .into_iter()
        .all(|error| error.kind == SchemaErrorKind::InvalidDocumentShape
            && source_slice(source, error.range) == "null"));
    let mut actual = errors
        .iter()
        .into_iter()
        .map(|error| error.range.range.start.0)
        .collect::<Vec<_>>();
    actual.sort_unstable();
    let expected = source
        .match_indices("null")
        .map(|(offset, _)| offset)
        .skip(1)
        .collect::<Vec<_>>();
    assert_eq!(actual, expected);
}

#[test]
fn title_null_declares_a_document_without_h1() {
    let source = "version: 1\ntitle: null\nsections:\n  - match: Overview\n";
    let loaded = load_schema(source).expect("title: null loads");
    let rule = &loaded.schema.outline[0];
    assert_eq!(rule.matcher, Matcher::Any);
    assert_eq!(rule.outcome, RuleOutcome::Deny);
    assert_eq!(rule.sections.len(), 1);
    assert_eq!(loaded.schema.outline_provenance, OutlineProvenance::NoTitle);
    assert_eq!(
        source_slice(
            source,
            loaded
                .locations
                .nodes
                .get(&SchemaNode::Title)
                .expect("title: null anchors the title node")
        ),
        "null"
    );
}

#[test]
fn sugar_forms_carry_their_provenance() {
    let titled = valid("version: 1\ntitle: Doc\nsections: []\n");
    assert_eq!(titled.outline_provenance, OutlineProvenance::Title);
    let bare = valid("version: 1\nsections: []\n");
    assert_eq!(bare.outline_provenance, OutlineProvenance::BareSections);
}

#[test]
fn outline_rules_are_the_canonical_model_and_anchor_at_their_spellings() {
    let source = r#"version: 1
outline:
  - match: Part
    required: true
    sections:
      - match: Overview
        required: true
"#;
    let loaded = load_schema(source).expect("a single-rule outline loads");
    let schema = &loaded.schema;
    assert_eq!(schema.outline_provenance, OutlineProvenance::Outline);
    assert_eq!(
        schema.outline[0].matcher,
        Matcher::Exact(ExactText("Part".into()))
    );
    assert_eq!(
        schema.outline[0].outcome,
        RuleOutcome::Allow(Cardinality {
            min: 1,
            max: UpperBound::Bounded(1)
        })
    );
    assert_eq!(
        schema.outline[0].sections[0].matcher,
        Matcher::Exact(ExactText("Overview".into()))
    );
    assert!(!loaded.locations.nodes.contains_key(&SchemaNode::Title));
    assert_eq!(
        source_slice(
            source,
            loaded
                .locations
                .nodes
                .get(&SchemaNode::Rule(RulePath {
                    scope: ScopePath(Vec::new()),
                    index: RuleIndex(0),
                }))
                .expect("the outline rule is the root scope's first rule")
        ),
        "match: Part\n    required: true\n    sections:\n      - match: Overview\n        required: true\n"
    );
    assert_eq!(
        source_slice(
            source,
            loaded
                .locations
                .nodes
                .get(&SchemaNode::Rule(RulePath {
                    scope: ScopePath(vec![RuleIndex(0)]),
                    index: RuleIndex(0),
                }))
                .expect("the outline rule's child sits one scope below")
        ),
        "match: Overview\n        required: true\n"
    );
}

#[test]
fn sugar_and_outline_forms_parse_to_the_same_model() {
    let sugar = valid(
        r#"version: 1
title: "Doc *"
sections:
  - match: Overview
    required: true
    sections:
      - match: Details
  - match: Second
constraints:
  - any_of: [overview, second]
"#,
    );
    let general = valid(
        r#"version: 1
outline:
  - match: "Doc *"
    required: true
    sections:
      - match: Overview
        required: true
        sections:
          - match: Details
      - match: Second
    constraints:
      - any_of: [overview, second]
"#,
    );
    assert_eq!(sugar.outline_provenance, OutlineProvenance::Title);
    assert_eq!(general.outline_provenance, OutlineProvenance::Outline);
    let mut general_as_sugar = general;
    general_as_sugar.outline_provenance = OutlineProvenance::Title;
    assert_eq!(sugar, general_as_sugar);
}

#[test]
fn an_outline_declares_any_number_of_ordinary_h1_rules() {
    let schema = valid(
        r#"version: 1
outline:
  - match: "Part *"
    repeat: "1..n"
  - id: appendix
    match: Appendix
    strict: true
"#,
    );
    assert_eq!(schema.outline.len(), 2);
    assert_eq!(
        schema.outline[0].outcome,
        RuleOutcome::Allow(Cardinality {
            min: 1,
            max: UpperBound::Unbounded
        })
    );
    assert_eq!(schema.outline[1].id, Some(RuleId("appendix".into())));
    assert!(schema.outline[1].strict);
}

#[test]
fn an_empty_outline_is_refused_toward_title_null() {
    let invalid = invalid("version: 1\noutline: []\n");
    assert_eq!(
        invalid.errors.first.message,
        "outline must declare at least one rule; a document with no h1 headers \
         is declared with `title: null`"
    );
}

#[test]
fn outline_conflicts_with_title_at_the_second_declared_key() {
    let source = "version: 1\ntitle: Doc\noutline:\n  - match: Doc\n    required: true\n";
    let invalid = invalid(source);
    let errors = invalid.errors.iter().into_iter().collect::<Vec<_>>();
    assert_eq!(errors.len(), 1);
    let error = errors[0];
    assert_eq!(error.kind, SchemaErrorKind::ConflictingOutline);
    assert_eq!(
        error.message,
        "`outline` cannot be declared together with `title`"
    );
    assert_eq!(
        source_slice(source, error.range),
        "- match: Doc\n    required: true\n"
    );
    assert_eq!(error.related.len(), 1);
    assert_eq!(source_slice(source, error.related[0].range), "Doc");
    assert_eq!(error.related[0].message, "`title` declared here");
}

#[test]
fn outline_conflicts_with_sections_anchoring_whichever_comes_second() {
    let source = "version: 1\noutline:\n  - match: Doc\n    required: true\nsections: []\n";
    let invalid = invalid(source);
    let errors = invalid.errors.iter().into_iter().collect::<Vec<_>>();
    assert_eq!(errors.len(), 1);
    let error = errors[0];
    assert_eq!(error.kind, SchemaErrorKind::ConflictingOutline);
    assert_eq!(
        error.message,
        "`sections` cannot be declared together with `outline`"
    );
    assert_eq!(source_slice(source, error.range), "[]");
    assert_eq!(error.related[0].message, "`outline` declared here");
}

#[test]
fn top_level_constraints_beside_outline_attach_to_the_h1_scope() {
    let schema = valid(
        "version: 1\noutline:\n  - id: intro\n    match: Intro\n\
         \x20 - id: body\n    match: Body\nconstraints:\n  - ordered: [intro, body]\n",
    );
    assert_eq!(schema.constraints.len(), 1);
    assert!(schema
        .outline
        .iter()
        .all(|rule| rule.constraints.is_empty()));

    let sugar = valid(
        "version: 1\nsections:\n  - id: a\n    match: A\n  - id: b\n    match: B\n\
         constraints:\n  - ordered: [a, b]\n",
    );
    assert!(sugar.constraints.is_empty());
    assert_eq!(sugar.outline[0].constraints.len(), 1);
}

#[test]
fn schema_root_refs_anchor_at_the_outline_scope_in_the_general_form() {
    let schema = valid(
        "version: 1\noutline:\n  - id: doc\n    match: Doc\n    required: true\n\
         \x20   sections:\n      - id: a\n        match: A\n        constraints:\n\
         \x20         - requires: { if: \"$.doc.a\", then: \"$.doc\" }\n",
    );
    assert_eq!(schema.outline[0].sections[0].constraints.len(), 1);
    let sugar = valid(
        "version: 1\nsections:\n  - id: a\n    match: A\n    sections:\n\
         \x20     - id: b\n        match: B\n    constraints:\n\
         \x20     - requires: { if: b, then: \"$.a\" }\n",
    );
    assert_eq!(sugar.outline[0].sections[0].constraints.len(), 1);
    let unresolved = invalid(
        "version: 1\noutline:\n  - id: doc\n    match: Doc\n    required: true\n\
         \x20   sections:\n      - id: a\n        match: A\n    constraints:\n\
         \x20     - requires: { if: a, then: \"$.a\" }\n",
    );
    assert!(unresolved
        .errors
        .iter()
        .into_iter()
        .any(|error| error.kind == SchemaErrorKind::UnresolvedRef
            && error.message == "unresolved ref `$.a`"));
}

#[test]
fn outline_rules_take_every_cardinality_spelling() {
    let schema = valid("version: 1\noutline:\n  - match: Doc\n    repeat: \"1..1\"\n");
    assert_eq!(
        schema.outline[0].outcome,
        RuleOutcome::Allow(Cardinality {
            min: 1,
            max: UpperBound::Bounded(1)
        })
    );
    let default = valid("version: 1\noutline:\n  - match: Doc\n");
    assert_eq!(
        default.outline[0].outcome,
        RuleOutcome::Allow(Cardinality {
            min: 0,
            max: UpperBound::Unbounded
        })
    );
}

#[test]
fn errors_inside_an_outline_rule_anchor_at_their_own_spellings() {
    let source = r#"version: 1
outline:
  - match: Doc
    required: true
    sections:
      - match: "/(/"
"#;
    let invalid = invalid(source);
    let regex = invalid
        .errors
        .iter()
        .into_iter()
        .find(|error| error.kind == SchemaErrorKind::InvalidMatcher)
        .expect("the child rule's regex is invalid");
    assert_eq!(source_slice(source, regex.range), "\"/(/\"");
}

#[test]
fn constraints_on_an_outline_rule_anchor_at_their_own_spellings() {
    let source = r#"version: 1
outline:
  - match: Doc
    required: true
    sections:
      - match: Overview
    constraints:
      - one_of: [missing, alike]
"#;
    let invalid = invalid(source);
    let unresolved = invalid
        .errors
        .iter()
        .into_iter()
        .find(|error| error.kind == SchemaErrorKind::UnresolvedRef)
        .expect("the constraint refs do not resolve");
    assert_eq!(
        source_slice(source, unresolved.range),
        "one_of: [missing, alike]\n"
    );
}

#[test]
fn ordered_refs_through_a_repeatable_h1_rule_are_refused() {
    let invalid = invalid(
        "version: 1\noutline:\n  - id: part\n    match: \"Part *\"\n    repeat: \"1..n\"\n\
         \x20   sections:\n      - id: a\n        match: A\n      - id: b\n        match: B\n\
         constraints:\n  - ordered: [part.a, part.b]\n",
    );
    assert!(invalid
        .errors
        .iter()
        .into_iter()
        .any(|error| error.kind == SchemaErrorKind::OrderedScopeMismatch));
}

#[test]
fn duplicate_id_error_and_related_location_point_to_each_scalar() {
    let source = r#"version: 1
sections:
  - id: duplicate
    match: First
  - id: duplicate
    match: Second
"#;
    let invalid = invalid(source);
    let error = invalid
        .errors
        .iter()
        .into_iter()
        .find(|error| error.kind == SchemaErrorKind::DuplicateId)
        .unwrap_or_else(|| panic!("missing duplicate-id error"));
    assert_eq!(source_slice(source, error.range), "duplicate");
    assert_eq!(error.related.len(), 1);
    assert_eq!(source_slice(source, error.related[0].range), "duplicate");
    assert_ne!(error.range.range.start, error.related[0].range.range.start);
}

#[test]
fn successful_node_locations_are_narrower_than_the_document() {
    let source = r#"version: 1
title: "*"
sections:
  - match: Overview
  - match: Details
constraints:
  - ordered: [overview, details]
"#;
    let loaded = match load_schema(source) {
        Ok(loaded) => loaded,
        Err(invalid) => panic!("unexpected errors: {:#?}", invalid.errors),
    };
    let addresses = [
        SchemaNode::Title,
        SchemaNode::Rule(RulePath {
            scope: ScopePath(Vec::new()),
            index: RuleIndex(0),
        }),
        SchemaNode::Constraint(ConstraintPath {
            scope: ScopePath(Vec::new()),
            index: ConstraintIndex(0),
        }),
    ];
    for address in addresses {
        let range = loaded
            .locations
            .nodes
            .get(&address)
            .unwrap_or_else(|| panic!("missing range for {address:?}"));
        assert!(range.range.start > loaded.locations.document.range.start);
        assert!(range.range.end <= loaded.locations.document.range.end);
        assert!(range.range.start < range.range.end);
        assert_ne!(range, loaded.locations.document);
    }
}

#[test]
fn repeat_accepts_u32_boundary_and_rejects_overflow() {
    let schema = valid(
        r#"
version: 1
sections:
  - match: many
    repeat: 4294967295..4294967295
"#,
    );
    assert_eq!(
        schema.addressed_root_rules()[0].outcome,
        RuleOutcome::Allow(Cardinality {
            min: u32::MAX,
            max: UpperBound::Bounded(u32::MAX)
        })
    );
    let kinds = error_kinds(
        r#"
version: 1
sections:
  - match: too-many
    repeat: 4294967296..n
"#,
    );
    assert_eq!(kinds, vec![SchemaErrorKind::InvalidRepeat]);
}

#[test]
fn external_source_ids_report_exhaustion_instead_of_saturating() {
    assert_eq!(external_source_id(0), Some(SourceId(1)));
        assert_eq!(external_source_id(u32::MAX as usize), None);
}

#[test]
fn resolves_constraints_and_normalizes_frontmatter_scalars() {
    let schema = valid(
        r#"
version: 1
sections:
  - match: Overview
    sections:
      - match: Goals
  - match: Deployment
constraints:
  - requires: { if: deployment, then: [$.overview.goals, fm.count=0x10] }
"#,
    );
    let Constraint::Requires { consequences, .. } = &schema.outline[0].constraints[0] else {
        panic!("expected requires")
    };
    assert_eq!(
        consequences.rest[0],
        Proposition::Frontmatter(FrontmatterRef {
            path: NonEmpty {
                first: FrontmatterKey("count".into()),
                rest: vec![]
            },
            equals: Some(FrontmatterScalar::Integer(CanonicalInteger("16".into())))
        })
    );
}

#[test]
fn frontmatter_ref_identity_uses_simple_case_folding() {
    let duplicate = error_kinds(
        r#"
version: 1
sections: []
constraints:
  - any_of: [fm.key=ſ, fm.key=S]
"#,
    );
    assert_eq!(duplicate, vec![SchemaErrorKind::DuplicateRef]);

    let schema = valid(
        r#"
version: 1
sections: []
constraints:
  - any_of: [fm.key=ß, fm.key=ss]
"#,
    );
    assert_eq!(schema.outline[0].constraints.len(), 1);
}

#[test]
fn rejects_dangling_forbidden_duplicate_and_mis_scoped_ordered_refs() {
    let kinds = error_kinds(
        r#"
version: 1
sections:
  - id: repeated
    match: Repeated
    sections:
      - match: Child
  - id: denied
    match: Denied
    allow: false
constraints:
  - any_of: [missing, missing]
  - requires: { if: denied, then: denied }
  - ordered: [repeated.child, denied]
"#,
    );
    assert!(kinds.contains(&SchemaErrorKind::UnresolvedRef));
    assert!(kinds.contains(&SchemaErrorKind::ForbiddenRef));
    assert!(kinds.contains(&SchemaErrorKind::OrderedScopeMismatch));
}

#[test]
fn checks_constraint_lexemes_even_when_a_rule_cannot_be_built() {
    let kinds = error_kinds(
        r#"
version: 1
sections:
  - match: /(?=invalid)/
constraints:
  - any_of: [bad..ref, also..bad]
"#,
    );
    assert_eq!(
        kinds,
        vec![
            SchemaErrorKind::InvalidMatcher,
            SchemaErrorKind::UnresolvedRef,
            SchemaErrorKind::UnresolvedRef
        ]
    );
}

#[test]
fn yaml_core_scalars_support_arbitrary_magnitude_without_signed_nan() {
    assert_eq!(
        parse_frontmatter_scalar("1e100000000000000000000000000000000000000"),
        FrontmatterScalar::Float(CanonicalFloat(
            "1e100000000000000000000000000000000000000".into()
        ))
    );
    assert_eq!(
        parse_frontmatter_scalar("-0xffffffffffffffffffffffffffffffff"),
        FrontmatterScalar::Integer(CanonicalInteger(
            "-340282366920938463463374607431768211455".into()
        ))
    );
    assert_eq!(
        parse_frontmatter_scalar("-.nan"),
        FrontmatterScalar::String("-.nan".into())
    );
    assert_eq!(
        parse_frontmatter_scalar("+.NaN"),
        FrontmatterScalar::String("+.NaN".into())
    );
}

#[test]
fn normalizes_frontmatter_presence_policy() {
    let schema = valid(
        r#"
version: 1
frontmatter: { required: true }
sections: []
"#,
    );
    assert_eq!(
        schema.frontmatter,
        FrontmatterPolicy::Required { schema: None }
    );
}

#[test]
fn linked_frontmatter_schema_requires_file_context() {
    let kinds = error_kinds(
        r#"
version: 1
frontmatter: { schema: frontmatter.schema.json }
sections: []
"#,
    );
    assert_eq!(kinds, vec![SchemaErrorKind::InvalidFrontmatterSchema]);
}

#[test]
fn external_references_separate_physical_paths_from_id_based_logical_uris() {
    let references = json_schema_external_references(
        r#"{
                "$id": "https://example.com/schemas/root.json",
                "allOf": [
                    { "$ref": "defs.json" },
                    { "$id": "nested/child.json", "$ref": "more.json" }
                ]
            }"#,
        "file:///workspace/frontmatter.schema.json",
        "https://outlint.invalid/workspace/frontmatter.schema.json",
    )
    .expect("references resolve under both bases");

    assert_eq!(
        references,
        vec![
            JsonSchemaExternalReference {
                physical_uri: "file:///workspace/defs.json".into(),
                logical_uri: "https://example.com/schemas/defs.json".into(),
            },
            JsonSchemaExternalReference {
                physical_uri: "file:///workspace/more.json".into(),
                logical_uri: "https://example.com/schemas/nested/more.json".into(),
            },
        ]
    );
}

#[test]
fn loads_and_resolves_linked_frontmatter_schema_with_local_ref() {
    let loaded = linked(
        r#"{"$schema":"https://json-schema.org/draft/2020-12/schema","$ref":"defs.json#/$defs/frontmatter"}"#,
        &[(
            "https://outlint.invalid/defs.json",
            r#"{"$defs":{"frontmatter":{"type":"object","required":["status"],"properties":{"status":{"enum":["draft","final"]}}}}}"#,
        )],
    )
    .expect("linked JSON Schema is valid");
    let FrontmatterPolicy::Optional { schema: Some(_) } = &loaded.schema.frontmatter else {
        panic!("expected an optional linked frontmatter schema")
    };
    assert!(loaded.sources.get(SourceId(1)).is_some());
    assert!(loaded.sources.get(SourceId(2)).is_some());
    assert!(loaded
        .locations
        .nodes
        .contains_key(&SchemaNode::FrontmatterSchemaDocument));
    let faults = frontmatter_faults(&loaded.schema, r#"{"status":"review"}"#);
    assert_eq!(faults, 1);
    assert_eq!(
        frontmatter_faults(&loaded.schema, r#"{"status":"draft"}"#),
        0
    );
}

#[test]
fn accepts_circular_fragment_refs_without_validation_time_io() {
    linked(
        r##"{
                "$schema": "https://json-schema.org/draft/2020-12/schema",
                "$ref": "#/$defs/node",
            "$defs": {
                "node": {
                    "type": "object",
                    "properties": { "child": { "$ref": "#/$defs/node" } }
                }
            }
        }"##,
        &[],
    )
    .expect("circular local refs are valid");
}

#[test]
fn accepts_cycles_across_preloaded_resources() {
    linked(
        r#"{"$ref":"other.json"}"#,
        &[(
            "https://outlint.invalid/other.json",
            r#"{"$ref":"root.json"}"#,
        )],
    )
    .expect("the immutable registry supports cross-resource cycles");
}

#[test]
fn semantic_schema_equality_ignores_resource_labels() {
    let first = linked("{\"type\":\"object\"}", &[]).expect("first schema is valid");
    let mut input = resource("https://outlint.invalid/root.json", "{\"type\":\"object\"}");
    input.label = Some(SourceLabel("a/different/location.json".into()));
    let second = load_schema_with_resources(
        linked_schema_source(),
        Some(SourceLabel("elsewhere/schema.yml".into())),
        Some(LinkedJsonSchemaInput {
            root_uri: "https://outlint.invalid/root.json".into(),
            resources: vec![input],
        }),
    )
    .expect("second schema is valid");
    assert_eq!(first.schema, second.schema);
}

#[test]
fn rejects_remote_refs_without_network_retrieval() {
    let remote_uri = "https://example.invalid/frontmatter.schema.json";
    let invalid = linked(
        r#"{
                "$schema": "https://json-schema.org/draft/2020-12/schema",
                "$ref": "https://example.invalid/frontmatter.schema.json"
            }"#,
        &[],
    )
    .expect_err("remote refs are unsupported");
    assert_eq!(
        invalid.errors.first.kind,
        SchemaErrorKind::InvalidFrontmatterSchema
    );
    assert_eq!(invalid.errors.first.range.source, SourceId(1));
    assert!(
        invalid.errors.first.message.contains(&format!(
            "JSON Schema resource `{remote_uri}` was not preloaded"
        )),
        "unexpected retrieval diagnostic: {}",
        invalid.errors.first.message
    );
    assert!(!invalid.errors.first.message.contains("Default retriever"));
}

#[test]
fn preserves_ref_siblings_and_boolean_targets() {
    let loaded = linked(
        r#"{"$ref":"defs.json#/$defs/base","required":["sibling"]}"#,
        &[(
            "https://outlint.invalid/defs.json",
            r#"{"$defs":{"base":{"required":["target"]}}}"#,
        )],
    )
    .expect("ref with duplicate sibling keyword is valid");
    let faults = frontmatter_faults(&loaded.schema, r#"{"target":true}"#);
    assert_eq!(faults, 1, "`$ref` siblings must both apply");

    let loaded = linked(
        r#"{"$ref":"defs.json#/$defs/base","type":"object"}"#,
        &[(
            "https://outlint.invalid/defs.json",
            r#"{"$defs":{"base":false}}"#,
        )],
    )
    .expect("boolean ref target is valid");
    let faults = frontmatter_faults(&loaded.schema, r#"{"target":true}"#);
    assert_eq!(faults, 1, "false target must remain rejecting");
}

#[test]
fn positions_invalid_linked_json_schema_in_its_own_source() {
    let invalid = linked("{ invalid json }", &[]).expect_err("linked JSON Schema is invalid");
    assert_eq!(invalid.errors.iter().into_iter().count(), 1);
    assert_eq!(
        invalid.errors.first.kind,
        SchemaErrorKind::InvalidFrontmatterSchema
    );
    assert_eq!(invalid.errors.first.range.source, SourceId(1));
    let source = invalid
        .sources.get(SourceId(1))
        .unwrap_or_else(|| panic!("missing linked JSON Schema source"));
    assert_eq!(source.label, Some(SourceLabel("root.json".into())));
}

#[test]
fn positions_invalid_transitive_resource_in_its_own_source() {
    let invalid = linked(
        r#"{"$ref":"defs.json"}"#,
        &[("https://outlint.invalid/defs.json", "{ invalid json }")],
    )
    .expect_err("transitive resource is invalid");
    assert_eq!(invalid.errors.first.range.source, SourceId(2));
    assert_eq!(
        invalid.sources.get(SourceId(2)).expect("the source is there").label,
        Some(SourceLabel("defs.json".into()))
    );
}

#[test]
fn collects_independent_linked_resource_errors_in_input_order() {
    let invalid = linked(
        r#"{"allOf":[{"$ref":"first.json"},{"$ref":"second.json"}]}"#,
        &[
            ("https://outlint.invalid/first.json", "{ invalid json }"),
            ("https://outlint.invalid/second.json", "[]"),
        ],
    )
    .expect_err("both invalid linked resources must be reported");
    let errors = invalid.errors.iter().into_iter().collect::<Vec<_>>();

    assert_eq!(errors.len(), 2);
    assert_eq!(errors[0].kind, SchemaErrorKind::InvalidFrontmatterSchema);
    assert_eq!(errors[0].range.source, SourceId(2));
    assert!(errors[0]
        .message
        .starts_with("invalid linked JSON Schema document:"));
    assert_eq!(errors[1].kind, SchemaErrorKind::InvalidFrontmatterSchema);
    assert_eq!(errors[1].range.source, SourceId(3));
    assert_eq!(
        errors[1].message,
        "linked JSON Schema root must be an object or boolean"
    );
}

#[test]
fn duplicate_linked_resource_error_uses_the_duplicate_occurrence_source() {
    let uri = "https://outlint.invalid/duplicate.json";
    let mut first = resource(uri, "{ invalid json }");
    first.label = Some(SourceLabel("first-duplicate.json".into()));
    let mut second = resource(uri, "{}");
    second.label = Some(SourceLabel("second-duplicate.json".into()));
    let invalid = load_schema_with_resources(
        linked_schema_source(),
        Some(SourceLabel("schema.yml".into())),
        Some(LinkedJsonSchemaInput {
            root_uri: "https://outlint.invalid/root.json".into(),
            resources: vec![
                resource(
                    "https://outlint.invalid/root.json",
                    r#"{"$ref":"duplicate.json"}"#,
                ),
                first,
                second,
            ],
        }),
    )
    .expect_err("invalid and duplicate resources must both be reported");
    let errors = invalid.errors.iter().into_iter().collect::<Vec<_>>();

    assert_eq!(errors.len(), 2);
    assert_eq!(errors[0].range.source, SourceId(2));
    assert_eq!(errors[1].range.source, SourceId(3));
    assert!(errors[1]
        .message
        .starts_with("duplicate JSON Schema resource URI"));
    assert_eq!(
        invalid.sources.get(SourceId(3)).expect("the source is there").label,
        Some(SourceLabel("second-duplicate.json".into()))
    );
}

#[test]
fn positions_linked_schema_read_failures_at_the_unreadable_resource() {
    let message = "cannot inspect linked JSON Schema 'missing.json': not found";
    for (resources, expected_source, expected_label) in [
        (
            vec![failed_resource(
                "https://outlint.invalid/root.json",
                "missing-root.json",
                message,
            )],
            SourceId(1),
            "missing-root.json",
        ),
        (
            vec![
                resource(
                    "https://outlint.invalid/root.json",
                    r#"{"$ref":"missing.json"}"#,
                ),
                failed_resource(
                    "https://outlint.invalid/missing.json",
                    "missing.json",
                    message,
                ),
            ],
            SourceId(2),
            "missing.json",
        ),
    ] {
        let invalid = load_schema_with_resources(
            linked_schema_source(),
            Some(SourceLabel("schema.yml".into())),
            Some(LinkedJsonSchemaInput {
                root_uri: "https://outlint.invalid/root.json".into(),
                resources,
            }),
        )
        .expect_err("linked schema read failure is invalid");

        assert_eq!(
            invalid.errors.first.kind,
            SchemaErrorKind::InvalidFrontmatterSchema
        );
        assert_eq!(invalid.errors.first.message, message);
        assert_eq!(invalid.errors.first.range.source, expected_source);
        assert_eq!(
            invalid.errors.first.range.range,
            TextRange {
                start: ByteOffset(0),
                end: ByteOffset(0),
            }
        );
        let source = invalid
            .sources
            .get(expected_source)
            .expect("the source is there");
        assert_eq!(source.label, Some(SourceLabel(expected_label.into())));
        assert_eq!(&*source.text, "");
    }
}

#[test]
fn rejects_missing_and_unsupported_linked_json_schemas() {
    let root = resource("https://outlint.invalid/not-root.json", "{}");
    let missing = load_schema_with_resources(
        linked_schema_source(),
        None,
        Some(LinkedJsonSchemaInput {
            root_uri: "https://outlint.invalid/root.json".into(),
            resources: vec![root],
        }),
    )
    .expect_err("missing linked schema is invalid");
    assert_eq!(
        missing.errors.first.kind,
        SchemaErrorKind::InvalidFrontmatterSchema
    );
    assert_eq!(missing.errors.first.range.source, SourceId(0));

    let unsupported = linked(
        r#"{"$schema":"http://json-schema.org/draft-07/schema#","type":"object"}"#,
        &[],
    )
    .expect_err("unsupported dialect is invalid");
    assert_eq!(
        unsupported.errors.first.kind,
        SchemaErrorKind::InvalidFrontmatterSchema
    );
    assert_eq!(unsupported.errors.first.range.source, SourceId(1));
}

fn linked(root: &str, resources: &[(&str, &str)]) -> LoadSchemaResult {
    let mut rest = Vec::new();
    for (uri, source) in resources {
        rest.push(resource(uri, source));
    }
    load_schema_with_resources(
        linked_schema_source(),
        Some(SourceLabel("schema.yml".into())),
        Some(LinkedJsonSchemaInput {
            root_uri: "https://outlint.invalid/root.json".into(),
            resources: std::iter::once(resource("https://outlint.invalid/root.json", root))
                .chain(rest)
                .collect(),
        }),
    )
}

fn resource(uri: &str, source: &str) -> JsonSchemaResourceInput {
    JsonSchemaResourceInput {
        uri: uri.into(),
        label: Some(SourceLabel(
            uri.rsplit('/').next().unwrap_or(uri).to_owned(),
        )),
        contents: JsonSchemaResourceContents::Loaded(source.to_owned()),
    }
}

fn failed_resource(uri: &str, label: &str, message: &str) -> JsonSchemaResourceInput {
    JsonSchemaResourceInput {
        uri: uri.into(),
        label: Some(SourceLabel(label.into())),
        contents: JsonSchemaResourceContents::ReadFailure(message.into()),
    }
}

fn linked_schema_source() -> &'static str {
    "version: 1\nfrontmatter:\n  schema: root.json\ntitle: null\nsections: []\n"
}

fn reference_chain(links: usize, tail: &str) -> String {
    let mut definitions = String::from(r#""end":true"#);
    for index in 0..links {
        let target = if index + 1 == links {
            tail.to_owned()
        } else {
            format!("#/$defs/{}", index + 1)
        };
        definitions.push_str(&format!(r#","{index}":{{"$ref":"{target}"}}"#));
    }
    format!(r##"{{"$ref":"#/$defs/0","$defs":{{{definitions}}}}}"##)
}

#[test]
fn refuses_a_reference_chain_longer_than_the_compiler_can_recurse_over() {
    let at_budget = reference_chain(MAX_JSON_SCHEMA_REFERENCES - 1, "#/$defs/end");
    assert_eq!(
        json_schema_reference_count(
            &json(&at_budget)
        ),
        MAX_JSON_SCHEMA_REFERENCES
    );
    linked(&at_budget, &[]).expect("a graph spending the whole budget still loads");

    let over_budget = reference_chain(MAX_JSON_SCHEMA_REFERENCES, "#/$defs/end");
    let invalid = linked(&over_budget, &[]).expect_err("one reference more is refused");
    assert_eq!(
        invalid.errors.first.kind,
        SchemaErrorKind::InvalidFrontmatterSchema
    );
    assert_eq!(
        invalid.errors.first.message,
        json_schema_reference_budget_message()
    );
    assert_eq!(invalid.errors.first.range.source, SourceId(1));
    assert!(invalid.errors.rest.is_empty());
}

#[test]
fn the_reference_budget_counts_dynamic_references_too() {
    let over_budget = reference_chain(MAX_JSON_SCHEMA_REFERENCES, "#/$defs/end")
        .replace(r#""$ref""#, r#""$dynamicRef""#);
    let invalid = linked(&over_budget, &[]).expect_err("a dynamic chain is a chain");
    assert_eq!(
        invalid.errors.first.message,
        json_schema_reference_budget_message()
    );
}

#[test]
fn the_reference_budget_spans_the_graph_and_names_where_it_runs_out() {
    let half = MAX_JSON_SCHEMA_REFERENCES / 2;
    let root = reference_chain(half - 1, "defs.json#/$defs/0");
    let definitions = reference_chain(half, "#/$defs/end");
    assert_eq!(
        json_schema_reference_count(&json(&root))
            + json_schema_reference_count(
                &json(&definitions)
            ),
        MAX_JSON_SCHEMA_REFERENCES + 1
    );

    let invalid = linked(
        &root,
        &[("https://outlint.invalid/defs.json", &definitions)],
    )
    .expect_err("a chain split across two documents is still one chain");
    assert_eq!(
        invalid.errors.first.kind,
        SchemaErrorKind::InvalidFrontmatterSchema
    );
    assert_eq!(
        invalid.errors.first.message,
        json_schema_reference_budget_message()
    );
    assert_eq!(invalid.errors.first.range.source, SourceId(2));
}

#[test]
fn rejects_implication_objects_with_the_wrong_keys() {
    let kinds = error_kinds(
        r#"
version: 1
sections: []
constraints:
  - requires: { condition: foo, consequence: bar }
"#,
    );
    assert!(kinds.contains(&SchemaErrorKind::InvalidDocumentShape));
}

#[test]
fn regex_body_round_trips_delimiter_escaping_without_other_escapes() {
    for source in ["", "/", "a/b", "//", "å/ß", "plain", "/a/b/"] {
        let encoded: String = source
            .chars()
            .flat_map(|character| {
                if character == '/' {
                    vec!['\\', '/']
                } else {
                    vec![character]
                }
            })
            .collect();
        assert_eq!(regex_body(&encoded).as_deref(), Some(source));
    }
}

#[test]
fn parse_repeat_normalizes_valid_finite_bounds() {
    for (min, max) in [(0, 1), (1, 1), (3, 17), (0, u32::MAX), (u32::MAX, u32::MAX)] {
        assert_eq!(
            parse_repeat(&format!("{min}..{max}")),
            Some(Cardinality {
                min,
                max: UpperBound::Bounded(max),
            })
        );
    }
    for refused in ["2..1", "0..0", "01..2", "1..02", "1", "..", "1..", "..1", "1...2", "1..N"] {
        assert_eq!(parse_repeat(refused), None, "{refused}");
    }
}

#[test]
fn parse_repeat_normalizes_unbounded_bounds() {
    for min in [0, 1, 12, u32::MAX] {
        assert_eq!(
            parse_repeat(&format!("{min}..n")),
            Some(Cardinality {
                min,
                max: UpperBound::Unbounded,
            })
        );
    }
}

#[test]
fn canonical_integer_normalization_is_idempotent() {
    for value in [0_i64, 1, -1, 42, i64::MAX, i64::MIN] {
        let source = if value >= 0 {
            format!("+000{value}")
        } else {
            format!("-000{}", value.unsigned_abs())
        };
        let canonical = canonical_integer(&source).expect("the decimal is valid");
        assert_eq!(canonical, value.to_string());
        assert_eq!(canonical_integer(&canonical), Some(canonical.clone()));
    }
}

#[test]
fn canonical_float_normalization_is_idempotent() {
    for (coefficient, exponent) in [(0_i64, 0_i16), (1, -3), (-120, 7), (i64::MIN, i16::MAX)] {
        let source = format!("{coefficient}e{exponent}");
        let canonical = canonical_float(&source).expect("the decimal float is valid");
        assert_eq!(canonical_float(&canonical), Some(canonical.clone()));
    }
    assert_eq!(canonical_float("-120e7"), Some("-12e8".to_owned()));
    assert_eq!(canonical_float("1.50"), Some("15e-1".to_owned()));
}
