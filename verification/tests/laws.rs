//! Laws of the library, on examples.

use outlint_core::document::{
    Block, Document, HeaderLevel, Heading, LeafBlock, ListBlock, ListItem, NodeLocation, Preamble,
    Section,
};
use outlint_core::document_path::enumerate::document_paths;
use outlint_core::document_path::resolve::DocumentNode;
use outlint_core::document_path::DocumentPath;
use outlint_core::json_value::read_value;
use outlint_core::load_result::{FoundNodes, NodeRanges};
use outlint_core::loader::external::prepare_external_schema;
use outlint_core::scalar::canonical_float;
use outlint_core::scopes::inline::prepare_inline_schema;
use outlint_core::{
    json_schema_external_references, load_schema, load_schema_with_label, load_schema_with_resources, ByteOffset, InvalidSchema,
    JsonSchemaResourceContents, JsonSchemaResourceInput, LinkedJsonSchemaInput, LoadSchemaResult,
    LoadedSchema, OutlineProvenance, RuleIndex, RulePath, SchemaNode, ScopePath, SourceId, SourceLabel, SourceRange, TextRange,
};

fn location(start: usize, end: usize) -> NodeLocation {
    NodeLocation {
        range: TextRange {
            start: ByteOffset(start),
            end: ByteOffset(end),
        },
    }
}

fn paragraph(start: usize) -> Block {
    Block::Paragraph(LeafBlock {
        location: location(start, start + 1),
    })
}

fn list(start: usize, items: usize) -> Block {
    Block::List(ListBlock {
        location: location(start, start + items),
        items: (0..items)
            .map(|at| ListItem {
                location: location(start + at, start + at + 1),
                text: None,
            })
            .collect(),
    })
}

fn section(text: &str, start: usize, blocks: Vec<Block>, children: Vec<Section>) -> Section {
    Section {
        heading: Heading {
            level: HeaderLevel::H2,
            text: text.to_owned(),
            location: location(start, start + 1),
        },
        preamble: Preamble { blocks },
        children,
    }
}

fn example() -> Document {
    Document {
        preamble: Preamble {
            blocks: vec![paragraph(0), list(1, 2), paragraph(3)],
        },
        sections: vec![
            section("Setup", 10, vec![list(11, 1)], vec![section("Tools", 20, vec![], vec![])]),
            section("Setup", 30, vec![], vec![section("Tools", 40, vec![paragraph(41)], vec![])]),
            section("!", 50, vec![], vec![]),
        ],
    }
}

fn parse(source: &str) -> DocumentPath {
    DocumentPath::parse(source).expect("the path is valid")
}

#[test]
fn what_precedes_a_path_error_can_be_continued() {
    for (source, offset, rest) in [
        ("", 0, "$"),
        ("a", 0, "$"),
        ("$.", 2, "a"),
        ("$.A", 2, "a"),
        ("$...a", 3, "a"),
        ("$.a-", 4, "a"),
        ("$.a--b", 4, "a"),
        ("$.a[]", 4, "0]"),
        ("$.a[01]", 4, "0]"),
        ("$.a[99999999999999999999]", 4, "0]"),
        ("$.a[12", 6, "]"),
        ("$.a[12x", 6, "]"),
        ("$/", 2, "p"),
        ("$/blob", 2, "p"),
        ("$/p/item", 4, "p"),
        ("$/list[1", 8, "]"),
        ("$.a b", 3, ""),
        ("$.a/p.b", 5, ""),
        ("$\u{e9}", 1, ""),
    ] {
        let error = DocumentPath::parse(source).unwrap_err();
        assert_eq!(error.offset.0, offset, "{source}");
        let before = source.get(..offset).expect("the offset is a boundary");
        assert!(DocumentPath::parse(&format!("{before}{rest}")).is_ok());
    }
}

#[test]
fn a_canonical_spelling_adds_the_indices_of_blocks_and_nothing_else() {
    for (source, canonical) in [
        ("$", "$"),
        ("$.a..b-c[3].[2]", "$.a..b-c[3].[2]"),
        ("$/p", "$/p[0]"),
        ("$.a/list/item[2]", "$.a/list[0]/item[2]"),
        ("$.a/list[4]/item", "$.a/list[4]/item[0]"),
        ("$..a/list[0]/item[0]", "$..a/list[0]/item[0]"),
    ] {
        assert_eq!(parse(source).to_string(), canonical);
    }
}

#[test]
fn an_enumeration_covers_every_node_once() {
    let document = example();
    let paths = document_paths(&document);
    let spellings: Vec<String> = paths.iter().map(|entry| entry.0.to_string()).collect();
    assert_eq!(
        spellings,
        [
            "$",
            "$/p[0]",
            "$/list[0]",
            "$/list[0]/item[0]",
            "$/list[0]/item[1]",
            "$/p[1]",
            "$.setup[0]",
            "$.setup[0]/list[0]",
            "$.setup[0]/list[0]/item[0]",
            "$.setup[0].tools",
            "$.setup[1]",
            "$.setup[1].tools",
            "$.setup[1].tools/p[0]",
            "$.[2]",
        ]
    );
    assert!(matches!(paths[0].1, DocumentNode::Root(_)));
    for source in ["$..tools[1]", "$.[1].[0]", "$..tools[1]/p", "$/list/item[1]", "$.[0]/list/item"] {
        let node = parse(source).resolve(&document).expect("the path resolves");
        assert_eq!(paths.iter().filter(|entry| entry.1 == node).count(), 1);
    }
}

#[test]
fn floats_agree_when_they_denote_the_same_number() {
    let canonical = |text: &str| canonical_float(text).expect("the text is a float");
    for (one, two) in [
        ("1.5", "1.50"),
        ("1500.0", "1.5e3"),
        ("0.0015", "15e-4"),
        ("-2.0", "-20e-1"),
        ("0.0", "-0e7"),
        (".inf", "+.INF"),
        (".nan", ".NaN"),
        ("+1.0", "1e0"),
    ] {
        assert_eq!(canonical(one), canonical(two));
    }
    for (one, two) in [
        ("1.5", "1.51"),
        ("1.5", "-1.5"),
        ("1e2", "1e3"),
        ("0.0", "1e-9"),
        (".inf", "-.inf"),
        (".nan", ".inf"),
        ("10.0", "1.0"),
    ] {
        assert_ne!(canonical(one), canonical(two));
    }
}

const SCHEMA: &str = "version: 1\nfrontmatter:\n  schema: root.json\ntitle: null\nsections: []\n";

fn resource(uri: &str, label: Option<&str>, text: &str) -> JsonSchemaResourceInput {
    JsonSchemaResourceInput {
        uri: uri.to_owned(),
        label: label.map(|label| SourceLabel(label.to_owned())),
        contents: JsonSchemaResourceContents::Loaded(text.to_owned()),
    }
}

fn graph(resources: Vec<JsonSchemaResourceInput>) -> LinkedJsonSchemaInput {
    LinkedJsonSchemaInput {
        root_uri: "https://example.com/root.json".to_owned(),
        resources,
    }
}

fn root_only(text: &str) -> LinkedJsonSchemaInput {
    graph(vec![resource("https://example.com/root.json", None, text)])
}

fn outcome(input: &LinkedJsonSchemaInput) -> Result<(), String> {
    match prepare_external_schema(input).result {
        Ok(_) => Ok(()),
        Err(errors) => {
            assert!(errors.rest.is_empty());
            assert_eq!(errors.first.source, SourceId(1));
            Err(errors.first.message)
        }
    }
}

const UNCLEAR: &str = "a reference names its target, but the schemas do not have distinct URIs";

fn unclear() -> Result<(), String> {
    Err(format!("cannot compile linked JSON Schema: {UNCLEAR}"))
}

#[test]
fn named_targets_need_schemas_with_distinct_uris() {
    let shared = r##"{"$defs":{"a":{"$id":"https://example.com/s","$anchor":"p"},"b":{"$id":"https://example.com/s"}},"$ref":"https://example.com/s#p"}"##;
    assert_eq!(outcome(&root_only(shared)), unclear());
    let spelled_otherwise = r##"{"$defs":{"a":{"$id":"HTTPS://EXAMPLE.com/x/../s","$anchor":"p"},"b":{"$id":"s"}},"$ref":"https://example.com/s#p"}"##;
    assert_eq!(outcome(&root_only(spelled_otherwise)), unclear());
    let unsteady = r##"{"$defs":{"a":{"$id":"sub/x","$dynamicAnchor":"p"},"b":{"$id":"sub/sub/x"}},"$ref":"sub/x#p"}"##;
    assert_eq!(outcome(&root_only(unsteady)), unclear());
    let across = graph(vec![
        resource(
            "https://example.com/other.json",
            None,
            r##"{"$defs":{"c":{"$anchor":"q"}}}"##,
        ),
        resource(
            "https://example.com/root.json",
            None,
            r##"{"$defs":{"a":{"$id":"other.json"}},"$ref":"other.json#q"}"##,
        ),
    ]);
    match prepare_external_schema(&across).result {
        Ok(_) => panic!("two schemas have one URI"),
        Err(errors) => assert_eq!(Err(errors.first.message), unclear()),
    }
}

#[test]
fn named_targets_are_found_among_schemas_with_distinct_uris() {
    let plain = r##"{"$defs":{"a":{"$anchor":"p","type":"object"}},"$ref":"#p"}"##;
    assert_eq!(outcome(&root_only(plain)), Ok(()));
    let embedded = r##"{"$id":"https://example.com/root.json","$defs":{"a":{"$id":"a.json","$anchor":"p"},"b":{"$id":"https://example.com/b","$dynamicAnchor":"p"}},"allOf":[{"$ref":"a.json#p"},{"$dynamicRef":"b#p"}]}"##;
    assert_eq!(outcome(&root_only(embedded)), Ok(()));
    let missing = r##"{"$ref":"#p"}"##;
    assert!(outcome(&root_only(missing)).is_err());
}

#[test]
fn schemas_may_share_a_uri_that_has_no_names() {
    for text in [
        r##"{"$defs":{"a":{"$id":"https://example.com/s"},"b":{"$id":"https://example.com/s"},"c":{"$anchor":"p"}},"$ref":"#p"}"##,
        r##"{"$defs":{"a":{"$id":"https://example.com/root.json","$anchor":"p"}},"$ref":"#p"}"##,
        r##"{"$id":"https://example.com/u","$anchor":"p","properties":{"x":{"$ref":"https://example.com/u#p"},"y":{"$ref":"https://example.com/root.json#p"}}}"##,
        r##"{"$id":"https://example.com/u","$dynamicAnchor":"p","$defs":{"a":{"$id":"s"},"b":{"$id":"s"}},"properties":{"x":{"$dynamicRef":"#p"}}}"##,
        r##"{"$id":"https://example.com/u","$dynamicAnchor":"p","properties":{"x":{"$dynamicRef":"https://example.com/root.json#p"}}}"##,
        r##"{"$defs":{"a":{"$id":"https://example.com/s","$defs":{"n":{"$anchor":"p"}}},"b":{"$id":"https://example.com/t"},"c":{"$id":"https://example.com/t"}},"$ref":"https://example.com/s#p"}"##,
    ] {
        assert_eq!(outcome(&root_only(text)), Ok(()), "{text}");
    }
}

#[test]
fn documents_filed_under_one_uri_cannot_be_told_apart_by_name() {
    let twice = graph(vec![
        resource("https://example.com/root.json#", None, "{}"),
        resource("https://example.com/root.json", None, r##"{"$defs":{"a":{"$anchor":"p"}},"$ref":"#p"}"##),
    ]);
    match prepare_external_schema(&twice).result {
        Ok(_) => panic!("two documents have one URI"),
        Err(errors) => assert_eq!(Err(errors.first.message), unclear()),
    }
}

#[test]
fn schemas_may_share_a_uri_where_nothing_is_sought_by_name() {
    let shared = r##"{"$defs":{"a":{"$id":"https://example.com/s"},"b":{"$id":"https://example.com/s"}},"$ref":"#/$defs/a"}"##;
    assert_eq!(outcome(&root_only(shared)), Ok(()));
}

#[test]
fn inline_named_targets_need_schemas_with_distinct_uris() {
    let shared = r##"{"$defs":{"a":{"$id":"https://example.com/s","$anchor":"p","$ref":"#p"},"b":{"$id":"https://example.com/s"}}}"##;
    let value = read_value(shared).expect("the text is JSON");
    let faults = prepare_inline_schema(&value).unwrap_err();
    assert_eq!(
        faults.first,
        format!("cannot compile inline frontmatter JSON Schema: {UNCLEAR}")
    );
    let plain = r##"{"$defs":{"a":{"$anchor":"p"}},"$ref":"#p"}"##;
    let value = read_value(plain).expect("the text is JSON");
    assert!(prepare_inline_schema(&value).is_ok());
}

fn loaded(result: LoadSchemaResult) -> LoadedSchema {
    result.expect("the schema is valid")
}

fn refused(result: LoadSchemaResult) -> InvalidSchema {
    match result {
        Ok(loaded) => panic!("unexpected schema: {:?}", loaded.schema),
        Err(invalid) => invalid,
    }
}

#[test]
fn labels_change_nothing_but_the_sources() {
    let text = r##"{"type":"object"}"##;
    let load = |schema: Option<&str>, root: Option<&str>| {
        let input = graph(vec![resource("https://example.com/root.json", root, text)]);
        let label = schema.map(|label| SourceLabel(label.to_owned()));
        loaded(load_schema_with_resources(SCHEMA, label, Some(input)))
    };
    let one = load(Some("schema.yml"), Some("root.json"));
    let two = load(None, None);
    assert_eq!(one.schema, two.schema);
    assert_eq!(one.locations, two.locations);
    assert_eq!(one.sources.primary, SourceId(0));
    assert_eq!(two.sources.primary, SourceId(0));
    assert_eq!(one.sources.documents.len(), 2);
    assert_eq!(one.sources.documents[0].text, SCHEMA);
    assert_eq!(
        one.sources.documents[1].label,
        Some(SourceLabel("root.json".to_owned()))
    );
    assert_eq!(one.sources.documents[1].text, text);
    assert_eq!(two.sources.documents[1].label, None);
    let failed = JsonSchemaResourceInput {
        uri: "https://example.com/root.json".to_owned(),
        label: None,
        contents: JsonSchemaResourceContents::ReadFailure("gone".to_owned()),
    };
    let invalid = refused(load_schema_with_resources(
        SCHEMA,
        None,
        Some(graph(vec![failed])),
    ));
    assert_eq!(invalid.sources.primary, SourceId(0));
    assert_eq!(invalid.sources.documents[1].text, "");
    assert_eq!(invalid.errors.first.range.source, SourceId(1));
    assert_eq!(invalid.errors.first.range.range.end, ByteOffset(0));
}

fn lies_in(range: SourceRange, source: &str) {
    assert_eq!(range.source, SourceId(0));
    assert!(range.range.start.0 <= range.range.end.0);
    assert!(source.get(range.range.start.0..range.range.end.0).is_some());
}

#[test]
fn reported_ranges_lie_in_the_source() {
    for source in [
        "",
        "version: [",
        "version: 2\nsections: 3\nextra: \u{e9}\n",
        "version: 1\ntitle: Doc\noutline: []\nsections: []\n",
        "version: 1\nsections:\n  - match: A\n  - match: a\n    repeat: x\nconstraints: [b]\n",
    ] {
        let invalid = refused(load_schema(source));
        assert_eq!(invalid.sources.primary, SourceId(0));
        let mut errors = vec![invalid.errors.first];
        errors.extend(invalid.errors.rest);
        for error in errors {
            lies_in(error.range, source);
            for related in error.related {
                lies_in(related.range, source);
            }
        }
    }
    let source = "version: 1\ntitle: \"\u{e9}*\"\nsections:\n  - match: A\n";
    let label = Some(SourceLabel("schema.yml".to_owned()));
    let loaded = loaded(load_schema_with_label(source, label));
    assert_eq!(loaded.sources.primary, SourceId(0));
    lies_in(loaded.locations.document, source);
}

#[test]
fn a_node_has_the_range_that_was_set_last() {
    let range = |start: usize, end: usize| SourceRange {
        source: SourceId(0),
        range: TextRange {
            start: ByteOffset(start),
            end: ByteOffset(end),
        },
    };
    let rule = |index: usize| {
        SchemaNode::Rule(RulePath {
            scope: ScopePath(vec![RuleIndex(0)]),
            index: RuleIndex(index),
        })
    };
    let mut nodes = NodeRanges::new();
    assert_eq!(nodes.get(&SchemaNode::Title), None);
    nodes.insert(SchemaNode::Title, range(0, 1));
    nodes.insert(rule(1), range(2, 3));
    nodes.insert(SchemaNode::Title, range(4, 5));
    assert_eq!(nodes.get(&SchemaNode::Title), Some(range(4, 5)));
    assert_eq!(nodes.get(&rule(1)), Some(range(2, 3)));
    assert!(!nodes.contains_key(&rule(0)));
    assert_eq!(nodes.entries().len(), 2);
    let mut other = NodeRanges::new();
    other.insert(rule(1), range(2, 3));
    assert_ne!(nodes, other);
    other.insert(SchemaNode::Title, range(4, 5));
    assert_eq!(nodes, other);
    assert_eq!(nodes.clone(), other);
    let mut found = FoundNodes::new();
    found.record(SchemaNode::Title, range(0, 1));
    found.record(rule(1), range(2, 3));
    found.record(SchemaNode::Title, range(4, 5));
    assert_eq!(NodeRanges::of(&found), nodes);
    other.insert(rule(1), range(2, 4));
    assert_ne!(nodes, other);
}

#[test]
fn a_copy_of_a_load_equals_it() {
    let source = "version: 1\nfrontmatter:\n  required: true\ntitle: \"Doc *\"\nsections:\n  - match: A\n    sections:\n      - match: /b+/\n  - match: C\nconstraints:\n  - requires: {if: a, then: [c]}\n  - one_of: [a, fm.x=1.50]\n  - ordered: [a, c]\n";
    let loaded = loaded(load_schema(source));
    assert_eq!(loaded.clone(), loaded);
    assert_eq!(loaded.schema.outline[0].clone(), loaded.schema.outline[0]);
    let invalid = refused(load_schema("version: 3\n"));
    assert_eq!(invalid.clone(), invalid);
}

#[test]
fn paths_are_read_from_text_as_they_are_parsed() {
    for source in ["$", "$.a..b[2]/list/item[1]", "", "$.A", "$/p/item", "$.a[01]"] {
        assert_eq!(source.parse::<DocumentPath>(), DocumentPath::parse(source));
    }
    let error = "$.a--b".parse::<DocumentPath>().unwrap_err();
    assert_eq!(error.offset, ByteOffset(4));
}

#[test]
fn a_base_that_is_no_uri_is_told_with_its_text() {
    let error = json_schema_external_references("{}", "no uri", "https://example.com/").unwrap_err();
    assert!(error.starts_with("invalid physical JSON Schema base URI `no uri`: ("), "{error}");
    assert!(error.ends_with(", \"no uri\")"), "{error}");
}

#[test]
fn a_title_with_sections_is_an_outline_of_one_required_rule() {
    let sugar = "version: 1\ntitle: \"/Doc .*/\"\nsections:\n  - match: A\n  - match: B\nconstraints:\n  - ordered: [a, b]\n";
    let general = "version: 1\noutline:\n  - match: \"/Doc .*/\"\n    required: true\n    sections:\n      - match: A\n      - match: B\n    constraints:\n      - ordered: [a, b]\n";
    let sugar = loaded(load_schema(sugar)).schema;
    let mut general = loaded(load_schema(general)).schema;
    assert_eq!(sugar.outline_provenance, OutlineProvenance::Title);
    assert_eq!(general.outline_provenance, OutlineProvenance::Outline);
    general.outline_provenance = OutlineProvenance::Title;
    assert_eq!(sugar, general);
    let reserved = "version: 1\ntitle: \"*\"\nsections:\n  - match: FM\n";
    assert_eq!(refused(load_schema(reserved)).errors.rest.len(), 0);
    let admitted = "version: 1\noutline:\n  - match: \"*\"\n    required: true\n    sections:\n      - match: FM\n";
    assert!(load_schema(admitted).is_ok());
}
