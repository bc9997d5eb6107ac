//! Texts, slugs, folding, scalars, matchers, YAML and JSON.

use outlint_core::case_fold::{simple_eq, simple_fold};
use outlint_core::document_path::slug::{heading_slug, slug_of_decomposed, HeadingSlug};
use outlint_core::document_path::{DocumentPath, SectionStep};
use outlint_core::json::{get_member, insert_member, Json};
use outlint_core::json_value::{add_reference, read_value, to_json};
use outlint_core::loader::external::{
    external_source_id, graph_error, settle_document, GraphFault, RegistryFault,
};
use outlint_core::loader::ranges::{char_offsets, char_range};
use outlint_core::loader::refs::{parse_frontmatter_ref, parse_rule_ref};
use outlint_core::loader::rules::{parse_repeat, regex_body, settle_matcher};
use outlint_core::matcher::{compile_anchored_pattern, compile_glob_pattern};
use outlint_core::scalar::{
    canonical_float, canonical_integer, parse_frontmatter_scalar, spelled_bool, spells_null,
    FrontmatterScalar,
};
use outlint_core::schema::{
    AtLeastTwo, Cardinality, ExactText, GlobPattern, Matcher, NonEmpty, RefAnchor, RegexPattern,
    UpperBound,
};
use outlint_core::text::{
    decimal_text, decimal_u64, digits_only, has_prefix, parse_decimal, parse_plain_integer,
    position_of, text_less,
};
use outlint_core::yaml::convert::{scalar_to_json, schema_yaml_to_json, YamlValueError};
use outlint_core::yaml::events::{next_read, open_stream, YamlKind, YamlRead, YamlTag};
use outlint_core::yaml::reader::parse_schema_yaml;
use outlint_core::yaml::tree::{same_node, YamlScalar};
use outlint_core::{
    ByteOffset, JsonSchemaExternalReference, JsonSchemaResourceContents, JsonSchemaResourceInput, LinkedJsonSchemaInput,
    SchemaErrorKind, SourceId, SourceLabel, SourceRange, TextRange,
};

fn range(start: usize, end: usize) -> SourceRange {
    SourceRange {
        source: SourceId(0),
        range: TextRange {
            start: ByteOffset(start),
            end: ByteOffset(end),
        },
    }
}

fn chars(text: &str) -> Vec<char> {
    text.chars().collect()
}

fn plain(value: &str) -> YamlScalar {
    YamlScalar {
        value: value.to_owned(),
        style: 0,
        tag: None,
    }
}

fn tagged(value: &str, suffix: &str) -> YamlScalar {
    YamlScalar {
        value: value.to_owned(),
        style: 0,
        tag: Some(YamlTag {
            handle: "tag:yaml.org,2002:".to_owned(),
            suffix: suffix.to_owned(),
        }),
    }
}

#[test]
fn numerals_are_read_back_from_their_spelling() {
    for value in [0, 7, 10, 1203, usize::MAX] {
        let spelling = chars(&decimal_text(value));
        assert!(spelling.len() == 1 || spelling[0] != '0');
        assert_eq!(parse_decimal(&spelling, 0, spelling.len()), Some(value));
    }
    assert_eq!(decimal_text(1203), "1203");
    assert_eq!(decimal_u64(u64::MAX), "18446744073709551615");
    let overflow = chars("18446744073709551616");
    assert_eq!(parse_decimal(&overflow, 0, overflow.len()), None);
}

#[test]
fn plain_integers_have_one_spelling_each() {
    assert_eq!(parse_plain_integer("-12"), Some(-12));
    assert_eq!(parse_plain_integer("0"), Some(0));
    assert_eq!(parse_plain_integer("1.0"), None);
    assert_eq!(parse_plain_integer(""), None);
}

#[test]
fn texts_are_ordered_by_their_characters() {
    assert!(text_less("", "a"));
    assert!(text_less("a", "ab"));
    assert!(text_less("ab", "b"));
    assert!(text_less("a", "b"));
    assert!(!text_less("b", "ab"));
    assert!(!text_less("a", "a"));
    assert!(text_less("z", "é"));
}

#[test]
fn searched_characters_are_found_first() {
    let text = chars("a.b/c.d");
    assert_eq!(position_of(&text, '/', '.', 0), 1);
    assert_eq!(position_of(&text, '/', '.', 2), 3);
    assert_eq!(position_of(&text, '#', '#', 0), text.len());
    assert!(digits_only(&chars("0123"), 0, 4));
    assert!(!digits_only(&chars("01a3"), 0, 4));
    assert!(has_prefix("fm.status", "fm."));
    assert!(!has_prefix("fm", "fm."));
}

#[test]
fn headings_without_ascii_letters_decompose_before_they_are_slugs() {
    assert_eq!(heading_slug("Crème Brûlée").unwrap().as_str(), "creme-brulee");
    assert_eq!(heading_slug("ﬁne  PRINT!").unwrap().as_str(), "fine-print");
    assert_eq!(heading_slug("²").unwrap().as_str(), "2");
    assert!(heading_slug("!?").is_none());
}

#[test]
fn slugs_are_made_of_decomposed_characters() {
    let decomposed = ['C', 'r', 'e', '\u{300}', 'm', 'e', ' ', ' ', 'X', '!'];
    assert_eq!(slug_of_decomposed(&decomposed).unwrap().as_str(), "creme-x");
    assert!(slug_of_decomposed(&['\u{300}']).is_none());
}

#[test]
fn derived_slugs_have_the_slug_form() {
    for heading in ["API (v2)", "  Getting started ", "Ünïcode", "a--b", "1. Intro"] {
        let slug = heading_slug(heading).expect("the heading has a slug");
        assert_eq!(
            HeadingSlug::parse(slug.as_str()).unwrap().as_str(),
            slug.as_str()
        );
    }
    for text in ["", "-a", "a-", "A", "a b", "a--b"] {
        assert!(HeadingSlug::parse(text).is_none(), "{text:?}");
    }
}

#[test]
fn unexpected_characters_of_a_path_are_shown_escaped() {
    let error = DocumentPath::parse("$.intro\t").expect_err("a tab continues no path");
    assert!(
        error.to_string().contains("'\\t'"),
        "{}",
        error.to_string()
    );
}

#[test]
fn a_canonical_path_spelling_is_parsed_back() {
    let path = DocumentPath::parse("$.intro.setup/list/item[2]").expect("the path is valid");
    let spelling = path.to_string();
    assert_eq!(spelling, "$.intro.setup/list[0]/item[2]");
    assert_eq!(DocumentPath::parse(&spelling).unwrap().to_string(), spelling);
    let steps: &[SectionStep] = path.sections();
    assert_eq!(steps.len(), 2);
    assert_eq!(path.blocks().len(), 2);
}

#[test]
fn folding_is_simple_and_goes_by_characters() {
    assert_eq!(simple_fold("\u{212a}ELVIN"), "kelvin");
    assert_eq!(simple_fold("Σ"), "σ");
    assert!(simple_eq("ΣΤΑΣ", "στας"));
    assert!(!simple_eq("straße", "STRASSE"));
    let (left, right) = ("ÄB", "Çd");
    assert_eq!(
        simple_fold(&format!("{left}{right}")),
        format!("{}{}", simple_fold(left), simple_fold(right))
    );
}

#[test]
fn integers_of_any_radix_and_size_are_canonical() {
    assert_eq!(
        canonical_integer("0xFFFFFFFFFFFFFFFFFFFF").as_deref(),
        Some("1208925819614629174706175")
    );
    assert_eq!(canonical_integer("0o17").as_deref(), Some("15"));
    assert_eq!(canonical_integer("+007").as_deref(), Some("7"));
    assert_eq!(canonical_integer("-0").as_deref(), Some("0"));
    assert_eq!(canonical_integer("1.5"), None);
    for spelling in ["0x1F", "-12", "+0"] {
        let canonical = canonical_integer(spelling).expect("the text spells an integer");
        assert_eq!(canonical_integer(&canonical).as_deref(), Some(canonical.as_str()));
    }
}

#[test]
fn one_float_has_one_canonical_spelling() {
    assert_eq!(
        canonical_float("1.5e99999999999999999999"),
        canonical_float("15e99999999999999999998")
    );
    assert_ne!(
        canonical_float("1.5e99999999999999999999"),
        canonical_float("1.5e99999999999999999998")
    );
    assert_eq!(canonical_float("0.5"), canonical_float(".50"));
    assert_eq!(canonical_float("-0.0"), canonical_float("0.0"));
    assert_eq!(canonical_float("abc"), None);
}

#[test]
fn frontmatter_scalars_follow_the_core_rules() {
    assert!(spells_null("~"));
    assert!(spells_null(""));
    assert!(!spells_null("nul"));
    assert_eq!(spelled_bool("TRUE"), Some(true));
    assert_eq!(spelled_bool("tRue"), None);
    assert!(matches!(parse_frontmatter_scalar("null"), FrontmatterScalar::Null));
    assert!(matches!(
        parse_frontmatter_scalar("true"),
        FrontmatterScalar::Boolean(true)
    ));
    assert!(matches!(
        parse_frontmatter_scalar("draft"),
        FrontmatterScalar::String(_)
    ));
}

#[test]
fn glob_text_between_stars_is_literal() {
    assert_eq!(compile_glob_pattern("a(b*", true), None);
    assert!(compile_anchored_pattern("a(b", true).is_some());
    assert_eq!(compile_anchored_pattern("a(b)", false), None);
}

#[test]
fn matchers_are_settled_by_what_their_pattern_compiles_to() {
    let mut errors = Vec::new();
    let at = range(3, 9);
    assert_eq!(
        settle_matcher("*", None, at, &mut errors),
        Some(Matcher::Any)
    );
    assert_eq!(
        settle_matcher("Overview", None, at, &mut errors),
        Some(Matcher::Exact(ExactText("Overview".to_owned())))
    );
    assert_eq!(
        settle_matcher("v*", None, at, &mut errors),
        Some(Matcher::Glob(GlobPattern("v*".to_owned())))
    );
    assert_eq!(
        settle_matcher(r"/a\/b/", None, at, &mut errors),
        Some(Matcher::Regex(RegexPattern("a/b".to_owned())))
    );
    assert!(errors.is_empty());
    assert_eq!(
        settle_matcher("/(/", Some("unclosed group".to_owned()), at, &mut errors),
        None
    );
    assert_eq!(settle_matcher("/", None, at, &mut errors), None);
    assert_eq!(settle_matcher("/a/b/", None, at, &mut errors), None);
    assert_eq!(
        settle_matcher("v*", Some("too large".to_owned()), at, &mut errors),
        None
    );
    let messages: Vec<&str> = errors.iter().map(|error| error.message.as_str()).collect();
    assert_eq!(
        messages,
        [
            "invalid regex matcher `/(/`: unclosed group",
            "a regex matcher needs separate opening and closing `/` delimiters",
            "regex matcher `/a/b/` contains an unescaped `/`",
            "invalid glob matcher `v*`: too large",
        ]
    );
    assert!(errors
        .iter()
        .all(|error| error.kind == SchemaErrorKind::InvalidMatcher && error.range == at));
}

#[test]
fn delimiters_are_undone_and_repeats_are_read_back() {
    assert_eq!(regex_body(r"a\/b").as_deref(), Some("a/b"));
    assert_eq!(regex_body("a/b"), None);
    assert_eq!(
        parse_repeat("2..5"),
        Some(Cardinality {
            min: 2,
            max: UpperBound::Bounded(5)
        })
    );
    assert_eq!(parse_repeat("5..2"), None);
}

#[test]
fn references_are_read_segment_by_segment() {
    let reference = parse_rule_ref("intro.setup").expect("the reference is valid");
    assert_eq!(reference.anchor, RefAnchor::CurrentScope);
    assert!(parse_rule_ref("intro..setup").is_none());
    assert!(parse_rule_ref("").is_none());
    assert!(parse_frontmatter_ref("fm.status=draft").is_some());
    assert!(parse_frontmatter_ref("status").is_none());
}

#[test]
fn lists_know_how_many_they_hold() {
    assert_eq!(NonEmpty::<u32>::from_vec(Vec::new()), None);
    assert_eq!(
        NonEmpty::from_vec(vec![1, 2, 3]),
        Some(NonEmpty {
            first: 1,
            rest: vec![2, 3]
        })
    );
    assert_eq!(AtLeastTwo::from_vec(vec![1]), None);
    assert_eq!(
        AtLeastTwo::from_vec(vec![1, 2, 3]),
        Some(AtLeastTwo {
            first: 1,
            second: 2,
            rest: vec![3]
        })
    );
}

#[test]
fn character_ranges_become_byte_ranges_within_the_source() {
    let offsets = char_offsets("aé😀z");
    assert_eq!(offsets, [0, 1, 3, 7, 8]);
    assert_eq!(char_range(1, 3, &offsets), range(1, 7));
    assert_eq!(char_range(2, 99, &offsets), range(3, 8));
    assert_eq!(char_range(3, 1, &offsets).range.start, ByteOffset(7));
}

#[test]
fn members_stay_ordered_by_name() {
    let mut members = Vec::new();
    for (name, value) in [("b", true), ("a", true), ("c", false)] {
        insert_member(&mut members, name.to_owned(), Json::Bool(value));
    }
    let names: Vec<&str> = members.iter().map(|(name, _)| name.as_str()).collect();
    assert_eq!(names, ["a", "b", "c"]);
    assert_eq!(get_member(&members, "a"), Some(&Json::Bool(true)));
    assert_eq!(get_member(&members, "d"), None);
}

#[test]
fn json_is_read_with_its_numbers_as_spelled() {
    let value = read_value(r#"{"b": [1.50, "x"], "a": null}"#).expect("the text is JSON");
    assert_eq!(
        to_json(&value),
        Json::Object(vec![
            ("a".to_owned(), Json::Null),
            (
                "b".to_owned(),
                Json::Array(vec![
                    Json::Number("1.50".to_owned()),
                    Json::Text("x".to_owned())
                ])
            ),
        ])
    );
    assert!(read_value("{").is_err());
}

#[test]
fn schema_documents_are_settled_by_their_meta_schema() {
    let object = Json::Object(vec![]);
    assert_eq!(settle_document(&object, "", None), None);
    assert_eq!(
        settle_document(&object, "", Some("1 is not of type".to_owned())).as_deref(),
        Some("invalid draft 2020-12 JSON Schema: 1 is not of type")
    );
    assert_eq!(
        settle_document(&Json::Null, "", None).as_deref(),
        Some("linked JSON Schema root must be an object or boolean")
    );
    let other = Json::Object(vec![(
        "$schema".to_owned(),
        Json::Text("http://json-schema.org/draft-07/schema#".to_owned()),
    )]);
    assert_eq!(
        settle_document(&other, "\"d7\"", None).as_deref(),
        Some("unsupported JSON Schema dialect `\"d7\"`; expected draft 2020-12")
    );
}

#[test]
fn external_sources_are_numbered_after_the_primary_one() {
    assert_eq!(external_source_id(0), Some(SourceId(1)));
    assert_eq!(external_source_id(1), Some(SourceId(2)));
    assert_eq!(external_source_id(u32::MAX as usize), None);
}

fn resource(uri: &str) -> JsonSchemaResourceInput {
    JsonSchemaResourceInput {
        uri: uri.to_owned(),
        label: Some(SourceLabel(uri.to_owned())),
        contents: JsonSchemaResourceContents::Loaded("{}".to_owned()),
    }
}

#[test]
fn graph_faults_are_attributed_to_the_resource_they_name() {
    let input = LinkedJsonSchemaInput {
        root_uri: "file:///root.json".to_owned(),
        resources: vec![resource("file:///root.json"), resource("file:///child.json")],
    };
    let compiled = graph_error(
        &input,
        GraphFault::Registry(RegistryFault::Other("in file:///child.json: bad".to_owned())),
    );
    assert_eq!(compiled.source, SourceId(2));
    assert_eq!(compiled.message, "in file:///child.json: bad");
    let missing = graph_error(
        &input,
        GraphFault::Registry(RegistryFault::Unretrievable {
            uri: "file:///gone.json".to_owned(),
            reason: "Default retriever does not fetch resources".to_owned(),
        }),
    );
    assert!(missing
        .message
        .contains("JSON Schema resource `file:///gone.json` was not preloaded"));
}

#[test]
fn external_references_lose_their_fragment() {
    let mut found = Vec::new();
    add_reference(
        "$ref",
        "child.json#/$defs/a",
        Ok("file:///schemas/child.json#/$defs/a".to_owned()),
        Ok("https://example.com/child.json#/$defs/a".to_owned()),
        &mut found,
    )
    .expect("the reference resolves");
    assert_eq!(
        found,
        [JsonSchemaExternalReference {
            physical_uri: "file:///schemas/child.json".to_owned(),
            logical_uri: "https://example.com/child.json".to_owned(),
        }]
    );
    let fault = add_reference(
        "$ref",
        ":::",
        Err("no scheme".to_owned()),
        Ok("https://example.com/".to_owned()),
        &mut found,
    );
    assert_eq!(
        fault,
        Err("invalid JSON Schema `$ref` `:::`: no scheme".to_owned())
    );
    assert_eq!(found.len(), 1);
}

#[test]
fn yaml_is_read_event_by_event() {
    let mut stream = open_stream("- &a x\n- *a\n- !!int '1'\n");
    let mut kinds = Vec::new();
    let mut texts = Vec::new();
    let mut anchors = Vec::new();
    loop {
        match next_read(&mut stream) {
            YamlRead::Event(event) => {
                if event.kind == YamlKind::Scalar {
                    texts.push((event.value.clone(), event.style, event.tag.is_some()));
                }
                if event.anchor != 0 {
                    anchors.push(event.anchor);
                }
                kinds.push(event.kind);
            }
            YamlRead::Fault(..) => panic!("the text is valid"),
            YamlRead::Exhausted => break,
        }
    }
    assert_eq!(
        kinds,
        [
            YamlKind::StreamStart,
            YamlKind::DocumentStart,
            YamlKind::SequenceStart,
            YamlKind::Scalar,
            YamlKind::Alias,
            YamlKind::Scalar,
            YamlKind::SequenceEnd,
            YamlKind::DocumentEnd,
            YamlKind::StreamEnd,
        ]
    );
    assert_eq!(texts[0], ("x".to_owned(), 0, false));
    assert_eq!(texts[1].0, "1");
    assert!(texts[1].1 != 0 && texts[1].2);
    assert_eq!(anchors.len(), 2);
    assert_eq!(anchors[0], anchors[1]);
}

#[test]
fn yaml_faults_end_the_stream() {
    let mut stream = open_stream("a: [b");
    loop {
        match next_read(&mut stream) {
            YamlRead::Event(_) => {}
            YamlRead::Fault(message, mark) => {
                assert!(!message.is_empty());
                assert!(mark.index >= 5);
                break;
            }
            YamlRead::Exhausted => panic!("the sequence is not closed"),
        }
    }
}

#[test]
fn converted_mappings_are_ordered_by_name() {
    let tree = parse_schema_yaml("b: 1\na: [x, ~]\n").expect("the text is valid");
    let Json::Object(members) = schema_yaml_to_json(&tree).expect("the tree converts") else {
        panic!("expected a mapping")
    };
    let names: Vec<&str> = members.iter().map(|(name, _)| name.as_str()).collect();
    assert_eq!(names, ["a", "b"]);
    assert_eq!(
        members[0].1,
        Json::Array(vec![Json::Text("x".to_owned()), Json::Null])
    );
}

#[test]
fn nodes_are_the_same_wherever_they_stand() {
    let one = parse_schema_yaml("a: 1\n").expect("the text is valid");
    let two = parse_schema_yaml("\n\na:   1\n").expect("the text is valid");
    let other = parse_schema_yaml("a: 2\n").expect("the text is valid");
    assert!(same_node(&one, &two));
    assert!(!same_node(&one, &other));
}

#[test]
fn scalars_convert_by_tag_and_spelling() {
    assert_eq!(
        scalar_to_json(&plain("12")),
        Ok(Json::Number("12".to_owned()))
    );
    assert_eq!(scalar_to_json(&plain("~")), Ok(Json::Null));
    assert_eq!(
        scalar_to_json(&tagged("12", "str")),
        Ok(Json::Text("12".to_owned()))
    );
    assert_eq!(
        scalar_to_json(&tagged("x", "null")),
        Err(YamlValueError::TaggedNull)
    );
    assert_eq!(
        scalar_to_json(&tagged("x", "bool")),
        Err(YamlValueError::TaggedBool)
    );
    assert_eq!(
        scalar_to_json(&tagged("x", "int")),
        Err(YamlValueError::TaggedInt)
    );
    assert_eq!(
        scalar_to_json(&tagged("x", "float")),
        Err(YamlValueError::TaggedFloat)
    );
    assert_eq!(
        scalar_to_json(&tagged("x", "seq")),
        Err(YamlValueError::ScalarTag)
    );
    assert_eq!(
        scalar_to_json(&plain(".inf")),
        Err(YamlValueError::NonFinite)
    );
}
