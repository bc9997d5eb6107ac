//! The JSON value that a YAML tree means.

use vstd::prelude::*;

use super::reader::{YamlError, YamlFault};
use super::tree::{
    entry_trees_of, trees_of, ScalarText, Tree, TreeKind, YamlNode, YamlNodeKind, YamlScalar,
};
use crate::json::{
    get_member, insert_member, item_specs, member, member_specs, ordered, with_member,
    with_member_keeps_order, Json, JsonSpec,
};
use crate::load_result::SchemaErrorKind;
use crate::scalar::{
    canonical_float, canonical_float_of, canonical_integer, canonical_integer_of, is_false_text,
    is_null_text, is_true_text, parse_frontmatter_scalar, scalar_of, spelled_bool, spells_null,
    FrontmatterScalar, ScalarSpec,
};
use crate::text::{join3, same_text};

verus! {

/// Why a scalar or a tag has no JSON value.
#[derive(Debug, Clone, Copy, PartialEq, Eq, Structural)]
pub enum YamlValueError {
    /// A scalar tagged null does not spell null.
    TaggedNull,
    /// A scalar tagged boolean does not spell one.
    TaggedBool,
    /// A scalar tagged integer does not spell one.
    TaggedInt,
    /// A scalar tagged float does not spell one.
    TaggedFloat,
    /// The tag is none for a scalar.
    ScalarTag,
    /// The number is infinite or not a number.
    NonFinite,
}

/// The wording for a scalar without a JSON value.
pub open spec fn value_fault(error: YamlValueError) -> Seq<char> {
    match error {
        YamlValueError::TaggedNull => "invalid YAML: invalid explicitly tagged null"@,
        YamlValueError::TaggedBool => "invalid YAML: invalid explicitly tagged boolean"@,
        YamlValueError::TaggedInt => "invalid YAML: invalid explicitly tagged integer"@,
        YamlValueError::TaggedFloat => "invalid YAML: invalid explicitly tagged float"@,
        YamlValueError::ScalarTag => "invalid YAML: invalid tag for a YAML scalar"@,
        YamlValueError::NonFinite => "invalid YAML: a non-finite number has no JSON value"@,
    }
}

/// The wording for a scalar without a JSON value.
fn schema_value_error(error: YamlValueError) -> (message: String)
    ensures
        message@ == value_fault(error),
{
    match error {
        YamlValueError::TaggedNull => "invalid YAML: invalid explicitly tagged null".to_owned(),
        YamlValueError::TaggedBool => "invalid YAML: invalid explicitly tagged boolean".to_owned(),
        YamlValueError::TaggedInt => "invalid YAML: invalid explicitly tagged integer".to_owned(),
        YamlValueError::TaggedFloat => "invalid YAML: invalid explicitly tagged float".to_owned(),
        YamlValueError::ScalarTag => "invalid YAML: invalid tag for a YAML scalar".to_owned(),
        YamlValueError::NonFinite =>
            "invalid YAML: a non-finite number has no JSON value".to_owned(),
    }
}

/// The canonical float spellings that are no finite number.
pub open spec fn is_non_finite(float: Seq<char>) -> bool {
    float == "inf"@ || float == "-inf"@ || float == "nan"@
}

/// The number that a canonical float spells.
pub open spec fn float_json(float: Seq<char>) -> Result<JsonSpec, YamlValueError> {
    if is_non_finite(float) {
        Err(YamlValueError::NonFinite)
    } else {
        Ok(JsonSpec::Number(float))
    }
}

/// The JSON value of a plain scalar.
pub open spec fn plain_json(text: Seq<char>) -> Result<JsonSpec, YamlValueError> {
    match scalar_of(text) {
        ScalarSpec::Null => Ok(JsonSpec::Null),
        ScalarSpec::Boolean(value) => Ok(JsonSpec::Bool(value)),
        ScalarSpec::Integer(number) => Ok(JsonSpec::Number(number)),
        ScalarSpec::Float(number) => float_json(number),
        ScalarSpec::Text(text) => Ok(JsonSpec::Text(text)),
    }
}

/// The JSON value of a scalar with one of YAML's own tags.
pub open spec fn tagged_json(suffix: Seq<char>, text: Seq<char>) -> Result<
    JsonSpec,
    YamlValueError,
> {
    if suffix == "str"@ {
        Ok(JsonSpec::Text(text))
    } else if suffix == "null"@ {
        if is_null_text(text) {
            Ok(JsonSpec::Null)
        } else {
            Err(YamlValueError::TaggedNull)
        }
    } else if suffix == "bool"@ {
        if is_true_text(text) {
            Ok(JsonSpec::Bool(true))
        } else if is_false_text(text) {
            Ok(JsonSpec::Bool(false))
        } else {
            Err(YamlValueError::TaggedBool)
        }
    } else if suffix == "int"@ {
        match canonical_integer_of(text) {
            Some(number) => Ok(JsonSpec::Number(number)),
            None => Err(YamlValueError::TaggedInt),
        }
    } else if suffix == "float"@ {
        match canonical_float_of(text) {
            Some(number) => float_json(number),
            None => match canonical_integer_of(text) {
                Some(number) => Ok(JsonSpec::Number(number)),
                None => Err(YamlValueError::TaggedFloat),
            },
        }
    } else {
        Err(YamlValueError::ScalarTag)
    }
}

/// The JSON value of a scalar: a tag decides, then quoting makes a string, and
/// a plain scalar means what it spells.
pub open spec fn scalar_json(scalar: ScalarText) -> Result<JsonSpec, YamlValueError> {
    match scalar.tag {
        Some(tag) => tagged_json(tag.suffix, scalar.value),
        None => if scalar.style == 0 {
            plain_json(scalar.value)
        } else {
            Ok(JsonSpec::Text(scalar.value))
        },
    }
}

fn float_to_json(number: String) -> (value: Result<Json, YamlValueError>)
    ensures
        value matches Ok(value) ==> float_json(number@) == Ok::<JsonSpec, YamlValueError>(value@),
        value matches Err(error) ==> float_json(number@) == Err::<JsonSpec, YamlValueError>(error),
{
    let non_finite = same_text(number.as_str(), "inf") || same_text(number.as_str(), "-inf")
        || same_text(number.as_str(), "nan");
    if non_finite {
        Err(YamlValueError::NonFinite)
    } else {
        Ok(Json::Number(number))
    }
}

/// The JSON value of a scalar.
pub fn scalar_to_json(scalar: &YamlScalar) -> (value: Result<Json, YamlValueError>)
    ensures
        value matches Ok(value) ==> scalar_json(scalar@) == Ok::<JsonSpec, YamlValueError>(value@),
        value matches Err(error) ==> scalar_json(scalar@) == Err::<JsonSpec, YamlValueError>(error),
{
    let text = scalar.value.as_str();
    match &scalar.tag {
        None => if scalar.style == 0 {
            match parse_frontmatter_scalar(text) {
                FrontmatterScalar::Null => Ok(Json::Null),
                FrontmatterScalar::Boolean(value) => Ok(Json::Bool(value)),
                FrontmatterScalar::Integer(number) => Ok(Json::Number(number.0)),
                FrontmatterScalar::Float(number) => float_to_json(number.0),
                FrontmatterScalar::String(text) => Ok(Json::Text(text)),
            }
        } else {
            Ok(Json::Text(scalar.value.clone()))
        },
        Some(tag) => {
            let suffix = tag.suffix.as_str();
            if same_text(suffix, "str") {
                Ok(Json::Text(scalar.value.clone()))
            } else if same_text(suffix, "null") {
                if spells_null(text) {
                    Ok(Json::Null)
                } else {
                    Err(YamlValueError::TaggedNull)
                }
            } else if same_text(suffix, "bool") {
                match spelled_bool(text) {
                    Some(value) => Ok(Json::Bool(value)),
                    None => Err(YamlValueError::TaggedBool),
                }
            } else if same_text(suffix, "int") {
                match canonical_integer(text) {
                    Some(number) => Ok(Json::Number(number)),
                    None => Err(YamlValueError::TaggedInt),
                }
            } else if same_text(suffix, "float") {
                match canonical_float(text) {
                    Some(number) => float_to_json(number),
                    None => match canonical_integer(text) {
                        Some(number) => Ok(Json::Number(number)),
                        None => Err(YamlValueError::TaggedFloat),
                    },
                }
            } else {
                Err(YamlValueError::ScalarTag)
            }
        },
    }
}

/// The refusal of a scalar at its place.
pub open spec fn scalar_fault(tree: Tree, error: YamlValueError) -> YamlFault {
    YamlFault {
        kind: SchemaErrorKind::Syntax,
        span: Some((tree.start, tree.end)),
        message: value_fault(error),
    }
}

/// The refusal of a key that is no string.
pub open spec fn key_fault(key: Tree) -> YamlFault {
    YamlFault {
        kind: SchemaErrorKind::InvalidDocumentShape,
        span: Some((key.start, key.end)),
        message: "mapping keys must be strings"@,
    }
}

/// The refusal of a key whose text is there already.
pub open spec fn repeated_key_fault(key: Tree, name: Seq<char>) -> YamlFault {
    YamlFault {
        kind: SchemaErrorKind::Syntax,
        span: Some((key.start, key.end)),
        message: "invalid YAML: duplicate mapping key `"@ + name + "`"@,
    }
}

/// The name that a key resolves to.
pub open spec fn key_name(key: Tree) -> Result<Seq<char>, YamlFault> {
    match key.kind {
        TreeKind::Scalar(scalar) => match scalar_json(scalar) {
            Err(error) => Err(scalar_fault(key, error)),
            Ok(JsonSpec::Text(name)) => Ok(name),
            Ok(_) => Err(key_fault(key)),
        },
        _ => Err(key_fault(key)),
    }
}

/// The JSON value of a tree.
pub open spec fn json_of(tree: Tree) -> Result<JsonSpec, YamlFault>
    decreases tree,
{
    match tree.kind {
        TreeKind::Scalar(scalar) => match scalar_json(scalar) {
            Err(error) => Err(scalar_fault(tree, error)),
            Ok(value) => Ok(value),
        },
        TreeKind::Sequence(items) => match items_json(items) {
            Err(fault) => Err(fault),
            Ok(values) => Ok(JsonSpec::Array(values)),
        },
        TreeKind::Mapping(entries) => match members_json(entries) {
            Err(fault) => Err(fault),
            Ok(members) => Ok(JsonSpec::Object(members)),
        },
    }
}

/// The JSON values of the items of a sequence.
pub open spec fn items_json(items: Seq<Tree>) -> Result<Seq<JsonSpec>, YamlFault>
    decreases items,
{
    if items.len() == 0 {
        Ok(Seq::empty())
    } else {
        match items_json(items.drop_last()) {
            Err(fault) => Err(fault),
            Ok(before) => match json_of(items.last()) {
                Err(fault) => Err(fault),
                Ok(value) => Ok(before.push(value)),
            },
        }
    }
}

/// The members that the entries of a mapping mean.
pub open spec fn members_json(entries: Seq<(Tree, Tree)>) -> Result<
    Seq<(Seq<char>, JsonSpec)>,
    YamlFault,
>
    decreases entries,
{
    if entries.len() == 0 {
        Ok(Seq::empty())
    } else {
        match members_json(entries.drop_last()) {
            Err(fault) => Err(fault),
            Ok(before) => match key_name(entries.last().0) {
                Err(fault) => Err(fault),
                Ok(name) => match json_of(entries.last().1) {
                    Err(fault) => Err(fault),
                    Ok(value) => if member(before, name) is Some {
                        Err(repeated_key_fault(entries.last().0, name))
                    } else {
                        Ok(with_member(before, name, value))
                    },
                },
            },
        }
    }
}

proof fn items_json_fails_early(items: Seq<Tree>, at: int)
    requires
        0 <= at <= items.len(),
        items_json(items.take(at)) is Err,
    ensures
        items_json(items) == items_json(items.take(at)),
    decreases items.len() - at,
{
    if at == items.len() {
        assert(items.take(at) =~= items);
    } else {
        assert(items.take(at + 1).drop_last() =~= items.take(at));
        items_json_fails_early(items, at + 1);
    }
}

proof fn members_json_fails_early(entries: Seq<(Tree, Tree)>, at: int)
    requires
        0 <= at <= entries.len(),
        members_json(entries.take(at)) is Err,
    ensures
        members_json(entries) == members_json(entries.take(at)),
    decreases entries.len() - at,
{
    if at == entries.len() {
        assert(entries.take(at) =~= entries);
    } else {
        assert(entries.take(at + 1).drop_last() =~= entries.take(at));
        members_json_fails_early(entries, at + 1);
    }
}

/// Converts a tree into the JSON value domain that validation runs in.
///
/// Mapping keys must resolve to strings here, and the resolved text is where
/// two spellings of one key are recognised as the duplicate they are.
pub fn schema_yaml_to_json(node: &YamlNode) -> (value: Result<Json, YamlError>)
    ensures
        value matches Ok(value) ==> json_of(node@) == Ok::<JsonSpec, YamlFault>(value@),
        value matches Err(error) ==> json_of(node@) == Err::<JsonSpec, YamlFault>(error@),
    decreases node,
{
    match &node.kind {
        YamlNodeKind::Scalar(scalar) => match scalar_to_json(scalar) {
            Ok(value) => Ok(value),
            Err(error) => Err(
                YamlError {
                    kind: SchemaErrorKind::Syntax,
                    span: Some((node.start, node.end)),
                    message: schema_value_error(error),
                },
            ),
        },
        YamlNodeKind::Sequence(items) => match items_to_json(items) {
            Ok(values) => Ok(Json::Array(values)),
            Err(error) => Err(error),
        },
        YamlNodeKind::Mapping(entries) => match entries_to_json(entries) {
            Ok(members) => Ok(Json::Object(members)),
            Err(error) => Err(error),
        },
    }
}

fn items_to_json(items: &Vec<YamlNode>) -> (values: Result<Vec<Json>, YamlError>)
    ensures
        values matches Ok(values) ==> items_json(trees_of(items@)) == Ok::<
            Seq<JsonSpec>,
            YamlFault,
        >(item_specs(values@)),
        values matches Err(error) ==> items_json(trees_of(items@)) == Err::<
            Seq<JsonSpec>,
            YamlFault,
        >(error@),
    decreases items,
{
    let ghost trees = trees_of(items@);
    let mut values: Vec<Json> = Vec::new();
    let mut at: usize = 0;
    assert(trees.take(0) =~= Seq::empty());
    assert(item_specs(values@) =~= Seq::empty());
    while at < items.len()
        invariant
            at <= items@.len(),
            trees == trees_of(items@),
            items_json(trees.take(at as int)) == Ok::<Seq<JsonSpec>, YamlFault>(
                item_specs(values@),
            ),
        decreases items.len() - at,
    {
        proof {
            assert(trees.take(at + 1).drop_last() =~= trees.take(at as int));
            assert(trees.take(at + 1).last() == items@[at as int]@);
        }
        match schema_yaml_to_json(&items[at]) {
            Ok(value) => {
                let ghost before = values@;
                values.push(value);
                assert(item_specs(values@) =~= item_specs(before).push(value@));
            },
            Err(error) => {
                proof {
                    items_json_fails_early(trees, at + 1);
                }
                return Err(error);
            },
        }
        at += 1;
    }
    assert(trees.take(at as int) =~= trees);
    Ok(values)
}

/// The name that a key resolves to.
fn key_to_name(key: &YamlNode) -> (name: Result<String, YamlError>)
    ensures
        name matches Ok(name) ==> key_name(key@) == Ok::<Seq<char>, YamlFault>(name@),
        name matches Err(error) ==> key_name(key@) == Err::<Seq<char>, YamlFault>(error@),
{
    if let YamlNodeKind::Scalar(scalar) = &key.kind {
        match scalar_to_json(scalar) {
            Ok(Json::Text(name)) => {
                return Ok(name);
            },
            Ok(_) => {},
            Err(error) => {
                return Err(
                    YamlError {
                        kind: SchemaErrorKind::Syntax,
                        span: Some((key.start, key.end)),
                        message: schema_value_error(error),
                    },
                );
            },
        }
    }
    Err(
        YamlError {
            kind: SchemaErrorKind::InvalidDocumentShape,
            span: Some((key.start, key.end)),
            message: "mapping keys must be strings".to_owned(),
        },
    )
}

fn entries_to_json(entries: &Vec<(YamlNode, YamlNode)>) -> (members: Result<
    Vec<(String, Json)>,
    YamlError,
>)
    ensures
        members matches Ok(members) ==> members_json(entry_trees_of(entries@)) == Ok::<
            Seq<(Seq<char>, JsonSpec)>,
            YamlFault,
        >(member_specs(members@)),
        members matches Err(error) ==> members_json(entry_trees_of(entries@)) == Err::<
            Seq<(Seq<char>, JsonSpec)>,
            YamlFault,
        >(error@),
    decreases entries,
{
    let ghost trees = entry_trees_of(entries@);
    let mut members: Vec<(String, Json)> = Vec::new();
    let mut at: usize = 0;
    assert(trees.take(0) =~= Seq::empty());
    assert(member_specs(members@) =~= Seq::empty());
    while at < entries.len()
        invariant
            at <= entries@.len(),
            trees == entry_trees_of(entries@),
            members_json(trees.take(at as int)) == Ok::<Seq<(Seq<char>, JsonSpec)>, YamlFault>(
                member_specs(members@),
            ),
        decreases entries.len() - at,
    {
        let key = &entries[at].0;
        proof {
            assert(trees.take(at + 1).drop_last() =~= trees.take(at as int));
            assert(trees.take(at + 1).last() == (
                entries@[at as int].0@,
                entries@[at as int].1@,
            ));
        }
        let name = match key_to_name(key) {
            Ok(name) => name,
            Err(error) => {
                proof {
                    members_json_fails_early(trees, at + 1);
                }
                return Err(error);
            },
        };
        let value = match schema_yaml_to_json(&entries[at].1) {
            Ok(value) => value,
            Err(error) => {
                proof {
                    members_json_fails_early(trees, at + 1);
                }
                return Err(error);
            },
        };
        if get_member(&members, name.as_str()).is_some() {
            proof {
                members_json_fails_early(trees, at + 1);
            }
            return Err(
                YamlError {
                    kind: SchemaErrorKind::Syntax,
                    span: Some((key.start, key.end)),
                    message: join3("invalid YAML: duplicate mapping key `", name.as_str(), "`"),
                },
            );
        }
        insert_member(&mut members, name, value);
        at += 1;
    }
    assert(trees.take(at as int) =~= trees);
    Ok(members)
}

/// The members of a converted mapping are ordered by name, each name once.
pub proof fn converted_members_are_ordered(entries: Seq<(Tree, Tree)>)
    ensures
        members_json(entries) matches Ok(members) ==> ordered(members),
    decreases entries.len(),
{
    if entries.len() > 0 {
        converted_members_are_ordered(entries.drop_last());
        if let Ok(before) = members_json(entries.drop_last()) {
            if let Ok(name) = key_name(entries.last().0) {
                if let Ok(value) = json_of(entries.last().1) {
                    if member(before, name) is None {
                        with_member_keeps_order(before, name, value);
                    }
                }
            }
        }
    }
}

} // verus!
