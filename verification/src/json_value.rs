//! JSON text, and the JSON values that JSON Schema works on.

use jsonschema::{Draft, Registry, RegistryBuilder};
use serde_json::Value;
use vstd::prelude::*;

use crate::json::{
    item_specs, item_weight_bound, json_weight, member, member_index, member_specs,
    member_weight_bound, members_of, members_weight, Json, JsonSpec,
};
use crate::load_result::JsonSchemaExternalReference;
use crate::text::{
    chars_of, find_either, join2, join3, join5, position_of, same_text, text_of,
};

verus! {

/// `serde_json::Value`
#[verifier::external_type_specification]
#[verifier::external_body]
pub struct DeclaredValue(Value);

/// `jsonschema::RegistryBuilder`
#[verifier::external_type_specification]
#[verifier::external_body]
pub struct DeclaredRegistryBuilder<'a>(RegistryBuilder<'a>);

/// `jsonschema::Registry`
#[verifier::external_type_specification]
#[verifier::external_body]
pub struct DeclaredRegistry<'a>(Registry<'a>);

/// The JSON tree that a value holds.
pub uninterp spec fn value_content(value: Value) -> JsonSpec;

/// One level of a JSON value.
pub enum Opened<'v> {
    /// `null`
    Null,
    /// `true` or `false`
    Bool(bool),
    /// A number, in its exact spelling.
    Number(String),
    /// A string.
    Text(&'v String),
    /// An array.
    Array(&'v Vec<Value>),
    /// An object, in the order of its iteration.
    Object(Vec<(&'v String, &'v Value)>),
}

/// The trees of the items of an array.
pub open spec fn item_contents(items: Seq<Value>) -> Seq<JsonSpec> {
    items.map_values(|item: Value| value_content(item))
}

/// The tree of an opened value.
pub open spec fn opened_content(opened: Opened<'_>) -> JsonSpec {
    match opened {
        Opened::Null => JsonSpec::Null,
        Opened::Bool(value) => JsonSpec::Bool(value),
        Opened::Number(spelling) => JsonSpec::Number(spelling@),
        Opened::Text(text) => JsonSpec::Text(text@),
        Opened::Array(items) => JsonSpec::Array(item_contents(items@)),
        Opened::Object(members) => JsonSpec::Object(
            members@.map_values(
                |member: (&String, &Value)| (member.0@, value_content(*member.1)),
            ),
        ),
    }
}

/// Tells the variants of `serde_json::Value` apart. The tree of the value is
/// made of the trees of what it holds, and a number displays in its spelling.
#[verifier::external_body]
fn open_value<'v>(value: &'v Value) -> (opened: Opened<'v>)
    ensures
        opened_content(opened) == value_content(*value),
{
    match value {
        Value::Null => Opened::Null,
        Value::Bool(value) => Opened::Bool(*value),
        Value::Number(number) => Opened::Number(number.to_string()),
        Value::String(text) => Opened::Text(text),
        Value::Array(items) => Opened::Array(items),
        Value::Object(members) => Opened::Object(members.iter().collect()),
    }
}

/// The JSON tree that a text spells, or why it spells none.
pub uninterp spec fn json_read(text: Seq<char>) -> Result<JsonSpec, Seq<char>>;

/// `serde_json::from_str` reads JSON text. Not stated: the grammar of JSON,
/// the depth limit, and the wording of the fault.
#[verifier::external_body]
pub fn read_value(text: &str) -> (value: Result<Value, String>)
    ensures
        match value {
            Ok(value) => json_read(text@) == Ok::<JsonSpec, Seq<char>>(value_content(value)),
            Err(fault) => json_read(text@) == Err::<JsonSpec, Seq<char>>(fault@),
        },
{
    serde_json::from_str(text).map_err(|error: serde_json::Error| error.to_string())
}

/// The text of a JSON tree.
pub uninterp spec fn json_written(content: JsonSpec) -> Seq<char>;

/// `serde_json::Value` displays as compact JSON text. Not stated: the text.
#[verifier::external_body]
pub(crate) fn write_value(value: &Value) -> (text: String)
    ensures
        text@ == json_written(value_content(*value)),
{
    value.to_string()
}

/// The JSON value of a value.
pub fn to_json(value: &Value) -> (json: Json)
    ensures
        json@ == value_content(*value),
    decreases value_content(*value),
{
    match open_value(value) {
        Opened::Null => Json::Null,
        Opened::Bool(value) => Json::Bool(value),
        Opened::Number(spelling) => Json::Number(spelling),
        Opened::Text(text) => Json::Text(text.clone()),
        Opened::Array(values) => {
            let ghost contents = item_contents(values@);
            let mut items: Vec<Json> = Vec::new();
            let mut at: usize = 0;
            while at < values.len()
                invariant
                    at <= values@.len(),
                    contents == item_contents(values@),
                    value_content(*value) == JsonSpec::Array(contents),
                    item_specs(items@) =~= contents.take(at as int),
                decreases values.len() - at,
            {
                assert(contents[at as int] == value_content(values@[at as int]));
                proof {
                    let whole = value_content(*value);
                    assert(decreases_to!(whole => whole->Array_0[at as int]));
                }
                let ghost before = items@;
                items.push(to_json(&values[at]));
                assert(item_specs(items@) =~= item_specs(before).push(contents[at as int]));
                at += 1;
            }
            assert(item_specs(items@) =~= contents);
            Json::Array(items)
        },
        Opened::Object(entries) => {
            let ghost contents = members_of(value_content(*value));
            let mut members: Vec<(String, Json)> = Vec::new();
            let mut at: usize = 0;
            while at < entries.len()
                invariant
                    at <= entries@.len(),
                    value_content(*value) == JsonSpec::Object(contents),
                    contents == entries@.map_values(
                        |member: (&String, &Value)| (member.0@, value_content(*member.1)),
                    ),
                    member_specs(members@) =~= contents.take(at as int),
                decreases entries.len() - at,
            {
                let (name, child) = entries[at];
                assert(contents[at as int] == (name@, value_content(*child)));
                proof {
                    let whole = value_content(*value);
                    assert(decreases_to!(whole => whole->Object_0[at as int].1));
                }
                let ghost before = members@;
                members.push((name.clone(), to_json(child)));
                assert(member_specs(members@) =~= member_specs(before).push(
                    contents[at as int],
                ));
                at += 1;
            }
            assert(member_specs(members@) =~= contents);
            Json::Object(members)
        },
    }
}

/// The keywords whose value is a schema.
pub open spec fn holds_schema(keyword: Seq<char>) -> bool {
    ||| keyword == "additionalProperties"@
    ||| keyword == "contains"@
    ||| keyword == "contentSchema"@
    ||| keyword == "else"@
    ||| keyword == "if"@
    ||| keyword == "items"@
    ||| keyword == "not"@
    ||| keyword == "propertyNames"@
    ||| keyword == "then"@
    ||| keyword == "unevaluatedItems"@
    ||| keyword == "unevaluatedProperties"@
}

/// The keywords whose value is an array of schemas.
pub open spec fn lists_schemas(keyword: Seq<char>) -> bool {
    ||| keyword == "allOf"@
    ||| keyword == "anyOf"@
    ||| keyword == "oneOf"@
    ||| keyword == "prefixItems"@
}

/// The keywords whose value is an object of schemas.
pub open spec fn names_schemas(keyword: Seq<char>) -> bool {
    ||| keyword == "$defs"@
    ||| keyword == "definitions"@
    ||| keyword == "dependentSchemas"@
    ||| keyword == "patternProperties"@
    ||| keyword == "properties"@
}

/// The schemas that one keyword of a schema holds.
pub open spec fn keyword_schemas(keyword: Seq<char>, value: JsonSpec) -> Seq<JsonSpec> {
    if holds_schema(keyword) {
        seq![value]
    } else {
        match value {
            JsonSpec::Array(items) => if lists_schemas(keyword) {
                items
            } else {
                Seq::empty()
            },
            JsonSpec::Object(members) => if names_schemas(keyword) {
                members.map_values(|member: (Seq<char>, JsonSpec)| member.1)
            } else {
                Seq::empty()
            },
            _ => Seq::empty(),
        }
    }
}

/// The schemas that the first `count` keywords of a schema hold.
pub open spec fn keywords_schemas(members: Seq<(Seq<char>, JsonSpec)>, count: int) -> Seq<JsonSpec>
    decreases count,
{
    if count <= 0 || count > members.len() {
        Seq::empty()
    } else {
        keywords_schemas(members, count - 1) + keyword_schemas(
            members[count - 1].0,
            members[count - 1].1,
        )
    }
}

/// The schemas directly inside a draft 2020-12 schema.
pub open spec fn subschemas(content: JsonSpec) -> Seq<JsonSpec> {
    match content {
        JsonSpec::Object(members) => keywords_schemas(members, members.len() as int),
        _ => Seq::empty(),
    }
}

/// `jsonschema::Draft::subresources_of` yields, for draft 2020-12, the schemas
/// that the keywords of an object hold, in the order of its members.
#[verifier::external_body]
pub(crate) fn subresources<'v>(value: &'v Value) -> (children: Vec<&'v Value>)
    ensures
        children@.map_values(|child: &Value| value_content(*child)) == subschemas(
            value_content(*value),
        ),
{
    Draft::Draft202012.subresources_of(value).collect()
}

/// A schema inside a schema weighs less.
pub proof fn subschemas_weigh_less(content: JsonSpec, at: int)
    requires
        0 <= at < subschemas(content).len(),
    ensures
        json_weight(subschemas(content)[at]) < json_weight(content),
{
    if let JsonSpec::Object(members) = content {
        keywords_schemas_weigh_less(members, members.len() as int, at);
    }
}

proof fn keywords_schemas_weigh_less(members: Seq<(Seq<char>, JsonSpec)>, count: int, at: int)
    requires
        0 <= count <= members.len(),
        0 <= at < keywords_schemas(members, count).len(),
    ensures
        json_weight(keywords_schemas(members, count)[at]) <= members_weight(members, count),
    decreases count,
{
    if count > 0 {
        let before = keywords_schemas(members, count - 1);
        let value = members[count - 1].1;
        let own = keyword_schemas(members[count - 1].0, value);
        if at < before.len() {
            keywords_schemas_weigh_less(members, count - 1, at);
        } else {
            let k = at - before.len();
            assert(keywords_schemas(members, count)[at] == own[k]);
            assert(members_weight(members, count) == members_weight(members, count - 1)
                + json_weight(value));
            if !holds_schema(members[count - 1].0) {
                match value {
                    JsonSpec::Array(items) => {
                        item_weight_bound(items, items.len() as int, k);
                        assert(json_weight(own[k]) <= json_weight(value));
                    },
                    JsonSpec::Object(inner) => {
                        member_weight_bound(inner, inner.len() as int, k);
                        assert(own[k] == inner[k].1);
                        assert(json_weight(own[k]) <= json_weight(value));
                    },
                    _ => {},
                }
            }
        }
    }
}

/// Why a schema does not fit the draft 2020-12 meta-schema, if it does not.
pub uninterp spec fn meta_fault(content: JsonSpec) -> Option<Seq<char>>;

/// `jsonschema::draft202012::meta::validate` holds a schema against the
/// meta-schema, and reports the first fault. Not stated: the meta-schema, and
/// the wording of the fault.
#[verifier::external_body]
pub(crate) fn check_meta(value: &Value) -> (fault: Option<String>)
    ensures
        fault is Some <==> meta_fault(value_content(*value)) is Some,
        fault matches Some(fault) ==> meta_fault(value_content(*value)) == Some(fault@),
{
    jsonschema::draft202012::meta::validate(value).err().map(|error| error.to_string())
}

/// Why a text is not a URI, if it is not.
pub uninterp spec fn uri_fault(text: Seq<char>) -> Option<Seq<char>>;

/// `jsonschema::Uri::parse` reads a URI from an owned text, or tells in the
/// debug form of its error, which holds the text, why the text is none. Not
/// stated: the grammar of URIs, and the wording of the fault.
#[verifier::external_body]
fn check_uri(text: &str) -> (fault: Option<String>)
    ensures
        fault is Some <==> uri_fault(text@) is Some,
        fault matches Some(fault) ==> uri_fault(text@) == Some(fault@),
{
    jsonschema::Uri::parse(text.to_owned()).err().map(|error| format!("{error:?}"))
}

/// The URI that a reference leads to from a base, or why it leads to none.
pub uninterp spec fn uri_resolved(base: Seq<char>, reference: Seq<char>) -> Result<
    Seq<char>,
    Seq<char>,
>;

/// `jsonschema::uri::resolve_against` resolves a reference against a base URI;
/// what it leads to is a URI again. Not stated: the resolution itself, and the
/// wording of the fault.
#[verifier::external_body]
pub(crate) fn resolve_uri(base: &str, reference: &str) -> (uri: Result<String, String>)
    requires
        uri_fault(base@) is None,
    ensures
        match uri {
            Ok(uri) => uri_resolved(base@, reference@) == Ok::<Seq<char>, Seq<char>>(uri@)
                && uri_fault(uri@) is None,
            Err(fault) => uri_resolved(base@, reference@) == Err::<Seq<char>, Seq<char>>(fault@),
        },
{
    let base = jsonschema::Uri::parse(base).map_err(|error| error.to_string())?;
    match jsonschema::uri::resolve_against(&base, reference) {
        Ok(uri) => Ok(uri.as_str().to_owned()),
        Err(error) => Err(error.to_string()),
    }
}

/// The normalized URI that a text spells by itself, or why it spells none.
pub uninterp spec fn normalized_uri(text: Seq<char>) -> Result<Seq<char>, Seq<char>>;

/// `jsonschema::uri::from_str` reads and normalizes a URI; a relative one is
/// resolved against a root of its own. What it gives is a URI. Not stated: the
/// grammar, the normal form, and the wording of the fault.
#[verifier::external_body]
pub(crate) fn normalize_uri(text: &str) -> (uri: Result<String, String>)
    ensures
        match uri {
            Ok(uri) => normalized_uri(text@) == Ok::<Seq<char>, Seq<char>>(uri@) && uri_fault(
                uri@,
            ) is None,
            Err(fault) => normalized_uri(text@) == Err::<Seq<char>, Seq<char>>(fault@),
        },
{
    match jsonschema::uri::from_str(text) {
        Ok(uri) => Ok(uri.as_str().to_owned()),
        Err(error) => Err(error.to_string()),
    }
}

/// The text before the first `#`.
pub open spec fn without_fragment(uri: Seq<char>) -> Seq<char> {
    uri.take(find_either(uri, '#', '#', 0))
}

fn strip_fragment(uri: &str) -> (text: String)
    ensures
        text@ == without_fragment(uri@),
{
    let chars = chars_of(uri);
    let end = position_of(chars.as_slice(), '#', '#', 0);
    assert(uri@.subrange(0, end as int) =~= uri@.take(end as int));
    text_of(chars.as_slice(), 0, end)
}

/// References to external documents, or why they cannot be resolved.
pub type References = Result<Seq<(Seq<char>, Seq<char>)>, Seq<char>>;

/// The fault of a keyword that does not resolve.
pub open spec fn reference_fault(
    keyword: Seq<char>,
    reference: Seq<char>,
    fault: Seq<char>,
) -> Seq<char> {
    "invalid JSON Schema `"@ + keyword + "` `"@ + reference + "`: "@ + fault
}

/// The documents that a reference leads to, given what it resolves to from
/// both bases.
pub open spec fn resolved_references(
    keyword: Seq<char>,
    reference: Seq<char>,
    physical: Result<Seq<char>, Seq<char>>,
    logical: Result<Seq<char>, Seq<char>>,
) -> References {
    match (physical, logical) {
        (Err(fault), _) => Err(reference_fault(keyword, reference, fault)),
        (_, Err(fault)) => Err(reference_fault(keyword, reference, fault)),
        (Ok(physical), Ok(logical)) => if without_fragment(physical).len() > 0
            && without_fragment(logical).len() > 0 {
            Ok(seq![(without_fragment(physical), without_fragment(logical))])
        } else {
            Ok(Seq::empty())
        },
    }
}

/// The documents that the reference in `keyword` leads to, from both bases.
pub open spec fn keyword_references(
    content: JsonSpec,
    keyword: Seq<char>,
    physical: Seq<char>,
    logical: Seq<char>,
) -> References {
    match text_member(content, keyword) {
        None => Ok(Seq::empty()),
        Some(reference) => resolved_references(
            keyword,
            reference,
            uri_resolved(physical, reference),
            uri_resolved(logical, reference),
        ),
    }
}

/// The text of the string member called `name`, if the value is an object
/// that has one.
pub open spec fn text_member(content: JsonSpec, name: Seq<char>) -> Option<Seq<char>> {
    match member(members_of(content), name) {
        Some(JsonSpec::Text(text)) => Some(text),
        _ => None,
    }
}

/// First these references, then those.
pub open spec fn both(first: References, second: References) -> References {
    match first {
        Err(fault) => Err(fault),
        Ok(first) => match second {
            Err(fault) => Err(fault),
            Ok(second) => Ok(first + second),
        },
    }
}

/// The logical base inside a schema: its `$id`, resolved against the base
/// around it.
pub open spec fn logical_base_of(content: JsonSpec, inherited: Seq<char>) -> Result<
    Seq<char>,
    Seq<char>,
> {
    match text_member(content, "$id"@) {
        None => Ok(inherited),
        Some(identifier) => match uri_resolved(inherited, identifier) {
            Ok(uri) => Ok(uri),
            Err(fault) => Err(reference_fault("$id"@, identifier, fault)),
        },
    }
}

/// The documents that a schema refers to, its own references first, then
/// those of the schemas inside it.
pub open spec fn external_references(
    content: JsonSpec,
    physical: Seq<char>,
    inherited: Seq<char>,
) -> References
    decreases json_weight(content), subschemas(content).len() + 1,
{
    match logical_base_of(content, inherited) {
        Err(fault) => Err(fault),
        Ok(logical) => both(
            both(
                keyword_references(content, "$ref"@, physical, logical),
                keyword_references(content, "$dynamicRef"@, physical, logical),
            ),
            inner_references(
                subschemas(content),
                physical,
                logical,
                subschemas(content).len() as int,
                json_weight(content),
            ),
        ),
    }
}

/// The documents that the first `count` of `schemas` refer to, all of which
/// weigh less than `bound`.
pub open spec fn inner_references(
    schemas: Seq<JsonSpec>,
    physical: Seq<char>,
    logical: Seq<char>,
    count: int,
    bound: nat,
) -> References
    decreases bound, count,
{
    if count <= 0 || count > schemas.len() || json_weight(schemas[count - 1]) >= bound {
        Ok(Seq::empty())
    } else {
        both(
            inner_references(schemas, physical, logical, count - 1, bound),
            external_references(schemas[count - 1], physical, logical),
        )
    }
}

pub(crate) fn get_text_member(value: &Value, name: &str) -> (text: Option<String>)
    ensures
        text is Some <==> text_member(value_content(*value), name@) is Some,
        text matches Some(text) ==> text_member(value_content(*value), name@) == Some(text@),
{
    match get_value_member(value, name) {
        Some(member) => match open_value(member) {
            Opened::Text(text) => Some(text.clone()),
            _ => None,
        },
        None => None,
    }
}

/// The value of the member called `name`, if the value is an object that has
/// one.
pub(crate) fn get_value_member<'v>(value: &'v Value, name: &str) -> (found: Option<&'v Value>)
    ensures
        found is Some <==> member(members_of(value_content(*value)), name@) is Some,
        found matches Some(found) ==> member(members_of(value_content(*value)), name@) == Some(
            value_content(*found),
        ),
{
    match open_value(value) {
        Opened::Object(entries) => {
            let ghost members = members_of(value_content(*value));
            let mut at: usize = 0;
            while at < entries.len()
                invariant
                    at <= entries@.len(),
                    members == members_of(value_content(*value)),
                    members == entries@.map_values(
                        |member: (&String, &Value)| (member.0@, value_content(*member.1)),
                    ),
                    member_index(members, name@, 0) == member_index(members, name@, at as int),
                decreases entries.len() - at,
            {
                let (key, child) = entries[at];
                assert(members[at as int] == (key@, value_content(*child)));
                if same_text(key.as_str(), name) {
                    return Some(child);
                }
                at += 1;
            }
            None
        },
        _ => None,
    }
}

/// What references are.
pub open spec fn reference_specs(references: Seq<JsonSchemaExternalReference>) -> Seq<
    (Seq<char>, Seq<char>),
> {
    references.map_values(
        |reference: JsonSchemaExternalReference|
            (reference.physical_uri@, reference.logical_uri@),
    )
}

fn join_fault(keyword: &str, reference: &str, fault: &str) -> (text: String)
    ensures
        text@ == reference_fault(keyword@, reference@, fault@),
{
    let mut text = join5("invalid JSON Schema `", keyword, "` `", reference, "`: ");
    text.append(fault);
    text
}

/// What a list of references that has been extended holds, or the fault that
/// stopped it.
pub open spec fn extended(
    before: Seq<JsonSchemaExternalReference>,
    after: Seq<JsonSchemaExternalReference>,
    outcome: Result<(), String>,
    expected: References,
) -> bool {
    match outcome {
        Ok(()) => expected is Ok && reference_specs(after) == reference_specs(before)
            + expected->Ok_0,
        Err(fault) => expected == Err::<Seq<(Seq<char>, Seq<char>)>, Seq<char>>(fault@),
    }
}

/// What a resolution is.
pub open spec fn resolution_spec(uri: Result<String, String>) -> Result<Seq<char>, Seq<char>> {
    match uri {
        Ok(uri) => Ok(uri@),
        Err(fault) => Err(fault@),
    }
}

/// Adds the documents that a reference leads to, given what it resolves to
/// from both bases.
pub fn add_reference(
    keyword: &str,
    reference: &str,
    physical: Result<String, String>,
    logical: Result<String, String>,
    references: &mut Vec<JsonSchemaExternalReference>,
) -> (outcome: Result<(), String>)
    ensures
        extended(
            old(references)@,
            final(references)@,
            outcome,
            resolved_references(
                keyword@,
                reference@,
                resolution_spec(physical),
                resolution_spec(logical),
            ),
        ),
{
    let ghost before = reference_specs(references@);
    let physical = match physical {
        Ok(uri) => uri,
        Err(fault) => {
            return Err(join_fault(keyword, reference, fault.as_str()));
        },
    };
    let logical = match logical {
        Ok(uri) => uri,
        Err(fault) => {
            return Err(join_fault(keyword, reference, fault.as_str()));
        },
    };
    let physical_uri = strip_fragment(physical.as_str());
    let logical_uri = strip_fragment(logical.as_str());
    if chars_of(physical_uri.as_str()).len() > 0 && chars_of(logical_uri.as_str()).len() > 0 {
        let found = JsonSchemaExternalReference { physical_uri, logical_uri };
        references.push(found);
        assert(reference_specs(references@) =~= before + seq![
            (found.physical_uri@, found.logical_uri@),
        ]);
    } else {
        assert(before =~= before + Seq::empty());
    }
    Ok(())
}

fn collect_keyword(
    value: &Value,
    keyword: &str,
    physical: &str,
    logical: &str,
    references: &mut Vec<JsonSchemaExternalReference>,
) -> (outcome: Result<(), String>)
    requires
        uri_fault(physical@) is None,
        uri_fault(logical@) is None,
    ensures
        extended(
            old(references)@,
            final(references)@,
            outcome,
            keyword_references(value_content(*value), keyword@, physical@, logical@),
        ),
{
    match get_text_member(value, keyword) {
        Some(reference) => {
            let reference = reference.as_str();
            let physical = resolve_uri(physical, reference);
            let logical = resolve_uri(logical, reference);
            add_reference(keyword, reference, physical, logical, references)
        },
        None => {
            assert(reference_specs(references@) =~= reference_specs(references@) + Seq::empty());
            Ok(())
        },
    }
}

/// Collects the documents that a schema refers to.
fn collect_external_references(
    value: &Value,
    physical_base: &str,
    inherited_logical_base: &str,
    references: &mut Vec<JsonSchemaExternalReference>,
) -> (outcome: Result<(), String>)
    requires
        uri_fault(physical_base@) is None,
        uri_fault(inherited_logical_base@) is None,
    ensures
        extended(
            old(references)@,
            final(references)@,
            outcome,
            external_references(
                value_content(*value),
                physical_base@,
                inherited_logical_base@,
            ),
        ),
    decreases json_weight(value_content(*value)),
{
    let ghost content = value_content(*value);
    let ghost start = reference_specs(references@);
    let logical = match get_text_member(value, "$id") {
        Some(identifier) => match resolve_uri(inherited_logical_base, identifier.as_str()) {
            Ok(uri) => uri,
            Err(fault) => {
                return Err(join_fault("$id", identifier.as_str(), fault.as_str()));
            },
        },
        None => inherited_logical_base.to_owned(),
    };
    let logical_base = logical.as_str();
    match collect_keyword(value, "$ref", physical_base, logical_base, references) {
        Ok(()) => {},
        Err(fault) => {
            return Err(fault);
        },
    }
    match collect_keyword(value, "$dynamicRef", physical_base, logical_base, references) {
        Ok(()) => {},
        Err(fault) => {
            return Err(fault);
        },
    }
    let ghost own = both(
        keyword_references(content, "$ref"@, physical_base@, logical@),
        keyword_references(content, "$dynamicRef"@, physical_base@, logical@),
    );
    let ghost here = start + own->Ok_0;
    assert(reference_specs(references@) =~= here);
    let children = subresources(value);
    let ghost schemas = subschemas(content);
    let ghost bound = json_weight(content);
    let mut at: usize = 0;
    assert(here =~= here + Seq::empty());
    while at < children.len()
        invariant
            at <= children@.len(),
            schemas == children@.map_values(|child: &Value| value_content(*child)),
            schemas == subschemas(content),
            content == value_content(*value),
            bound == json_weight(content),
            uri_fault(physical_base@) is None,
            uri_fault(logical_base@) is None,
            logical_base@ == logical@,
            logical_base_of(content, inherited_logical_base@) == Ok::<Seq<char>, Seq<char>>(
                logical@,
            ),
            own is Ok,
            own == both(
                keyword_references(content, "$ref"@, physical_base@, logical@),
                keyword_references(content, "$dynamicRef"@, physical_base@, logical@),
            ),
            here == start + own->Ok_0,
            start == reference_specs(old(references)@),
            inner_references(schemas, physical_base@, logical@, at as int, bound) is Ok,
            reference_specs(references@) == here + inner_references(
                schemas,
                physical_base@,
                logical@,
                at as int,
                bound,
            )->Ok_0,
        decreases children.len() - at,
    {
        proof {
            assert(schemas[at as int] == value_content(*children@[at as int]));
            subschemas_weigh_less(content, at as int);
        }
        let ghost before = reference_specs(references@);
        match collect_external_references(children[at], physical_base, logical_base, references) {
            Ok(()) => {},
            Err(fault) => {
                proof {
                    inner_faults_stop(
                        schemas,
                        physical_base@,
                        logical@,
                        at + 1,
                        schemas.len() as int,
                        bound,
                        content,
                    );
                }
                return Err(fault);
            },
        }
        proof {
            let more = external_references(schemas[at as int], physical_base@, logical@)->Ok_0;
            let so_far = inner_references(
                schemas,
                physical_base@,
                logical@,
                at as int,
                bound,
            )->Ok_0;
            assert(before + more =~= here + (so_far + more));
        }
        at += 1;
    }
    proof {
        let inner = inner_references(schemas, physical_base@, logical@, at as int, bound)->Ok_0;
        assert(here + inner =~= start + (own->Ok_0 + inner));
    }
    Ok(())
}

proof fn inner_faults_stop(
    schemas: Seq<JsonSpec>,
    physical: Seq<char>,
    logical: Seq<char>,
    count: int,
    all: int,
    bound: nat,
    content: JsonSpec,
)
    requires
        0 < count <= all <= schemas.len(),
        schemas == subschemas(content),
        bound == json_weight(content),
        inner_references(schemas, physical, logical, count, bound) is Err,
    ensures
        inner_references(schemas, physical, logical, all, bound) == inner_references(
            schemas,
            physical,
            logical,
            count,
            bound,
        ),
    decreases all - count,
{
    if count < all {
        inner_faults_stop(schemas, physical, logical, count, all - 1, bound, content);
        subschemas_weigh_less(content, all - 1);
    }
}

/// The documents that a draft 2020-12 resource refers to, or why they cannot
/// be told.
pub open spec fn references_of(
    source: Seq<char>,
    physical: Seq<char>,
    logical: Seq<char>,
) -> References {
    match json_read(source) {
        Err(fault) => Err("invalid JSON Schema document: "@ + fault),
        Ok(content) => match (uri_fault(physical), uri_fault(logical)) {
            (Some(fault), _) => Err(
                "invalid physical JSON Schema base URI `"@ + physical + "`: "@ + fault,
            ),
            (_, Some(fault)) => Err(
                "invalid logical JSON Schema base URI `"@ + logical + "`: "@ + fault,
            ),
            (None, None) => external_references(content, physical, logical),
        },
    }
}

/// Finds external documents referenced from one draft 2020-12 resource.
///
/// Each reference is resolved both from the resource's lexical physical URI,
/// without applying `$id`, and from its logical URI according to JSON Schema
/// `$id` semantics. Returned URIs have fragments removed and preserve
/// traversal order, including same-document references and duplicates.
pub fn json_schema_external_references(
    source: &str,
    physical_base_uri: &str,
    logical_base_uri: &str,
) -> (references: Result<Vec<JsonSchemaExternalReference>, String>)
    ensures
        match references {
            Ok(references) => references_of(source@, physical_base_uri@, logical_base_uri@)
                == Ok::<Seq<(Seq<char>, Seq<char>)>, Seq<char>>(reference_specs(references@)),
            Err(fault) => references_of(source@, physical_base_uri@, logical_base_uri@) == Err::<
                Seq<(Seq<char>, Seq<char>)>,
                Seq<char>,
            >(fault@),
        },
{
    let value = match read_value(source) {
        Ok(value) => value,
        Err(fault) => {
            return Err(join2("invalid JSON Schema document: ", fault.as_str()));
        },
    };
    if let Some(fault) = check_uri(physical_base_uri) {
        let start = join3("invalid physical JSON Schema base URI `", physical_base_uri, "`: ");
        return Err(join2(start.as_str(), fault.as_str()));
    }
    if let Some(fault) = check_uri(logical_base_uri) {
        let start = join3("invalid logical JSON Schema base URI `", logical_base_uri, "`: ");
        return Err(join2(start.as_str(), fault.as_str()));
    }
    let mut references: Vec<JsonSchemaExternalReference> = Vec::new();
    assert(reference_specs(references@) =~= Seq::empty());
    match collect_external_references(
        &value,
        physical_base_uri,
        logical_base_uri,
        &mut references,
    ) {
        Ok(()) => {
            proof {
                let found = references_of(source@, physical_base_uri@, logical_base_uri@)->Ok_0;
                assert(Seq::empty() + found =~= found);
            }
            Ok(references)
        },
        Err(fault) => Err(fault),
    }
}

} // verus!
