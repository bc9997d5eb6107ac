//! Linked JSON Schema graphs for the frontmatter.

use jsonschema::{Registry, RegistryBuilder};
use serde_json::Value;
use vstd::prelude::*;

use crate::json::{
    get_member, item_specs, items_weight, json_spec, json_weight, member, member_index,
    member_specs, members_of, members_weight, place_for, with_member, Json, JsonSpec,
};
use crate::json_value::{
    check_meta, get_value_member, json_read, json_written, meta_fault, read_value, to_json,
    value_content, write_value,
};
use crate::load_result::{
    JsonSchemaResourceContents, JsonSchemaResourceInput, LinkedJsonSchemaInput, LinkedSpec,
    ResourceSpec, SourceId,
};
use crate::loader::apart::documents_are_apart;
use crate::loader::identity::{
    check_graph, clear_graphs_are_filed_clearly, graph_documents, graph_is_clear, names_are_clear,
    registry_uri,
};
use crate::schema::{FrontmatterSchema, FrontmatterSchemaSpec, NonEmpty};
use crate::text::{chars_of, join2, join3, same_text, text_less, text_order};

verus! {

/// How many reference keywords one linked JSON Schema graph may declare.
///
/// Compiling a reference re-enters the compiler at the target, so a chain of
/// references costs one stack frame per link however flat the documents that
/// spell it are. What has to be bounded is therefore a count, not a nesting.
/// It counts occurrences rather than the longest chain because a chain's
/// length is only knowable by resolving every reference the way the compiler
/// does; a count needs no resolution and still bounds the recursion.
pub const MAX_JSON_SCHEMA_REFERENCES: usize = 128;

/// Whether a member name is a reference keyword.
pub open spec fn is_reference_keyword(name: Seq<char>) -> bool {
    name == "$ref"@ || name == "$dynamicRef"@
}

/// How many members called `$ref` or `$dynamicRef` a value holds, at any
/// depth.
pub open spec fn reference_count(value: JsonSpec) -> nat
    decreases value, 0int,
{
    match value {
        JsonSpec::Array(items) => items_reference_count(items, items.len() as int),
        JsonSpec::Object(members) => members_reference_count(members, members.len() as int),
        _ => 0,
    }
}

/// The count for the first `count` items of an array.
pub open spec fn items_reference_count(items: Seq<JsonSpec>, count: int) -> nat
    decreases items, count,
{
    if count <= 0 || count > items.len() {
        0
    } else {
        items_reference_count(items, count - 1) + reference_count(items[count - 1])
    }
}

/// The count for the first `count` members of an object.
pub open spec fn members_reference_count(
    members: Seq<(Seq<char>, JsonSpec)>,
    count: int,
) -> nat
    decreases members, count,
{
    if count <= 0 || count > members.len() {
        0
    } else {
        members_reference_count(members, count - 1) + reference_count(members[count - 1].1)
            + if is_reference_keyword(members[count - 1].0) {
            1nat
        } else {
            0nat
        }
    }
}

/// A count that does not grow beyond the greatest number.
pub open spec fn saturated(count: nat) -> nat {
    if count <= usize::MAX {
        count
    } else {
        usize::MAX as nat
    }
}

spec fn pending_count(pending: Seq<&Json>) -> nat
    decreases pending.len(),
{
    if pending.len() == 0 {
        0
    } else {
        pending_count(pending.drop_last()) + reference_count(json_spec(*pending.last()))
    }
}

spec fn pending_weight(pending: Seq<&Json>) -> nat
    decreases pending.len(),
{
    if pending.len() == 0 {
        0
    } else {
        pending_weight(pending.drop_last()) + json_weight(json_spec(*pending.last()))
    }
}

proof fn pending_push(pending: Seq<&Json>, value: &Json)
    ensures
        pending_count(pending.push(value)) == pending_count(pending) + reference_count(
            json_spec(*value),
        ),
        pending_weight(pending.push(value)) == pending_weight(pending) + json_weight(
            json_spec(*value),
        ),
{
    assert(pending.push(value).drop_last() =~= pending);
}

/// Counts the `$ref` and `$dynamicRef` keywords one JSON document declares.
///
/// The walk carries an explicit stack rather than recursing, so what it costs
/// the call stack does not depend on the limit it enforces. Every occurrence
/// of either name is counted, including one used as a property name or buried
/// in a `const`, which only makes the bound stricter than it needs to be.
pub fn json_schema_reference_count(value: &Json) -> (count: usize)
    ensures
        count == saturated(reference_count(value@)),
{
    let ghost total = reference_count(value@);
    let ghost mut found: nat = 0;
    let mut references: usize = 0;
    let mut pending: Vec<&Json> = Vec::new();
    proof {
        pending_push(pending@, value);
    }
    pending.push(value);
    while pending.len() > 0
        invariant
            references == saturated(found),
            found + pending_count(pending@) == total,
        decreases pending_weight(pending@),
    {
        let ghost before = pending@;
        let current = pending[pending.len() - 1];
        pending.pop();
        assert(pending@ =~= before.drop_last());
        match current {
            Json::Array(items) => {
                let ghost specs = item_specs(items@);
                let ghost base = pending@;
                let mut at: usize = 0;
                while at < items.len()
                    invariant
                        at <= items@.len(),
                        specs == item_specs(items@),
                        pending_count(pending@) == pending_count(base) + items_reference_count(
                            specs,
                            at as int,
                        ),
                        pending_weight(pending@) == pending_weight(base) + items_weight(
                            specs,
                            at as int,
                        ),
                    decreases items.len() - at,
                {
                    proof {
                        pending_push(pending@, &items@[at as int]);
                    }
                    pending.push(&items[at]);
                    at += 1;
                }
            },
            Json::Object(members) => {
                let ghost specs = member_specs(members@);
                let ghost base = pending@;
                let ghost start = found;
                let mut at: usize = 0;
                while at < members.len()
                    invariant
                        at <= members@.len(),
                        specs == member_specs(members@),
                        references == saturated(found),
                        found + pending_count(pending@) == start + pending_count(base)
                            + members_reference_count(specs, at as int),
                        pending_weight(pending@) == pending_weight(base) + members_weight(
                            specs,
                            at as int,
                        ),
                    decreases members.len() - at,
                {
                    let name = members[at].0.as_str();
                    if same_text(name, "$ref") || same_text(name, "$dynamicRef") {
                        if references < usize::MAX {
                            references += 1;
                        }
                        proof {
                            found = found + 1;
                        }
                    }
                    proof {
                        pending_push(pending@, &members@[at as int].1);
                    }
                    pending.push(&members[at].1);
                    at += 1;
                }
            },
            _ => {},
        }
    }
    references
}

/// The wording for a graph that spends more than the budget.
pub open spec fn budget_message() -> Seq<char> {
    "linked JSON Schema declares more than 128 `$ref` or `$dynamicRef` keywords"@
}

/// Reports the wording for a graph that spends more than the budget.
pub fn json_schema_reference_budget_message() -> (message: String)
    ensures
        message@ == budget_message(),
{
    "linked JSON Schema declares more than 128 `$ref` or `$dynamicRef` keywords".to_owned()
}

/// Whether a `$schema` member names draft 2020-12.
pub open spec fn is_supported_dialect(dialect: JsonSpec) -> bool {
    ||| dialect == JsonSpec::Text("https://json-schema.org/draft/2020-12/schema"@)
    ||| dialect == JsonSpec::Text("https://json-schema.org/draft/2020-12/schema#"@)
}

/// What is wrong with a schema document, given how its dialect is written and
/// why it does not fit the meta-schema, if it does not.
pub open spec fn document_fault(
    content: JsonSpec,
    dialect: Seq<char>,
    meta: Option<Seq<char>>,
) -> Option<Seq<char>> {
    if !(content is Object || content is Bool) {
        Some("linked JSON Schema root must be an object or boolean"@)
    } else if declares_other_dialect(content) {
        Some("unsupported JSON Schema dialect `"@ + dialect + "`; expected draft 2020-12"@)
    } else {
        match meta {
            Some(fault) => Some("invalid draft 2020-12 JSON Schema: "@ + fault),
            None => None,
        }
    }
}

/// Whether a schema document declares another dialect than draft 2020-12.
pub open spec fn declares_other_dialect(content: JsonSpec) -> bool {
    match member(members_of(content), "$schema"@) {
        Some(dialect) => !is_supported_dialect(dialect),
        None => false,
    }
}

/// What is wrong with a schema document.
pub open spec fn content_fault(content: JsonSpec) -> Option<Seq<char>> {
    document_fault(
        content,
        match member(members_of(content), "$schema"@) {
            Some(dialect) => json_written(dialect),
            None => Seq::empty(),
        },
        meta_fault(content),
    )
}

fn names_other_dialect(document: &Json) -> (other: bool)
    ensures
        other == declares_other_dialect(document@),
{
    match document.as_object() {
        Some(members) => match get_member(members, "$schema") {
            Some(dialect) => match dialect.as_str() {
                Some(text) => !same_text(text, "https://json-schema.org/draft/2020-12/schema")
                    && !same_text(text, "https://json-schema.org/draft/2020-12/schema#"),
                None => true,
            },
            None => false,
        },
        None => false,
    }
}

/// What an optional text is.
pub open spec fn message_spec(message: Option<String>) -> Option<Seq<char>> {
    match message {
        None => None,
        Some(message) => Some(message@),
    }
}

/// Tells what is wrong with a schema document, given how its dialect is
/// written and why it does not fit the meta-schema, if it does not.
pub fn settle_document(document: &Json, dialect: &str, meta: Option<String>) -> (fault: Option<
    String,
>)
    ensures
        message_spec(fault) == document_fault(document@, dialect@, message_spec(meta)),
{
    if !matches!(document, Json::Object(_)) && !document.is_boolean() {
        return Some("linked JSON Schema root must be an object or boolean".to_owned());
    }
    if names_other_dialect(document) {
        return Some(
            join3("unsupported JSON Schema dialect `", dialect, "`; expected draft 2020-12"),
        );
    }
    match meta {
        Some(fault) => Some(join2("invalid draft 2020-12 JSON Schema: ", fault.as_str())),
        None => None,
    }
}

/// Tells what is wrong with a schema document.
pub(crate) fn validate_json_schema_document(value: &Value, document: &Json) -> (fault: Option<String>)
    requires
        document@ == value_content(*value),
    ensures
        message_spec(fault) == content_fault(document@),
{
    let mut dialect = String::new();
    if let Some(declared) = get_value_member(value, "$schema") {
        dialect = write_value(declared);
    }
    let refused = (!matches!(document, Json::Object(_)) && !document.is_boolean())
        || names_other_dialect(document);
    let meta = if refused {
        None
    } else {
        check_meta(value)
    };
    settle_document(document, dialect.as_str(), meta)
}

/// The id of the source of the external resource at `index`, if there are ids
/// that far.
pub open spec fn external_id(index: int) -> Option<SourceId> {
    if 0 <= index < u32::MAX {
        Some(SourceId((index + 1) as u32))
    } else {
        None
    }
}

/// The id of the source of the external resource at `index`, or that of the
/// primary source.
pub open spec fn id_or_primary(index: int) -> SourceId {
    match external_id(index) {
        Some(id) => id,
        None => SourceId(0),
    }
}

/// The id of the source of the external resource at `index`.
pub fn external_source_id(index: usize) -> (id: Option<SourceId>)
    ensures
        id == external_id(index as int),
{
    if index < 4294967295 {
        Some(SourceId(index as u32 + 1))
    } else {
        None
    }
}

/// The ids of external sources follow that of the primary source, and differ.
pub proof fn external_ids_are_distinct(one: int, two: int)
    requires
        external_id(one) is Some,
        external_id(one) == external_id(two),
    ensures
        one == two,
        external_id(one) != Some(SourceId(0)),
{
}

/// The position of the first resource with the given URI, from `from` on.
pub open spec fn resource_at(resources: Seq<ResourceSpec>, uri: Seq<char>, from: int) -> Option<int>
    decreases resources.len() - from,
{
    if from < 0 || from >= resources.len() {
        None
    } else if resources[from].uri == uri {
        Some(from)
    } else {
        resource_at(resources, uri, from + 1)
    }
}

/// The source of the resource with the given URI, or the primary source.
pub open spec fn source_of(resources: Seq<ResourceSpec>, uri: Seq<char>) -> SourceId {
    match resource_at(resources, uri, 0) {
        Some(at) => id_or_primary(at),
        None => SourceId(0),
    }
}

/// What resources are.
pub open spec fn resource_specs(resources: Seq<JsonSchemaResourceInput>) -> Seq<ResourceSpec> {
    resources.map_values(|resource: JsonSchemaResourceInput| resource@)
}

fn find_resource(resources: &Vec<JsonSchemaResourceInput>, uri: &str) -> (found: Option<usize>)
    ensures
        resource_at(resource_specs(resources@), uri@, 0) == match found {
            Some(at) => Some(at as int),
            None => None,
        },
        found matches Some(at) ==> at < resources@.len(),
{
    let ghost specs = resource_specs(resources@);
    let mut at: usize = 0;
    while at < resources.len()
        invariant
            at <= resources@.len(),
            specs == resource_specs(resources@),
            resource_at(specs, uri@, 0) == resource_at(specs, uri@, at as int),
        decreases resources.len() - at,
    {
        if same_text(resources[at].uri.as_str(), uri) {
            return Some(at);
        }
        at += 1;
    }
    None
}

/// The source of the resource with the given URI, or the primary source.
fn root_source_id(resources: &Vec<JsonSchemaResourceInput>, uri: &str) -> (source: SourceId)
    ensures
        source == source_of(resource_specs(resources@), uri@),
{
    match find_resource(resources, uri) {
        Some(at) => match external_source_id(at) {
            Some(id) => id,
            None => SourceId(0),
        },
        None => SourceId(0),
    }
}

/// An error in a linked graph.
#[derive(Debug, PartialEq, Eq)]
pub struct PreparedExternalError {
    /// The source that it is reported against.
    pub source: SourceId,
    /// Its wording.
    pub message: String,
}

impl View for PreparedExternalError {
    type V = (SourceId, Seq<char>);

    open spec fn view(&self) -> (SourceId, Seq<char>) {
        (self.source, self.message@)
    }
}

/// What errors in a linked graph are.
pub open spec fn external_error_specs(errors: Seq<PreparedExternalError>) -> Seq<
    (SourceId, Seq<char>),
> {
    errors.map_values(|error: PreparedExternalError| error@)
}

/// What reading the resources of a linked graph yields.
#[verifier::ext_equal]
pub struct Reading {
    /// The errors in single resources, in their order.
    pub errors: Seq<(SourceId, Seq<char>)>,
    /// The documents by URI, in the order of their URIs.
    pub parsed: Seq<(Seq<char>, JsonSpec)>,
    /// How many reference keywords the documents hold.
    pub references: nat,
    /// Whether the budget for them is spent, so that nothing more is read.
    pub stopped: bool,
}

/// What reading one more resource yields.
///
/// The budget spans the graph rather than any one document, so it is charged
/// as the documents arrive and reported against the one that spends the last
/// of it. Nothing later can bring the total back under.
pub open spec fn reading_step(
    before: Reading,
    resource: ResourceSpec,
    source: SourceId,
    repeated: bool,
) -> Reading {
    if before.stopped {
        before
    } else if repeated {
        refused_resource(
            before,
            source,
            "duplicate JSON Schema resource URI `"@ + resource.uri + "`"@,
        )
    } else {
        match resource.contents {
            Err(failure) => refused_resource(before, source, failure),
            Ok(text) => match json_read(text) {
                Err(fault) => refused_resource(
                    before,
                    source,
                    "invalid linked JSON Schema document: "@ + fault,
                ),
                Ok(content) => document_step(
                    before,
                    resource.uri,
                    source,
                    content,
                    content_fault(content),
                ),
            },
        }
    }
}

/// What an error in a resource adds.
pub open spec fn refused_resource(
    before: Reading,
    source: SourceId,
    message: Seq<char>,
) -> Reading {
    Reading { errors: before.errors.push((source, message)), ..before }
}

/// What a document adds, given what is wrong with it.
pub open spec fn document_step(
    before: Reading,
    uri: Seq<char>,
    source: SourceId,
    content: JsonSpec,
    fault: Option<Seq<char>>,
) -> Reading {
    match fault {
        Some(message) => refused_resource(before, source, message),
        None => {
            let references = before.references + reference_count(content);
            if references > MAX_JSON_SCHEMA_REFERENCES {
                Reading {
                    errors: before.errors.push((source, budget_message())),
                    references,
                    stopped: true,
                    ..before
                }
            } else {
                Reading {
                    parsed: with_member(before.parsed, uri, content),
                    references,
                    ..before
                }
            }
        },
    }
}

/// What reading the first `count` resources yields.
pub open spec fn reading(resources: Seq<ResourceSpec>, count: int) -> Reading
    decreases count,
{
    if count <= 0 || count > resources.len() {
        Reading { errors: Seq::empty(), parsed: Seq::empty(), references: 0, stopped: false }
    } else {
        let resource = resources[count - 1];
        reading_step(
            reading(resources, count - 1),
            resource,
            id_or_primary(count - 1),
            resource_at(resources, resource.uri, 0) != Some(count - 1),
        )
    }
}

/// The documents of a linked graph that have been read.
struct Documents {
    entries: Vec<(String, Value)>,
    errors: Vec<PreparedExternalError>,
    references: usize,
    stopped: bool,
}

/// What documents by URI are.
pub open spec fn entry_specs(entries: Seq<(String, Value)>) -> Seq<(Seq<char>, JsonSpec)> {
    entries.map_values(|entry: (String, Value)| (entry.0@, value_content(entry.1)))
}

/// Adds a document in its place.
fn insert_document(entries: &mut Vec<(String, Value)>, uri: String, value: Value)
    ensures
        entry_specs(final(entries)@) == with_member(
            entry_specs(old(entries)@),
            uri@,
            value_content(value),
        ),
{
    let ghost specs = entry_specs(entries@);
    let mut at: usize = entries.len();
    assert(specs.take(specs.len() as int) =~= specs);
    while at > 0 && text_less(uri.as_str(), entries[at - 1].0.as_str())
        invariant
            at <= entries@.len(),
            entries@ == old(entries)@,
            specs == entry_specs(entries@),
            place_for(specs, uri@) == place_for(specs.take(at as int), uri@),
        decreases at,
    {
        proof {
            assert(specs.take(at as int).drop_last() =~= specs.take(at - 1));
        }
        at -= 1;
    }
    proof {
        if at > 0 {
            assert(specs.take(at as int).last() == specs[at - 1]);
        }
    }
    entries.insert(at, (uri, value));
    assert(entry_specs(entries@) =~= specs.insert(at as int, (uri@, value_content(value))));
}

spec fn documents_spec(documents: Documents) -> Reading {
    Reading {
        errors: external_error_specs(documents.errors@),
        parsed: entry_specs(documents.entries@),
        references: documents.references as nat,
        stopped: documents.stopped,
    }
}

/// That two readings agree, up to how far the count of references went once
/// the budget was spent.
spec fn agrees(one: Reading, two: Reading) -> bool {
    &&& one.errors == two.errors
    &&& one.parsed == two.parsed
    &&& one.stopped == two.stopped
    &&& !one.stopped ==> one.references == two.references
}

fn refuse(errors: &mut Vec<PreparedExternalError>, source: SourceId, message: String)
    ensures
        external_error_specs(final(errors)@) == external_error_specs(old(errors)@).push(
            (source, message@),
        ),
{
    let ghost before = external_error_specs(errors@);
    errors.push(PreparedExternalError { source, message });
    assert(external_error_specs(errors@) =~= before.push((source, message@)));
}

/// Reads one more resource.
fn read_resource(
    resource: &JsonSchemaResourceInput,
    source: SourceId,
    repeated: bool,
    documents: &mut Documents,
)
    requires
        !old(documents).stopped,
        old(documents).references <= MAX_JSON_SCHEMA_REFERENCES,
    ensures
        agrees(
            documents_spec(*final(documents)),
            reading_step(documents_spec(*old(documents)), resource@, source, repeated),
        ),
        !final(documents).stopped ==> final(documents).references <= MAX_JSON_SCHEMA_REFERENCES,
{
    if repeated {
        refuse(
            &mut documents.errors,
            source,
            join3("duplicate JSON Schema resource URI `", resource.uri.as_str(), "`"),
        );
        return;
    }
    let text = match &resource.contents {
        JsonSchemaResourceContents::Loaded(text) => text,
        JsonSchemaResourceContents::ReadFailure(message) => {
            refuse(&mut documents.errors, source, message.clone());
            return;
        },
    };
    let value = match read_value(text.as_str()) {
        Ok(value) => value,
        Err(fault) => {
            refuse(
                &mut documents.errors,
                source,
                join2("invalid linked JSON Schema document: ", fault.as_str()),
            );
            return;
        },
    };
    let document = to_json(&value);
    if let Some(message) = validate_json_schema_document(&value, &document) {
        refuse(&mut documents.errors, source, message);
        return;
    }
    let count = json_schema_reference_count(&document);
    if count > MAX_JSON_SCHEMA_REFERENCES - documents.references {
        refuse(&mut documents.errors, source, json_schema_reference_budget_message());
        documents.stopped = true;
        return;
    }
    documents.references = documents.references + count;
    insert_document(&mut documents.entries, resource.uri.clone(), value);
}

/// Reads the resources of a linked graph.
fn read_resources(resources: &Vec<JsonSchemaResourceInput>) -> (documents: Documents)
    ensures
        agrees(
            documents_spec(documents),
            reading(resource_specs(resources@), resources@.len() as int),
        ),
{
    let ghost specs = resource_specs(resources@);
    let mut documents = Documents {
        entries: Vec::new(),
        errors: Vec::new(),
        references: 0,
        stopped: false,
    };
    let mut at: usize = 0;
    assert(external_error_specs(documents.errors@) =~= Seq::empty());
    assert(entry_specs(documents.entries@) =~= Seq::empty());
    while at < resources.len()
        invariant
            at <= resources@.len(),
            specs == resource_specs(resources@),
            agrees(documents_spec(documents), reading(specs, at as int)),
            !documents.stopped ==> documents.references <= MAX_JSON_SCHEMA_REFERENCES,
        decreases resources.len() - at,
    {
        if !documents.stopped {
            let source = match external_source_id(at) {
                Some(id) => id,
                None => SourceId(0),
            };
            let first = find_resource(resources, resources[at].uri.as_str());
            let repeated = match first {
                Some(first) => first != at,
                None => true,
            };
            assert(documents_spec(documents) =~= reading(specs, at as int));
            read_resource(&resources[at], source, repeated, &mut documents);
        }
        at += 1;
    }
    documents
}

/// The resources of a registry that is being built, by the URIs under which
/// they are filed.
pub uninterp spec fn builder_resources(builder: RegistryBuilder<'_>) -> Map<Seq<char>, JsonSpec>;

/// The resources that a registry was prepared from, by the URIs under which
/// they are filed.
pub uninterp spec fn registry_resources(registry: Registry<'_>) -> Map<Seq<char>, JsonSpec>;

/// No resources.
pub open spec fn no_resources() -> Map<Seq<char>, JsonSpec> {
    Map::empty()
}

/// `jsonschema::Registry::new` starts a registry without resources, whose
/// retriever refuses to fetch any.
#[verifier::external_body]
fn new_registry<'a>() -> (builder: RegistryBuilder<'a>)
    ensures
        builder_resources(builder) == no_resources(),
{
    Registry::new()
}

/// `jsonschema::RegistryBuilder::add` files a resource under its URI, in place
/// of one that is filed there already: under what `jsonschema::uri::from_str`
/// makes of the URI without the `#`s at its end. It fails if and only if that
/// does, with its fault.
#[verifier::external_body]
fn add_resource<'b>(builder: RegistryBuilder<'b>, uri: &str, value: &'b Value) -> (added: Result<
    RegistryBuilder<'b>,
    String,
>)
    ensures
        added is Ok <==> registry_uri(uri@) is Ok,
        added matches Ok(added) ==> builder_resources(added) == builder_resources(builder).insert(
            registry_uri(uri@)->Ok_0,
            value_content(*value),
        ),
        added matches Err(fault) ==> registry_uri(uri@)->Err_0 == fault@,
{
    builder.add(uri, value).map_err(|error| error.to_string())
}

/// Why a registry of resources cannot be prepared.
#[derive(Debug, PartialEq, Eq)]
pub enum RegistryFault {
    /// A resource that is referred to is not there, and cannot be fetched.
    Unretrievable {
        /// The URI of the resource.
        uri: String,
        /// Why it cannot be fetched.
        reason: String,
    },
    /// Another fault, in its wording.
    Other(String),
}

/// What a fault of a registry is: the URI that cannot be fetched with the
/// reason, or another fault in its wording.
pub open spec fn registry_fault_spec(fault: RegistryFault) -> (Option<Seq<char>>, Seq<char>) {
    match fault {
        RegistryFault::Unretrievable { uri, reason } => (Some(uri@), reason@),
        RegistryFault::Other(message) => (None, message@),
    }
}

/// Whether preparing a registry of these resources can come to this fault, or
/// to none.
pub uninterp spec fn preparing_can_give(
    resources: Map<Seq<char>, JsonSpec>,
    fault: Option<(Option<Seq<char>>, Seq<char>)>,
) -> bool;

/// Where these resources are apart, preparing a registry of them cannot both
/// fail and succeed: it always comes to a fault, or always to none.
pub open spec fn preparing_is_settled(
    resources: Map<Seq<char>, JsonSpec>,
    fault: Option<(Option<Seq<char>>, Seq<char>)>,
) -> bool {
    documents_are_apart(resources) ==> forall|other: Option<(Option<Seq<char>>, Seq<char>)>|
        #[trigger] preparing_can_give(resources, other) ==> (other is None <==> fault is None)
}

/// Preparing a registry of these resources comes to this fault, or to none.
pub open spec fn prepares_to(
    resources: Map<Seq<char>, JsonSpec>,
    fault: Option<(Option<Seq<char>>, Seq<char>)>,
) -> bool {
    preparing_can_give(resources, fault) && preparing_is_settled(resources, fault)
}

/// `jsonschema::RegistryBuilder::prepare` follows the references between the
/// resources. The outcome is one that these resources can have; it is not
/// determined by them: where several references lead nowhere, the walk over a
/// hash set decides which of them is reported. Whether one is reported is
/// determined where the resources are apart: then nothing that is found in one
/// hides what is found in another, and the order of the walk does not matter.
/// Not stated: which outcomes resources can have.
#[verifier::external_body]
fn prepare_registry<'a>(builder: RegistryBuilder<'a>) -> (registry: Result<
    Registry<'a>,
    RegistryFault,
>)
    ensures
        match registry {
            Ok(registry) => preparing_can_give(builder_resources(builder), None)
                && preparing_is_settled(builder_resources(builder), None)
                && registry_resources(registry) == builder_resources(builder),
            Err(fault) => preparing_can_give(
                builder_resources(builder),
                Some(registry_fault_spec(fault)),
            ) && preparing_is_settled(
                builder_resources(builder),
                Some(registry_fault_spec(fault)),
            ),
        },
{
    match builder.prepare() {
        Ok(registry) => Ok(registry),
        Err(jsonschema::ReferencingError::Unretrievable { uri, source }) => Err(
            RegistryFault::Unretrievable { uri, reason: source.to_string() },
        ),
        Err(error) => Err(RegistryFault::Other(error.to_string())),
    }
}

/// Whether compiling a schema against a registry of these resources can come
/// to this fault, or to none.
pub uninterp spec fn compiling_can_give(
    resources: Map<Seq<char>, JsonSpec>,
    root_uri: Seq<char>,
    root: JsonSpec,
    fault: Option<Seq<char>>,
) -> bool;

/// Where these resources are apart, compiling a schema against a registry of
/// them cannot both fail and succeed.
pub open spec fn compiling_is_settled(
    resources: Map<Seq<char>, JsonSpec>,
    root_uri: Seq<char>,
    root: JsonSpec,
    fault: Option<Seq<char>>,
) -> bool {
    documents_are_apart(resources) ==> forall|other: Option<Seq<char>>| #[trigger]
        compiling_can_give(resources, root_uri, root, other) ==> (other is None <==> fault is None)
}

/// Compiling a schema against a registry of these resources comes to this
/// fault, or to none.
pub open spec fn compiles_to(
    resources: Map<Seq<char>, JsonSpec>,
    root_uri: Seq<char>,
    root: JsonSpec,
    fault: Option<Seq<char>>,
) -> bool {
    compiling_can_give(resources, root_uri, root, fault) && compiling_is_settled(
        resources,
        root_uri,
        root,
        fault,
    )
}

/// `jsonschema::ValidationOptions::build` compiles a schema against a prepared
/// registry. The outcome is one that the schema can have there; it is not
/// determined: the registry walks hash sets to resolve references, and they
/// decide which fault is reported. Whether one is reported is determined where
/// the resources are apart: then each URI leads to one schema, in whatever
/// order the registry took them up. The compiler panics where a reference names
/// a target that is not inside the schema filed under the target's URI, which
/// cannot be where the schemas that are sought by name have distinct URIs. Of a
/// chain of references it compiles a few targets on the stack, and queues the
/// rest. Not stated: which outcomes a schema can have.
#[verifier::external_body]
fn compile_schema<'a>(registry: &'a Registry<'a>, root_uri: &str, root: &'a Value) -> (fault: Option<
    String,
>)
    requires
        registry_uri(root_uri@) is Ok,
        names_are_clear(
            registry_resources(*registry),
            registry_uri(root_uri@)->Ok_0,
            value_content(*root),
        ),
    ensures
        compiling_can_give(
            registry_resources(*registry),
            root_uri@,
            value_content(*root),
            message_spec(fault),
        ),
        compiling_is_settled(
            registry_resources(*registry),
            root_uri@,
            value_content(*root),
            message_spec(fault),
        ),
{
    jsonschema::draft202012::options()
        .with_registry(registry)
        .with_base_uri(root_uri)
        .build(root)
        .err()
        .map(|error| error.to_string())
}

/// Why a linked graph cannot be used, although its documents can be read.
#[derive(Debug, PartialEq, Eq)]
pub enum GraphFault {
    /// A resource's URI is not valid.
    Uri {
        /// The URI.
        uri: String,
        /// Why it is not valid.
        message: String,
    },
    /// The references between the resources cannot be followed.
    Registry(RegistryFault),
    /// The root schema does not compile.
    Compile(String),
}

/// What a fault of a graph is.
pub enum GraphFaultSpec {
    /// See [`GraphFault::Uri`].
    Uri(Seq<char>, Seq<char>),
    /// See [`RegistryFault::Unretrievable`].
    Unretrievable(Seq<char>, Seq<char>),
    /// See [`RegistryFault::Other`].
    Registry(Seq<char>),
    /// See [`GraphFault::Compile`].
    Compile(Seq<char>),
}

impl View for GraphFault {
    type V = GraphFaultSpec;

    open spec fn view(&self) -> GraphFaultSpec {
        match *self {
            GraphFault::Uri { uri, message } => GraphFaultSpec::Uri(uri@, message@),
            GraphFault::Registry(RegistryFault::Unretrievable { uri, reason }) => {
                GraphFaultSpec::Unretrievable(uri@, reason@)
            },
            GraphFault::Registry(RegistryFault::Other(message)) => GraphFaultSpec::Registry(
                message@,
            ),
            GraphFault::Compile(message) => GraphFaultSpec::Compile(message@),
        }
    }
}

/// Whether `part` occurs in `text`.
pub open spec fn occurs(text: Seq<char>, part: Seq<char>) -> bool {
    exists|at: int|
        0 <= at <= text.len() - part.len() && #[trigger] text.subrange(at, at + part.len()) == part
}

pub(crate) fn contains(text: &str, part: &str) -> (found: bool)
    ensures
        found == occurs(text@, part@),
{
    let whole = chars_of(text);
    let sought = chars_of(part);
    if sought.len() > whole.len() {
        return false;
    }
    let mut at: usize = 0;
    while at <= whole.len() - sought.len()
        invariant
            whole@ == text@,
            sought@ == part@,
            sought@.len() <= whole@.len(),
            at <= whole@.len() - sought@.len() + 1,
            forall|k: int|
                0 <= k < at ==> #[trigger] text@.subrange(k, k + part@.len()) != part@,
        decreases whole.len() - at,
    {
        if text_at(&whole, &sought, at) {
            assert(text@.subrange(at as int, at + part@.len()) == part@);
            return true;
        }
        if at == whole.len() {
            return false;
        }
        at += 1;
    }
    false
}

fn text_at(whole: &Vec<char>, sought: &Vec<char>, from: usize) -> (there: bool)
    requires
        from + sought@.len() <= whole@.len(),
    ensures
        there == (whole@.subrange(from as int, from + sought@.len()) == sought@),
{
    let count = whole.len();
    let mut at: usize = 0;
    while at < sought.len()
        invariant
            at <= sought@.len(),
            from + sought@.len() <= count == whole@.len(),
            forall|k: int| 0 <= k < at ==> whole@[from + k] == #[trigger] sought@[k],
        decreases sought.len() - at,
    {
        if whole[from + at] != sought[at] {
            assert(whole@.subrange(from as int, from + sought@.len())[at as int]
                != sought@[at as int]);
            return false;
        }
        at += 1;
    }
    assert(whole@.subrange(from as int, from + sought@.len()) =~= sought@);
    true
}

/// The least URI among those of the first `count` resources that occur in
/// `message`.
pub open spec fn named_resource(
    resources: Seq<ResourceSpec>,
    message: Seq<char>,
    count: int,
) -> Option<Seq<char>>
    decreases count,
{
    if count <= 0 || count > resources.len() {
        None
    } else {
        let before = named_resource(resources, message, count - 1);
        let uri = resources[count - 1].uri;
        if occurs(message, uri) && (before is None || text_order(uri, before->0)) {
            Some(uri)
        } else {
            before
        }
    }
}

/// The source that a message is attributed to: that of the least URI that the
/// message names, or that of `fallback`.
pub open spec fn attributed(
    resources: Seq<ResourceSpec>,
    message: Seq<char>,
    fallback: Seq<char>,
) -> SourceId {
    source_of(
        resources,
        match named_resource(resources, message, resources.len() as int) {
            Some(uri) => uri,
            None => fallback,
        },
    )
}

fn attribute(resources: &Vec<JsonSchemaResourceInput>, message: &str, fallback: &str) -> (source:
    SourceId)
    ensures
        source == attributed(resource_specs(resources@), message@, fallback@),
{
    let ghost specs = resource_specs(resources@);
    let mut named: Option<usize> = None;
    let mut at: usize = 0;
    while at < resources.len()
        invariant
            at <= resources@.len(),
            specs == resource_specs(resources@),
            named matches Some(k) ==> k < resources@.len(),
            named_resource(specs, message@, at as int) == match named {
                None => None,
                Some(k) => Some(specs[k as int].uri),
            },
        decreases resources.len() - at,
    {
        let uri = resources[at].uri.as_str();
        if contains(message, uri) {
            let lesser = match named {
                None => true,
                Some(k) => text_less(uri, resources[k].uri.as_str()),
            };
            if lesser {
                named = Some(at);
            }
        }
        at += 1;
    }
    match named {
        Some(k) => root_source_id(resources, resources[k].uri.as_str()),
        None => root_source_id(resources, fallback),
    }
}

/// Why a registry without a retriever fetches nothing.
pub open spec fn no_retrieval() -> Seq<char> {
    "Default retriever does not fetch resources"@
}

/// The wording of a fault of a graph.
pub open spec fn fault_message(fault: GraphFaultSpec) -> Seq<char> {
    match fault {
        GraphFaultSpec::Uri(_, message) => message,
        GraphFaultSpec::Registry(message) => message,
        GraphFaultSpec::Compile(message) => message,
        GraphFaultSpec::Unretrievable(uri, reason) => "Resource '"@ + uri
            + "' is not present in a registry and retrieving it failed: "@ + if reason
            == no_retrieval() {
            "JSON Schema resource `"@ + uri + "` was not preloaded"@
        } else {
            reason
        },
    }
}

/// The error that a fault of a graph is reported as.
pub open spec fn graph_error_of(input: LinkedSpec, fault: GraphFaultSpec) -> (
    SourceId,
    Seq<char>,
) {
    let message = fault_message(fault);
    let fallback = match fault {
        GraphFaultSpec::Uri(uri, _) => uri,
        _ => input.root_uri,
    };
    (
        attributed(input.resources, message, fallback),
        if fault is Compile {
            "cannot compile linked JSON Schema: "@ + message
        } else {
            message
        },
    )
}

/// The error that a fault of a graph is reported as.
///
/// The compiler does not expose a structured resource origin, so the source
/// that the error is attributed to depends on the wording naming a URI.
pub fn graph_error(input: &LinkedJsonSchemaInput, fault: GraphFault) -> (error:
    PreparedExternalError)
    ensures
        error@ == graph_error_of(input@, fault@),
{
    assert(input@.resources == resource_specs(input.resources@));
    match fault {
        GraphFault::Uri { uri, message } => {
            let source = attribute(&input.resources, message.as_str(), uri.as_str());
            PreparedExternalError { source, message }
        },
        GraphFault::Registry(RegistryFault::Other(message)) => {
            let source = attribute(&input.resources, message.as_str(), input.root_uri.as_str());
            PreparedExternalError { source, message }
        },
        GraphFault::Registry(RegistryFault::Unretrievable { uri, reason }) => {
            let reason = if same_text(
                reason.as_str(),
                "Default retriever does not fetch resources",
            ) {
                join3("JSON Schema resource `", uri.as_str(), "` was not preloaded")
            } else {
                reason
            };
            let message = join2(
                join3(
                    "Resource '",
                    uri.as_str(),
                    "' is not present in a registry and retrieving it failed: ",
                ).as_str(),
                reason.as_str(),
            );
            let source = attribute(&input.resources, message.as_str(), input.root_uri.as_str());
            PreparedExternalError { source, message }
        },
        GraphFault::Compile(message) => {
            let source = attribute(&input.resources, message.as_str(), input.root_uri.as_str());
            PreparedExternalError {
                source,
                message: join2("cannot compile linked JSON Schema: ", message.as_str()),
            }
        },
    }
}

/// The members without the one at `at`.
pub open spec fn without_member(
    members: Seq<(Seq<char>, JsonSpec)>,
    at: int,
) -> Seq<(Seq<char>, JsonSpec)> {
    members.remove(at)
}

/// What preparing a linked graph yields, given why the graph cannot be used
/// although its documents can be read, if it cannot.
///
/// Faults of single resources are independent and stand in input order. The
/// registry depends on the graph, so an incomplete graph is not compiled.
pub open spec fn prepared_graph(input: LinkedSpec, outcome: Option<GraphFaultSpec>) -> Result<
    FrontmatterSchemaSpec,
    Seq<(SourceId, Seq<char>)>,
> {
    let read = reading(input.resources, input.resources.len() as int);
    if read.errors.len() > 0 {
        Err(read.errors)
    } else {
        match member_index(read.parsed, input.root_uri, 0) {
            None => Err(
                seq![
                    (
                        source_of(input.resources, input.root_uri),
                        "linked JSON Schema root resource `"@ + input.root_uri
                            + "` was not preloaded"@,
                    ),
                ],
            ),
            Some(at) => match outcome {
                Some(fault) => Err(seq![graph_error_of(input, fault)]),
                None => Ok(
                    FrontmatterSchemaSpec {
                        root_uri: input.root_uri,
                        root: read.parsed[at].1,
                        resources: without_member(read.parsed, at),
                    },
                ),
            },
        }
    }
}

/// The first URI that is not valid among those of the first `count`
/// documents.
pub open spec fn first_uri_fault(documents: Seq<(Seq<char>, JsonSpec)>, count: int) -> Option<
    (Seq<char>, Seq<char>),
>
    decreases count,
{
    if count <= 0 || count > documents.len() {
        None
    } else {
        match first_uri_fault(documents, count - 1) {
            Some(fault) => Some(fault),
            None => match registry_uri(documents[count - 1].0) {
                Err(message) => Some((documents[count - 1].0, message)),
                Ok(_) => None,
            },
        }
    }
}

/// The resources of a graph by the URIs under which they are filed, with the
/// first `count` documents beside the root.
pub open spec fn filed(
    root_uri: Seq<char>,
    root: JsonSpec,
    others: Seq<(Seq<char>, JsonSpec)>,
    count: int,
) -> Map<Seq<char>, JsonSpec>
    decreases count,
{
    if count <= 0 || count > others.len() {
        no_resources().insert(registry_uri(root_uri)->Ok_0, root)
    } else {
        filed(root_uri, root, others, count - 1).insert(
            registry_uri(others[count - 1].0)->Ok_0,
            others[count - 1].1,
        )
    }
}

/// The wording for a graph in which targets are sought by name and cannot be
/// told apart.
pub open spec fn unclear_message() -> Seq<char> {
    "a reference names its target, but the schemas do not have distinct URIs"@
}

/// What compiling the root of a graph can come to, once the documents have
/// been prepared.
pub open spec fn compiled_can_give(
    root_uri: Seq<char>,
    root: JsonSpec,
    others: Seq<(Seq<char>, JsonSpec)>,
    fault: Option<Seq<char>>,
) -> bool {
    if graph_is_clear(graph_documents(root_uri, root, others)) {
        compiles_to(
            filed(root_uri, root, others, others.len() as int),
            root_uri,
            root,
            fault,
        )
    } else {
        fault == Some(unclear_message())
    }
}

/// The outcomes that a graph can have: a URI that is not valid is its fault,
/// that of the root before those of the other documents. Otherwise all
/// documents are prepared together, and then the root is compiled against
/// them.
#[verifier::opaque]
pub open spec fn is_outcome(
    root_uri: Seq<char>,
    root: JsonSpec,
    others: Seq<(Seq<char>, JsonSpec)>,
    outcome: Option<GraphFaultSpec>,
) -> bool {
    match registry_uri(root_uri) {
        Err(message) => outcome == Some(GraphFaultSpec::Uri(root_uri, message)),
        Ok(_) => match first_uri_fault(others, others.len() as int) {
            Some((uri, message)) => outcome == Some(GraphFaultSpec::Uri(uri, message)),
            None => {
                let resources = filed(root_uri, root, others, others.len() as int);
                match outcome {
                    None => prepares_to(resources, None) && compiled_can_give(
                        root_uri,
                        root,
                        others,
                        None,
                    ),
                    Some(GraphFaultSpec::Compile(message)) => prepares_to(resources, None)
                        && compiled_can_give(root_uri, root, others, Some(message)),
                    Some(GraphFaultSpec::Registry(message)) => prepares_to(
                        resources,
                        Some((None, message)),
                    ),
                    Some(GraphFaultSpec::Unretrievable(uri, reason)) => prepares_to(
                        resources,
                        Some((Some(uri), reason)),
                    ),
                    Some(GraphFaultSpec::Uri(_, _)) => false,
                }
            },
        },
    }
}

/// What an outcome is.
pub open spec fn outcome_spec(outcome: Option<GraphFault>) -> Option<GraphFaultSpec> {
    match outcome {
        None => None,
        Some(fault) => Some(fault@),
    }
}

/// Compiles a graph of documents; why it cannot be used, if it cannot.
pub(crate) fn try_graph(root_uri: &str, root: &Value, others: &Vec<(String, Value)>) -> (outcome: Option<
    GraphFault,
>)
    ensures
        is_outcome(
            root_uri@,
            value_content(*root),
            entry_specs(others@),
            outcome_spec(outcome),
        ),
{
    let ghost specs = entry_specs(others@);
    reveal(is_outcome);
    let mut builder = match add_resource(new_registry(), root_uri, root) {
        Ok(builder) => builder,
        Err(message) => {
            return Some(GraphFault::Uri { uri: root_uri.to_owned(), message });
        },
    };
    let mut at: usize = 0;
    while at < others.len()
        invariant
            at <= others@.len(),
            specs == entry_specs(others@),
            registry_uri(root_uri@) is Ok,
            first_uri_fault(specs, at as int) is None,
            builder_resources(builder) == filed(
                root_uri@,
                value_content(*root),
                specs,
                at as int,
            ),
        decreases others.len() - at,
    {
        let uri = &others[at].0;
        builder =
        match add_resource(builder, uri.as_str(), &others[at].1) {
            Ok(builder) => builder,
            Err(message) => {
                proof {
                    reveal(is_outcome);
                    uri_faults_stay(specs, at + 1, specs.len() as int);
                }
                return Some(GraphFault::Uri { uri: uri.clone(), message });
            },
        };
        at += 1;
    }
    match prepare_registry(builder) {
        Ok(registry) => {
            proof {
                uris_are_filed(specs, specs.len() as int);
            }
            assert forall|k: int| 0 <= k < others@.len() implies registry_uri(
                (#[trigger] others@[k]).0@,
            ) is Ok by {
                assert(specs[k].0 == others@[k].0@);
            }
            if !check_graph(root_uri, root, others) {
                return Some(
                    GraphFault::Compile(
                        "a reference names its target, but the schemas do not have distinct URIs".to_owned(),
                    ),
                );
            }
            proof {
                clear_graphs_are_filed_clearly(root_uri@, value_content(*root), specs);
            }
            match compile_schema(&registry, root_uri, root) {
                Some(message) => Some(GraphFault::Compile(message)),
                None => None,
            }
        },
        Err(fault) => Some(GraphFault::Registry(fault)),
    }
}

proof fn uri_faults_stay(documents: Seq<(Seq<char>, JsonSpec)>, count: int, all: int)
    requires
        0 < count <= all <= documents.len(),
        first_uri_fault(documents, count) is Some,
    ensures
        first_uri_fault(documents, all) == first_uri_fault(documents, count),
    decreases all - count,
{
    if count < all {
        uri_faults_stay(documents, count, all - 1);
    }
}

proof fn uris_are_filed(documents: Seq<(Seq<char>, JsonSpec)>, count: int)
    requires
        0 <= count <= documents.len(),
        first_uri_fault(documents, count) is None,
    ensures
        forall|at: int| 0 <= at < count ==> registry_uri((#[trigger] documents[at]).0) is Ok,
    decreases count,
{
    if count > 0 {
        uris_are_filed(documents, count - 1);
    }
}

/// Takes the document with the given URI out of the others.
fn take_root(entries: &mut Vec<(String, Value)>, root_uri: &str) -> (root: Option<Value>)
    ensures
        match member_index(entry_specs(old(entries)@), root_uri@, 0) {
            None => root is None && final(entries)@ == old(entries)@,
            Some(at) => {
                &&& root is Some
                &&& value_content(root->0) == entry_specs(old(entries)@)[at].1
                &&& entry_specs(final(entries)@) == without_member(
                    entry_specs(old(entries)@),
                    at,
                )
            },
        },
{
    let ghost specs = entry_specs(entries@);
    let mut at: usize = 0;
    while at < entries.len()
        invariant
            at <= entries@.len(),
            entries@ == old(entries)@,
            specs == entry_specs(entries@),
            member_index(specs, root_uri@, 0) == member_index(specs, root_uri@, at as int),
        decreases entries.len() - at,
    {
        if same_text(entries[at].0.as_str(), root_uri) {
            let (_, root) = entries.remove(at);
            assert(entry_specs(entries@) =~= without_member(specs, at as int));
            return Some(root);
        }
        at += 1;
    }
    None
}

/// The documents as JSON values.
fn documents_to_json(entries: &Vec<(String, Value)>) -> (resources: Vec<(String, Json)>)
    ensures
        member_specs(resources@) == entry_specs(entries@),
{
    let ghost specs = entry_specs(entries@);
    let mut resources: Vec<(String, Json)> = Vec::new();
    let mut at: usize = 0;
    while at < entries.len()
        invariant
            at <= entries@.len(),
            specs == entry_specs(entries@),
            member_specs(resources@) =~= specs.take(at as int),
        decreases entries.len() - at,
    {
        let ghost before = resources@;
        resources.push((entries[at].0.clone(), to_json(&entries[at].1)));
        assert(member_specs(resources@) =~= member_specs(before).push(specs[at as int]));
        at += 1;
    }
    assert(specs.take(at as int) =~= specs);
    resources
}

/// What preparing a linked graph yielded.
pub open spec fn result_spec(
    result: Result<FrontmatterSchema, NonEmpty<PreparedExternalError>>,
) -> Result<FrontmatterSchemaSpec, Seq<(SourceId, Seq<char>)>> {
    match result {
        Ok(schema) => Ok(schema@),
        Err(errors) => Err(external_error_specs(errors.all())),
    }
}

/// Whether a graph can have an outcome: its documents can be read, or the
/// outcome does not matter.
pub open spec fn can_have(input: LinkedSpec, outcome: Option<GraphFaultSpec>) -> bool {
    let read = reading(input.resources, input.resources.len() as int);
    match member_index(read.parsed, input.root_uri, 0) {
        Some(at) => input.resources.len() > u32::MAX || read.errors.len() > 0 || is_outcome(
            input.root_uri,
            read.parsed[at].1,
            without_member(read.parsed, at),
            outcome,
        ),
        None => true,
    }
}

fn single_external_error(error: PreparedExternalError) -> (errors: NonEmpty<PreparedExternalError>)
    ensures
        external_error_specs(errors.all()) == seq![error@],
{
    let errors = NonEmpty { first: error, rest: Vec::new() };
    assert(external_error_specs(errors.all()) =~= seq![error@]);
    errors
}

/// Prepares a linked graph: reads its documents, and compiles them together.
fn prepare_external_schema_result(input: &LinkedJsonSchemaInput) -> (result: Result<
    FrontmatterSchema,
    NonEmpty<PreparedExternalError>,
>)
    ensures
        exists|outcome: Option<GraphFaultSpec>| #[trigger]
            can_have(input@, outcome) && result_spec(result) == prepared_graph(input@, outcome),
{
    assert(input@.resources == resource_specs(input.resources@));
    let ghost read = reading(input@.resources, input@.resources.len() as int);
    let documents = read_resources(&input.resources);
    let mut entries = documents.entries;
    if let Some(errors) = NonEmpty::from_vec(documents.errors) {
        proof {
            let outcome: Option<GraphFaultSpec> = None;
            assert(can_have(input@, outcome));
        }
        return Err(errors);
    }
    assert(read.errors.len() == 0);
    let root_uri = input.root_uri.as_str();
    let root = match take_root(&mut entries, root_uri) {
        Some(root) => root,
        None => {
            proof {
                let outcome: Option<GraphFaultSpec> = None;
                assert(can_have(input@, outcome));
            }
            return Err(
                single_external_error(
                    PreparedExternalError {
                        source: root_source_id(&input.resources, root_uri),
                        message: join3(
                            "linked JSON Schema root resource `",
                            root_uri,
                            "` was not preloaded",
                        ),
                    },
                ),
            );
        },
    };
    let outcome = try_graph(root_uri, &root, &entries);
    assert(can_have(input@, outcome_spec(outcome)));
    match outcome {
        Some(fault) => Err(single_external_error(graph_error(input, fault))),
        None => {
            let schema = FrontmatterSchema {
                root_uri: root_uri.to_owned(),
                root: to_json(&root),
                resources: documents_to_json(&entries),
            };
            assert(schema@ =~= prepared_graph(input@, None)->Ok_0);
            Ok(schema)
        },
    }
}

/// A linked graph that has been prepared.
pub struct PreparedExternalSchema {
    /// The source of the root document.
    pub root_source: SourceId,
    /// The schema, or why there is none.
    pub result: Result<FrontmatterSchema, NonEmpty<PreparedExternalError>>,
}

/// What a prepared graph is.
pub struct PreparedSpec {
    /// See [`PreparedExternalSchema::root_source`].
    pub root_source: SourceId,
    /// See [`PreparedExternalSchema::result`].
    pub result: Result<FrontmatterSchemaSpec, Seq<(SourceId, Seq<char>)>>,
}

impl View for PreparedExternalSchema {
    type V = PreparedSpec;

    open spec fn view(&self) -> PreparedSpec {
        PreparedSpec { root_source: self.root_source, result: result_spec(self.result) }
    }
}

/// What preparing a linked graph yields for an outcome.
pub open spec fn prepared_external(
    input: LinkedSpec,
    outcome: Option<GraphFaultSpec>,
) -> PreparedSpec {
    if input.resources.len() > u32::MAX {
        PreparedSpec {
            root_source: SourceId(0),
            result: Err(
                seq![
                    (
                        SourceId(0),
                        "too many linked JSON Schema resources to assign source ids"@,
                    ),
                ],
            ),
        }
    } else {
        PreparedSpec {
            root_source: source_of(input.resources, input.root_uri),
            result: prepared_graph(input, outcome),
        }
    }
}

/// Prepares a linked graph. What the compiler reports of a graph whose
/// documents can be read is one of the outcomes that the graph can have.
pub fn prepare_external_schema(input: &LinkedJsonSchemaInput) -> (prepared: PreparedExternalSchema)
    ensures
        exists|outcome: Option<GraphFaultSpec>| #[trigger]
            can_have(input@, outcome) && prepared@ == prepared_external(input@, outcome),
{
    if input.resources.len() > 4294967295 {
        let errors = single_external_error(
            PreparedExternalError {
                source: SourceId(0),
                message: "too many linked JSON Schema resources to assign source ids".to_owned(),
            },
        );
        proof {
            let outcome: Option<GraphFaultSpec> = None;
            assert(can_have(input@, outcome));
        }
        return PreparedExternalSchema { root_source: SourceId(0), result: Err(errors) };
    }
    assert(input@.resources == resource_specs(input.resources@));
    PreparedExternalSchema {
        root_source: root_source_id(&input.resources, input.root_uri.as_str()),
        result: prepare_external_schema_result(input),
    }
}

/// How many reference keywords documents hold together.
pub open spec fn total_references(documents: Seq<(Seq<char>, JsonSpec)>) -> nat
    decreases documents.len(),
{
    if documents.len() == 0 {
        0
    } else {
        total_references(documents.drop_last()) + reference_count(documents.last().1)
    }
}

proof fn inserted_references(
    documents: Seq<(Seq<char>, JsonSpec)>,
    at: int,
    document: (Seq<char>, JsonSpec),
)
    requires
        0 <= at <= documents.len(),
    ensures
        total_references(documents.insert(at, document)) == total_references(documents)
            + reference_count(document.1),
    decreases documents.len(),
{
    let after = documents.insert(at, document);
    if at == documents.len() {
        assert(after.drop_last() =~= documents);
    } else {
        assert(after.drop_last() =~= documents.drop_last().insert(at, document));
        assert(after.last() == documents.last());
        inserted_references(documents.drop_last(), at, document);
    }
}

proof fn place_is_inside(documents: Seq<(Seq<char>, JsonSpec)>, uri: Seq<char>)
    ensures
        0 <= place_for(documents, uri) <= documents.len(),
    decreases documents.len(),
{
    if documents.len() > 0 {
        place_is_inside(documents.drop_last(), uri);
    }
}

/// The documents of a graph that is read without errors hold, together, no
/// more reference keywords than the budget allows.
pub proof fn accepted_graphs_keep_the_budget(resources: Seq<ResourceSpec>, count: int)
    requires
        0 <= count <= resources.len(),
    ensures
        ({
            let read = reading(resources, count);
            &&& !read.stopped ==> read.references == total_references(read.parsed)
            &&& !read.stopped ==> read.references <= MAX_JSON_SCHEMA_REFERENCES
            &&& read.stopped ==> read.errors.len() > 0
        }),
    decreases count,
{
    if count > 0 {
        accepted_graphs_keep_the_budget(resources, count - 1);
        let before = reading(resources, count - 1);
        let resource = resources[count - 1];
        if let Ok(text) = resource.contents {
            if let Ok(content) = json_read(text) {
                place_is_inside(before.parsed, resource.uri);
                inserted_references(
                    before.parsed,
                    place_for(before.parsed, resource.uri),
                    (resource.uri, content),
                );
            }
        }
    }
}

} // verus!
