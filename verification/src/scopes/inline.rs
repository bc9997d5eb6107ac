//! Inline JSON Schemas for the frontmatter.

use serde_json::Value;
use vstd::prelude::*;

use crate::json::{
    get_member, item_specs, items_weight, json_spec, json_weight, member, member_specs,
    members_weight, Json, JsonSpec,
};
use crate::json_value::{to_json, value_content};
use crate::loader::apart::documents_are_apart;
use crate::loader::external::{
    content_fault, entry_specs, fault_message, filed, is_outcome, json_schema_reference_count,
    message_spec, outcome_spec, reference_count, try_graph, validate_json_schema_document,
    GraphFault, GraphFaultSpec, RegistryFault, MAX_JSON_SCHEMA_REFERENCES,
};
use crate::loader::shape::Members;
use crate::schema::{FrontmatterSchema, FrontmatterSchemaSpec, NonEmpty};
use crate::scopes::order::text_specs;
use crate::text::{has_prefix, join2, join3, join5, same_text, starts_with};

verus! {

/// The URI of inline schemas, against which their relative `$id`s resolve.
///
/// The reserved `.invalid` domain cannot identify a resource that could be
/// fetched, so this gives a hierarchy without a way to load anything.
pub open spec fn inline_uri() -> Seq<char> {
    "https://outlint.invalid/inline/frontmatter.schema.json"@
}

/// What is wrong with a reference keyword of an inline schema: it must be a
/// string that stays within the schema.
pub open spec fn keyword_faults(members: Members, keyword: Seq<char>) -> Seq<Seq<char>> {
    match member(members, keyword) {
        None => Seq::empty(),
        Some(JsonSpec::Text(reference)) => if starts_with(reference, "#"@) {
            Seq::empty()
        } else {
            seq![
                "inline frontmatter JSON Schema `"@ + keyword
                    + "` must be fragment-only, found `"@ + reference + "`"@,
            ]
        },
        Some(_) => seq![
            "inline frontmatter JSON Schema `"@ + keyword
                + "` must be a string beginning with `#`"@,
        ],
    }
}

/// What is wrong with the reference keywords of one object.
pub open spec fn object_faults(members: Members) -> Seq<Seq<char>> {
    keyword_faults(members, "$ref"@) + keyword_faults(members, "$dynamicRef"@)
}

/// What is wrong with the reference keywords of a value, at any depth: an
/// object before what it holds, and what is held last first.
pub open spec fn reference_faults(value: JsonSpec) -> Seq<Seq<char>>
    decreases value, 0int,
{
    match value {
        JsonSpec::Array(items) => items_faults(items, items.len() as int),
        JsonSpec::Object(members) => object_faults(members) + members_faults(
            members,
            members.len() as int,
        ),
        _ => Seq::empty(),
    }
}

/// What is wrong with the first `count` items, the last first.
pub open spec fn items_faults(items: Seq<JsonSpec>, count: int) -> Seq<Seq<char>>
    decreases items, count,
{
    if count <= 0 || count > items.len() {
        Seq::empty()
    } else {
        reference_faults(items[count - 1]) + items_faults(items, count - 1)
    }
}

/// What is wrong with the values of the first `count` members, the last first.
pub open spec fn members_faults(members: Members, count: int) -> Seq<Seq<char>>
    decreases members, count,
{
    if count <= 0 || count > members.len() {
        Seq::empty()
    } else {
        reference_faults(members[count - 1].1) + members_faults(members, count - 1)
    }
}

spec fn pending_faults(pending: Seq<&Json>) -> Seq<Seq<char>>
    decreases pending.len(),
{
    if pending.len() == 0 {
        Seq::empty()
    } else {
        reference_faults(json_spec(*pending.last())) + pending_faults(pending.drop_last())
    }
}

spec fn pending_size(pending: Seq<&Json>) -> nat
    decreases pending.len(),
{
    if pending.len() == 0 {
        0
    } else {
        pending_size(pending.drop_last()) + json_weight(json_spec(*pending.last()))
    }
}

proof fn pending_grows(pending: Seq<&Json>, value: &Json)
    ensures
        pending_faults(pending.push(value)) == reference_faults(json_spec(*value))
            + pending_faults(pending),
        pending_size(pending.push(value)) == pending_size(pending) + json_weight(
            json_spec(*value),
        ),
{
    assert(pending.push(value).drop_last() =~= pending);
}

fn push_keyword_fault(members: &Vec<(String, Json)>, keyword: &str, faults: &mut Vec<String>)
    ensures
        text_specs(final(faults)@) == text_specs(old(faults)@) + keyword_faults(
            member_specs(members@),
            keyword@,
        ),
{
    let ghost before = text_specs(faults@);
    let ghost expected = keyword_faults(member_specs(members@), keyword@);
    if let Some(value) = get_member(members, keyword) {
        match value.as_str() {
            Some(reference) => {
                if !has_prefix(reference, "#") {
                    let fault = join5(
                        "inline frontmatter JSON Schema `",
                        keyword,
                        "` must be fragment-only, found `",
                        reference,
                        "`",
                    );
                    faults.push(fault);
                    assert(text_specs(faults@) =~= before.push(fault@));
                }
            },
            None => {
                let fault = join3(
                    "inline frontmatter JSON Schema `",
                    keyword,
                    "` must be a string beginning with `#`",
                );
                faults.push(fault);
                assert(text_specs(faults@) =~= before.push(fault@));
            },
        }
    }
    assert(text_specs(faults@) =~= before + expected);
}

/// Tells what is wrong with the reference keywords of a value, at any depth.
///
/// The walk carries an explicit stack rather than recursing, so what it costs
/// the call stack does not depend on how deep the value is.
pub fn invalid_inline_references(value: &Json) -> (faults: Vec<String>)
    ensures
        text_specs(faults@) == reference_faults(value@),
{
    let ghost total = reference_faults(value@);
    let mut faults: Vec<String> = Vec::new();
    let mut pending: Vec<&Json> = Vec::new();
    proof {
        pending_grows(pending@, value);
    }
    pending.push(value);
    assert(text_specs(faults@) + pending_faults(pending@) =~= total);
    while pending.len() > 0
        invariant
            text_specs(faults@) + pending_faults(pending@) == total,
        decreases pending_size(pending@),
    {
        let ghost before = pending@;
        let ghost so_far = text_specs(faults@);
        let current = pending[pending.len() - 1];
        pending.pop();
        assert(pending@ =~= before.drop_last());
        let ghost base = pending@;
        match current {
            Json::Array(items) => {
                let ghost specs = item_specs(items@);
                let mut at: usize = 0;
                assert(items_faults(specs, 0) + pending_faults(base) =~= pending_faults(base));
                while at < items.len()
                    invariant
                        at <= items@.len(),
                        specs == item_specs(items@),
                        pending_faults(pending@) == items_faults(specs, at as int)
                            + pending_faults(base),
                        pending_size(pending@) == pending_size(base) + items_weight(
                            specs,
                            at as int,
                        ),
                    decreases items.len() - at,
                {
                    proof {
                        pending_grows(pending@, &items@[at as int]);
                        assert(items_faults(specs, at + 1) + pending_faults(base)
                            =~= reference_faults(specs[at as int]) + (items_faults(
                            specs,
                            at as int,
                        ) + pending_faults(base)));
                    }
                    pending.push(&items[at]);
                    at += 1;
                }
            },
            Json::Object(members) => {
                let ghost specs = member_specs(members@);
                push_keyword_fault(members, "$ref", &mut faults);
                push_keyword_fault(members, "$dynamicRef", &mut faults);
                assert(text_specs(faults@) =~= so_far + object_faults(specs));
                let mut at: usize = 0;
                assert(members_faults(specs, 0) + pending_faults(base) =~= pending_faults(base));
                while at < members.len()
                    invariant
                        at <= members@.len(),
                        specs == member_specs(members@),
                        pending_faults(pending@) == members_faults(specs, at as int)
                            + pending_faults(base),
                        pending_size(pending@) == pending_size(base) + members_weight(
                            specs,
                            at as int,
                        ),
                    decreases members.len() - at,
                {
                    proof {
                        pending_grows(pending@, &members@[at as int].1);
                        assert(members_faults(specs, at + 1) + pending_faults(base)
                            =~= reference_faults(specs[at as int].1) + (members_faults(
                            specs,
                            at as int,
                        ) + pending_faults(base)));
                    }
                    pending.push(&members[at].1);
                    at += 1;
                }
            },
            _ => {},
        }
        assert(text_specs(faults@) + pending_faults(pending@) =~= so_far + pending_faults(before));
    }
    assert(text_specs(faults@) + pending_faults(pending@) =~= text_specs(faults@));
    faults
}

/// The wording for an inline schema that declares too many references.
pub open spec fn inline_budget_message() -> Seq<char> {
    "frontmatter JSON Schema declares more than 128 `$ref` or `$dynamicRef` members"@
}

/// What is wrong with an inline schema, given what is wrong with it as a
/// document. A malformed reference is also wrong as a document, but only the
/// more specific fault is told.
pub open spec fn inline_faults(content: JsonSpec, fault: Option<Seq<char>>) -> Seq<Seq<char>> {
    (if reference_faults(content).len() > 0 {
        reference_faults(content)
    } else {
        match fault {
            Some(fault) => seq![fault],
            None => Seq::empty(),
        }
    }) + (if reference_count(content) > MAX_JSON_SCHEMA_REFERENCES {
        seq![inline_budget_message()]
    } else {
        Seq::empty()
    })
}

/// What an inline schema comes to, given what is wrong with it as a document
/// and what compiling it came to.
pub open spec fn inline_settled(
    content: JsonSpec,
    fault: Option<Seq<char>>,
    outcome: Option<GraphFaultSpec>,
) -> Result<FrontmatterSchemaSpec, Seq<Seq<char>>> {
    let faults = inline_faults(content, fault);
    if faults.len() > 0 {
        Err(faults)
    } else {
        match outcome {
            Some(fault) => Err(
                seq![
                    (if fault is Compile {
                        "cannot compile inline frontmatter JSON Schema: "@
                    } else {
                        "cannot prepare inline frontmatter JSON Schema: "@
                    }) + fault_message(fault),
                ],
            ),
            None => Ok(
                FrontmatterSchemaSpec {
                    root_uri: inline_uri(),
                    root: content,
                    resources: Seq::empty(),
                },
            ),
        }
    }
}

/// What preparing an inline schema yielded.
pub open spec fn inline_result(result: Result<FrontmatterSchema, NonEmpty<String>>) -> Result<
    FrontmatterSchemaSpec,
    Seq<Seq<char>>,
> {
    match result {
        Ok(schema) => Ok(schema@),
        Err(faults) => Err(text_specs(faults.all())),
    }
}

/// The wording of a fault of a graph.
fn fault_text(fault: GraphFault) -> (message: String)
    ensures
        message@ == fault_message(fault@),
{
    match fault {
        GraphFault::Uri { message, .. } => message,
        GraphFault::Compile(message) => message,
        GraphFault::Registry(RegistryFault::Other(message)) => message,
        GraphFault::Registry(RegistryFault::Unretrievable { uri, reason }) => {
            let reason = if same_text(
                reason.as_str(),
                "Default retriever does not fetch resources",
            ) {
                join3("JSON Schema resource `", uri.as_str(), "` was not preloaded")
            } else {
                reason
            };
            join2(
                join3(
                    "Resource '",
                    uri.as_str(),
                    "' is not present in a registry and retrieving it failed: ",
                ).as_str(),
                reason.as_str(),
            )
        },
    }
}

/// Tells what is wrong with an inline schema, given what is wrong with it as a
/// document.
fn find_inline_faults(document: &Json, fault: Option<String>) -> (faults: Vec<String>)
    ensures
        text_specs(faults@) == inline_faults(document@, message_spec(fault)),
{
    let mut faults = invalid_inline_references(document);
    assert(text_specs(faults@).len() == faults@.len());
    let ghost start = text_specs(faults@);
    if faults.len() == 0 {
        if let Some(fault) = fault {
            faults.push(fault);
            assert(text_specs(faults@) =~= seq![fault@]);
        }
    }
    let ghost middle = text_specs(faults@);
    if json_schema_reference_count(document) > MAX_JSON_SCHEMA_REFERENCES {
        let message =
            "frontmatter JSON Schema declares more than 128 `$ref` or `$dynamicRef` members".to_owned();
        faults.push(message);
        assert(text_specs(faults@) =~= middle.push(message@));
    }
    assert(text_specs(faults@) =~= inline_faults(document@, message_spec(fault)));
    faults
}

/// Settles an inline schema, given what is wrong with it as a document and what
/// compiling it came to.
pub fn settle_inline(document: &Json, fault: Option<String>, outcome: Option<GraphFault>) -> (result:
    Result<FrontmatterSchema, NonEmpty<String>>)
    ensures
        inline_result(result) == inline_settled(
            document@,
            message_spec(fault),
            outcome_spec(outcome),
        ),
{
    let faults = find_inline_faults(document, fault);
    assert(text_specs(faults@).len() == faults@.len());
    if let Some(faults) = NonEmpty::from_vec(faults) {
        return Err(faults);
    }
    match outcome {
        Some(fault) => {
            let prefix = match &fault {
                GraphFault::Compile(_) => "cannot compile inline frontmatter JSON Schema: ",
                _ => "cannot prepare inline frontmatter JSON Schema: ",
            };
            let message = join2(prefix, fault_text(fault).as_str());
            let faults = NonEmpty { first: message, rest: Vec::new() };
            assert(text_specs(faults.all()) =~= seq![message@]);
            Err(faults)
        },
        None => {
            let schema = FrontmatterSchema {
                root_uri: "https://outlint.invalid/inline/frontmatter.schema.json".to_owned(),
                root: document.copy(),
                resources: Vec::new(),
            };
            assert(schema@.resources =~= Seq::empty());
            Ok(schema)
        },
    }
}

/// Whether compiling an inline schema can come to an outcome: nothing else is
/// wrong with it, or the outcome does not matter.
pub open spec fn inline_can_have(content: JsonSpec, outcome: Option<GraphFaultSpec>) -> bool {
    inline_faults(content, content_fault(content)).len() > 0 || is_outcome(
        inline_uri(),
        content,
        Seq::empty(),
        outcome,
    )
}

/// Prepares an inline schema.
pub fn prepare_inline_schema(root: &Value) -> (result: Result<
    FrontmatterSchema,
    NonEmpty<String>,
>)
    ensures
        exists|outcome: Option<GraphFaultSpec>| #[trigger]
            inline_can_have(value_content(*root), outcome) && inline_result(result)
                == inline_settled(
                value_content(*root),
                content_fault(value_content(*root)),
                outcome,
            ),
{
    let document = to_json(root);
    let fault = validate_json_schema_document(root, &document);
    let ghost told = message_spec(fault);
    let found = find_inline_faults(&document, copy_text(&fault));
    assert(text_specs(found@).len() == found@.len());
    if found.len() > 0 {
        let outcome: Option<GraphFault> = None;
        assert(inline_can_have(document@, outcome_spec(outcome)));
        return settle_inline(&document, fault, outcome);
    }
    let others: Vec<(String, Value)> = Vec::new();
    assert(entry_specs(others@) =~= Seq::empty());
    let outcome = try_graph(
        "https://outlint.invalid/inline/frontmatter.schema.json",
        root,
        &others,
    );
    assert(inline_can_have(document@, outcome_spec(outcome)));
    settle_inline(&document, fault, outcome)
}

fn copy_text(text: &Option<String>) -> (copied: Option<String>)
    ensures
        message_spec(copied) == message_spec(*text),
{
    match text {
        None => None,
        Some(text) => Some(text.clone()),
    }
}

/// An inline schema is accepted, or it is not: no two outcomes that compiling it
/// can have differ in that.
pub proof fn inline_schemas_are_usable_or_not(
    content: JsonSpec,
    first: Option<GraphFaultSpec>,
    second: Option<GraphFaultSpec>,
)
    requires
        inline_can_have(content, first),
        inline_can_have(content, second),
    ensures
        ({
            let fault = content_fault(content);
            let left = inline_settled(content, fault, first);
            let right = inline_settled(content, fault, second);
            &&& left is Ok <==> right is Ok
            &&& left is Ok ==> left == right
        }),
{
    reveal(is_outcome);
    assert(documents_are_apart(filed(inline_uri(), content, Seq::empty(), 0)));
}

/// An inline schema that was accepted refers only to itself, and not too often.
pub proof fn accepted_inline_schemas_are_self_contained(
    content: JsonSpec,
    fault: Option<Seq<char>>,
    outcome: Option<GraphFaultSpec>,
)
    ensures
        inline_settled(content, fault, outcome) is Ok ==> {
            &&& reference_faults(content).len() == 0
            &&& reference_count(content) <= MAX_JSON_SCHEMA_REFERENCES
            &&& fault is None
            &&& outcome is None
        },
{
}

} // verus!
