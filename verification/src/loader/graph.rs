//! What a linked graph of JSON Schemas holds of the resources that it was read
//! from.

use vstd::prelude::*;

use super::external::{
    accepted_graphs_keep_the_budget, attributed, content_fault, named_resource, occurs,
    prepared_external, reading, reference_count, resource_at, total_references, without_member,
    GraphFaultSpec,
};
use crate::json::{member, member_index, member_index_bounds, members_of, JsonSpec};
use crate::json_value::{json_read, meta_fault};
use crate::load_result::{LinkedSpec, ResourceSpec, SourceId};
use crate::schema::FrontmatterSchemaSpec;
use crate::text::{text_order, text_order_is_transitive};
use crate::values::{first_members_are_found, first_members_come_first, new_members_are_found};

verus! {

/// Every `$ref` and `$dynamicRef` counts, wherever it stands, and nothing else.
pub proof fn reference_keywords_are_counted_everywhere(
    members: Seq<(Seq<char>, JsonSpec)>,
    name: Seq<char>,
    value: JsonSpec,
    items: Seq<JsonSpec>,
)
    ensures
        reference_count(JsonSpec::Object(members.push((name, value)))) == reference_count(
            JsonSpec::Object(members),
        ) + reference_count(value) + (if name == "$ref"@ || name == "$dynamicRef"@ {
            1nat
        } else {
            0nat
        }),
        reference_count(JsonSpec::Array(items.push(value))) == reference_count(
            JsonSpec::Array(items),
        ) + reference_count(value),
        reference_count(JsonSpec::Object(Seq::empty())) == 0,
        reference_count(JsonSpec::Array(Seq::empty())) == 0,
        !(value is Object) && !(value is Array) ==> reference_count(value) == 0,
{
    let more = members.push((name, value));
    members_are_counted_alike(members, (name, value), members.len() as int);
    items_are_counted_alike(items, value, items.len() as int);
    assert(more[members.len() as int] == (name, value));
}

proof fn members_are_counted_alike(
    members: Seq<(Seq<char>, JsonSpec)>,
    more: (Seq<char>, JsonSpec),
    count: int,
)
    requires
        0 <= count <= members.len(),
    ensures
        super::external::members_reference_count(members.push(more), count)
            == super::external::members_reference_count(members, count),
    decreases count,
{
    if count > 0 {
        members_are_counted_alike(members, more, count - 1);
        assert(members.push(more)[count - 1] == members[count - 1]);
    }
}

proof fn items_are_counted_alike(items: Seq<JsonSpec>, more: JsonSpec, count: int)
    requires
        0 <= count <= items.len(),
    ensures
        super::external::items_reference_count(items.push(more), count)
            == super::external::items_reference_count(items, count),
    decreases count,
{
    if count > 0 {
        items_are_counted_alike(items, more, count - 1);
        assert(items.push(more)[count - 1] == items[count - 1]);
    }
}

/// A document is a schema of the one dialect: an object or a truth value that
/// names no other, and that the dialect's own schema accepts.
pub open spec fn is_schema_document(content: JsonSpec) -> bool {
    &&& content is Object || content is Bool
    &&& match member(members_of(content), "$schema"@) {
        None => true,
        Some(dialect) => {
            ||| dialect == JsonSpec::Text("https://json-schema.org/draft/2020-12/schema"@)
            ||| dialect == JsonSpec::Text("https://json-schema.org/draft/2020-12/schema#"@)
        },
    }
    &&& meta_fault(content) is None
}

/// A document is accepted where it is a schema of the dialect, and only there.
pub proof fn accepted_documents_are_schemas(content: JsonSpec)
    ensures
        content_fault(content) is None <==> is_schema_document(content),
{
}

proof fn first_resources_come_first(resources: Seq<ResourceSpec>, uri: Seq<char>, from: int)
    requires
        0 <= from,
    ensures
        resource_at(resources, uri, from) matches Some(at) ==> {
            &&& from <= at < resources.len()
            &&& resources[at].uri == uri
            &&& forall|k: int| from <= k < at ==> (#[trigger] resources[k]).uri != uri
        },
        resource_at(resources, uri, from) is None ==> forall|k: int|
            from <= k < resources.len() ==> (#[trigger] resources[k]).uri != uri,
    decreases resources.len() - from,
{
    if from < resources.len() && resources[from].uri != uri {
        first_resources_come_first(resources, uri, from + 1);
    }
}

/// Whether a resource was read: its text is a schema document.
pub open spec fn is_read(resource: ResourceSpec, content: JsonSpec) -> bool {
    &&& resource.contents matches Ok(text) && json_read(text) == Ok::<JsonSpec, Seq<char>>(content)
    &&& is_schema_document(content)
}

proof fn readings_without_errors_go_on(resources: Seq<ResourceSpec>, count: int)
    requires
        0 < count <= resources.len(),
        reading(resources, count).errors.len() == 0,
    ensures
        ({
            let before = reading(resources, count - 1);
            let resource = resources[count - 1];
            let content = json_read(resource.contents->Ok_0)->Ok_0;
            &&& before.errors.len() == 0
            &&& !before.stopped
            &&& resource_at(resources, resource.uri, 0) == Some(count - 1)
            &&& is_read(resource, content)
            &&& reading(resources, count).parsed == crate::json::with_member(
                before.parsed,
                resource.uri,
                content,
            )
        }),
{
    let before = reading(resources, count - 1);
    accepted_graphs_keep_the_budget(resources, count - 1);
    accepted_graphs_keep_the_budget(resources, count);
    assert(before.errors.len() == 0);
    if let Ok(text) = resources[count - 1].contents {
        if let Ok(content) = json_read(text) {
            accepted_documents_are_schemas(content);
        }
    }
}

proof fn other_names_are_not_read(resources: Seq<ResourceSpec>, count: int, name: Seq<char>)
    requires
        0 <= count <= resources.len(),
        reading(resources, count).errors.len() == 0,
        forall|at: int| 0 <= at < count ==> (#[trigger] resources[at]).uri != name,
    ensures
        member(reading(resources, count).parsed, name) is None,
    decreases count,
{
    if count > 0 {
        readings_without_errors_go_on(resources, count);
        let before = reading(resources, count - 1).parsed;
        let uri = resources[count - 1].uri;
        first_resources_come_first(resources, uri, 0);
        other_names_are_not_read(resources, count - 1, uri);
        other_names_are_not_read(resources, count - 1, name);
        let content = json_read(resources[count - 1].contents->Ok_0)->Ok_0;
        new_members_are_found(before, uri, content, name);
    }
}

proof fn resources_are_read(resources: Seq<ResourceSpec>, count: int, at: int)
    requires
        0 <= at < count <= resources.len(),
        reading(resources, count).errors.len() == 0,
    ensures
        ({
            let content = json_read(resources[at].contents->Ok_0)->Ok_0;
            &&& is_read(resources[at], content)
            &&& member(reading(resources, count).parsed, resources[at].uri) == Some(content)
            &&& resource_at(resources, resources[at].uri, 0) == Some(at)
            &&& reading(resources, count).parsed.len() == count
        }),
    decreases count,
{
    readings_without_errors_go_on(resources, count);
    let before = reading(resources, count - 1).parsed;
    let uri = resources[count - 1].uri;
    first_resources_come_first(resources, uri, 0);
    other_names_are_not_read(resources, count - 1, uri);
    let content = json_read(resources[count - 1].contents->Ok_0)->Ok_0;
    new_members_are_found(before, uri, content, resources[at].uri);
    if count > 1 {
        resources_are_read(
            resources,
            count - 1,
            if at < count - 1 {
                at
            } else {
                0
            },
        );
    } else {
        assert(before.len() == 0);
    }
}

proof fn removed_members_leave_the_others(
    members: Seq<(Seq<char>, JsonSpec)>,
    at: int,
    other: Seq<char>,
)
    requires
        0 <= at < members.len(),
        other != members[at].0,
    ensures
        member(without_member(members, at), other) == member(members, other),
{
    let after = without_member(members, at);
    member_index_bounds(members, other, 0);
    member_index_bounds(after, other, 0);
    match member_index(members, other, 0) {
        Some(found) => {
            first_members_come_first(members, other, 0, found);
            let moved = if found < at {
                found
            } else {
                found - 1
            };
            assert(after[moved] == members[found]);
            assert forall|k: int| 0 <= k < moved implies (#[trigger] after[k]).0 != other by {
                if k < at {
                    assert(after[k] == members[k]);
                } else {
                    assert(after[k] == members[k + 1]);
                }
            }
            first_members_are_found(after, other, 0, moved);
        },
        None => {
            if let Some(found) = member_index(after, other, 0) {
                if found < at {
                    assert(after[found] == members[found]);
                } else {
                    assert(after[found] == members[found + 1]);
                }
            }
        },
    }
}

/// A graph that is accepted has its root under the URI that was asked for, and
/// under every other URI the document of that resource; every resource was
/// given once, could be read, and holds a schema document; and together they
/// hold no more references than are allowed.
pub proof fn accepted_graphs_hold_their_resources(
    input: LinkedSpec,
    outcome: Option<GraphFaultSpec>,
    schema: FrontmatterSchemaSpec,
    at: int,
    other: int,
)
    requires
        prepared_external(input, outcome).result == Ok::<
            FrontmatterSchemaSpec,
            Seq<(SourceId, Seq<char>)>,
        >(schema),
        0 <= at < input.resources.len(),
        0 <= other < input.resources.len(),
    ensures
        schema.root_uri == input.root_uri,
        schema.resources.len() + 1 == input.resources.len(),
        at != other ==> input.resources[at].uri != input.resources[other].uri,
        ({
            let content = json_read(input.resources[at].contents->Ok_0)->Ok_0;
            &&& is_read(input.resources[at], content)
            &&& if input.resources[at].uri == input.root_uri {
                &&& schema.root == content
                &&& prepared_external(input, outcome).root_source == SourceId((at + 1) as u32)
            } else {
                member(schema.resources, input.resources[at].uri) == Some(content)
            }
        }),
        total_references(reading(input.resources, input.resources.len() as int).parsed) <= 128,
{
    let resources = input.resources;
    let count = resources.len() as int;
    let read = reading(resources, count);
    resources_are_read(resources, count, at);
    resources_are_read(resources, count, other);
    accepted_graphs_keep_the_budget(resources, count);
    member_index_bounds(read.parsed, input.root_uri, 0);
    let place = member_index(read.parsed, input.root_uri, 0)->0;
    if resources[at].uri != input.root_uri {
        removed_members_leave_the_others(read.parsed, place, resources[at].uri);
    }
}

/// A resource is named by a message in which its URI occurs; of several, the
/// first in the order of texts is meant.
pub proof fn messages_are_attributed_to_what_they_name(
    resources: Seq<ResourceSpec>,
    message: Seq<char>,
    count: int,
    at: int,
)
    requires
        0 <= at < count <= resources.len(),
        occurs(message, resources[at].uri),
    ensures
        named_resource(resources, message, count) matches Some(uri) && occurs(message, uri)
            && !text_order(resources[at].uri, uri) && exists|k: int|
            0 <= k < count && (#[trigger] resources[k]).uri == uri,
    decreases count,
{
    named_resources_are_there(resources, message, count);
    let before = named_resource(resources, message, count - 1);
    let last = resources[count - 1].uri;
    named_resources_are_there(resources, message, count - 1);
    let uri = named_resource(resources, message, count)->0;
    let own = resources[at].uri;
    no_text_comes_before_itself(own);
    if at < count - 1 {
        messages_are_attributed_to_what_they_name(resources, message, count - 1, at);
        if text_order(own, uri) && text_order(uri, before->0) {
            text_order_is_transitive(own, uri, before->0);
        }
    }
}

proof fn no_text_comes_before_itself(text: Seq<char>)
    ensures
        !text_order(text, text),
    decreases text.len(),
{
    if text.len() > 0 {
        no_text_comes_before_itself(text.skip(1));
    }
}

proof fn named_resources_are_there(
    resources: Seq<ResourceSpec>,
    message: Seq<char>,
    count: int,
)
    requires
        0 <= count <= resources.len(),
    ensures
        named_resource(resources, message, count) matches Some(uri) ==> occurs(message, uri)
            && exists|k: int| 0 <= k < count && (#[trigger] resources[k]).uri == uri,
    decreases count,
{
    if count > 0 {
        named_resources_are_there(resources, message, count - 1);
        assert(resources[count - 1].uri == resources[count - 1].uri);
    }
}

/// A message that names no resource is about the one that it falls back to, and
/// a resource is known by its place behind the primary source.
pub proof fn other_messages_fall_back(
    resources: Seq<ResourceSpec>,
    message: Seq<char>,
    fallback: Seq<char>,
    at: int,
)
    requires
        forall|k: int|
            0 <= k < resources.len() ==> !occurs(message, (#[trigger] resources[k]).uri),
        0 <= at < resources.len() < u32::MAX,
        resources[at].uri == fallback,
        forall|k: int| 0 <= k < at ==> (#[trigger] resources[k]).uri != fallback,
    ensures
        attributed(resources, message, fallback) == SourceId((at + 1) as u32),
{
    named_resources_are_there(resources, message, resources.len() as int);
    first_resources_come_first(resources, fallback, 0);
}

} // verus!
