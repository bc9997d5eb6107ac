//! Labels are for display: they change nothing but the sources that a load
//! reports.

use vstd::prelude::*;

use super::apart::documents_are_apart;
use super::external::{
    attributed, can_have, fault_message, filed, graph_error_of, is_outcome, named_resource, prepared_external,
    prepared_graph, reading, resource_at, without_member, GraphFaultSpec, PreparedSpec,
};
use super::frontmatter::{frontmatter_build, linked_build, linked_errors, whole_source};
use super::load::{
    document_build, external_can_have, external_prepared, load_of, resource_source, source_build,
    sources_of,
};
use super::places::{range_for, PlacesSpec};
use super::ranges::KeySpec;
use super::shape::Members;
use crate::json::member_index;
use crate::load_result::{LinkedSpec, ResourceSpec, SourceId, SourceRange, SourceSpec};

verus! {

/// Two graphs differ at most in the labels of their resources.
pub open spec fn same_but_labels(one: Option<LinkedSpec>, two: Option<LinkedSpec>) -> bool {
    match (one, two) {
        (None, None) => true,
        (Some(one), Some(two)) => one.root_uri == two.root_uri && same_resources(
            one.resources,
            two.resources,
        ),
        _ => false,
    }
}

/// Two lists of resources differ at most in their labels.
pub open spec fn same_resources(one: Seq<ResourceSpec>, two: Seq<ResourceSpec>) -> bool {
    &&& one.len() == two.len()
    &&& forall|at: int|
        0 <= at < one.len() ==> (#[trigger] one[at]).uri == two[at].uri && one[at].contents
            == two[at].contents
}

/// Two lists of sources differ at most in their labels.
pub open spec fn same_texts(one: Seq<SourceSpec>, two: Seq<SourceSpec>) -> bool {
    &&& one.len() == two.len()
    &&& forall|at: int| 0 <= at < one.len() ==> (#[trigger] one[at]).text == two[at].text
}

proof fn resource_is_found(
    one: Seq<ResourceSpec>,
    two: Seq<ResourceSpec>,
    uri: Seq<char>,
    from: int,
)
    requires
        same_resources(one, two),
    ensures
        resource_at(one, uri, from) == resource_at(two, uri, from),
    decreases one.len() - from,
{
    if 0 <= from < one.len() {
        assert(one[from].uri == two[from].uri);
        resource_is_found(one, two, uri, from + 1);
    }
}

proof fn resources_are_read(one: Seq<ResourceSpec>, two: Seq<ResourceSpec>, count: int)
    requires
        same_resources(one, two),
    ensures
        reading(one, count) == reading(two, count),
    decreases count,
{
    if 0 < count <= one.len() {
        resources_are_read(one, two, count - 1);
        assert(one[count - 1].uri == two[count - 1].uri);
        resource_is_found(one, two, one[count - 1].uri, 0);
    }
}

proof fn resource_is_named(
    one: Seq<ResourceSpec>,
    two: Seq<ResourceSpec>,
    message: Seq<char>,
    count: int,
)
    requires
        same_resources(one, two),
    ensures
        named_resource(one, message, count) == named_resource(two, message, count),
    decreases count,
{
    if 0 < count <= one.len() {
        resource_is_named(one, two, message, count - 1);
        assert(one[count - 1].uri == two[count - 1].uri);
    }
}

proof fn message_is_attributed(
    one: Seq<ResourceSpec>,
    two: Seq<ResourceSpec>,
    message: Seq<char>,
    fallback: Seq<char>,
)
    requires
        same_resources(one, two),
    ensures
        attributed(one, message, fallback) == attributed(two, message, fallback),
{
    resource_is_named(one, two, message, one.len() as int);
    let uri = match named_resource(one, message, one.len() as int) {
        Some(uri) => uri,
        None => fallback,
    };
    resource_is_found(one, two, uri, 0);
}

proof fn graph_is_prepared(one: LinkedSpec, two: LinkedSpec, outcome: Option<GraphFaultSpec>)
    requires
        one.root_uri == two.root_uri,
        same_resources(one.resources, two.resources),
    ensures
        can_have(one, outcome) == can_have(two, outcome),
        prepared_external(one, outcome) == prepared_external(two, outcome),
{
    resources_are_read(one.resources, two.resources, one.resources.len() as int);
    resource_is_found(one.resources, two.resources, one.root_uri, 0);
    if let Some(fault) = outcome {
        let message = fault_message(fault);
        let fallback = match fault {
            GraphFaultSpec::Uri(uri, _) => uri,
            _ => one.root_uri,
        };
        message_is_attributed(one.resources, two.resources, message, fallback);
        assert(graph_error_of(one, fault) == graph_error_of(two, fault));
    }
    assert(prepared_graph(one, outcome) == prepared_graph(two, outcome));
}

proof fn source_is_whole(
    one: Seq<SourceSpec>,
    two: Seq<SourceSpec>,
    id: SourceId,
    otherwise: SourceRange,
)
    requires
        same_texts(one, two),
    ensures
        whole_source(one, id, otherwise) == whole_source(two, id, otherwise),
{
    if id.0 < one.len() {
        assert(one[id.0 as int].text == two[id.0 as int].text);
    }
}

proof fn errors_are_linked(
    one: Seq<SourceSpec>,
    two: Seq<SourceSpec>,
    errors: Seq<(SourceId, Seq<char>)>,
    otherwise: SourceRange,
)
    requires
        same_texts(one, two),
    ensures
        linked_errors(one, errors, otherwise) == linked_errors(two, errors, otherwise),
{
    assert forall|at: int| 0 <= at < errors.len() implies #[trigger] linked_errors(
        one,
        errors,
        otherwise,
    )[at] == linked_errors(two, errors, otherwise)[at] by {
        source_is_whole(one, two, errors[at].0, otherwise);
    }
    assert(linked_errors(one, errors, otherwise) =~= linked_errors(two, errors, otherwise));
}

proof fn policy_is_built(
    places: PlacesSpec,
    members: Members,
    one: Seq<SourceSpec>,
    two: Seq<SourceSpec>,
    prepared: Option<PreparedSpec>,
)
    requires
        same_texts(one, two),
    ensures
        frontmatter_build(places, members, one, prepared) == frontmatter_build(
            places,
            members,
            two,
            prepared,
        ),
{
    let range = range_for(places, KeySpec::FrontmatterField("schema"@));
    if let Some(prepared) = prepared {
        match prepared.result {
            Err(errors) => {
                errors_are_linked(one, two, errors, range);
            },
            Ok(_) => {
                source_is_whole(one, two, prepared.root_source, range);
            },
        }
    }
    assert forall|required: bool, allow: bool| #[trigger]
        linked_build(places, one, prepared, required, allow) == linked_build(
            places,
            two,
            prepared,
            required,
            allow,
        ) by {}
}

proof fn source_is_built(
    source: Seq<char>,
    one: Seq<SourceSpec>,
    two: Seq<SourceSpec>,
    prepared: Option<PreparedSpec>,
)
    requires
        same_texts(one, two),
    ensures
        source_build(source, one, prepared) == source_build(source, two, prepared),
{
    assert forall|places: PlacesSpec, members: Members| #[trigger]
        document_build(places, members, one, prepared) == document_build(
            places,
            members,
            two,
            prepared,
        ) by {
        reveal(document_build);
        policy_is_built(places, members, one, two, prepared);
    }
}

/// Two loads whose inputs differ at most in labels come, for the same outcome
/// of the graph, to the same schema with the same ranges, or to the same
/// errors; and an outcome that one graph can have, the other can have.
pub proof fn labels_change_only_the_sources(
    source: Seq<char>,
    label_one: Option<Seq<char>>,
    label_two: Option<Seq<char>>,
    one: Option<LinkedSpec>,
    two: Option<LinkedSpec>,
    outcome: Option<GraphFaultSpec>,
)
    requires
        same_but_labels(one, two),
    ensures
        external_can_have(one, outcome) == external_can_have(two, outcome),
        same_texts(sources_of(source, label_one, one), sources_of(source, label_two, two)),
        match (
            load_of(
                source,
                sources_of(source, label_one, one),
                external_prepared(one, outcome),
            ),
            load_of(
                source,
                sources_of(source, label_two, two),
                external_prepared(two, outcome),
            ),
        ) {
            (Ok(first), Ok(second)) => first.schema == second.schema && first.document
                == second.document && first.nodes == second.nodes,
            (Err(first), Err(second)) => first.errors == second.errors,
            _ => false,
        },
{
    let first = sources_of(source, label_one, one);
    let second = sources_of(source, label_two, two);
    if let (Some(one), Some(two)) = (one, two) {
        graph_is_prepared(one, two, outcome);
    }
    sources_have_the_same_texts(source, label_one, label_two, one, two);
    source_is_built(source, first, second, external_prepared(one, outcome));
}

proof fn sources_have_the_same_texts(
    source: Seq<char>,
    label_one: Option<Seq<char>>,
    label_two: Option<Seq<char>>,
    one: Option<LinkedSpec>,
    two: Option<LinkedSpec>,
)
    requires
        same_but_labels(one, two),
    ensures
        same_texts(sources_of(source, label_one, one), sources_of(source, label_two, two)),
{
    let first = sources_of(source, label_one, one);
    let second = sources_of(source, label_two, two);
    if let (Some(one), Some(two)) = (one, two) {
        assert forall|at: int| 0 <= at < first.len() implies (#[trigger] first[at]).text
            == second[at].text by {
            if at > 0 {
                assert(one.resources[at - 1].contents == two.resources[at - 1].contents);
            }
        }
    }
}

/// Whether the documents of a graph, as far as they can be read, are apart.
pub open spec fn graph_is_apart(external: Option<LinkedSpec>) -> bool {
    match external {
        None => true,
        Some(input) => {
            let read = reading(input.resources, input.resources.len() as int);
            match member_index(read.parsed, input.root_uri, 0) {
                None => true,
                Some(at) => {
                    let others = without_member(read.parsed, at);
                    documents_are_apart(
                        filed(input.root_uri, read.parsed[at].1, others, others.len() as int),
                    )
                },
            }
        },
    }
}

/// A graph whose documents are apart can be used, or it cannot: no two outcomes
/// that it can have differ in that.
pub proof fn graphs_are_usable_or_not(
    external: LinkedSpec,
    first: Option<GraphFaultSpec>,
    second: Option<GraphFaultSpec>,
)
    requires
        graph_is_apart(Some(external)),
        can_have(external, first),
        can_have(external, second),
    ensures
        prepared_external(external, first).result is Ok <==> prepared_external(
            external,
            second,
        ).result is Ok,
        prepared_external(external, first).result is Ok ==> prepared_external(external, first)
            == prepared_external(external, second),
{
    reveal(is_outcome);
}

proof fn refusals_are_alike(
    source: Seq<char>,
    sources: Seq<SourceSpec>,
    one: PreparedSpec,
    two: PreparedSpec,
)
    requires
        one.result is Err,
        two.result is Err,
    ensures
        match (
            load_of(source, sources, Some(one)),
            load_of(source, sources, Some(two)),
        ) {
            (Ok(first), Ok(second)) => first == second,
            (Err(_), Err(_)) => true,
            _ => false,
        },
{
    reveal(document_build);
}

/// Two loads of the same source with graphs that differ at most in labels, and
/// whose documents are apart: both succeed, with the same schema and the same
/// ranges, or both fail, whatever the outcomes of the graphs are.
pub proof fn labels_decide_nothing(
    source: Seq<char>,
    label_one: Option<Seq<char>>,
    label_two: Option<Seq<char>>,
    one: Option<LinkedSpec>,
    two: Option<LinkedSpec>,
    first: Option<GraphFaultSpec>,
    second: Option<GraphFaultSpec>,
)
    requires
        same_but_labels(one, two),
        graph_is_apart(one),
        external_can_have(one, first),
        external_can_have(two, second),
    ensures
        match (
            load_of(
                source,
                sources_of(source, label_one, one),
                external_prepared(one, first),
            ),
            load_of(
                source,
                sources_of(source, label_two, two),
                external_prepared(two, second),
            ),
        ) {
            (Ok(left), Ok(right)) => left.schema == right.schema && left.document
                == right.document && left.nodes == right.nodes,
            (Err(_), Err(_)) => true,
            _ => false,
        },
{
    labels_change_only_the_sources(source, label_one, label_two, one, two, second);
    if let Some(external) = one {
        graphs_are_usable_or_not(external, first, second);
        let prepared = prepared_external(external, first);
        if prepared.result is Err {
            refusals_are_alike(
                source,
                sources_of(source, label_one, one),
                prepared,
                prepared_external(external, second),
            );
        }
    }
}

/// The source of the resource at `at` follows the primary source and the
/// sources of the resources before it. It holds the label of the resource and
/// its text, or no text where reading it failed.
pub proof fn sources_follow_the_resources(
    source: Seq<char>,
    label: Option<Seq<char>>,
    external: LinkedSpec,
    at: int,
)
    requires
        0 <= at < external.resources.len() <= u32::MAX,
    ensures
        ({
            let sources = sources_of(source, label, Some(external));
            &&& sources.len() == external.resources.len() + 1
            &&& sources[0] == (SourceSpec { label, text: source })
            &&& sources[at + 1] == resource_source(external.resources[at])
        }),
{
}

} // verus!
