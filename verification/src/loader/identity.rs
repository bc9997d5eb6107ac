//! The URIs by which the schemas of a graph are told apart.

use serde_json::Value;
use vstd::prelude::*;

use crate::case_fold::{folded, simple_fold};
use crate::json::{
    item_specs, item_weight_bound, json_weight, member_specs, member_weight_bound, Json,
    JsonSpec,
};
use crate::json_value::{
    get_text_member, get_value_member, normalize_uri, normalized_uri, resolve_uri, subresources,
    subschemas, subschemas_weigh_less, text_member, to_json, uri_fault, uri_resolved,
    value_content,
};
use crate::loader::external::{
    contains, declares_other_dialect, entry_specs, filed, is_reference_keyword, occurs,
};
use crate::text::{chars_of, has_prefix, same_text, starts_with, text_of};

verus! {

/// A text without the `#`s at its end.
pub open spec fn trimmed(text: Seq<char>) -> Seq<char>
    decreases text.len(),
{
    if text.len() > 0 && text.last() == '#' {
        trimmed(text.drop_last())
    } else {
        text
    }
}

fn trim(text: &str) -> (kept: String)
    ensures
        kept@ == trimmed(text@),
{
    let chars = chars_of(text);
    let mut end: usize = chars.len();
    assert(text@.take(end as int) =~= text@);
    while end > 0 && chars[end - 1] == '#'
        invariant
            end <= chars@.len(),
            chars@ == text@,
            trimmed(text@) == trimmed(text@.take(end as int)),
        decreases end,
    {
        assert(text@.take(end as int).drop_last() =~= text@.take(end - 1));
        end -= 1;
    }
    assert(text@.subrange(0, end as int) =~= text@.take(end as int));
    text_of(chars.as_slice(), 0, end)
}

/// The URI under which a registry files a resource, or why it files none.
pub open spec fn registry_uri(uri: Seq<char>) -> Result<Seq<char>, Seq<char>> {
    normalized_uri(trimmed(uri))
}

/// Whether a reference names what it leads to, and does not point at it.
pub open spec fn names_target(reference: Seq<char>) -> bool {
    exists|at: int|
        0 <= at < reference.len() - 1 && #[trigger] reference[at] == '#' && reference[at + 1]
            != '/'
}

fn is_named(reference: &str) -> (named: bool)
    ensures
        named == names_target(reference@),
{
    let chars = chars_of(reference);
    let mut at: usize = 1;
    while at < chars.len()
        invariant
            1 <= at,
            chars@ == reference@,
            forall|k: int|
                0 <= k < at - 1 && k < reference@.len() - 1 ==> !(#[trigger] reference@[k] == '#'
                    && reference@[k + 1] != '/'),
        decreases chars.len() - at,
    {
        if chars[at - 1] == '#' && chars[at] != '/' {
            assert(reference@[at - 1] == '#');
            return true;
        }
        at += 1;
    }
    false
}

/// The host of the meta-schemas that a registry supplies by itself. They name
/// targets among themselves.
pub open spec fn supplied_host() -> Seq<char> {
    "json-schema.org"@
}

/// Whether a text member can lead to a target by its name: a reference that
/// names one or leads to the supplied schemas, or an identifier that can
/// stand for one of these. A URI is normalized after it is read, which undoes
/// capitals and percent signs.
pub open spec fn leads_by_name(keyword: Seq<char>, text: Seq<char>) -> bool {
    if is_reference_keyword(keyword) {
        names_target(text) || occurs(text, supplied_host())
    } else if keyword == "$id"@ || keyword == "id"@ {
        text.contains('%') || occurs(folded(text), supplied_host())
    } else {
        false
    }
}

fn has_char(text: &str, sought: char) -> (has: bool)
    ensures
        has == text@.contains(sought),
{
    let chars = chars_of(text);
    let mut at: usize = 0;
    while at < chars.len()
        invariant
            at <= chars@.len(),
            chars@ == text@,
            forall|k: int| 0 <= k < at ==> #[trigger] text@[k] != sought,
        decreases chars.len() - at,
    {
        if chars[at] == sought {
            assert(text@[at as int] == sought);
            return true;
        }
        at += 1;
    }
    false
}

fn can_lead_by_name(keyword: &str, text: &str) -> (leads: bool)
    ensures
        leads == leads_by_name(keyword@, text@),
{
    if same_text(keyword, "$ref") || same_text(keyword, "$dynamicRef") {
        is_named(text) || contains(text, "json-schema.org")
    } else if same_text(keyword, "$id") || same_text(keyword, "id") {
        has_char(text, '%') || contains(simple_fold(text).as_str(), "json-schema.org")
    } else {
        false
    }
}

/// Whether a value holds, at any depth, a member that can lead to a target by
/// its name.
pub open spec fn seeks_names(value: JsonSpec) -> bool
    decreases value, 0int,
{
    match value {
        JsonSpec::Array(items) => items_seek_names(items, items.len() as int),
        JsonSpec::Object(members) => members_seek_names(members, members.len() as int),
        _ => false,
    }
}

/// Whether one of the first `count` items does.
pub open spec fn items_seek_names(items: Seq<JsonSpec>, count: int) -> bool
    decreases items, count,
{
    if count <= 0 || count > items.len() {
        false
    } else {
        items_seek_names(items, count - 1) || seeks_names(items[count - 1])
    }
}

/// Whether one of the first `count` members does.
pub open spec fn members_seek_names(members: Seq<(Seq<char>, JsonSpec)>, count: int) -> bool
    decreases members, count,
{
    if count <= 0 || count > members.len() {
        false
    } else {
        ||| members_seek_names(members, count - 1)
        ||| seeks_names(members[count - 1].1)
        ||| (members[count - 1].1 matches JsonSpec::Text(text) && leads_by_name(
            members[count - 1].0,
            text,
        ))
    }
}

fn find_names(value: &Json) -> (seeks: bool)
    ensures
        seeks == seeks_names(value@),
    decreases json_weight(value@),
{
    match value {
        Json::Array(items) => {
            let ghost specs = item_specs(items@);
            let mut seeks = false;
            let mut at: usize = 0;
            while at < items.len()
                invariant
                    at <= items@.len(),
                    value@ == JsonSpec::Array(specs),
                    specs == item_specs(items@),
                    seeks == items_seek_names(specs, at as int),
                decreases items.len() - at,
            {
                proof {
                    item_weight_bound(specs, specs.len() as int, at as int);
                }
                let inner = find_names(&items[at]);
                seeks = seeks || inner;
                at += 1;
            }
            seeks
        },
        Json::Object(members) => {
            let ghost specs = member_specs(members@);
            let mut seeks = false;
            let mut at: usize = 0;
            while at < members.len()
                invariant
                    at <= members@.len(),
                    value@ == JsonSpec::Object(specs),
                    specs == member_specs(members@),
                    seeks == members_seek_names(specs, at as int),
                decreases members.len() - at,
            {
                proof {
                    member_weight_bound(specs, specs.len() as int, at as int);
                }
                let (keyword, child) = &members[at];
                let inner = find_names(child);
                let own = match child {
                    Json::Text(text) => can_lead_by_name(keyword.as_str(), text.as_str()),
                    _ => false,
                };
                seeks = seeks || inner || own;
                at += 1;
            }
            seeks
        },
        _ => false,
    }
}

/// Whether a URI is one of those that a registry may give to schemas of its
/// own: to the supplied ones, or to those with a relative URI.
pub open spec fn is_reserved(uri: Seq<char>) -> bool {
    occurs(uri, supplied_host()) || starts_with(uri, "json-schema:"@)
}

fn check_reserved(uri: &str) -> (reserved: bool)
    ensures
        reserved == is_reserved(uri@),
{
    contains(uri, "json-schema.org") || has_prefix(uri, "json-schema:")
}

/// Whether the identifier of a schema leads to the schema's URI wherever it is
/// read again: by itself, if it is absolute, and from that URI, if the schema
/// can be the target of a dynamic reference.
pub open spec fn is_steady(content: JsonSpec, identifier: Seq<char>, uri: Seq<char>) -> bool {
    &&& match normalized_uri(identifier) {
        Ok(alone) => alone == uri || starts_with(alone, "json-schema:"@),
        Err(_) => true,
    }
    &&& text_member(content, "$dynamicAnchor"@) is Some ==> uri_resolved(uri, identifier) == Ok::<
        Seq<char>,
        Seq<char>,
    >(uri)
}

fn check_steady(value: &Value, identifier: &str, uri: &str) -> (steady: bool)
    requires
        uri_fault(uri@) is None,
    ensures
        steady == is_steady(value_content(*value), identifier@, uri@),
{
    if let Ok(alone) = normalize_uri(identifier) {
        if !same_text(alone.as_str(), uri) && !has_prefix(alone.as_str(), "json-schema:") {
            return false;
        }
    }
    if get_text_member(value, "$dynamicAnchor").is_some() {
        match resolve_uri(uri, identifier) {
            Ok(again) => same_text(again.as_str(), uri),
            Err(_) => false,
        }
    } else {
        true
    }
}

/// The URI of a schema inside a schema with the URI `base`: its identifier,
/// resolved. There is none where the identifier, or the dialect that says how
/// to read it, is out of the ordinary.
pub open spec fn schema_uri(base: Seq<char>, content: JsonSpec) -> Option<Seq<char>> {
    if declares_other_dialect(content) {
        None
    } else {
        match text_member(content, "$id"@) {
            None => Some(base),
            Some(identifier) => match uri_resolved(base, identifier) {
                Err(_) => None,
                Ok(uri) => if identifier.contains('#') || is_reserved(uri) || !is_steady(
                    content,
                    identifier,
                    uri,
                ) {
                    None
                } else {
                    Some(uri)
                },
            },
        }
    }
}

fn has_other_dialect(value: &Value) -> (other: bool)
    ensures
        other == declares_other_dialect(value_content(*value)),
{
    if get_value_member(value, "$schema").is_none() {
        return false;
    }
    match get_text_member(value, "$schema") {
        Some(dialect) => !same_text(
            dialect.as_str(),
            "https://json-schema.org/draft/2020-12/schema",
        ) && !same_text(dialect.as_str(), "https://json-schema.org/draft/2020-12/schema#"),
        None => true,
    }
}

fn find_schema_uri(base: &str, value: &Value) -> (uri: Option<String>)
    requires
        uri_fault(base@) is None,
    ensures
        match uri {
            Some(uri) => schema_uri(base@, value_content(*value)) == Some(uri@) && uri_fault(
                uri@,
            ) is None,
            None => schema_uri(base@, value_content(*value)) is None,
        },
{
    if has_other_dialect(value) {
        return None;
    }
    match get_text_member(value, "$id") {
        None => Some(base.to_owned()),
        Some(identifier) => match resolve_uri(base, identifier.as_str()) {
            Err(_) => None,
            Ok(uri) => {
                if has_char(identifier.as_str(), '#') || check_reserved(uri.as_str())
                    || !check_steady(value, identifier.as_str(), uri.as_str()) {
                    None
                } else {
                    Some(uri)
                }
            },
        },
    }
}

/// Uses of URIs by schemas: a schema is filed under a URI, or, where the flag
/// is set, it has a name among those of the URI.
pub type Uses = Seq<(Seq<char>, bool)>;

/// Whether references can lead to a schema by its name.
pub open spec fn has_name(content: JsonSpec) -> bool {
    text_member(content, "$anchor"@) is Some || text_member(content, "$dynamicAnchor"@) is Some
}

fn is_schema_named(value: &Value) -> (named: bool)
    ensures
        named == has_name(value_content(*value)),
{
    get_text_member(value, "$anchor").is_some() || get_text_member(
        value,
        "$dynamicAnchor",
    ).is_some()
}

/// The uses of its URI by one schema inside a schema with the URI `base`.
pub open spec fn own_uses(base: Seq<char>, uri: Seq<char>, named: bool) -> Uses {
    (if uri != base {
        seq![(uri, false)]
    } else {
        Seq::empty()
    }) + (if named {
        seq![(uri, true)]
    } else {
        Seq::empty()
    })
}

/// The uses of URIs by a schema and by the schemas inside it, in the order of
/// the walk.
pub open spec fn schema_uses(base: Seq<char>, content: JsonSpec) -> Option<Uses>
    decreases json_weight(content), subschemas(content).len() + 1,
{
    match schema_uri(base, content) {
        None => None,
        Some(uri) => match inner_uses(
            subschemas(content),
            uri,
            subschemas(content).len() as int,
            json_weight(content),
        ) {
            None => None,
            Some(inner) => Some(own_uses(base, uri, has_name(content)) + inner),
        },
    }
}

/// The uses in the first `count` of `schemas`, all of which weigh less than
/// `bound`.
pub open spec fn inner_uses(schemas: Seq<JsonSpec>, base: Seq<char>, count: int, bound: nat) -> Option<
    Uses,
>
    decreases bound, count,
{
    if count <= 0 || count > schemas.len() || json_weight(schemas[count - 1]) >= bound {
        Some(Seq::empty())
    } else {
        match (
            inner_uses(schemas, base, count - 1, bound),
            schema_uses(base, schemas[count - 1]),
        ) {
            (Some(before), Some(own)) => Some(before + own),
            _ => None,
        }
    }
}

/// What collected uses are.
pub open spec fn use_views(uses: Seq<(String, bool)>) -> Uses {
    uses.map_values(|one: (String, bool)| (one.0@, one.1))
}

fn add_own_uses(base: &str, uri: &str, named: bool, uses: &mut Vec<(String, bool)>)
    ensures
        use_views(final(uses)@) == use_views(old(uses)@) + own_uses(base@, uri@, named),
{
    let ghost start = use_views(uses@);
    if !same_text(uri, base) {
        uses.push((uri.to_owned(), false));
    }
    if named {
        uses.push((uri.to_owned(), true));
    }
    assert(use_views(uses@) =~= start + own_uses(base@, uri@, named));
}

fn collect_schema_uses(base: &str, value: &Value, uses: &mut Vec<(String, bool)>) -> (clear: bool)
    requires
        uri_fault(base@) is None,
    ensures
        clear == (schema_uses(base@, value_content(*value)) is Some),
        clear ==> use_views(final(uses)@) == use_views(old(uses)@) + schema_uses(
            base@,
            value_content(*value),
        )->0,
    decreases json_weight(value_content(*value)),
{
    let ghost content = value_content(*value);
    let ghost start = use_views(uses@);
    let uri = match find_schema_uri(base, value) {
        Some(uri) => uri,
        None => {
            return false;
        },
    };
    let named = is_schema_named(value);
    let ghost own = own_uses(base@, uri@, named);
    add_own_uses(base, uri.as_str(), named, uses);
    let children = subresources(value);
    let ghost schemas = subschemas(content);
    let ghost bound = json_weight(content);
    let inner_base = uri.as_str();
    let mut at: usize = 0;
    assert(start + own =~= start + own + Seq::empty());
    while at < children.len()
        invariant
            at <= children@.len(),
            content == value_content(*value),
            schemas == children@.map_values(|child: &Value| value_content(*child)),
            schemas == subschemas(content),
            bound == json_weight(content),
            inner_base@ == uri@,
            uri_fault(inner_base@) is None,
            schema_uri(base@, content) == Some(uri@),
            inner_uses(schemas, uri@, at as int, bound) is Some,
            use_views(uses@) == start + own + inner_uses(schemas, uri@, at as int, bound)->0,
        decreases children.len() - at,
    {
        proof {
            assert(schemas[at as int] == value_content(*children@[at as int]));
            subschemas_weigh_less(content, at as int);
        }
        let ghost before = inner_uses(schemas, uri@, at as int, bound)->0;
        if !collect_schema_uses(inner_base, children[at], uses) {
            proof {
                unclear_stays(schemas, uri@, at + 1, schemas.len() as int, bound, content);
            }
            return false;
        }
        proof {
            let more = schema_uses(uri@, schemas[at as int])->0;
            assert(start + own + before + more =~= start + own + (before + more));
        }
        at += 1;
    }
    proof {
        let inner = inner_uses(schemas, uri@, at as int, bound)->0;
        assert(start + own + inner =~= start + (own + inner));
    }
    true
}

proof fn unclear_stays(
    schemas: Seq<JsonSpec>,
    base: Seq<char>,
    count: int,
    all: int,
    bound: nat,
    content: JsonSpec,
)
    requires
        0 < count <= all <= schemas.len(),
        schemas == subschemas(content),
        bound == json_weight(content),
        inner_uses(schemas, base, count, bound) is None,
    ensures
        inner_uses(schemas, base, all, bound) is None,
    decreases all - count,
{
    if count < all {
        unclear_stays(schemas, base, count, all - 1, bound, content);
        subschemas_weigh_less(content, all - 1);
    }
}

/// The uses of URIs by a document that is filed under `uri`: it is filed there,
/// with its own name, and its schemas use theirs.
pub open spec fn document_uses(uri: Seq<char>, content: JsonSpec) -> Option<Uses> {
    if uri.contains('#') || is_reserved(uri) {
        None
    } else {
        match schema_uses(uri, content) {
            None => None,
            Some(uses) => Some(filing_uses(uri, has_name(content)) + uses),
        }
    }
}

/// The uses of the URI that a document is filed under.
pub open spec fn filing_uses(uri: Seq<char>, named: bool) -> Uses {
    if named {
        seq![(uri, false), (uri, true)]
    } else {
        seq![(uri, false)]
    }
}

fn collect_document_uses(uri: &str, value: &Value, uses: &mut Vec<(String, bool)>) -> (clear: bool)
    requires
        uri_fault(uri@) is None,
    ensures
        clear == (document_uses(uri@, value_content(*value)) is Some),
        clear ==> use_views(final(uses)@) == use_views(old(uses)@) + document_uses(
            uri@,
            value_content(*value),
        )->0,
{
    if has_char(uri, '#') || check_reserved(uri) {
        return false;
    }
    let ghost start = use_views(uses@);
    let ghost inner = schema_uses(uri@, value_content(*value));
    let named = is_schema_named(value);
    uses.push((uri.to_owned(), false));
    if named {
        uses.push((uri.to_owned(), true));
    }
    assert(use_views(uses@) =~= start + filing_uses(uri@, named));
    let clear = collect_schema_uses(uri, value, uses);
    proof {
        if clear {
            assert(start + filing_uses(uri@, named) + inner->0 =~= start + (filing_uses(
                uri@,
                named,
            ) + inner->0));
        }
    }
    clear
}

/// Whether a document can lead to a target by its name.
pub open spec fn document_seeks_names(document: (Seq<char>, JsonSpec)) -> bool {
    occurs(document.0, supplied_host()) || seeks_names(document.1)
}

/// Whether the use at `at` of the resource filed under `document` is `used`.
pub open spec fn uses_uri(
    resources: Map<Seq<char>, JsonSpec>,
    document: Seq<char>,
    at: int,
    used: (Seq<char>, bool),
) -> bool {
    &&& resources.contains_key(document)
    &&& document_uses(document, resources[document]) is Some
    &&& 0 <= at < document_uses(document, resources[document])->0.len()
    &&& document_uses(document, resources[document])->0[at] == used
}

/// Whether the targets that are sought by name can be told apart in a registry
/// of these resources, from a root that is filed under `root_uri`: nothing is
/// sought by name, or no two schemas are filed under a URI among whose names
/// there is one, and the root is one of the resources.
pub open spec fn names_are_clear(
    resources: Map<Seq<char>, JsonSpec>,
    root_uri: Seq<char>,
    root: JsonSpec,
) -> bool {
    ||| {
        &&& !document_seeks_names((root_uri, root))
        &&& forall|uri: Seq<char>| #[trigger]
            resources.contains_key(uri) ==> !document_seeks_names((uri, resources[uri]))
    }
    ||| {
        &&& resources.contains_key(root_uri) && resources[root_uri] == root
        &&& forall|uri: Seq<char>| #[trigger]
            resources.contains_key(uri) ==> document_uses(uri, resources[uri]) is Some
        &&& forall|
            one: Seq<char>,
            k: int,
            two: Seq<char>,
            l: int,
            three: Seq<char>,
            m: int,
            uri: Seq<char>,
        |
            #[trigger] uses_uri(resources, one, k, (uri, false)) && #[trigger] uses_uri(
                resources,
                two,
                l,
                (uri, false),
            ) && #[trigger] uses_uri(resources, three, m, (uri, true)) ==> one == two && k == l
    }
}

/// The documents of a graph with the URIs under which they are filed, the root
/// first.
pub open spec fn graph_documents(
    root_uri: Seq<char>,
    root: JsonSpec,
    others: Seq<(Seq<char>, JsonSpec)>,
) -> Seq<(Seq<char>, JsonSpec)> {
    seq![(registry_uri(root_uri)->Ok_0, root)] + others.map_values(
        |other: (Seq<char>, JsonSpec)| (registry_uri(other.0)->Ok_0, other.1),
    )
}

/// The uses of URIs by the first `count` documents.
pub open spec fn documents_uses(documents: Seq<(Seq<char>, JsonSpec)>, count: int) -> Option<Uses>
    decreases count,
{
    if count <= 0 || count > documents.len() {
        Some(Seq::empty())
    } else {
        match (
            documents_uses(documents, count - 1),
            document_uses(documents[count - 1].0, documents[count - 1].1),
        ) {
            (Some(before), Some(own)) => Some(before + own),
            _ => None,
        }
    }
}

/// Whether no two uses file schemas under a URI among whose names there is one.
pub open spec fn are_told_apart(uses: Uses) -> bool {
    forall|i: int, j: int, k: int|
        #![trigger uses[i], uses[j], uses[k]]
        0 <= i < j < uses.len() && 0 <= k < uses.len() && !uses[i].1 && !uses[j].1 && uses[k].1
            && uses[i].0 == uses[j].0 ==> uses[k].0 != uses[i].0
}

/// Whether no two documents are filed under one URI.
pub open spec fn filings_differ(documents: Seq<(Seq<char>, JsonSpec)>) -> bool {
    forall|i: int, j: int|
        0 <= i < j < documents.len() ==> (#[trigger] documents[i]).0 != (#[trigger] documents[j]).0
}

/// Whether the targets that are sought by name in a graph can be told apart.
pub open spec fn graph_is_clear(documents: Seq<(Seq<char>, JsonSpec)>) -> bool {
    ||| forall|at: int|
        0 <= at < documents.len() ==> !#[trigger] document_seeks_names(documents[at])
    ||| {
        &&& documents_uses(documents, documents.len() as int) is Some
        &&& are_told_apart(documents_uses(documents, documents.len() as int)->0)
        &&& filings_differ(documents)
    }
}

proof fn document_uses_stand(documents: Seq<(Seq<char>, JsonSpec)>, at: int, count: int)
    requires
        0 <= at < count <= documents.len(),
        documents_uses(documents, count) is Some,
    ensures
        documents_uses(documents, at) is Some,
        document_uses(documents[at].0, documents[at].1) is Some,
        documents_uses(documents, at + 1) is Some,
        documents_uses(documents, at + 1)->0 == documents_uses(documents, at)->0 + document_uses(
            documents[at].0,
            documents[at].1,
        )->0,
        documents_uses(documents, at + 1)->0.len() <= documents_uses(documents, count)->0.len(),
        forall|k: int|
            0 <= k < documents_uses(documents, at + 1)->0.len() ==> documents_uses(
                documents,
                at + 1,
            )->0[k] == #[trigger] documents_uses(documents, count)->0[k],
    decreases count,
{
    if at + 1 < count {
        document_uses_stand(documents, at, count - 1);
        let before = documents_uses(documents, count - 1)->0;
        let own = document_uses(documents[count - 1].0, documents[count - 1].1)->0;
        assert(documents_uses(documents, count)->0 == before + own);
        assert forall|k: int| 0 <= k < before.len() implies before[k] == #[trigger] (before
            + own)[k] by {}
    }
}

/// Where a use of a document stands among the uses of all.
spec fn place_of(documents: Seq<(Seq<char>, JsonSpec)>, document: int, at: int) -> int {
    documents_uses(documents, document)->0.len() + at
}

proof fn use_has_its_place(documents: Seq<(Seq<char>, JsonSpec)>, document: int, at: int)
    requires
        0 <= document < documents.len(),
        documents_uses(documents, documents.len() as int) is Some,
        0 <= at < document_uses(documents[document].0, documents[document].1)->0.len(),
    ensures
        ({
            let uses = documents_uses(documents, documents.len() as int)->0;
            &&& 0 <= place_of(documents, document, at) < uses.len()
            &&& uses[place_of(documents, document, at)] == document_uses(
                documents[document].0,
                documents[document].1,
            )->0[at]
        }),
{
    let all = documents.len() as int;
    document_uses_stand(documents, document, all);
    let first = documents_uses(documents, document)->0.len() as int;
    assert(documents_uses(documents, document + 1)->0[first + at] == document_uses(
        documents[document].0,
        documents[document].1,
    )->0[at]);
    assert(documents_uses(documents, all)->0[first + at] == documents_uses(
        documents,
        document + 1,
    )->0[first + at]);
}

proof fn places_follow(documents: Seq<(Seq<char>, JsonSpec)>, one: int, two: int, k: int, l: int)
    requires
        0 <= one < two < documents.len(),
        documents_uses(documents, documents.len() as int) is Some,
        0 <= k < document_uses(documents[one].0, documents[one].1)->0.len(),
        0 <= l,
    ensures
        place_of(documents, one, k) < place_of(documents, two, l),
{
    let all = documents.len() as int;
    document_uses_stand(documents, one, all);
    document_uses_stand(documents, two, all);
    if one + 1 < two {
        document_uses_stand(documents, one, two);
    }
}

/// What is filed of a graph are documents of the graph.
proof fn filed_are_documents(
    root_uri: Seq<char>,
    root: JsonSpec,
    others: Seq<(Seq<char>, JsonSpec)>,
    count: int,
    uri: Seq<char>,
) -> (at: int)
    requires
        0 <= count <= others.len(),
        filed(root_uri, root, others, count).contains_key(uri),
    ensures
        0 <= at <= count,
        graph_documents(root_uri, root, others)[at] == (
            uri,
            filed(root_uri, root, others, count)[uri],
        ),
    decreases count,
{
    let documents = graph_documents(root_uri, root, others);
    if count == 0 {
        0
    } else if uri == registry_uri(others[count - 1].0)->Ok_0 {
        assert(documents[count] == (uri, others[count - 1].1));
        count
    } else {
        filed_are_documents(root_uri, root, others, count - 1, uri)
    }
}

proof fn root_is_filed(
    root_uri: Seq<char>,
    root: JsonSpec,
    others: Seq<(Seq<char>, JsonSpec)>,
    count: int,
)
    requires
        0 <= count <= others.len(),
    ensures
        filed(root_uri, root, others, count).contains_key(registry_uri(root_uri)->Ok_0),
    decreases count,
{
    if count > 0 {
        root_is_filed(root_uri, root, others, count - 1);
    }
}

/// In a registry of the documents of a clear graph, what is sought by name can
/// be told apart.
pub(crate) proof fn clear_graphs_are_filed_clearly(
    root_uri: Seq<char>,
    root: JsonSpec,
    others: Seq<(Seq<char>, JsonSpec)>,
)
    requires
        graph_is_clear(graph_documents(root_uri, root, others)),
    ensures
        names_are_clear(
            filed(root_uri, root, others, others.len() as int),
            registry_uri(root_uri)->Ok_0,
            root,
        ),
{
    let documents = graph_documents(root_uri, root, others);
    let count = others.len() as int;
    let resources = filed(root_uri, root, others, count);
    let root_key = registry_uri(root_uri)->Ok_0;
    assert(documents[0] == (root_key, root));
    if forall|at: int| 0 <= at < documents.len() ==> !#[trigger] document_seeks_names(documents[at]) {
        assert forall|uri: Seq<char>| #[trigger]
            resources.contains_key(uri) implies !document_seeks_names((uri, resources[uri])) by {
            let at = filed_are_documents(root_uri, root, others, count, uri);
            assert(!document_seeks_names(documents[at]));
        }
        assert(!document_seeks_names(documents[0]));
    } else {
        root_is_filed(root_uri, root, others, count);
        let at = filed_are_documents(root_uri, root, others, count, root_key);
        if at != 0 {
            assert(documents[0].0 != documents[at].0);
        }
        assert forall|uri: Seq<char>| #[trigger] resources.contains_key(uri) implies document_uses(
            uri,
            resources[uri],
        ) is Some by {
            let at = filed_are_documents(root_uri, root, others, count, uri);
            document_uses_stand(documents, at, documents.len() as int);
        }
        let uses = documents_uses(documents, documents.len() as int)->0;
        assert forall|
            one: Seq<char>,
            k: int,
            two: Seq<char>,
            l: int,
            three: Seq<char>,
            m: int,
            uri: Seq<char>,
        |
            #[trigger] uses_uri(resources, one, k, (uri, false)) && #[trigger] uses_uri(
                resources,
                two,
                l,
                (uri, false),
            ) && #[trigger] uses_uri(resources, three, m, (uri, true)) implies one == two && k
            == l by {
            let first = filed_are_documents(root_uri, root, others, count, one);
            let second = filed_are_documents(root_uri, root, others, count, two);
            let third = filed_are_documents(root_uri, root, others, count, three);
            use_has_its_place(documents, first, k);
            use_has_its_place(documents, second, l);
            use_has_its_place(documents, third, m);
            let i = place_of(documents, first, k);
            let j = place_of(documents, second, l);
            let named = place_of(documents, third, m);
            assert(uses[i] == (uri, false) && uses[j] == (uri, false) && uses[named] == (uri, true));
            if first < second {
                places_follow(documents, first, second, k, l);
            } else if second < first {
                places_follow(documents, second, first, l, k);
            }
            assert(i == j);
        }
    }
}

fn filing_uri(uri: &str) -> (filing: String)
    requires
        registry_uri(uri@) is Ok,
    ensures
        filing@ == registry_uri(uri@)->Ok_0,
        uri_fault(filing@) is None,
{
    let kept = trim(uri);
    match normalize_uri(kept.as_str()) {
        Ok(filing) => filing,
        Err(_) => {
            assert(false);
            kept
        },
    }
}

fn check_document_names(uri: &str, value: &Value) -> (seeks: bool)
    ensures
        seeks == document_seeks_names((uri@, value_content(*value))),
{
    contains(uri, "json-schema.org") || find_names(&to_json(value))
}

fn is_named_among(uri: &str, uses: &Vec<(String, bool)>) -> (named: bool)
    ensures
        named == exists|at: int|
            0 <= at < uses@.len() && #[trigger] use_views(uses@)[at] == (uri@, true),
{
    let ghost views = use_views(uses@);
    let mut at: usize = 0;
    while at < uses.len()
        invariant
            at <= uses@.len(),
            views == use_views(uses@),
            forall|k: int| 0 <= k < at ==> #[trigger] views[k] != (uri@, true),
        decreases uses.len() - at,
    {
        assert(views[at as int] == (uses@[at as int].0@, uses@[at as int].1));
        if uses[at].1 && same_text(uses[at].0.as_str(), uri) {
            return true;
        }
        at += 1;
    }
    false
}

fn check_told_apart(uses: &Vec<(String, bool)>) -> (apart: bool)
    ensures
        apart == are_told_apart(use_views(uses@)),
{
    let ghost views = use_views(uses@);
    let mut at: usize = 0;
    while at < uses.len()
        invariant
            at <= uses@.len(),
            views == use_views(uses@),
            forall|i: int, j: int, k: int|
                #![trigger views[i], views[j], views[k]]
                0 <= i < j < at && 0 <= k < views.len() && !views[i].1 && !views[j].1
                    && views[k].1 && views[i].0 == views[j].0 ==> views[k].0 != views[i].0,
        decreases uses.len() - at,
    {
        assert(views[at as int] == (uses@[at as int].0@, uses@[at as int].1));
        if !uses[at].1 && is_named_among(uses[at].0.as_str(), uses) {
            let ghost named = choose|k: int|
                0 <= k < uses@.len() && #[trigger] views[k] == (uses@[at as int].0@, true);
            let mut before: usize = 0;
            while before < at
                invariant
                    before <= at < uses@.len(),
                    views == use_views(uses@),
                    views[at as int] == (uses@[at as int].0@, false),
                    0 <= named < views.len() && views[named] == (views[at as int].0, true),
                    forall|i: int|
                        0 <= i < before && !(#[trigger] views[i]).1 ==> views[i].0
                            != views[at as int].0,
                decreases at - before,
            {
                assert(views[before as int] == (uses@[before as int].0@, uses@[before as int].1));
                if !uses[before].1 && same_text(uses[before].0.as_str(), uses[at].0.as_str()) {
                    assert(views[before as int].0 == views[at as int].0);
                    assert(!are_told_apart(views)) by {
                        assert(views[named].0 == views[before as int].0);
                    }
                    return false;
                }
                before += 1;
            }
        }
        at += 1;
    }
    true
}

fn is_listed(text: &str, texts: &Vec<String>) -> (listed: bool)
    ensures
        listed == exists|at: int| 0 <= at < texts@.len() && (#[trigger] texts@[at])@ == text@,
{
    let mut at: usize = 0;
    while at < texts.len()
        invariant
            at <= texts@.len(),
            forall|k: int| 0 <= k < at ==> (#[trigger] texts@[k])@ != text@,
        decreases texts.len() - at,
    {
        if same_text(texts[at].as_str(), text) {
            return true;
        }
        at += 1;
    }
    false
}

/// Tells whether the targets that are sought by name in a graph can be told
/// apart.
pub(crate) fn check_graph(root_uri: &str, root: &Value, others: &Vec<(String, Value)>) -> (clear:
    bool)
    requires
        registry_uri(root_uri@) is Ok,
        forall|at: int|
            0 <= at < others@.len() ==> registry_uri((#[trigger] others@[at]).0@) is Ok,
    ensures
        clear == graph_is_clear(
            graph_documents(root_uri@, value_content(*root), entry_specs(others@)),
        ),
{
    let ghost documents = graph_documents(
        root_uri@,
        value_content(*root),
        entry_specs(others@),
    );
    let ghost all = documents.len() as int;
    let filing = filing_uri(root_uri);
    assert(documents[0] == (filing@, value_content(*root)));
    let mut seeks = check_document_names(filing.as_str(), root);
    let mut uses: Vec<(String, bool)> = Vec::new();
    assert(use_views(uses@) =~= Seq::empty());
    let mut clear = collect_document_uses(filing.as_str(), root, &mut uses);
    proof {
        reveal_with_fuel(documents_uses, 2);
        if clear {
            let own = document_uses(documents[0].0, documents[0].1)->0;
            assert(Seq::<(Seq<char>, bool)>::empty() + own =~= own);
        }
    }
    let mut filings: Vec<String> = vec![filing];
    let mut distinct = true;
    let mut at: usize = 0;
    while at < others.len()
        invariant
            at <= others@.len(),
            all == documents.len() == others@.len() + 1,
            documents == graph_documents(
                root_uri@,
                value_content(*root),
                entry_specs(others@),
            ),
            forall|k: int|
                0 <= k < others@.len() ==> registry_uri((#[trigger] others@[k]).0@) is Ok,
            seeks == exists|k: int|
                0 <= k <= at && #[trigger] document_seeks_names(documents[k]),
            clear == (documents_uses(documents, at + 1) is Some),
            clear ==> use_views(uses@) == documents_uses(documents, at + 1)->0,
            filings@.len() == at + 1,
            forall|k: int| 0 <= k <= at ==> (#[trigger] filings@[k])@ == documents[k].0,
            distinct == forall|i: int, j: int|
                0 <= i < j <= at ==> (#[trigger] documents[i]).0 != (#[trigger] documents[j]).0,
        decreases others.len() - at,
    {
        let filing = filing_uri(others[at].0.as_str());
        assert(documents[at + 1] == (filing@, value_content(others@[at as int].1)));
        let own = check_document_names(filing.as_str(), &others[at].1);
        let own_clear = collect_document_uses(filing.as_str(), &others[at].1, &mut uses);
        proof {
            if own {
                assert(document_seeks_names(documents[at + 1]));
            }
            if seeks {
                let k = choose|k: int|
                    0 <= k <= at && #[trigger] document_seeks_names(documents[k]);
                assert(0 <= k <= at + 1 && document_seeks_names(documents[k]));
            }
        }
        seeks = seeks || own;
        clear = clear && own_clear;
        let repeated = is_listed(filing.as_str(), &filings);
        proof {
            if repeated {
                let k = choose|k: int|
                    0 <= k < filings@.len() && (#[trigger] filings@[k])@ == filing@;
                assert(documents[k].0 == documents[at + 1].0);
            } else {
                assert forall|i: int| 0 <= i <= at implies (#[trigger] documents[i]).0
                    != documents[at + 1].0 by {
                    assert(filings@[i]@ == documents[i].0);
                }
            }
        }
        distinct = distinct && !repeated;
        filings.push(filing);
        at += 1;
    }
    !seeks || (clear && check_told_apart(&uses) && distinct)
}

} // verus!
