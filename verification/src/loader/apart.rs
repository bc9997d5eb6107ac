//! Graphs whose documents have no URIs in common. In others, the order in
//! which a registry takes up the documents can decide which of two schemas
//! with one URI is found.

use vstd::prelude::*;

use super::external::declares_other_dialect;
use crate::json::JsonSpec;
use crate::json_value::{text_member, uri_resolved};
use crate::text::starts_with;

verus! {

/// The URI of a schema inside one with the URI `base`, as far as its
/// identifier can be resolved. A fragment alone identifies nothing, and an
/// empty one at the end says nothing.
pub open spec fn identified(base: Seq<char>, content: JsonSpec) -> Seq<char> {
    match text_member(content, "$id"@) {
        None => base,
        Some(identifier) => if starts_with(identifier, "#"@) {
            base
        } else {
            let kept = if identifier.len() > 0 && identifier.last() == '#' {
                identifier.drop_last()
            } else {
                identifier
            };
            match uri_resolved(base, kept) {
                Ok(uri) => uri,
                Err(_) => base,
            }
        },
    }
}

/// Whether a value that stands inside a schema with the URI `base` can give the
/// URI `uri` to a schema, by its own identifier or by one at any depth, whether
/// or not the identifiers on the way are those of schemas.
pub open spec fn can_give_uri(base: Seq<char>, content: JsonSpec, uri: Seq<char>) -> bool
    decreases content,
{
    match content {
        JsonSpec::Array(items) => exists|at: int|
            0 <= at < items.len() && #[trigger] can_give_uri(base, items[at], uri),
        JsonSpec::Object(members) => {
            ||| uri == base
            ||| uri == identified(base, content)
            ||| exists|at: int|
                0 <= at < members.len() && (can_give_uri(base, (#[trigger] members[at]).1, uri)
                    || can_give_uri(identified(base, content), members[at].1, uri))
        },
        _ => false,
    }
}

/// Whether a value declares, at any depth, another dialect than draft 2020-12.
pub open spec fn mixes_dialects(content: JsonSpec) -> bool
    decreases content,
{
    match content {
        JsonSpec::Array(items) => exists|at: int|
            0 <= at < items.len() && #[trigger] mixes_dialects(items[at]),
        JsonSpec::Object(members) => declares_other_dialect(content) || exists|at: int|
            0 <= at < members.len() && mixes_dialects((#[trigger] members[at]).1),
        _ => false,
    }
}

/// Whether no two of these documents, by the URIs under which they are filed,
/// have the URI of a schema in common, or read identifiers in different ways.
pub open spec fn documents_are_apart(documents: Map<Seq<char>, JsonSpec>) -> bool {
    forall|one: Seq<char>, two: Seq<char>|
        #![trigger documents.contains_key(one), documents.contains_key(two)]
        documents.contains_key(one) && documents.contains_key(two) && one != two
            ==> are_apart(one, documents[one], two, documents[two])
}

/// Whether two documents are apart.
pub open spec fn are_apart(
    one: Seq<char>,
    first: JsonSpec,
    two: Seq<char>,
    second: JsonSpec,
) -> bool {
    &&& !mixes_dialects(first)
    &&& !mixes_dialects(second)
    &&& forall|uri: Seq<char>|
        !(#[trigger] can_give_uri(one, first, uri) && can_give_uri(two, second, uri))
}

} // verus!
