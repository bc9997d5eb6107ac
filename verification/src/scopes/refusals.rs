//! What the parts of a named schema are refused for, and what they are not.

use vstd::prelude::*;

use super::constraints::locator_errors;
use super::document::{has_version, named_version_errors};
use super::locators::{parse_of, LocatorsSpec};
use super::names::reserved_purpose;
use super::rules::named_id_errors;
use crate::document_path::slug::has_slug_form;
use crate::json::{member, JsonSpec};
use crate::load_result::{SchemaErrorKind, SourceRange};
use crate::loader::places::PlacesSpec;
use crate::loader::refusals::has_kind;
use crate::loader::rules::rule_id_of;
use crate::loader::shape::Members;
use crate::schema::MatcherSpec;
use crate::text::plain_integer;

verus! {

/// The names that schemas keep for themselves are `fm` and `linkdefs`.
pub proof fn two_names_are_reserved(id: Seq<char>)
    ensures
        reserved_purpose(id) is Some <==> id == "fm"@ || id == "linkdefs"@,
{
}

/// An id has to be a slug, and no id at the top is one of the reserved names;
/// nothing else is refused.
pub proof fn named_ids_are_refused_by_their_form(
    explicit: Option<Seq<char>>,
    matcher: Option<MatcherSpec>,
    top_level: bool,
    range: SourceRange,
)
    ensures
        ({
            let errors = named_id_errors(explicit, matcher, top_level, range);
            let id = rule_id_of(explicit, matcher);
            &&& forall|at: int| 0 <= at < errors.len() ==> (#[trigger] errors[at]).range == range
            &&& has_kind(errors, SchemaErrorKind::InvalidDocumentShape) <==> (explicit matches Some(
                text,
            ) && !has_slug_form(text))
            &&& has_kind(errors, SchemaErrorKind::ReservedId) <==> top_level && (id == Some("fm"@)
                || id == Some("linkdefs"@))
            &&& errors.len() > 0 ==> has_kind(errors, SchemaErrorKind::InvalidDocumentShape)
                || has_kind(errors, SchemaErrorKind::ReservedId)
        }),
{
    let errors = named_id_errors(explicit, matcher, top_level, range);
    if errors.len() > 0 {
        assert(errors[0].range == range);
        if errors[0].kind == SchemaErrorKind::InvalidDocumentShape {
            assert(has_kind(errors, SchemaErrorKind::InvalidDocumentShape));
        } else {
            assert(has_kind(errors, SchemaErrorKind::ReservedId));
        }
    }
}

/// There is one version of named schemas; any other integer is reported as not
/// supported.
pub proof fn named_schemas_have_one_version(places: PlacesSpec, members: Members)
    ensures
        has_version(members) <==> member(members, "version"@) == Some(JsonSpec::Number("2"@)),
        has_version(members) ==> named_version_errors(places, members).len() == 0,
        has_kind(named_version_errors(places, members), SchemaErrorKind::UnsupportedVersion)
            <==> !has_version(members) && (member(members, "version"@) matches Some(
            JsonSpec::Number(spelling),
        ) && (plain_integer(spelling) matches Some(version) && i64::MIN <= version <= u64::MAX)),
{
    let errors = named_version_errors(places, members);
    if errors.len() > 0 {
        assert(errors[0].kind == SchemaErrorKind::UnsupportedVersion);
    }
}

/// Of the locators of a constraint, the malformed ones are refused, and no
/// others.
pub proof fn malformed_locators_are_refused(
    locators: LocatorsSpec,
    refs: Seq<Seq<char>>,
    range: SourceRange,
)
    ensures
        locator_errors(locators, refs, range).len() == 0 <==> forall|at: int|
            0 <= at < refs.len() ==> parse_of(locators, #[trigger] refs[at]) is Ok,
    decreases refs.len(),
{
    if refs.len() > 0 {
        let before = refs.drop_last();
        malformed_locators_are_refused(locators, before, range);
        assert(refs[refs.len() - 1] == refs.last());
        assert forall|at: int| 0 <= at < before.len() implies before[at] == refs[at] by {}
        if forall|at: int| 0 <= at < refs.len() ==> parse_of(locators, #[trigger] refs[at]) is Ok {
            assert forall|at: int| 0 <= at < before.len() implies parse_of(
                locators,
                #[trigger] before[at],
            ) is Ok by {
                assert(parse_of(locators, refs[at]) is Ok);
            }
        }
        if locator_errors(locators, refs, range).len() == 0 {
            assert forall|at: int| 0 <= at < refs.len() implies parse_of(
                locators,
                #[trigger] refs[at],
            ) is Ok by {
                if at < before.len() {
                    assert(parse_of(locators, before[at]) is Ok);
                }
            }
        }
    }
}

} // verus!
