//! Building content rules and list-item rules out of their declarations.

use vstd::prelude::*;

use super::cardinality::{build_cardinality, cardinality_of};
use super::model::{
    content_rule_specs, item_rule_specs, BlockMatcher, BlockSpec, ContentRule, ContentScope,
    ContentSpec, ItemRule, ItemScope, ItemSpec, ListKind,
};
use super::names::{reserved_purpose, reserved_root_id};
use crate::document_path::slug::{has_slug_form, HeadingSlug};
use crate::json::{get_member, item_specs, member, member_specs, Json, JsonSpec};
use crate::load_result::{
    error_specs, ContentOwner, ContentOwnerSpec, ContentRulePath, ErrorSpec, FoundNodes,
    ItemRulePath, NodeAddress, RelatedLocation, RelatedSpec, SchemaError, SchemaErrorKind,
    SchemaNode, SourceRange,
};
use crate::loader::places::{
    error_at, error_with_related_at, plain_error, range_for, shape_error, shape_error_at, Places,
    PlacesSpec,
};
use crate::loader::ranges::{ContentPlace, KeySpec, RangeKey};
use crate::loader::rules::{
    bool_field, build_matcher, matcher_of, matcher_spec, text_field, text_spec,
};
use crate::loader::shape::Members;
use crate::schema::{id_spec, AtLeastTwo, Cardinality, Matcher, MatcherSpec, RuleId};
use crate::text::{join2, join3, same_text};

verus! {

/// The fields of a content rule.
pub open spec fn is_content_field(name: Seq<char>) -> bool {
    ||| name == "id"@
    ||| name == "block"@
    ||| name == "one_of"@
    ||| name == "required"@
    ||| name == "repeat"@
    ||| name == "list_kind"@
    ||| name == "items"@
}

/// The fields of an alternative.
pub open spec fn is_alternative_field(name: Seq<char>) -> bool {
    name == "block"@ || name == "list_kind"@
}

/// The fields of an item rule.
pub open spec fn is_item_field(name: Seq<char>) -> bool {
    ||| name == "id"@
    ||| name == "match"@
    ||| name == "required"@
    ||| name == "repeat"@
}

fn names_content_field(name: &str) -> (known: bool)
    ensures
        known == is_content_field(name@),
{
    same_text(name, "id") || same_text(name, "block") || same_text(name, "one_of") || same_text(
        name,
        "required",
    ) || same_text(name, "repeat") || same_text(name, "list_kind") || same_text(name, "items")
}

fn names_item_field(name: &str) -> (known: bool)
    ensures
        known == is_item_field(name@),
{
    same_text(name, "id") || same_text(name, "match") || same_text(name, "required") || same_text(
        name,
        "repeat",
    )
}

/// Where a declaration stands.
pub open spec fn whole_range(
    places: PlacesSpec,
    owner: ContentOwnerSpec,
    place: ContentPlace,
) -> SourceRange {
    range_for(places, KeySpec::Content(owner, place))
}

/// Where the key of a field stands.
pub open spec fn key_range(
    places: PlacesSpec,
    owner: ContentOwnerSpec,
    place: ContentPlace,
    field: Seq<char>,
) -> SourceRange {
    range_for(places, KeySpec::ContentFieldKey(owner, place, field))
}

/// Where the value of a field stands.
pub open spec fn value_range(
    places: PlacesSpec,
    owner: ContentOwnerSpec,
    place: ContentPlace,
    field: Seq<char>,
) -> SourceRange {
    range_for(places, KeySpec::ContentFieldValue(owner, place, field))
}

fn get_whole_range(places: &Places, owner: &ContentOwner, place: ContentPlace) -> (range:
    SourceRange)
    ensures
        range == whole_range(places@, owner@, place),
{
    places.range(RangeKey::Content(owner.clone(), place))
}

fn get_key_range(
    places: &Places,
    owner: &ContentOwner,
    place: ContentPlace,
    field: &str,
) -> (range: SourceRange)
    ensures
        range == key_range(places@, owner@, place, field@),
{
    places.range(RangeKey::ContentFieldKey(owner.clone(), place, field.to_owned()))
}

fn get_value_range(
    places: &Places,
    owner: &ContentOwner,
    place: ContentPlace,
    field: &str,
) -> (range: SourceRange)
    ensures
        range == value_range(places@, owner@, place, field@),
{
    places.range(RangeKey::ContentFieldValue(owner.clone(), place, field.to_owned()))
}

/// An error in a content rule.
pub open spec fn content_error(range: SourceRange, message: Seq<char>) -> ErrorSpec {
    plain_error(SchemaErrorKind::InvalidContentRule, range, message)
}

fn content_error_at(errors: &mut Vec<SchemaError>, range: SourceRange, message: String)
    ensures
        error_specs(final(errors)@) == error_specs(old(errors)@).push(
            content_error(range, message@),
        ),
{
    error_at(errors, SchemaErrorKind::InvalidContentRule, range, message);
}

/// The error that a field is, where it does not belong. An alternative whose
/// block is known refuses also the fields of whole content rules.
pub open spec fn field_error(
    places: PlacesSpec,
    owner: ContentOwnerSpec,
    place: ContentPlace,
    block_known: bool,
    name: Seq<char>,
) -> Option<ErrorSpec> {
    let range = key_range(places, owner, place, name);
    let unknown = shape_error(range, "unknown field `"@ + name + "`"@);
    match place {
        ContentPlace::Rule(_) => if is_content_field(name) {
            None
        } else {
            Some(unknown)
        },
        ContentPlace::Alternative(_, _) => if !is_content_field(name) {
            Some(unknown)
        } else if block_known && !is_alternative_field(name) {
            Some(content_error(range, "`"@ + name + "` is not applicable in an alternative"@))
        } else {
            None
        },
        ContentPlace::Item(_, _) => if is_item_field(name) {
            None
        } else {
            Some(unknown)
        },
    }
}

/// The errors that the first `count` fields are.
pub open spec fn field_errors(
    places: PlacesSpec,
    owner: ContentOwnerSpec,
    place: ContentPlace,
    block_known: bool,
    members: Members,
    count: int,
) -> Seq<ErrorSpec>
    decreases count,
{
    if count <= 0 {
        Seq::empty()
    } else {
        let before = field_errors(places, owner, place, block_known, members, count - 1);
        match field_error(places, owner, place, block_known, members[count - 1].0) {
            Some(error) => before.push(error),
            None => before,
        }
    }
}

/// The errors that all fields are.
pub open spec fn all_field_errors(
    places: PlacesSpec,
    owner: ContentOwnerSpec,
    place: ContentPlace,
    block_known: bool,
    members: Members,
) -> Seq<ErrorSpec> {
    field_errors(places, owner, place, block_known, members, members.len() as int)
}

/// Refuses the fields that do not belong.
fn reject_unknown_content_fields(
    places: &Places,
    owner: &ContentOwner,
    place: ContentPlace,
    block_known: bool,
    members: &Vec<(String, Json)>,
    errors: &mut Vec<SchemaError>,
)
    ensures
        error_specs(final(errors)@) == error_specs(old(errors)@) + all_field_errors(
            places@,
            owner@,
            place,
            block_known,
            member_specs(members@),
        ),
{
    let ghost specs = member_specs(members@);
    let mut at: usize = 0;
    assert(error_specs(errors@) =~= error_specs(old(errors)@) + Seq::<ErrorSpec>::empty());
    while at < members.len()
        invariant
            at <= members@.len(),
            specs == member_specs(members@),
            error_specs(errors@) == error_specs(old(errors)@) + field_errors(
                places@,
                owner@,
                place,
                block_known,
                specs,
                at as int,
            ),
        decreases members.len() - at,
    {
        let name = members[at].0.as_str();
        let known = match place {
            ContentPlace::Item(_, _) => names_item_field(name),
            _ => names_content_field(name),
        };
        let alternative = match place {
            ContentPlace::Alternative(_, _) => true,
            _ => false,
        };
        if !known {
            shape_error_at(
                errors,
                get_key_range(places, owner, place, name),
                join3("unknown field `", name, "`"),
            );
        } else if alternative && block_known && !same_text(name, "block") && !same_text(
            name,
            "list_kind",
        ) {
            content_error_at(
                errors,
                get_key_range(places, owner, place, name),
                join3("`", name, "` is not applicable in an alternative"),
            );
        }
        assert(error_specs(errors@) =~= error_specs(old(errors)@) + field_errors(
            places@,
            owner@,
            place,
            block_known,
            specs,
            at + 1,
        ));
        at += 1;
    }
}

/// What a declaration is called in messages about its id.
pub open spec fn id_subject(place: ContentPlace) -> Seq<char> {
    match place {
        ContentPlace::Item(_, _) => "item rule"@,
        _ => "content rule"@,
    }
}

/// The id that a declaration spells, if it has the form of one.
pub open spec fn id_of(members: Members) -> Option<Seq<char>> {
    match text_field(members, "id"@) {
        Some(id) => if has_slug_form(id) {
            Some(id)
        } else {
            None
        },
        None => None,
    }
}

/// The errors in the id of a declaration.
pub open spec fn id_errors(
    places: PlacesSpec,
    owner: ContentOwnerSpec,
    place: ContentPlace,
    members: Members,
) -> Seq<ErrorSpec> {
    let range = value_range(places, owner, place, "id"@);
    match member(members, "id"@) {
        None => Seq::empty(),
        Some(JsonSpec::Text(id)) => if !has_slug_form(id) {
            seq![shape_error(range, "rule id `"@ + id + "` is not a lowercase slug"@)]
        } else if owner is Document && place is Rule && reserved_purpose(id) is Some {
            seq![
                plain_error(
                    SchemaErrorKind::ReservedId,
                    range,
                    "top-level rule id `"@ + id + "` is reserved for "@
                        + reserved_purpose(id)->0,
                ),
            ]
        } else {
            Seq::empty()
        },
        Some(_) => seq![
            shape_error(range, id_subject(place) + " `id` must be a string and cannot be null"@),
        ],
    }
}

/// Reads the id of a declaration.
fn load_explicit_id(
    places: &Places,
    owner: &ContentOwner,
    place: ContentPlace,
    members: &Vec<(String, Json)>,
    errors: &mut Vec<SchemaError>,
) -> (id: Option<RuleId>)
    ensures
        id_spec(id) == id_of(member_specs(members@)),
        error_specs(final(errors)@) == error_specs(old(errors)@) + id_errors(
            places@,
            owner@,
            place,
            member_specs(members@),
        ),
{
    let ghost expected = id_errors(places@, owner@, place, member_specs(members@));
    let value = match get_member(members, "id") {
        Some(value) => value,
        None => {
            assert(error_specs(errors@) =~= error_specs(old(errors)@) + expected);
            return None;
        },
    };
    let range = get_value_range(places, owner, place, "id");
    let id = match value.as_str() {
        Some(id) => id,
        None => {
            let subject = match place {
                ContentPlace::Item(_, _) => "item rule",
                _ => "content rule",
            };
            shape_error_at(
                errors,
                range,
                join2(subject, " `id` must be a string and cannot be null"),
            );
            assert(error_specs(errors@) =~= error_specs(old(errors)@) + expected);
            return None;
        },
    };
    if HeadingSlug::parse(id).is_none() {
        shape_error_at(errors, range, join3("rule id `", id, "` is not a lowercase slug"));
        assert(error_specs(errors@) =~= error_specs(old(errors)@) + expected);
        return None;
    }
    if matches!(owner, ContentOwner::Document) && matches!(place, ContentPlace::Rule(_)) {
        if let Some(purpose) = reserved_root_id(id) {
            error_at(
                errors,
                SchemaErrorKind::ReservedId,
                range,
                join2(join3("top-level rule id `", id, "` is reserved for ").as_str(), purpose),
            );
        }
    }
    assert(error_specs(errors@) =~= error_specs(old(errors)@) + expected);
    Some(RuleId(id.to_owned()))
}

/// What a declaration is called in messages about its cardinality.
pub open spec fn cardinality_subject(place: ContentPlace) -> Seq<char> {
    match place {
        ContentPlace::Item(_, _) => "item rule"@,
        _ => "rule"@,
    }
}

/// The errors in the shape of a declaration's cardinality.
pub open spec fn cardinality_shape_errors(
    places: PlacesSpec,
    owner: ContentOwnerSpec,
    place: ContentPlace,
    members: Members,
) -> Seq<ErrorSpec> {
    (match member(members, "required"@) {
        None | Some(JsonSpec::Bool(_)) => Seq::empty(),
        Some(_) => seq![
            shape_error(
                value_range(places, owner, place, "required"@),
                cardinality_subject(place) + " `required` must be a bool and cannot be null"@,
            ),
        ],
    }) + (match member(members, "repeat"@) {
        None | Some(JsonSpec::Text(_)) => Seq::empty(),
        Some(_) => seq![
            shape_error(
                value_range(places, owner, place, "repeat"@),
                cardinality_subject(place) + " `repeat` must be a string and cannot be null"@,
            ),
        ],
    })
}

/// Where a declaration's cardinality is spelled, or `otherwise`.
pub open spec fn cardinality_range(
    places: PlacesSpec,
    owner: ContentOwnerSpec,
    place: ContentPlace,
    members: Members,
    otherwise: SourceRange,
) -> SourceRange {
    if text_field(members, "repeat"@) is Some {
        value_range(places, owner, place, "repeat"@)
    } else if bool_field(members, "required"@) is Some {
        value_range(places, owner, place, "required"@)
    } else {
        otherwise
    }
}

/// What reading a cardinality yields.
#[verifier::ext_equal]
pub struct CardinalityRead {
    /// The cardinality, if it could be read.
    pub value: Option<Cardinality>,
    /// The errors.
    pub errors: Seq<ErrorSpec>,
}

/// What reading a declaration's cardinality yields. Without `implicit`, a
/// declaration that spells none is in error, but only where one is `due`.
pub open spec fn cardinality_read(
    places: PlacesSpec,
    owner: ContentOwnerSpec,
    place: ContentPlace,
    members: Members,
    implicit: bool,
    due: bool,
    otherwise: SourceRange,
) -> CardinalityRead {
    let shape = cardinality_shape_errors(places, owner, place, members);
    let required = bool_field(members, "required"@);
    let repeat = text_field(members, "repeat"@);
    if shape.len() > 0 || !(due || required is Some || repeat is Some) {
        CardinalityRead { value: None, errors: shape }
    } else {
        match cardinality_of(
            required,
            repeat,
            implicit,
            cardinality_range(places, owner, place, members, otherwise),
        ) {
            Ok(cardinality) => CardinalityRead { value: Some(cardinality), errors: Seq::empty() },
            Err(error) => CardinalityRead { value: None, errors: seq![error] },
        }
    }
}

/// Reads a declaration's cardinality.
fn load_content_cardinality(
    places: &Places,
    owner: &ContentOwner,
    place: ContentPlace,
    members: &Vec<(String, Json)>,
    implicit: bool,
    due: bool,
    otherwise: SourceRange,
    errors: &mut Vec<SchemaError>,
) -> (cardinality: Option<Cardinality>)
    ensures
        ({
            let read = cardinality_read(
                places@,
                owner@,
                place,
                member_specs(members@),
                implicit,
                due,
                otherwise,
            );
            &&& cardinality == read.value
            &&& error_specs(final(errors)@) == error_specs(old(errors)@) + read.errors
        }),
{
    let ghost specs = member_specs(members@);
    let ghost shape = cardinality_shape_errors(places@, owner@, place, specs);
    let ghost read = cardinality_read(places@, owner@, place, specs, implicit, due, otherwise);
    let subject = match place {
        ContentPlace::Item(_, _) => "item rule",
        _ => "rule",
    };
    let mut shape_valid = true;
    let required = match get_member(members, "required") {
        Some(value) => match value.as_bool() {
            Some(required) => Some(required),
            None => {
                shape_valid = false;
                shape_error_at(
                    errors,
                    get_value_range(places, owner, place, "required"),
                    join2(subject, " `required` must be a bool and cannot be null"),
                );
                None
            },
        },
        None => None,
    };
    let repeat = match get_member(members, "repeat") {
        Some(value) => match value.as_str() {
            Some(repeat) => Some(repeat),
            None => {
                shape_valid = false;
                shape_error_at(
                    errors,
                    get_value_range(places, owner, place, "repeat"),
                    join2(subject, " `repeat` must be a string and cannot be null"),
                );
                None
            },
        },
        None => None,
    };
    assert(required == bool_field(specs, "required"@));
    assert(text_spec(repeat) == text_field(specs, "repeat"@));
    assert(error_specs(errors@) =~= error_specs(old(errors)@) + shape);
    if !shape_valid || !(due || required.is_some() || repeat.is_some()) {
        assert(read.errors == shape);
        return None;
    }
    assert(shape =~= Seq::empty());
    let range = if repeat.is_some() {
        get_value_range(places, owner, place, "repeat")
    } else if required.is_some() {
        get_value_range(places, owner, place, "required")
    } else {
        otherwise
    };
    let cardinality = build_cardinality(required, repeat, implicit, range, errors);
    assert(error_specs(errors@) =~= error_specs(old(errors)@) + read.errors);
    cardinality
}

/// A kind of block.
#[derive(Debug, Clone, Copy, PartialEq, Eq, Structural)]
pub enum Block {
    /// `p`
    Paragraph,
    /// `list`
    List,
    /// `any`
    Any,
}

/// The kind of block that a value spells.
pub open spec fn block_of(value: JsonSpec) -> Option<Block> {
    match value {
        JsonSpec::Text(name) => if name == "p"@ {
            Some(Block::Paragraph)
        } else if name == "list"@ {
            Some(Block::List)
        } else if name == "any"@ {
            Some(Block::Any)
        } else {
            None
        },
        _ => None,
    }
}

fn read_block(value: &Json) -> (block: Option<Block>)
    ensures
        block == block_of(value@),
{
    match value.as_str() {
        Some(name) => if same_text(name, "p") {
            Some(Block::Paragraph)
        } else if same_text(name, "list") {
            Some(Block::List)
        } else if same_text(name, "any") {
            Some(Block::Any)
        } else {
            None
        },
        None => None,
    }
}

/// The kind of list that a value spells, where `any` is no kind.
pub open spec fn list_kind_named(value: JsonSpec) -> Option<Option<ListKind>> {
    match value {
        JsonSpec::Text(name) => if name == "bullet"@ {
            Some(Some(ListKind::Bullet))
        } else if name == "ordered"@ {
            Some(Some(ListKind::Ordered))
        } else if name == "any"@ {
            Some(None)
        } else {
            None
        },
        _ => None,
    }
}

/// The kind of list that a declaration admits.
pub open spec fn list_kind_of(members: Members) -> Option<ListKind> {
    match member(members, "list_kind"@) {
        None => None,
        Some(value) => match list_kind_named(value) {
            Some(kind) => kind,
            None => None,
        },
    }
}

/// How messages about a declaration's fields begin.
pub open spec fn field_subject(place: ContentPlace) -> Seq<char> {
    match place {
        ContentPlace::Alternative(_, _) => "alternative "@,
        _ => ""@,
    }
}

/// The errors in the kind of list that a declaration spells.
pub open spec fn list_kind_errors(
    places: PlacesSpec,
    owner: ContentOwnerSpec,
    place: ContentPlace,
    members: Members,
) -> Seq<ErrorSpec> {
    match member(members, "list_kind"@) {
        None => Seq::empty(),
        Some(value) => if list_kind_named(value) is Some {
            Seq::empty()
        } else {
            seq![
                content_error(
                    value_range(places, owner, place, "list_kind"@),
                    field_subject(place)
                        + "`list_kind` must be one of `bullet`, `ordered`, or `any`"@,
                ),
            ]
        },
    }
}

/// Reads the kind of list that a declaration spells.
fn load_list_kind(
    places: &Places,
    owner: &ContentOwner,
    place: ContentPlace,
    members: &Vec<(String, Json)>,
    errors: &mut Vec<SchemaError>,
) -> (kind: Option<ListKind>)
    ensures
        kind == list_kind_of(member_specs(members@)),
        error_specs(final(errors)@) == error_specs(old(errors)@) + list_kind_errors(
            places@,
            owner@,
            place,
            member_specs(members@),
        ),
{
    let ghost expected = list_kind_errors(places@, owner@, place, member_specs(members@));
    let value = match get_member(members, "list_kind") {
        Some(value) => value,
        None => {
            assert(error_specs(errors@) =~= error_specs(old(errors)@) + expected);
            return None;
        },
    };
    if let Some(name) = value.as_str() {
        if same_text(name, "bullet") {
            assert(error_specs(errors@) =~= error_specs(old(errors)@) + expected);
            return Some(ListKind::Bullet);
        }
        if same_text(name, "ordered") {
            assert(error_specs(errors@) =~= error_specs(old(errors)@) + expected);
            return Some(ListKind::Ordered);
        }
        if same_text(name, "any") {
            assert(error_specs(errors@) =~= error_specs(old(errors)@) + expected);
            return None;
        }
    }
    let subject = match place {
        ContentPlace::Alternative(_, _) => "alternative ",
        _ => "",
    };
    content_error_at(
        errors,
        get_value_range(places, owner, place, "list_kind"),
        join2(subject, "`list_kind` must be one of `bullet`, `ordered`, or `any`"),
    );
    assert(error_specs(errors@) =~= error_specs(old(errors)@) + expected);
    None
}

/// The error that a field for lists is in another declaration.
pub open spec fn inapplicable_errors(
    places: PlacesSpec,
    owner: ContentOwnerSpec,
    place: ContentPlace,
    members: Members,
    field: Seq<char>,
) -> Seq<ErrorSpec> {
    match member(members, field) {
        None => Seq::empty(),
        Some(_) => seq![
            content_error(
                key_range(places, owner, place, field),
                field_subject(place) + "`"@ + field + "` is only applicable to `block: list`"@,
            ),
        ],
    }
}

/// Refuses a field for lists in another declaration.
fn reject_inapplicable(
    places: &Places,
    owner: &ContentOwner,
    place: ContentPlace,
    members: &Vec<(String, Json)>,
    field: &str,
    errors: &mut Vec<SchemaError>,
)
    ensures
        error_specs(final(errors)@) == error_specs(old(errors)@) + inapplicable_errors(
            places@,
            owner@,
            place,
            member_specs(members@),
            field@,
        ),
{
    if get_member(members, field).is_some() {
        let subject = match place {
            ContentPlace::Alternative(_, _) => "alternative ",
            _ => "",
        };
        content_error_at(
            errors,
            get_key_range(places, owner, place, field),
            join2(
                join3(subject, "`", field).as_str(),
                "` is only applicable to `block: list`",
            ),
        );
    }
    assert(error_specs(errors@) =~= error_specs(old(errors)@) + inapplicable_errors(
        places@,
        owner@,
        place,
        member_specs(members@),
        field@,
    ));
}

/// The errors in how an item rule spells its matcher.
#[verifier::opaque]
pub open spec fn match_shape_errors(
    places: PlacesSpec,
    owner: ContentOwnerSpec,
    place: ContentPlace,
    members: Members,
) -> Seq<ErrorSpec> {
    match member(members, "match"@) {
        Some(JsonSpec::Text(_)) => Seq::empty(),
        Some(_) => seq![
            shape_error(
                value_range(places, owner, place, "match"@),
                "item rule `match` must be a string and cannot be null"@,
            ),
        ],
        None => seq![
            shape_error(
                whole_range(places, owner, place),
                "item rule is missing required field `match`"@,
            ),
        ],
    }
}

/// The matcher that an item rule declares, and the error in it.
#[verifier::opaque]
pub open spec fn item_matcher(
    places: PlacesSpec,
    owner: ContentOwnerSpec,
    place: ContentPlace,
    members: Members,
    match_case: bool,
) -> (Option<MatcherSpec>, Seq<ErrorSpec>) {
    match text_field(members, "match"@) {
        None => (None, Seq::empty()),
        Some(source) => match matcher_of(
            source,
            match_case,
            value_range(places, owner, place, "match"@),
        ) {
            Ok(matcher) => (Some(matcher), Seq::empty()),
            Err(error) => (None, seq![error]),
        },
    }
}

/// What reading an item rule's cardinality yields.
pub open spec fn item_cardinality(
    places: PlacesSpec,
    owner: ContentOwnerSpec,
    place: ContentPlace,
    members: Members,
    match_case: bool,
) -> CardinalityRead {
    let matcher = item_matcher(places, owner, place, members, match_case).0;
    cardinality_read(
        places,
        owner,
        place,
        members,
        matcher matches Some(MatcherSpec::Exact(_)),
        matcher is Some,
        value_range(places, owner, place, "match"@),
    )
}

/// The errors in an item rule.
pub open spec fn item_errors(
    places: PlacesSpec,
    owner: ContentOwnerSpec,
    place: ContentPlace,
    value: JsonSpec,
    match_case: bool,
) -> Seq<ErrorSpec> {
    match value {
        JsonSpec::Object(members) => all_field_errors(places, owner, place, false, members)
            + id_errors(places, owner, place, members) + match_shape_errors(
            places,
            owner,
            place,
            members,
        ) + item_matcher(places, owner, place, members, match_case).1 + item_cardinality(
            places,
            owner,
            place,
            members,
            match_case,
        ).errors,
        _ => seq![
            content_error(whole_range(places, owner, place), "each item rule must be a mapping"@),
        ],
    }
}

/// The item rule that an object without errors declares.
pub open spec fn item_of(
    places: PlacesSpec,
    owner: ContentOwnerSpec,
    place: ContentPlace,
    members: Members,
    match_case: bool,
) -> ItemSpec {
    ItemSpec {
        id: id_of(members),
        matcher: item_matcher(places, owner, place, members, match_case).0->0,
        cardinality: item_cardinality(places, owner, place, members, match_case).value->0,
    }
}

/// The item rule that a value without errors declares.
pub open spec fn item_value(
    places: PlacesSpec,
    owner: ContentOwnerSpec,
    place: ContentPlace,
    value: JsonSpec,
    match_case: bool,
) -> ItemSpec {
    match value {
        JsonSpec::Object(members) => item_of(places, owner, place, members, match_case),
        _ => arbitrary(),
    }
}

/// Builds the matcher of an item rule.
fn build_item_matcher(
    places: &Places,
    owner: &ContentOwner,
    place: ContentPlace,
    members: &Vec<(String, Json)>,
    match_case: bool,
    errors: &mut Vec<SchemaError>,
) -> (matcher: Option<Matcher>)
    ensures
        ({
            let specs = member_specs(members@);
            let found = item_matcher(places@, owner@, place, specs, match_case);
            &&& matcher_spec(matcher) == found.0
            &&& error_specs(final(errors)@) == error_specs(old(errors)@) + match_shape_errors(
                places@,
                owner@,
                place,
                specs,
            ) + found.1
            &&& matcher is None ==> match_shape_errors(places@, owner@, place, specs).len()
                + found.1.len() > 0
        }),
{
    reveal(match_shape_errors);
    reveal(item_matcher);
    let ghost start = error_specs(errors@);
    let ghost specs = member_specs(members@);
    let ghost shape = match_shape_errors(places@, owner@, place, specs);
    let ghost found = item_matcher(places@, owner@, place, specs, match_case);
    let whole = get_whole_range(places, owner, place);
    let range = get_value_range(places, owner, place, "match");
    let source = match get_member(members, "match") {
        Some(value) => match value.as_str() {
            Some(source) => Some(source),
            None => {
                shape_error_at(
                    errors,
                    range,
                    "item rule `match` must be a string and cannot be null".to_owned(),
                );
                None
            },
        },
        None => {
            shape_error_at(
                errors,
                whole,
                "item rule is missing required field `match`".to_owned(),
            );
            None
        },
    };
    assert(text_spec(source) == text_field(specs, "match"@));
    assert(error_specs(errors@) =~= start + shape);
    let matcher = match source {
        Some(source) => build_matcher(source, match_case, range, errors),
        None => None,
    };
    assert(error_specs(errors@) =~= start + shape + found.1);
    matcher
}

/// Builds an item rule. It is built exactly where nothing is wrong with it.
pub fn build_item_rule(
    places: &Places,
    owner: &ContentOwner,
    place: ContentPlace,
    value: &Json,
    match_case: bool,
    errors: &mut Vec<SchemaError>,
) -> (rule: Option<ItemRule>)
    requires
        place is Item,
    ensures
        ({
            let expected = item_errors(places@, owner@, place, value@, match_case);
            &&& rule is Some <==> expected.len() == 0
            &&& rule matches Some(rule) ==> rule@ == item_value(
                places@,
                owner@,
                place,
                value@,
                match_case,
            )
            &&& error_specs(final(errors)@) == error_specs(old(errors)@) + expected
        }),
{
    let ghost expected = item_errors(places@, owner@, place, value@, match_case);
    let ghost start = error_specs(errors@);
    let before = errors.len();
    let whole = get_whole_range(places, owner, place);
    let members = match value.as_object() {
        Some(members) => members,
        None => {
            content_error_at(errors, whole, "each item rule must be a mapping".to_owned());
            assert(error_specs(errors@) =~= start + expected);
            return None;
        },
    };
    let ghost specs = member_specs(members@);
    reject_unknown_content_fields(places, owner, place, false, members, errors);
    let ghost fields = all_field_errors(places@, owner@, place, false, specs);
    let id = load_explicit_id(places, owner, place, members, errors);
    let ghost ids = id_errors(places@, owner@, place, specs);
    assert(error_specs(errors@) =~= start + fields + ids);
    let ghost shape = match_shape_errors(places@, owner@, place, specs);
    let ghost found = item_matcher(places@, owner@, place, specs, match_case);
    let range = get_value_range(places, owner, place, "match");
    let matcher = build_item_matcher(places, owner, place, members, match_case, errors);
    assert(error_specs(errors@) =~= start + fields + ids + shape + found.1);
    let exact = match &matcher {
        Some(Matcher::Exact(_)) => true,
        _ => false,
    };
    let cardinality = load_content_cardinality(
        places,
        owner,
        place,
        members,
        exact,
        matcher.is_some(),
        range,
        errors,
    );
    assert(error_specs(errors@) =~= start + expected);
    assert(error_specs(errors@).len() == before + expected.len());
    if errors.len() != before {
        return None;
    }
    match (matcher, cardinality) {
        (Some(matcher), Some(cardinality)) => Some(ItemRule { id, matcher, cardinality }),
        _ => None,
    }
}

/// The errors in the first `count` item rules of a list.
pub open spec fn item_list_errors(
    places: PlacesSpec,
    owner: ContentOwnerSpec,
    rule: usize,
    values: Seq<JsonSpec>,
    match_case: bool,
    count: int,
) -> Seq<ErrorSpec>
    decreases count,
{
    if count <= 0 {
        Seq::empty()
    } else {
        item_list_errors(places, owner, rule, values, match_case, count - 1) + item_errors(
            places,
            owner,
            ContentPlace::Item(rule, (count - 1) as usize),
            values[count - 1],
            match_case,
        )
    }
}

/// The errors in the item rules that a content rule declares.
pub open spec fn item_scope_errors(
    places: PlacesSpec,
    owner: ContentOwnerSpec,
    rule: usize,
    members: Members,
    match_case: bool,
) -> Seq<ErrorSpec> {
    match member(members, "items"@) {
        None => Seq::empty(),
        Some(JsonSpec::Array(values)) => item_list_errors(
            places,
            owner,
            rule,
            values,
            match_case,
            values.len() as int,
        ),
        Some(_) => seq![
            content_error(
                value_range(places, owner, ContentPlace::Rule(rule), "items"@),
                "`items` must be a sequence and cannot be null"@,
            ),
        ],
    }
}

/// The item rules that a content rule without errors declares.
pub open spec fn item_scope_of(
    places: PlacesSpec,
    owner: ContentOwnerSpec,
    rule: usize,
    members: Members,
    match_case: bool,
) -> Option<Seq<ItemSpec>> {
    match member(members, "items"@) {
        Some(JsonSpec::Array(values)) => Some(
            Seq::new(
                values.len(),
                |at: int|
                    item_value(
                        places,
                        owner,
                        ContentPlace::Item(rule, at as usize),
                        values[at],
                        match_case,
                    ),
            ),
        ),
        _ => None,
    }
}

/// Builds the item rules that a content rule declares.
fn build_item_scope(
    places: &Places,
    owner: &ContentOwner,
    rule: usize,
    members: &Vec<(String, Json)>,
    match_case: bool,
    errors: &mut Vec<SchemaError>,
) -> (items: ItemScope)
    ensures
        ({
            let specs = member_specs(members@);
            let expected = item_scope_errors(places@, owner@, rule, specs, match_case);
            &&& error_specs(final(errors)@) == error_specs(old(errors)@) + expected
            &&& expected.len() == 0 ==> items@ == item_scope_of(
                places@,
                owner@,
                rule,
                specs,
                match_case,
            )
        }),
{
    let ghost specs = member_specs(members@);
    let ghost expected = item_scope_errors(places@, owner@, rule, specs, match_case);
    let value = match get_member(members, "items") {
        Some(value) => value,
        None => {
            assert(error_specs(errors@) =~= error_specs(old(errors)@) + expected);
            return ItemScope::Omitted;
        },
    };
    let entries = match value.as_array() {
        Some(entries) => entries,
        None => {
            content_error_at(
                errors,
                get_value_range(places, owner, ContentPlace::Rule(rule), "items"),
                "`items` must be a sequence and cannot be null".to_owned(),
            );
            assert(error_specs(errors@) =~= error_specs(old(errors)@) + expected);
            return ItemScope::Omitted;
        },
    };
    let ghost values = item_specs(entries@);
    let mut rules: Vec<ItemRule> = Vec::new();
    let mut at: usize = 0;
    assert(error_specs(errors@) =~= error_specs(old(errors)@) + Seq::<ErrorSpec>::empty());
    while at < entries.len()
        invariant
            at <= entries@.len(),
            values == item_specs(entries@),
            error_specs(errors@) == error_specs(old(errors)@) + item_list_errors(
                places@,
                owner@,
                rule,
                values,
                match_case,
                at as int,
            ),
            item_list_errors(places@, owner@, rule, values, match_case, at as int).len() == 0
                ==> rules@.len() == at && forall|k: int|
                0 <= k < at ==> (#[trigger] rules@[k])@ == item_value(
                    places@,
                    owner@,
                    ContentPlace::Item(rule, k as usize),
                    values[k],
                    match_case,
                ),
        decreases entries.len() - at,
    {
        let built = build_item_rule(
            places,
            owner,
            ContentPlace::Item(rule, at),
            &entries[at],
            match_case,
            errors,
        );
        match built {
            Some(item) => {
                rules.push(item);
            },
            None => {},
        }
        assert(error_specs(errors@) =~= error_specs(old(errors)@) + item_list_errors(
            places@,
            owner@,
            rule,
            values,
            match_case,
            at + 1,
        ));
        at += 1;
    }
    proof {
        if expected.len() == 0 {
            assert(item_rule_specs(rules@) =~= item_scope_of(
                places@,
                owner@,
                rule,
                specs,
                match_case,
            )->0);
        }
    }
    ItemScope::Declared(rules)
}

/// What reading one alternative yields.
#[verifier::ext_equal]
pub struct AlternativeRead {
    /// What blocks it matches, if nothing is wrong with it.
    pub block: Option<BlockMatcher>,
    /// The errors.
    pub errors: Seq<ErrorSpec>,
}

/// The blocks that an alternative of a known block matches.
pub open spec fn alternative_block(block: Block, members: Members) -> BlockMatcher {
    match block {
        Block::Paragraph => BlockMatcher::Paragraph,
        Block::List => BlockMatcher::List { list_kind: list_kind_of(members) },
        Block::Any => BlockMatcher::Any,
    }
}

/// What reading an alternative yields.
pub open spec fn alternative_read(
    places: PlacesSpec,
    owner: ContentOwnerSpec,
    place: ContentPlace,
    value: JsonSpec,
) -> AlternativeRead {
    match value {
        JsonSpec::Object(members) => match member(members, "block"@) {
            None => AlternativeRead {
                block: None,
                errors: seq![
                    content_error(
                        whole_range(places, owner, place),
                        "each `one_of` alternative must declare exactly one `block`"@,
                    ),
                ] + all_field_errors(places, owner, place, false, members),
            },
            Some(value) => match block_of(value) {
                None => AlternativeRead {
                    block: None,
                    errors: seq![
                        content_error(
                            key_range(places, owner, place, "block"@),
                            "alternative `block` must be one of `p`, `list`, or `any`"@,
                        ),
                    ] + all_field_errors(places, owner, place, false, members),
                },
                Some(block) => {
                    let errors = all_field_errors(places, owner, place, true, members) + if block
                        == Block::List {
                        list_kind_errors(places, owner, place, members)
                    } else {
                        inapplicable_errors(places, owner, place, members, "list_kind"@)
                    };
                    AlternativeRead {
                        block: if errors.len() == 0 {
                            Some(alternative_block(block, members))
                        } else {
                            None
                        },
                        errors,
                    }
                },
            },
        },
        _ => AlternativeRead {
            block: None,
            errors: seq![
                content_error(
                    whole_range(places, owner, place),
                    "each `one_of` alternative must be a mapping"@,
                ),
            ],
        },
    }
}

/// Reads one alternative.
fn load_alternative(
    places: &Places,
    owner: &ContentOwner,
    place: ContentPlace,
    value: &Json,
    errors: &mut Vec<SchemaError>,
) -> (block: Option<BlockMatcher>)
    requires
        place is Alternative,
    ensures
        ({
            let read = alternative_read(places@, owner@, place, value@);
            &&& block == read.block
            &&& error_specs(final(errors)@) == error_specs(old(errors)@) + read.errors
        }),
{
    let ghost read = alternative_read(places@, owner@, place, value@);
    let ghost start = error_specs(errors@);
    let before = errors.len();
    let members = match value.as_object() {
        Some(members) => members,
        None => {
            content_error_at(
                errors,
                get_whole_range(places, owner, place),
                "each `one_of` alternative must be a mapping".to_owned(),
            );
            assert(error_specs(errors@) =~= start + read.errors);
            return None;
        },
    };
    let spelled = match get_member(members, "block") {
        Some(spelled) => spelled,
        None => {
            content_error_at(
                errors,
                get_whole_range(places, owner, place),
                "each `one_of` alternative must declare exactly one `block`".to_owned(),
            );
            reject_unknown_content_fields(places, owner, place, false, members, errors);
            assert(error_specs(errors@) =~= start + read.errors);
            return None;
        },
    };
    let block = match read_block(spelled) {
        Some(block) => block,
        None => {
            content_error_at(
                errors,
                get_key_range(places, owner, place, "block"),
                "alternative `block` must be one of `p`, `list`, or `any`".to_owned(),
            );
            reject_unknown_content_fields(places, owner, place, false, members, errors);
            assert(error_specs(errors@) =~= start + read.errors);
            return None;
        },
    };
    reject_unknown_content_fields(places, owner, place, true, members, errors);
    let matcher = match block {
        Block::List => BlockMatcher::List {
            list_kind: load_list_kind(places, owner, place, members, errors),
        },
        Block::Paragraph => {
            reject_inapplicable(places, owner, place, members, "list_kind", errors);
            BlockMatcher::Paragraph
        },
        Block::Any => {
            reject_inapplicable(places, owner, place, members, "list_kind", errors);
            BlockMatcher::Any
        },
    };
    assert(error_specs(errors@) =~= start + read.errors);
    assert(error_specs(errors@).len() == before + read.errors.len());
    if errors.len() == before {
        Some(matcher)
    } else {
        None
    }
}

/// Where the first of `blocks` that equals `block` stands.
pub open spec fn first_equivalent(
    blocks: Seq<(BlockMatcher, SourceRange)>,
    block: BlockMatcher,
) -> Option<SourceRange>
    decreases blocks.len(),
{
    if blocks.len() == 0 {
        None
    } else {
        match first_equivalent(blocks.drop_last(), block) {
            Some(range) => Some(range),
            None => if blocks.last().0 == block {
                Some(blocks.last().1)
            } else {
                None
            },
        }
    }
}

fn find_equivalent(blocks: &Vec<(BlockMatcher, SourceRange)>, block: &BlockMatcher) -> (range:
    Option<SourceRange>)
    ensures
        range == first_equivalent(blocks@, *block),
{
    let mut found: Option<SourceRange> = None;
    let mut at: usize = 0;
    while at < blocks.len()
        invariant
            at <= blocks@.len(),
            found == first_equivalent(blocks@.take(at as int), *block),
        decreases blocks.len() - at,
    {
        proof {
            assert(blocks@.take(at + 1).drop_last() =~= blocks@.take(at as int));
        }
        if found.is_none() && blocks[at].0.same(block) {
            found = Some(blocks[at].1);
        }
        at += 1;
    }
    assert(blocks@.take(at as int) =~= blocks@);
    found
}

/// What reading alternatives yields.
#[verifier::ext_equal]
pub struct ChoiceRead {
    /// The blocks that they match, each once, with the place of its first
    /// alternative.
    pub blocks: Seq<(BlockMatcher, SourceRange)>,
    /// The errors.
    pub errors: Seq<ErrorSpec>,
}

/// What reading the first `count` alternatives of a content rule yields.
pub open spec fn choice_read(
    places: PlacesSpec,
    owner: ContentOwnerSpec,
    rule: usize,
    values: Seq<JsonSpec>,
    count: int,
) -> ChoiceRead
    decreases count,
{
    if count <= 0 {
        ChoiceRead { blocks: Seq::empty(), errors: Seq::empty() }
    } else {
        let before = choice_read(places, owner, rule, values, count - 1);
        let place = ContentPlace::Alternative(rule, (count - 1) as usize);
        let range = whole_range(places, owner, place);
        let read = alternative_read(places, owner, place, values[count - 1]);
        match read.block {
            None => ChoiceRead { errors: before.errors + read.errors, ..before },
            Some(block) => match first_equivalent(before.blocks, block) {
                None => ChoiceRead {
                    blocks: before.blocks.push((block, range)),
                    errors: before.errors + read.errors,
                },
                Some(first) => ChoiceRead {
                    blocks: before.blocks,
                    errors: (before.errors + read.errors).push(
                        ErrorSpec {
                            kind: SchemaErrorKind::InvalidContentRule,
                            range,
                            related: seq![
                                RelatedSpec {
                                    range: first,
                                    message: "first equivalent alternative declared here"@,
                                },
                            ],
                            message: "duplicate normalized `one_of` alternative"@,
                        },
                    ),
                },
            },
        }
    }
}

/// The errors in the alternatives of a content rule.
pub open spec fn choice_errors(
    places: PlacesSpec,
    owner: ContentOwnerSpec,
    rule: usize,
    values: Seq<JsonSpec>,
) -> Seq<ErrorSpec> {
    if values.len() < 2 {
        seq![
            content_error(
                value_range(places, owner, ContentPlace::Rule(rule), "one_of"@),
                "`one_of` requires at least two alternatives"@,
            ),
        ]
    } else {
        choice_read(places, owner, rule, values, values.len() as int).errors
    }
}

/// The blocks that alternatives without errors match.
pub open spec fn choice_of(
    places: PlacesSpec,
    owner: ContentOwnerSpec,
    rule: usize,
    values: Seq<JsonSpec>,
) -> Seq<BlockMatcher> {
    choice_read(places, owner, rule, values, values.len() as int).blocks.map_values(
        |entry: (BlockMatcher, SourceRange)| entry.0,
    )
}

/// Alternatives without errors match different blocks, one each.
pub proof fn alternatives_differ(
    places: PlacesSpec,
    owner: ContentOwnerSpec,
    rule: usize,
    values: Seq<JsonSpec>,
    count: int,
)
    requires
        0 <= count <= values.len(),
    ensures
        ({
            let read = choice_read(places, owner, rule, values, count);
            &&& forall|left: int, right: int|
                0 <= left < right < read.blocks.len() ==> (#[trigger] read.blocks[left]).0 != (
                #[trigger] read.blocks[right]).0
            &&& read.errors.len() == 0 ==> read.blocks.len() == count
            &&& read.blocks.len() <= count
        }),
    decreases count,
{
    if count > 0 {
        alternatives_differ(places, owner, rule, values, count - 1);
        let before = choice_read(places, owner, rule, values, count - 1);
        let place = ContentPlace::Alternative(rule, (count - 1) as usize);
        let read = alternative_read(places, owner, place, values[count - 1]);
        if let Some(block) = read.block {
            first_equivalent_finds(before.blocks, block);
        }
    }
}

proof fn first_equivalent_finds(blocks: Seq<(BlockMatcher, SourceRange)>, block: BlockMatcher)
    ensures
        first_equivalent(blocks, block) is None ==> forall|at: int|
            0 <= at < blocks.len() ==> (#[trigger] blocks[at]).0 != block,
    decreases blocks.len(),
{
    if blocks.len() > 0 {
        first_equivalent_finds(blocks.drop_last(), block);
        assert forall|at: int|
            first_equivalent(blocks, block) is None && 0 <= at < blocks.len() implies (
        #[trigger] blocks[at]).0 != block by {
            if at < blocks.len() - 1 {
                assert(blocks.drop_last()[at] == blocks[at]);
            }
        }
    }
}

/// Reads the alternatives of a content rule. They are given exactly where
/// nothing is wrong with them.
pub fn load_one_of(
    places: &Places,
    owner: &ContentOwner,
    rule: usize,
    alternatives: &Vec<Json>,
    errors: &mut Vec<SchemaError>,
) -> (blocks: Option<AtLeastTwo<BlockMatcher>>)
    ensures
        ({
            let values = item_specs(alternatives@);
            let expected = choice_errors(places@, owner@, rule, values);
            &&& blocks is Some <==> expected.len() == 0
            &&& blocks matches Some(blocks) ==> blocks.all() == choice_of(
                places@,
                owner@,
                rule,
                values,
            )
            &&& error_specs(final(errors)@) == error_specs(old(errors)@) + expected
        }),
{
    let ghost values = item_specs(alternatives@);
    let ghost expected = choice_errors(places@, owner@, rule, values);
    let ghost start = error_specs(errors@);
    let before = errors.len();
    if alternatives.len() < 2 {
        content_error_at(
            errors,
            get_value_range(places, owner, ContentPlace::Rule(rule), "one_of"),
            "`one_of` requires at least two alternatives".to_owned(),
        );
        assert(error_specs(errors@) =~= start + expected);
        return None;
    }
    let mut found: Vec<(BlockMatcher, SourceRange)> = Vec::new();
    let mut blocks: Vec<BlockMatcher> = Vec::new();
    let mut at: usize = 0;
    assert(error_specs(errors@) =~= start + Seq::<ErrorSpec>::empty());
    assert(found@ =~= Seq::empty());
    while at < alternatives.len()
        invariant
            at <= alternatives@.len(),
            values == item_specs(alternatives@),
            found@ == choice_read(places@, owner@, rule, values, at as int).blocks,
            error_specs(errors@) == start + choice_read(
                places@,
                owner@,
                rule,
                values,
                at as int,
            ).errors,
            blocks@.len() == found@.len(),
            forall|k: int| 0 <= k < found@.len() ==> #[trigger] blocks@[k] == found@[k].0,
        decreases alternatives.len() - at,
    {
        let place = ContentPlace::Alternative(rule, at);
        let ghost next = choice_read(places@, owner@, rule, values, at + 1);
        match load_alternative(places, owner, place, &alternatives[at], errors) {
            Some(block) => {
                let range = get_whole_range(places, owner, place);
                match find_equivalent(&found, &block) {
                    Some(first) => {
                        error_with_related_at(
                            errors,
                            SchemaErrorKind::InvalidContentRule,
                            range,
                            "duplicate normalized `one_of` alternative".to_owned(),
                            RelatedLocation {
                                range: first,
                                message: "first equivalent alternative declared here".to_owned(),
                            },
                        );
                    },
                    None => {
                        found.push((block, range));
                        blocks.push(block);
                    },
                }
            },
            None => {},
        }
        assert(error_specs(errors@) =~= start + next.errors);
        assert(found@ =~= next.blocks);
        at += 1;
    }
    proof {
        alternatives_differ(places@, owner@, rule, values, values.len() as int);
    }
    assert(error_specs(errors@).len() == before + expected.len());
    if errors.len() != before {
        return None;
    }
    assert(blocks@ =~= choice_of(places@, owner@, rule, values));
    AtLeastTwo::from_vec(blocks)
}

/// What a content rule declares its blocks to be.
pub enum Head {
    /// Blocks of one kind.
    Block(Block),
    /// Blocks that one of these alternatives matches.
    Choice(Seq<JsonSpec>),
    /// Nothing that could be read.
    Refused(ErrorSpec),
}

/// What a content rule declares its blocks to be.
pub open spec fn head_of(
    places: PlacesSpec,
    owner: ContentOwnerSpec,
    place: ContentPlace,
    members: Members,
) -> Head {
    match (member(members, "block"@), member(members, "one_of"@)) {
        (None, None) => Head::Refused(
            content_error(
                whole_range(places, owner, place),
                "content rule must declare exactly one of `block` and `one_of`"@,
            ),
        ),
        (Some(_), Some(_)) => {
            let block = key_range(places, owner, place, "block"@);
            let choice = key_range(places, owner, place, "one_of"@);
            Head::Refused(
                content_error(
                    if block.range.start.0 <= choice.range.start.0 {
                        block
                    } else {
                        choice
                    },
                    "content rule cannot declare both `block` and `one_of`"@,
                ),
            )
        },
        (Some(value), None) => match block_of(value) {
            Some(block) => Head::Block(block),
            None => Head::Refused(
                content_error(
                    key_range(places, owner, place, "block"@),
                    "`block` must be one of `p`, `list`, or `any`"@,
                ),
            ),
        },
        (None, Some(JsonSpec::Array(values))) => Head::Choice(values),
        (None, Some(_)) => Head::Refused(
            content_error(
                key_range(places, owner, place, "one_of"@),
                "`one_of` must be a sequence"@,
            ),
        ),
    }
}

/// What reading a content rule's cardinality yields: exactly one, where none
/// is spelled.
pub open spec fn content_cardinality(
    places: PlacesSpec,
    owner: ContentOwnerSpec,
    rule: usize,
    members: Members,
) -> CardinalityRead {
    let place = ContentPlace::Rule(rule);
    cardinality_read(
        places,
        owner,
        place,
        members,
        true,
        true,
        whole_range(places, owner, place),
    )
}

/// The errors in the fields for lists of a content rule that is none for
/// lists.
pub open spec fn misplaced_errors(
    places: PlacesSpec,
    owner: ContentOwnerSpec,
    rule: usize,
    members: Members,
) -> Seq<ErrorSpec> {
    let place = ContentPlace::Rule(rule);
    inapplicable_errors(places, owner, place, members, "list_kind"@) + inapplicable_errors(
        places,
        owner,
        place,
        members,
        "items"@,
    )
}

/// The errors in a content rule's id and cardinality.
pub open spec fn label_errors(
    places: PlacesSpec,
    owner: ContentOwnerSpec,
    rule: usize,
    members: Members,
) -> Seq<ErrorSpec> {
    id_errors(places, owner, ContentPlace::Rule(rule), members) + content_cardinality(
        places,
        owner,
        rule,
        members,
    ).errors
}

/// The errors in what a content rule declares beside its unknown fields.
pub open spec fn body_errors(
    places: PlacesSpec,
    owner: ContentOwnerSpec,
    rule: usize,
    members: Members,
    match_case: bool,
) -> Seq<ErrorSpec> {
    match head_of(places, owner, ContentPlace::Rule(rule), members) {
        Head::Refused(error) => seq![error],
        Head::Block(Block::List) => label_errors(places, owner, rule, members) + list_kind_errors(
            places,
            owner,
            ContentPlace::Rule(rule),
            members,
        ) + item_scope_errors(places, owner, rule, members, match_case),
        Head::Block(_) => misplaced_errors(places, owner, rule, members) + label_errors(
            places,
            owner,
            rule,
            members,
        ),
        Head::Choice(values) => misplaced_errors(places, owner, rule, members) + label_errors(
            places,
            owner,
            rule,
            members,
        ) + choice_errors(places, owner, rule, values),
    }
}

/// The errors in a content rule.
#[verifier::opaque]
pub open spec fn content_errors(
    places: PlacesSpec,
    owner: ContentOwnerSpec,
    rule: usize,
    value: JsonSpec,
    match_case: bool,
) -> Seq<ErrorSpec> {
    match value {
        JsonSpec::Object(members) => all_field_errors(
            places,
            owner,
            ContentPlace::Rule(rule),
            false,
            members,
        ) + body_errors(places, owner, rule, members, match_case),
        _ => seq![
            content_error(
                whole_range(places, owner, ContentPlace::Rule(rule)),
                "each content entry must be a mapping"@,
            ),
        ],
    }
}

/// The content rule that an object without errors declares.
pub open spec fn content_of(
    places: PlacesSpec,
    owner: ContentOwnerSpec,
    rule: usize,
    members: Members,
    match_case: bool,
) -> ContentSpec {
    ContentSpec {
        id: id_of(members),
        cardinality: content_cardinality(places, owner, rule, members).value->0,
        block: match head_of(places, owner, ContentPlace::Rule(rule), members) {
            Head::Block(Block::Paragraph) => BlockSpec::Paragraph,
            Head::Block(Block::List) => BlockSpec::List(
                list_kind_of(members),
                item_scope_of(places, owner, rule, members, match_case),
            ),
            Head::Block(Block::Any) => BlockSpec::Any,
            Head::Choice(values) => BlockSpec::OneOf(choice_of(places, owner, rule, values)),
            Head::Refused(_) => arbitrary(),
        },
    }
}

/// The content rule that a value without errors declares.
#[verifier::opaque]
pub open spec fn content_value(
    places: PlacesSpec,
    owner: ContentOwnerSpec,
    rule: usize,
    value: JsonSpec,
    match_case: bool,
) -> ContentSpec {
    match value {
        JsonSpec::Object(members) => content_of(places, owner, rule, members, match_case),
        _ => arbitrary(),
    }
}

/// Reads a content rule's id and cardinality.
fn load_labels(
    places: &Places,
    owner: &ContentOwner,
    rule: usize,
    members: &Vec<(String, Json)>,
    errors: &mut Vec<SchemaError>,
) -> (labels: (Option<RuleId>, Option<Cardinality>))
    ensures
        ({
            let specs = member_specs(members@);
            &&& id_spec(labels.0) == id_of(specs)
            &&& labels.1 == content_cardinality(places@, owner@, rule, specs).value
            &&& error_specs(final(errors)@) == error_specs(old(errors)@) + label_errors(
                places@,
                owner@,
                rule,
                specs,
            )
            &&& label_errors(places@, owner@, rule, specs).len() == 0 ==> labels.1 is Some
        }),
{
    let place = ContentPlace::Rule(rule);
    let ghost specs = member_specs(members@);
    let id = load_explicit_id(places, owner, place, members, errors);
    let cardinality = load_content_cardinality(
        places,
        owner,
        place,
        members,
        true,
        true,
        get_whole_range(places, owner, place),
        errors,
    );
    assert(error_specs(errors@) =~= error_specs(old(errors)@) + label_errors(
        places@,
        owner@,
        rule,
        specs,
    ));
    (id, cardinality)
}

/// Builds a content rule for lists.
fn build_list_rule(
    places: &Places,
    owner: &ContentOwner,
    rule: usize,
    members: &Vec<(String, Json)>,
    match_case: bool,
    errors: &mut Vec<SchemaError>,
) -> (built: Option<ContentRule>)
    requires
        head_of(places@, owner@, ContentPlace::Rule(rule), member_specs(members@)) == Head::Block(
            Block::List,
        ),
    ensures
        ({
            let specs = member_specs(members@);
            let expected = body_errors(places@, owner@, rule, specs, match_case);
            &&& expected.len() == 0 ==> built is Some
            &&& expected.len() == 0 ==> built->0@ == content_of(
                places@,
                owner@,
                rule,
                specs,
                match_case,
            )
            &&& error_specs(final(errors)@) == error_specs(old(errors)@) + expected
        }),
{
    let ghost specs = member_specs(members@);
    let ghost start = error_specs(errors@);
    let ghost expected = body_errors(places@, owner@, rule, specs, match_case);
    let (id, cardinality) = load_labels(places, owner, rule, members, errors);
    let list_kind = load_list_kind(places, owner, ContentPlace::Rule(rule), members, errors);
    let items = build_item_scope(places, owner, rule, members, match_case, errors);
    assert(error_specs(errors@) =~= start + expected);
    match cardinality {
        Some(cardinality) => Some(ContentRule::List { id, cardinality, list_kind, items }),
        None => None,
    }
}

/// Refuses the fields for lists in a content rule that is none for lists.
fn reject_misplaced(
    places: &Places,
    owner: &ContentOwner,
    rule: usize,
    members: &Vec<(String, Json)>,
    errors: &mut Vec<SchemaError>,
)
    ensures
        error_specs(final(errors)@) == error_specs(old(errors)@) + misplaced_errors(
            places@,
            owner@,
            rule,
            member_specs(members@),
        ),
{
    let place = ContentPlace::Rule(rule);
    reject_inapplicable(places, owner, place, members, "list_kind", errors);
    reject_inapplicable(places, owner, place, members, "items", errors);
    assert(error_specs(errors@) =~= error_specs(old(errors)@) + misplaced_errors(
        places@,
        owner@,
        rule,
        member_specs(members@),
    ));
}

/// Builds a content rule for blocks of one kind.
fn build_block_rule(
    places: &Places,
    owner: &ContentOwner,
    rule: usize,
    members: &Vec<(String, Json)>,
    block: Block,
    match_case: bool,
    errors: &mut Vec<SchemaError>,
) -> (built: Option<ContentRule>)
    requires
        head_of(places@, owner@, ContentPlace::Rule(rule), member_specs(members@)) == Head::Block(
            block,
        ),
    ensures
        ({
            let specs = member_specs(members@);
            let expected = body_errors(places@, owner@, rule, specs, match_case);
            &&& expected.len() == 0 ==> built is Some
            &&& expected.len() == 0 ==> built->0@ == content_of(
                places@,
                owner@,
                rule,
                specs,
                match_case,
            )
            &&& error_specs(final(errors)@) == error_specs(old(errors)@) + expected
        }),
{
    if matches!(block, Block::List) {
        return build_list_rule(places, owner, rule, members, match_case, errors);
    }
    let ghost specs = member_specs(members@);
    let ghost start = error_specs(errors@);
    let ghost expected = body_errors(places@, owner@, rule, specs, match_case);
    reject_misplaced(places, owner, rule, members, errors);
    let (id, cardinality) = load_labels(places, owner, rule, members, errors);
    assert(error_specs(errors@) =~= start + expected);
    match cardinality {
        Some(cardinality) => match block {
            Block::Paragraph => Some(ContentRule::Paragraph { id, cardinality }),
            _ => Some(ContentRule::Any { id, cardinality }),
        },
        None => None,
    }
}

/// Builds a content rule for blocks that one of several alternatives matches.
fn build_choice_rule(
    places: &Places,
    owner: &ContentOwner,
    rule: usize,
    members: &Vec<(String, Json)>,
    alternatives: &Vec<Json>,
    match_case: bool,
    errors: &mut Vec<SchemaError>,
) -> (built: Option<ContentRule>)
    requires
        head_of(places@, owner@, ContentPlace::Rule(rule), member_specs(members@))
            == Head::Choice(item_specs(alternatives@)),
    ensures
        ({
            let specs = member_specs(members@);
            let expected = body_errors(places@, owner@, rule, specs, match_case);
            &&& expected.len() == 0 ==> built is Some
            &&& expected.len() == 0 ==> built->0@ == content_of(
                places@,
                owner@,
                rule,
                specs,
                match_case,
            )
            &&& error_specs(final(errors)@) == error_specs(old(errors)@) + expected
        }),
{
    let ghost specs = member_specs(members@);
    let ghost start = error_specs(errors@);
    reject_misplaced(places, owner, rule, members, errors);
    let (id, cardinality) = load_labels(places, owner, rule, members, errors);
    let blocks = load_one_of(places, owner, rule, alternatives, errors);
    assert(error_specs(errors@) =~= start + body_errors(
        places@,
        owner@,
        rule,
        specs,
        match_case,
    ));
    match (cardinality, blocks) {
        (Some(cardinality), Some(alternatives)) => Some(
            ContentRule::OneOf { id, cardinality, alternatives },
        ),
        _ => None,
    }
}

/// Builds a content rule. It is built exactly where nothing is wrong with it.
pub fn build_content_rule(
    places: &Places,
    owner: &ContentOwner,
    rule: usize,
    value: &Json,
    match_case: bool,
    errors: &mut Vec<SchemaError>,
) -> (built: Option<ContentRule>)
    ensures
        ({
            let expected = content_errors(places@, owner@, rule, value@, match_case);
            &&& built is Some <==> expected.len() == 0
            &&& built matches Some(built) ==> built@ == content_value(
                places@,
                owner@,
                rule,
                value@,
                match_case,
            )
            &&& error_specs(final(errors)@) == error_specs(old(errors)@) + expected
        }),
{
    proof {
        reveal(content_errors);
        reveal(content_value);
    }
    let place = ContentPlace::Rule(rule);
    let ghost start = error_specs(errors@);
    let ghost expected = content_errors(places@, owner@, rule, value@, match_case);
    let before = errors.len();
    let members = match value.as_object() {
        Some(members) => members,
        None => {
            content_error_at(
                errors,
                get_whole_range(places, owner, place),
                "each content entry must be a mapping".to_owned(),
            );
            assert(error_specs(errors@) =~= start + expected);
            return None;
        },
    };
    let ghost specs = member_specs(members@);
    let ghost fields = all_field_errors(places@, owner@, place, false, specs);
    reject_unknown_content_fields(places, owner, place, false, members, errors);
    let built = match (get_member(members, "block"), get_member(members, "one_of")) {
        (None, None) => {
            content_error_at(
                errors,
                get_whole_range(places, owner, place),
                "content rule must declare exactly one of `block` and `one_of`".to_owned(),
            );
            None
        },
        (Some(_), Some(_)) => {
            let block = get_key_range(places, owner, place, "block");
            let choice = get_key_range(places, owner, place, "one_of");
            content_error_at(
                errors,
                if block.range.start.0 <= choice.range.start.0 {
                    block
                } else {
                    choice
                },
                "content rule cannot declare both `block` and `one_of`".to_owned(),
            );
            None
        },
        (Some(spelled), None) => match read_block(spelled) {
            Some(block) => build_block_rule(
                places,
                owner,
                rule,
                members,
                block,
                match_case,
                errors,
            ),
            None => {
                content_error_at(
                    errors,
                    get_key_range(places, owner, place, "block"),
                    "`block` must be one of `p`, `list`, or `any`".to_owned(),
                );
                None
            },
        },
        (None, Some(spelled)) => match spelled.as_array() {
            Some(alternatives) => build_choice_rule(
                places,
                owner,
                rule,
                members,
                alternatives,
                match_case,
                errors,
            ),
            None => {
                content_error_at(
                    errors,
                    get_key_range(places, owner, place, "one_of"),
                    "`one_of` must be a sequence".to_owned(),
                );
                None
            },
        },
    };
    assert(error_specs(errors@) =~= start + expected);
    assert(error_specs(errors@).len() == before + expected.len());
    if errors.len() == before {
        built
    } else {
        None
    }
}

/// The nodes of a content rule: the rule and its item rules.
#[verifier::opaque]
pub open spec fn content_nodes(
    places: PlacesSpec,
    raw_owner: ContentOwnerSpec,
    owner: ContentOwnerSpec,
    rule: usize,
    built: ContentSpec,
) -> Seq<(NodeAddress, SourceRange)> {
    seq![
        (
            NodeAddress::ContentRule((owner, rule)),
            whole_range(places, raw_owner, ContentPlace::Rule(rule)),
        ),
    ] + match built.block {
        BlockSpec::List(_, Some(items)) => Seq::new(
            items.len(),
            |at: int|
                (
                    NodeAddress::ItemRule(((owner, rule), at as usize)),
                    whole_range(places, raw_owner, ContentPlace::Item(rule, at as usize)),
                ),
        ),
        _ => Seq::empty(),
    }
}

/// What building content rules yields.
#[verifier::ext_equal]
pub struct ContentBuild {
    /// The rules, if all could be built.
    pub rules: Option<Seq<ContentSpec>>,
    /// The errors.
    pub errors: Seq<ErrorSpec>,
    /// The ranges of the nodes that were built.
    pub nodes: Seq<(NodeAddress, SourceRange)>,
}

/// What building the first `count` content rules of an owner yields.
pub open spec fn content_list_build(
    places: PlacesSpec,
    raw_owner: ContentOwnerSpec,
    owner: ContentOwnerSpec,
    values: Seq<JsonSpec>,
    match_case: bool,
    count: int,
) -> ContentBuild
    decreases count,
{
    if count <= 0 {
        ContentBuild { rules: Some(Seq::empty()), errors: Seq::empty(), nodes: Seq::empty() }
    } else {
        let before = content_list_build(places, raw_owner, owner, values, match_case, count - 1);
        let rule = (count - 1) as usize;
        let errors = content_errors(places, raw_owner, rule, values[count - 1], match_case);
        let built = content_value(places, raw_owner, rule, values[count - 1], match_case);
        if errors.len() > 0 {
            ContentBuild { rules: None, errors: before.errors + errors, nodes: before.nodes }
        } else {
            ContentBuild {
                rules: match before.rules {
                    Some(rules) => Some(rules.push(built)),
                    None => None,
                },
                errors: before.errors,
                nodes: before.nodes + content_nodes(places, raw_owner, owner, rule, built),
            }
        }
    }
}

/// Where the `content` of an owner stands.
pub open spec fn content_field_range(
    places: PlacesSpec,
    raw_owner: ContentOwnerSpec,
) -> SourceRange {
    match raw_owner {
        ContentOwnerSpec::Rule(path) => range_for(
            places,
            KeySpec::RuleField(path.0, path.1, "content"@),
        ),
        _ => range_for(places, KeySpec::DocumentField("content"@)),
    }
}

/// What building the content of an owner yields. The rules are `None` inside
/// where none are declared.
pub open spec fn content_scope_build(
    places: PlacesSpec,
    raw_owner: ContentOwnerSpec,
    owner: ContentOwnerSpec,
    value: Option<JsonSpec>,
    match_case: bool,
) -> ContentBuild {
    match value {
        None => ContentBuild { rules: None, errors: Seq::empty(), nodes: Seq::empty() },
        Some(JsonSpec::Array(values)) => content_list_build(
            places,
            raw_owner,
            owner,
            values,
            match_case,
            values.len() as int,
        ),
        Some(_) => ContentBuild {
            rules: None,
            errors: seq![
                content_error(
                    content_field_range(places, raw_owner),
                    "content must be a sequence and cannot be null"@,
                ),
            ],
            nodes: Seq::empty(),
        },
    }
}

/// What an optional value is.
pub open spec fn optional_value(value: Option<&Json>) -> Option<JsonSpec> {
    match value {
        None => None,
        Some(value) => Some(value@),
    }
}

/// Builds the content rules that entries declare, as far as nothing is wrong
/// with them.
#[verifier::spinoff_prover]
fn build_content_list(
    places: &Places,
    raw_owner: &ContentOwner,
    owner: &ContentOwner,
    entries: &Vec<Json>,
    match_case: bool,
    errors: &mut Vec<SchemaError>,
    nodes: &mut FoundNodes,
) -> (rules: Vec<ContentRule>)
    ensures
        ({
            let build = content_list_build(
                places@,
                raw_owner@,
                owner@,
                item_specs(entries@),
                match_case,
                entries@.len() as int,
            );
            &&& build.rules is Some <==> build.errors.len() == 0
            &&& build.rules matches Some(built) ==> content_rule_specs(rules@) == built
            &&& error_specs(final(errors)@) == error_specs(old(errors)@) + build.errors
            &&& final(nodes)@ == old(nodes)@ + build.nodes
        }),
{
    let ghost values = item_specs(entries@);
    let ghost start = error_specs(errors@);
    let mut rules: Vec<ContentRule> = Vec::new();
    let mut at: usize = 0;
    assert(error_specs(errors@) =~= start + Seq::<ErrorSpec>::empty());
    assert(nodes@ =~= old(nodes)@ + Seq::<(NodeAddress, SourceRange)>::empty());
    assert(content_rule_specs(rules@) =~= Seq::empty());
    while at < entries.len()
        invariant
            at <= entries@.len(),
            values == item_specs(entries@),
            ({
                let so_far = content_list_build(
                    places@,
                    raw_owner@,
                    owner@,
                    values,
                    match_case,
                    at as int,
                );
                &&& error_specs(errors@) == start + so_far.errors
                &&& nodes@ == old(nodes)@ + so_far.nodes
                &&& so_far.rules is Some <==> so_far.errors.len() == 0
                &&& so_far.rules matches Some(so_far) ==> content_rule_specs(rules@) == so_far
            }),
        decreases entries.len() - at,
    {
        let ghost next = content_list_build(
            places@,
            raw_owner@,
            owner@,
            values,
            match_case,
            at + 1,
        );
        match build_content_rule(places, raw_owner, at, &entries[at], match_case, errors) {
            Some(rule) => {
                insert_content_nodes(places, raw_owner, owner, at, &rule, nodes);
                let ghost earlier = content_rule_specs(rules@);
                rules.push(rule);
                assert(content_rule_specs(rules@) =~= earlier.push(rule@));
            },
            None => {},
        }
        assert(error_specs(errors@) =~= start + next.errors);
        assert(nodes@ =~= old(nodes)@ + next.nodes);
        at += 1;
    }
    rules
}

/// Builds the content rules of an owner. Its spellings stand under
/// `raw_owner`.
pub fn build_content_scope(
    places: &Places,
    raw_owner: &ContentOwner,
    owner: &ContentOwner,
    value: Option<&Json>,
    match_case: bool,
    errors: &mut Vec<SchemaError>,
    nodes: &mut FoundNodes,
) -> (scope: Option<ContentScope>)
    ensures
        ({
            let build = content_scope_build(
                places@,
                raw_owner@,
                owner@,
                optional_value(value),
                match_case,
            );
            &&& scope is Some <==> build.errors.len() == 0
            &&& scope matches Some(scope) ==> scope@ == build.rules
            &&& error_specs(final(errors)@) == error_specs(old(errors)@) + build.errors
            &&& final(nodes)@ == old(nodes)@ + build.nodes
        }),
{
    let ghost build = content_scope_build(
        places@,
        raw_owner@,
        owner@,
        optional_value(value),
        match_case,
    );
    let ghost start = error_specs(errors@);
    let before = errors.len();
    let value = match value {
        Some(value) => value,
        None => {
            assert(error_specs(errors@) =~= start + build.errors);
            assert(nodes@ =~= old(nodes)@ + build.nodes);
            return Some(ContentScope::Omitted);
        },
    };
    let entries = match value.as_array() {
        Some(entries) => entries,
        None => {
            let range = match raw_owner {
                ContentOwner::Rule(path) => places.range(
                    RangeKey::RuleField(path.scope.clone(), path.index, "content".to_owned()),
                ),
                _ => places.range(RangeKey::DocumentField("content".to_owned())),
            };
            content_error_at(
                errors,
                range,
                "content must be a sequence and cannot be null".to_owned(),
            );
            assert(error_specs(errors@) =~= start + build.errors);
            assert(nodes@ =~= old(nodes)@ + build.nodes);
            return None;
        },
    };
    let rules = build_content_list(places, raw_owner, owner, entries, match_case, errors, nodes);
    assert(error_specs(errors@).len() == before + build.errors.len());
    if errors.len() == before {
        Some(ContentScope::Declared(rules))
    } else {
        None
    }
}

/// Records the nodes of a content rule.
fn insert_content_nodes(
    places: &Places,
    raw_owner: &ContentOwner,
    owner: &ContentOwner,
    rule: usize,
    built: &ContentRule,
    nodes: &mut FoundNodes,
)
    ensures
        final(nodes)@ == old(nodes)@ + content_nodes(places@, raw_owner@, owner@, rule, built@),
{
    proof {
        reveal(content_nodes);
    }
    let ghost expected = content_nodes(places@, raw_owner@, owner@, rule, built@);
    let path = ContentRulePath { owner: owner.clone(), index: rule };
    nodes.record(
        SchemaNode::ContentRule(path.clone()),
        get_whole_range(places, raw_owner, ContentPlace::Rule(rule)),
    );
    assert(nodes@ =~= old(nodes)@ + expected.take(1));
    if let ContentRule::List { items: ItemScope::Declared(items), .. } = built {
        let ghost listed = item_rule_specs(items@);
        assert(expected.len() == listed.len() + 1);
        let mut at: usize = 0;
        while at < items.len()
            invariant
                at <= items@.len(),
                path@ == (owner@, rule),
                expected.len() == items@.len() + 1,
                forall|k: int|
                    0 <= k < items@.len() ==> #[trigger] expected[k + 1] == (
                        NodeAddress::ItemRule(((owner@, rule), k as usize)),
                        whole_range(places@, raw_owner@, ContentPlace::Item(rule, k as usize)),
                    ),
                nodes@ == old(nodes)@ + expected.take(at + 1),
            decreases items.len() - at,
        {
            nodes.record(
                SchemaNode::ItemRule(ItemRulePath { content: path.clone(), index: at }),
                get_whole_range(places, raw_owner, ContentPlace::Item(rule, at)),
            );
            assert(expected.take(at + 2) =~= expected.take(at + 1).push(expected[at + 1]));
            assert(nodes@ =~= old(nodes)@ + expected.take(at + 2));
            at += 1;
        }
        assert(expected.take(at + 1) =~= expected);
    } else {
        assert(expected.take(1) =~= expected);
    }
}

} // verus!
