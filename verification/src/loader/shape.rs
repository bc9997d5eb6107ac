//! The shape of a schema document: which fields it has and of what type.
//!
//! The shapes are checked against the JSON value of the document, and errors
//! are reported at the ranges of the offending parts.

use vstd::prelude::*;

use super::places::{
    error_with_related_at, range_for, shape_error, shape_error_at, Places, PlacesSpec,
};
use super::ranges::{
    document_field_names, document_fields, field_key, frontmatter_field_names, frontmatter_fields,
    option_field_names, option_fields, rule_field_names, rule_fields, rule_key, rule_owner,
    texts_of, KeySpec, Owner, OwnerSpec, RangeKey,
};
use crate::json::{get_member, item_specs, member, member_specs, Json, JsonSpec};
use crate::load_result::{
    error_specs, ConstraintIndex, ErrorSpec, RelatedLocation, RelatedSpec, RuleIndex, SchemaError,
    SchemaErrorKind, ScopePath, SourceRange,
};
use crate::text::{join2, join3, join5, parse_plain_integer, plain_integer, same_text};

verus! {

/// The members of an object.
pub type Members = Seq<(Seq<char>, JsonSpec)>;

/// An error for every member whose name is not allowed, in order.
pub open spec fn unknown_field_errors(
    members: Members,
    allowed: Seq<Seq<char>>,
    range: SourceRange,
) -> Seq<ErrorSpec>
    decreases members.len(),
{
    if members.len() == 0 {
        Seq::empty()
    } else {
        let before = unknown_field_errors(members.drop_last(), allowed, range);
        if allowed.contains(members.last().0) {
            before
        } else {
            before.push(shape_error(range, "unknown field `"@ + members.last().0 + "`"@))
        }
    }
}

/// An error if a required member is missing.
pub open spec fn missing_field_errors(
    members: Members,
    field: Seq<char>,
    range: SourceRange,
) -> Seq<ErrorSpec> {
    if member(members, field) is Some {
        Seq::empty()
    } else {
        seq![shape_error(range, "missing required field `"@ + field + "`"@)]
    }
}

/// The type that a field must have.
#[derive(Clone, Copy, PartialEq, Eq, Structural)]
pub enum FieldType {
    /// A string.
    Text,
    /// A boolean.
    Bool,
}

/// Whether `value` is of the type.
pub open spec fn is_of_type(value: JsonSpec, expected: FieldType) -> bool {
    match expected {
        FieldType::Text => value is Text,
        FieldType::Bool => value is Bool,
    }
}

/// An error for every field that is there and not of its type, in order.
pub open spec fn field_type_errors(
    places: PlacesSpec,
    members: Members,
    fields: Seq<Seq<char>>,
    owner: OwnerSpec,
    expected: FieldType,
    prefix: Seq<char>,
    suffix: Seq<char>,
) -> Seq<ErrorSpec>
    decreases fields.len(),
{
    if fields.len() == 0 {
        Seq::empty()
    } else {
        let before = field_type_errors(
            places,
            members,
            fields.drop_last(),
            owner,
            expected,
            prefix,
            suffix,
        );
        match member(members, fields.last()) {
            None => before,
            Some(value) => if is_of_type(value, expected) {
                before
            } else {
                before.push(
                    shape_error(
                        range_for(places, field_key(owner, fields.last())),
                        prefix + fields.last() + suffix,
                    ),
                )
            },
        }
    }
}

/// The errors of a reference: it must be a string.
pub open spec fn ref_scalar_errors(value: JsonSpec, range: SourceRange) -> Seq<ErrorSpec> {
    if value is Text {
        Seq::empty()
    } else {
        seq![shape_error(range, "constraint refs must be strings and cannot be null"@)]
    }
}

/// The errors of references, in order.
pub open spec fn ref_list_errors(values: Seq<JsonSpec>, range: SourceRange) -> Seq<ErrorSpec>
    decreases values.len(),
{
    if values.len() == 0 {
        Seq::empty()
    } else {
        ref_list_errors(values.drop_last(), range) + ref_scalar_errors(values.last(), range)
    }
}

/// The errors of a list of references.
pub open spec fn ref_sequence_errors(
    name: Seq<char>,
    value: JsonSpec,
    require_two: bool,
    range: SourceRange,
) -> Seq<ErrorSpec> {
    match value {
        JsonSpec::Array(values) => {
            let minimum: nat = if require_two {
                2
            } else {
                1
            };
            (if values.len() < minimum {
                seq![
                    shape_error(
                        range,
                        name + if require_two {
                            " requires at least 2 refs"@
                        } else {
                            " requires at least 1 ref"@
                        },
                    ),
                ]
            } else {
                Seq::empty()
            }) + ref_list_errors(values, range)
        },
        _ => seq![shape_error(range, name + " must be a sequence of refs"@)],
    }
}

/// The keywords whose operand is a list of references.
pub open spec fn is_list_keyword(keyword: Seq<char>) -> bool {
    ||| keyword == "one_of"@
    ||| keyword == "any_of"@
    ||| keyword == "at_most_one"@
    ||| keyword == "all_or_none"@
    ||| keyword == "ordered"@
}

/// The field of an implication that holds what follows from its condition.
pub open spec fn consequence_field(requires_keyword: bool) -> Seq<char> {
    if requires_keyword {
        "then"@
    } else {
        "then_not"@
    }
}

/// The errors of the operand of `requires` or `conflicts`.
pub open spec fn implication_errors(
    keyword: Seq<char>,
    operand: JsonSpec,
    range: SourceRange,
) -> Seq<ErrorSpec> {
    match operand {
        JsonSpec::Object(members) => {
            let consequence = consequence_field(keyword == "requires"@);
            unknown_field_errors(members, seq!["if"@, consequence], range) + missing_field_errors(
                members,
                "if"@,
                range,
            ) + missing_field_errors(members, consequence, range) + (match member(
                members,
                "if"@,
            ) {
                Some(condition) => ref_scalar_errors(condition, range),
                None => Seq::empty(),
            }) + (match member(members, consequence) {
                Some(value) => if value is Array {
                    ref_sequence_errors(consequence, value, false, range)
                } else {
                    ref_scalar_errors(value, range)
                },
                None => Seq::empty(),
            })
        },
        _ => seq![shape_error(range, keyword + " operand must be an object"@)],
    }
}

/// The errors of a constraint: an object of one keyword and its operand.
pub open spec fn constraint_shape_errors(value: JsonSpec, range: SourceRange) -> Seq<ErrorSpec> {
    match value {
        JsonSpec::Object(members) => if members.len() != 1 {
            seq![shape_error(range, "constraint must contain exactly one keyword"@)]
        } else {
            let keyword = members[0].0;
            let operand = members[0].1;
            if is_list_keyword(keyword) {
                ref_sequence_errors(keyword, operand, true, range)
            } else if keyword == "requires"@ || keyword == "conflicts"@ {
                implication_errors(keyword, operand, range)
            } else {
                seq![shape_error(range, "unknown constraint keyword `"@ + keyword + "`"@)]
            }
        },
        _ => seq![shape_error(range, "constraint must be a single-key object"@)],
    }
}

/// The errors of the first `count` constraints of a scope.
pub open spec fn constraint_list_errors(
    places: PlacesSpec,
    constraints: Seq<JsonSpec>,
    scope: Seq<RuleIndex>,
    count: int,
) -> Seq<ErrorSpec>
    decreases count,
{
    if count <= 0 || count > constraints.len() {
        Seq::empty()
    } else {
        constraint_list_errors(places, constraints, scope, count - 1) + constraint_shape_errors(
            constraints[count - 1],
            range_for(
                places,
                KeySpec::Constraint(scope, ConstraintIndex((count - 1) as usize)),
            ),
        )
    }
}

/// The errors of the constraints of a scope.
pub open spec fn constraints_shape_errors(
    places: PlacesSpec,
    value: JsonSpec,
    scope: Seq<RuleIndex>,
    range: SourceRange,
) -> Seq<ErrorSpec> {
    match value {
        JsonSpec::Array(constraints) => constraint_list_errors(
            places,
            constraints,
            scope,
            constraints.len() as int,
        ),
        _ => seq![shape_error(range, "constraints must be a sequence and cannot be null"@)],
    }
}

/// The errors of the rule fields that are neither rules nor constraints.
pub open spec fn rule_field_errors(
    places: PlacesSpec,
    members: Members,
    owner: OwnerSpec,
) -> Seq<ErrorSpec> {
    let range = range_for(places, rule_key(owner));
    unknown_field_errors(members, rule_fields(), range) + missing_field_errors(
        members,
        "match"@,
        range,
    ) + field_type_errors(
        places,
        members,
        seq!["id"@, "match"@, "repeat"@],
        owner,
        FieldType::Text,
        "rule `"@,
        "` must be a string and cannot be null"@,
    ) + field_type_errors(
        places,
        members,
        seq!["allow"@, "required"@, "strict"@],
        owner,
        FieldType::Bool,
        "rule `"@,
        "` must be a bool and cannot be null"@,
    )
}

/// The errors of the constraints that a rule or the document declares.
pub open spec fn declared_constraint_errors(
    places: PlacesSpec,
    members: Members,
    owner: OwnerSpec,
    scope: Seq<RuleIndex>,
) -> Seq<ErrorSpec> {
    match member(members, "constraints"@) {
        None => Seq::empty(),
        Some(value) => constraints_shape_errors(
            places,
            value,
            scope,
            range_for(places, field_key(owner, "constraints"@)),
        ),
    }
}

/// Where a member stands among the members of an object.
pub open spec fn member_at(members: Members, name: Seq<char>) -> Option<int> {
    crate::json::member_index(members, name, 0)
}

/// The errors of one rule and of what is below it.
pub open spec fn one_rule_errors(
    places: PlacesSpec,
    value: JsonSpec,
    owner: OwnerSpec,
    child_scope: Seq<RuleIndex>,
    outline: bool,
) -> Seq<ErrorSpec>
    decreases value, 0int,
{
    match value {
        JsonSpec::Object(members) => {
            let children = match member_at(members, "sections"@) {
                None => Seq::empty(),
                Some(at) => if 0 <= at < members.len() {
                    rules_shape_errors(
                        places,
                        members[at].1,
                        child_scope,
                        false,
                        range_for(places, field_key(owner, "sections"@)),
                    )
                } else {
                    Seq::empty()
                },
            };
            rule_field_errors(places, members, owner) + children + declared_constraint_errors(
                places,
                members,
                owner,
                child_scope,
            )
        },
        _ => seq![
            shape_error(
                range_for(places, rule_key(owner)),
                if outline {
                    "each outline rule must be a mapping"@
                } else {
                    "each section rule must be a mapping"@
                },
            ),
        ],
    }
}

/// The errors of the first `count` rules of a list.
pub open spec fn rule_list_errors(
    places: PlacesSpec,
    rules: Seq<JsonSpec>,
    scope: Seq<RuleIndex>,
    outline: bool,
    count: int,
) -> Seq<ErrorSpec>
    decreases rules, count,
{
    if count <= 0 || count > rules.len() {
        Seq::empty()
    } else {
        let index = (count - 1) as usize;
        rule_list_errors(places, rules, scope, outline, count - 1) + one_rule_errors(
            places,
            rules[count - 1],
            rule_owner(outline, scope, index),
            scope.push(RuleIndex(index)),
            outline,
        )
    }
}

/// The errors of a list of rules.
pub open spec fn rules_shape_errors(
    places: PlacesSpec,
    value: JsonSpec,
    scope: Seq<RuleIndex>,
    outline: bool,
    range: SourceRange,
) -> Seq<ErrorSpec>
    decreases value, 1int,
{
    match value {
        JsonSpec::Array(rules) => rule_list_errors(
            places,
            rules,
            scope,
            outline,
            rules.len() as int,
        ),
        _ => seq![
            shape_error(
                range,
                if outline {
                    "outline must be a sequence and cannot be null"@
                } else {
                    "sections must be a sequence and cannot be null"@
                },
            ),
        ],
    }
}

/// The errors of `options`.
pub open spec fn options_errors(places: PlacesSpec, value: JsonSpec) -> Seq<ErrorSpec> {
    let range = range_for(places, KeySpec::DocumentField("options"@));
    match value {
        JsonSpec::Object(members) => unknown_field_errors(members, option_fields(), range)
            + field_type_errors(
            places,
            members,
            option_fields(),
            OwnerSpec::Options,
            FieldType::Bool,
            "options."@,
            " must be a bool and cannot be null"@,
        ),
        _ => seq![shape_error(range, "options must be a mapping and cannot be null"@)],
    }
}

/// The errors of `frontmatter`.
pub open spec fn frontmatter_errors(places: PlacesSpec, value: JsonSpec) -> Seq<ErrorSpec> {
    let range = range_for(places, KeySpec::DocumentField("frontmatter"@));
    match value {
        JsonSpec::Object(members) => unknown_field_errors(members, frontmatter_fields(), range)
            + field_type_errors(
            places,
            members,
            seq!["required"@, "allow"@],
            OwnerSpec::Frontmatter,
            FieldType::Bool,
            "frontmatter."@,
            " must be a bool and cannot be null"@,
        ) + (match member(members, "schema"@) {
            None => Seq::empty(),
            Some(schema) => if schema is Text || schema is Object {
                Seq::empty()
            } else {
                seq![
                    shape_error(
                        range_for(places, KeySpec::FrontmatterField("schema"@)),
                        "frontmatter.schema must be a path string or mapping and cannot be null"@,
                    ),
                ]
            },
        }),
        _ => seq![shape_error(range, "frontmatter must be a mapping and cannot be null"@)],
    }
}

/// Whether `value` is an integer that the schema's own fields can hold.
pub open spec fn is_integer(value: JsonSpec) -> bool {
    match value {
        JsonSpec::Number(spelling) => match plain_integer(spelling) {
            None => false,
            Some(number) => i64::MIN <= number <= u64::MAX,
        },
        _ => false,
    }
}

/// The error of `outline` beside one half of its sugar spelling. It anchors
/// at the second-declared key, with the first attached.
pub open spec fn outline_conflict_error(places: PlacesSpec, other: Seq<char>) -> ErrorSpec {
    let outline_range = range_for(places, KeySpec::DocumentField("outline"@));
    let other_range = range_for(places, KeySpec::DocumentField(other));
    let outline_first = outline_range.range.start.0 <= other_range.range.start.0;
    let (anchor, anchor_name, first, first_name) = if outline_first {
        (other_range, other, outline_range, "outline"@)
    } else {
        (outline_range, "outline"@, other_range, other)
    };
    ErrorSpec {
        kind: SchemaErrorKind::ConflictingOutline,
        range: anchor,
        related: seq![
            RelatedSpec { range: first, message: "`"@ + first_name + "` declared here"@ },
        ],
        message: "`"@ + anchor_name + "` cannot be declared together with `"@ + first_name + "`"@,
    }
}

/// The errors of `outline` beside its sugar spelling.
pub open spec fn exclusivity_errors(places: PlacesSpec, members: Members) -> Seq<ErrorSpec> {
    (if member(members, "title"@) is Some {
        seq![outline_conflict_error(places, "title"@)]
    } else {
        Seq::empty()
    }) + (if member(members, "sections"@) is Some {
        seq![outline_conflict_error(places, "sections"@)]
    } else {
        Seq::empty()
    })
}

/// Whether `outline` stands beside its sugar spelling.
pub open spec fn outline_conflicts(members: Members) -> bool {
    member(members, "title"@) is Some || member(members, "sections"@) is Some
}

/// The errors of the `version` field.
pub open spec fn version_errors(places: PlacesSpec, members: Members) -> Seq<ErrorSpec> {
    match member(members, "version"@) {
        None => Seq::empty(),
        Some(value) => if is_integer(value) {
            Seq::empty()
        } else {
            seq![
                shape_error(
                    range_for(places, KeySpec::DocumentField("version"@)),
                    "version must be an integer that fits in 64 bits and cannot be null"@,
                ),
            ]
        },
    }
}

/// The errors of the `title` field.
pub open spec fn title_errors(places: PlacesSpec, members: Members) -> Seq<ErrorSpec> {
    match member(members, "title"@) {
        None => Seq::empty(),
        Some(value) => if value is Text || value is Null {
            Seq::empty()
        } else {
            seq![
                shape_error(
                    range_for(places, KeySpec::DocumentField("title"@)),
                    "title must be a string or null"@,
                ),
            ]
        },
    }
}

/// The errors of the top-level list called `field`.
pub open spec fn top_list_errors(
    places: PlacesSpec,
    members: Members,
    field: Seq<char>,
    outline: bool,
) -> Seq<ErrorSpec> {
    match member(members, field) {
        None => Seq::empty(),
        Some(value) => rules_shape_errors(
            places,
            value,
            Seq::empty(),
            outline,
            range_for(places, KeySpec::DocumentField(field)),
        ),
    }
}

/// The errors of a field that is a mapping of its own.
pub open spec fn nested_errors(
    places: PlacesSpec,
    members: Members,
    options: bool,
) -> Seq<ErrorSpec> {
    if options {
        match member(members, "options"@) {
            None => Seq::empty(),
            Some(value) => options_errors(places, value),
        }
    } else {
        match member(members, "frontmatter"@) {
            None => Seq::empty(),
            Some(value) => frontmatter_errors(places, value),
        }
    }
}

/// The errors of the top-level fields, before what is nested in them.
pub open spec fn top_field_errors(places: PlacesSpec, members: Members) -> Seq<ErrorSpec> {
    unknown_field_errors(members, document_fields(), places.document) + missing_field_errors(
        members,
        "version"@,
        places.document,
    ) + (if member(members, "outline"@) is Some {
        exclusivity_errors(places, members)
    } else {
        missing_field_errors(members, "sections"@, places.document)
    }) + version_errors(places, members) + title_errors(places, members)
}

/// The errors in the shape of a document.
pub open spec fn document_shape_errors(places: PlacesSpec, value: JsonSpec) -> Seq<ErrorSpec> {
    match value {
        JsonSpec::Object(members) => top_field_errors(places, members) + (if member(
            members,
            "outline"@,
        ) is Some && outline_conflicts(members) {
            Seq::empty()
        } else {
            top_list_errors(places, members, "outline"@, true)
        }) + nested_errors(places, members, true) + nested_errors(places, members, false)
            + top_list_errors(places, members, "sections"@, false) + declared_constraint_errors(
            places,
            members,
            OwnerSpec::Document,
            Seq::empty(),
        ),
        _ => seq![shape_error(places.document, "schema document must be a mapping"@)],
    }
}

/// Whether `text` is among `texts`.
fn is_among(texts: &Vec<&'static str>, text: &str) -> (found: bool)
    ensures
        found == texts_of(texts@).contains(text@),
{
    let ghost all = texts_of(texts@);
    let mut at: usize = 0;
    while at < texts.len()
        invariant
            at <= texts@.len(),
            all == texts_of(texts@),
            forall|k: int| 0 <= k < at ==> #[trigger] all[k] != text@,
        decreases texts.len() - at,
    {
        if same_text(texts[at], text) {
            assert(all[at as int] == text@);
            return true;
        }
        at += 1;
    }
    false
}

fn validate_known_fields(
    members: &Vec<(String, Json)>,
    allowed: &Vec<&'static str>,
    range: SourceRange,
    errors: &mut Vec<SchemaError>,
)
    ensures
        error_specs(final(errors)@) == error_specs(old(errors)@) + unknown_field_errors(
            member_specs(members@),
            texts_of(allowed@),
            range,
        ),
{
    let ghost specs = member_specs(members@);
    let mut at: usize = 0;
    assert(error_specs(errors@) =~= error_specs(old(errors)@) + unknown_field_errors(
        specs.take(0),
        texts_of(allowed@),
        range,
    ));
    while at < members.len()
        invariant
            at <= members@.len(),
            specs == member_specs(members@),
            error_specs(errors@) == error_specs(old(errors)@) + unknown_field_errors(
                specs.take(at as int),
                texts_of(allowed@),
                range,
            ),
        decreases members.len() - at,
    {
        proof {
            assert(specs.take(at + 1).drop_last() =~= specs.take(at as int));
            assert(specs.take(at + 1).last() == specs[at as int]);
        }
        let key = members[at].0.as_str();
        if !is_among(allowed, key) {
            shape_error_at(errors, range, join3("unknown field `", key, "`"));
        }
        assert(error_specs(errors@) =~= error_specs(old(errors)@) + unknown_field_errors(
            specs.take(at + 1),
            texts_of(allowed@),
            range,
        ));
        at += 1;
    }
    assert(specs.take(at as int) =~= specs);
}

fn validate_required_field(
    members: &Vec<(String, Json)>,
    field: &str,
    range: SourceRange,
    errors: &mut Vec<SchemaError>,
)
    ensures
        error_specs(final(errors)@) == error_specs(old(errors)@) + missing_field_errors(
            member_specs(members@),
            field@,
            range,
        ),
{
    if get_member(members, field).is_none() {
        shape_error_at(errors, range, join3("missing required field `", field, "`"));
    }
    assert(error_specs(errors@) =~= error_specs(old(errors)@) + missing_field_errors(
        member_specs(members@),
        field@,
        range,
    ));
}

fn has_type(value: &Json, expected: FieldType) -> (has: bool)
    ensures
        has == is_of_type(value@, expected),
{
    match expected {
        FieldType::Text => matches!(value, Json::Text(_)),
        FieldType::Bool => matches!(value, Json::Bool(_)),
    }
}

fn validate_field_types(
    places: &Places,
    members: &Vec<(String, Json)>,
    fields: &Vec<&'static str>,
    owner: &Owner<'_>,
    expected: FieldType,
    prefix: &str,
    suffix: &str,
    errors: &mut Vec<SchemaError>,
)
    ensures
        error_specs(final(errors)@) == error_specs(old(errors)@) + field_type_errors(
            places@,
            member_specs(members@),
            texts_of(fields@),
            owner@,
            expected,
            prefix@,
            suffix@,
        ),
{
    let ghost specs = member_specs(members@);
    let ghost names = texts_of(fields@);
    let mut at: usize = 0;
    assert(error_specs(errors@) =~= error_specs(old(errors)@) + field_type_errors(
        places@,
        specs,
        names.take(0),
        owner@,
        expected,
        prefix@,
        suffix@,
    ));
    while at < fields.len()
        invariant
            at <= fields@.len(),
            specs == member_specs(members@),
            names == texts_of(fields@),
            error_specs(errors@) == error_specs(old(errors)@) + field_type_errors(
                places@,
                specs,
                names.take(at as int),
                owner@,
                expected,
                prefix@,
                suffix@,
            ),
        decreases fields.len() - at,
    {
        proof {
            assert(names.take(at + 1).drop_last() =~= names.take(at as int));
            assert(names.take(at + 1).last() == fields@[at as int]@);
        }
        let field = fields[at];
        if let Some(value) = get_member(members, field) {
            if !has_type(value, expected) {
                let range = places.range(owner.field(field));
                shape_error_at(errors, range, join3(prefix, field, suffix));
            }
        }
        assert(error_specs(errors@) =~= error_specs(old(errors)@) + field_type_errors(
            places@,
            specs,
            names.take(at + 1),
            owner@,
            expected,
            prefix@,
            suffix@,
        ));
        at += 1;
    }
    assert(names.take(at as int) =~= names);
}

fn validate_ref_scalar(value: &Json, range: SourceRange, errors: &mut Vec<SchemaError>)
    ensures
        error_specs(final(errors)@) == error_specs(old(errors)@) + ref_scalar_errors(
            value@,
            range,
        ),
{
    if !matches!(value, Json::Text(_)) {
        shape_error_at(
            errors,
            range,
            "constraint refs must be strings and cannot be null".to_owned(),
        );
    }
    assert(error_specs(errors@) =~= error_specs(old(errors)@) + ref_scalar_errors(value@, range));
}

fn validate_ref_sequence(
    name: &str,
    value: &Json,
    require_two: bool,
    range: SourceRange,
    errors: &mut Vec<SchemaError>,
)
    ensures
        error_specs(final(errors)@) == error_specs(old(errors)@) + ref_sequence_errors(
            name@,
            value@,
            require_two,
            range,
        ),
{
    let values = match value.as_array() {
        Some(values) => values,
        None => {
            shape_error_at(errors, range, join2(name, " must be a sequence of refs"));
            assert(error_specs(errors@) =~= error_specs(old(errors)@) + ref_sequence_errors(
                name@,
                value@,
                require_two,
                range,
            ));
            return;
        },
    };
    let ghost specs = item_specs(values@);
    if require_two {
        if values.len() < 2 {
            shape_error_at(errors, range, join2(name, " requires at least 2 refs"));
        }
    } else {
        if values.len() < 1 {
            shape_error_at(errors, range, join2(name, " requires at least 1 ref"));
        }
    }
    let ghost before = error_specs(errors@);
    let mut at: usize = 0;
    assert(before =~= before + ref_list_errors(specs.take(0), range));
    while at < values.len()
        invariant
            at <= values@.len(),
            specs == item_specs(values@),
            error_specs(errors@) == before + ref_list_errors(specs.take(at as int), range),
        decreases values.len() - at,
    {
        proof {
            assert(specs.take(at + 1).drop_last() =~= specs.take(at as int));
            assert(specs.take(at + 1).last() == values@[at as int]@);
        }
        validate_ref_scalar(&values[at], range, errors);
        assert(error_specs(errors@) =~= before + ref_list_errors(specs.take(at + 1), range));
        at += 1;
    }
    assert(specs.take(at as int) =~= specs);
    assert(error_specs(errors@) =~= error_specs(old(errors)@) + ref_sequence_errors(
        name@,
        value@,
        require_two,
        range,
    ));
}

fn validate_implication_shape(
    keyword: &str,
    operand: &Json,
    range: SourceRange,
    errors: &mut Vec<SchemaError>,
)
    ensures
        error_specs(final(errors)@) == error_specs(old(errors)@) + implication_errors(
            keyword@,
            operand@,
            range,
        ),
{
    let implication = match operand.as_object() {
        Some(implication) => implication,
        None => {
            shape_error_at(errors, range, join2(keyword, " operand must be an object"));
            assert(error_specs(errors@) =~= error_specs(old(errors)@) + implication_errors(
                keyword@,
                operand@,
                range,
            ));
            return;
        },
    };
    let consequence = if same_text(keyword, "requires") {
        "then"
    } else {
        "then_not"
    };
    let allowed: Vec<&'static str> = vec!["if", consequence];
    assert(texts_of(allowed@) =~= seq!["if"@, consequence@]);
    validate_known_fields(implication, &allowed, range, errors);
    validate_required_field(implication, "if", range, errors);
    validate_required_field(implication, consequence, range, errors);
    if let Some(condition) = get_member(implication, "if") {
        validate_ref_scalar(condition, range, errors);
    }
    if let Some(value) = get_member(implication, consequence) {
        if matches!(value, Json::Array(_)) {
            validate_ref_sequence(consequence, value, false, range, errors);
        } else {
            validate_ref_scalar(value, range, errors);
        }
    }
    assert(error_specs(errors@) =~= error_specs(old(errors)@) + implication_errors(
        keyword@,
        operand@,
        range,
    ));
}

fn validate_constraint_shape(value: &Json, range: SourceRange, errors: &mut Vec<SchemaError>)
    ensures
        error_specs(final(errors)@) == error_specs(old(errors)@) + constraint_shape_errors(
            value@,
            range,
        ),
{
    match value.as_object() {
        None => shape_error_at(
            errors,
            range,
            "constraint must be a single-key object".to_owned(),
        ),
        Some(members) => {
            if members.len() != 1 {
                shape_error_at(
                    errors,
                    range,
                    "constraint must contain exactly one keyword".to_owned(),
                );
            } else {
                let keyword = members[0].0.as_str();
                let operand = &members[0].1;
                assert(member_specs(members@)[0] == (keyword@, operand@));
                if spells_list_keyword(keyword) {
                    validate_ref_sequence(keyword, operand, true, range, errors);
                } else if same_text(keyword, "requires") || same_text(keyword, "conflicts") {
                    validate_implication_shape(keyword, operand, range, errors);
                } else {
                    shape_error_at(
                        errors,
                        range,
                        join3("unknown constraint keyword `", keyword, "`"),
                    );
                }
            }
        },
    }
    assert(error_specs(errors@) =~= error_specs(old(errors)@) + constraint_shape_errors(
        value@,
        range,
    ));
}

/// Whether the operand of `keyword` is a list of references.
pub fn spells_list_keyword(keyword: &str) -> (list: bool)
    ensures
        list == is_list_keyword(keyword@),
{
    same_text(keyword, "one_of") || same_text(keyword, "any_of") || same_text(
        keyword,
        "at_most_one",
    ) || same_text(keyword, "all_or_none") || same_text(keyword, "ordered")
}

fn validate_constraints_shape(
    places: &Places,
    value: &Json,
    scope: &ScopePath,
    range: SourceRange,
    errors: &mut Vec<SchemaError>,
)
    ensures
        error_specs(final(errors)@) == error_specs(old(errors)@) + constraints_shape_errors(
            places@,
            value@,
            scope@,
            range,
        ),
{
    match value.as_array() {
        None => {
            shape_error_at(
                errors,
                range,
                "constraints must be a sequence and cannot be null".to_owned(),
            );
            assert(error_specs(errors@) =~= error_specs(old(errors)@) + constraints_shape_errors(
                places@,
                value@,
                scope@,
                range,
            ));
        },
        Some(constraints) => {
            let ghost specs = item_specs(constraints@);
            let mut at: usize = 0;
            assert(error_specs(errors@) =~= error_specs(old(errors)@) + constraint_list_errors(
                places@,
                specs,
                scope@,
                0,
            ));
            while at < constraints.len()
                invariant
                    at <= constraints@.len(),
                    specs == item_specs(constraints@),
                    error_specs(errors@) == error_specs(old(errors)@) + constraint_list_errors(
                        places@,
                        specs,
                        scope@,
                        at as int,
                    ),
                decreases constraints.len() - at,
            {
                let constraint_range = places.range(
                    RangeKey::Constraint(scope.clone(), ConstraintIndex(at)),
                );
                validate_constraint_shape(&constraints[at], constraint_range, errors);
                assert(error_specs(errors@) =~= error_specs(old(errors)@)
                    + constraint_list_errors(places@, specs, scope@, at + 1));
                at += 1;
            }
        },
    }
}

fn validate_rule_fields(
    places: &Places,
    members: &Vec<(String, Json)>,
    owner: &Owner<'_>,
    errors: &mut Vec<SchemaError>,
)
    requires
        owner@ is Rule || owner@ is OutlineRule,
    ensures
        error_specs(final(errors)@) == error_specs(old(errors)@) + rule_field_errors(
            places@,
            member_specs(members@),
            owner@,
        ),
{
    let range = places.range(owner.rule());
    validate_known_fields(members, &rule_field_names(), range, errors);
    validate_required_field(members, "match", range, errors);
    let texts: Vec<&'static str> = vec!["id", "match", "repeat"];
    assert(texts_of(texts@) =~= seq!["id"@, "match"@, "repeat"@]);
    validate_field_types(
        places,
        members,
        &texts,
        owner,
        FieldType::Text,
        "rule `",
        "` must be a string and cannot be null",
        errors,
    );
    let flags: Vec<&'static str> = vec!["allow", "required", "strict"];
    assert(texts_of(flags@) =~= seq!["allow"@, "required"@, "strict"@]);
    validate_field_types(
        places,
        members,
        &flags,
        owner,
        FieldType::Bool,
        "rule `",
        "` must be a bool and cannot be null",
        errors,
    );
    assert(error_specs(errors@) =~= error_specs(old(errors)@) + rule_field_errors(
        places@,
        member_specs(members@),
        owner@,
    ));
}

fn validate_declared_constraints(
    places: &Places,
    members: &Vec<(String, Json)>,
    owner: &Owner<'_>,
    scope: &ScopePath,
    errors: &mut Vec<SchemaError>,
)
    ensures
        error_specs(final(errors)@) == error_specs(old(errors)@) + declared_constraint_errors(
            places@,
            member_specs(members@),
            owner@,
            scope@,
        ),
{
    if let Some(constraints) = get_member(members, "constraints") {
        let range = places.range(owner.field("constraints"));
        validate_constraints_shape(places, constraints, scope, range, errors);
    }
    assert(error_specs(errors@) =~= error_specs(old(errors)@) + declared_constraint_errors(
        places@,
        member_specs(members@),
        owner@,
        scope@,
    ));
}

fn validate_rule_shape(
    places: &Places,
    value: &Json,
    owner: &Owner<'_>,
    child_scope: &ScopePath,
    outline: bool,
    errors: &mut Vec<SchemaError>,
)
    requires
        owner@ is Rule || owner@ is OutlineRule,
    ensures
        error_specs(final(errors)@) == error_specs(old(errors)@) + one_rule_errors(
            places@,
            value@,
            owner@,
            child_scope@,
            outline,
        ),
    decreases value,
{
    match value {
        Json::Object(members) => {
            let ghost specs = member_specs(members@);
            proof {
                crate::json::member_index_bounds(specs, "sections"@, 0);
            }
            validate_rule_fields(places, members, owner, errors);
            if let Some(children) = get_member(members, "sections") {
                let range = places.range(owner.field("sections"));
                proof {
                    let k = choose|k: int| 0 <= k < members@.len() && members@[k].1 == *children;
                    assert(decreases_to!(*value => members@[k].1));
                }
                validate_rules_shape(places, children, child_scope, false, range, errors);
            }
            validate_declared_constraints(places, members, owner, child_scope, errors);
        },
        _ => {
            let range = places.range(owner.rule());
            shape_error_at(
                errors,
                range,
                if outline {
                    "each outline rule must be a mapping".to_owned()
                } else {
                    "each section rule must be a mapping".to_owned()
                },
            );
        },
    }
    assert(error_specs(errors@) =~= error_specs(old(errors)@) + one_rule_errors(
        places@,
        value@,
        owner@,
        child_scope@,
        outline,
    ));
}

fn validate_rule_list(
    places: &Places,
    rules: &Vec<Json>,
    scope: &ScopePath,
    outline: bool,
    errors: &mut Vec<SchemaError>,
)
    ensures
        error_specs(final(errors)@) == error_specs(old(errors)@) + rule_list_errors(
            places@,
            item_specs(rules@),
            scope@,
            outline,
            rules@.len() as int,
        ),
    decreases rules,
{
    let ghost specs = item_specs(rules@);
    let mut at: usize = 0;
    assert(error_specs(errors@) =~= error_specs(old(errors)@) + rule_list_errors(
        places@,
        specs,
        scope@,
        outline,
        0,
    ));
    while at < rules.len()
        invariant
            at <= rules@.len(),
            specs == item_specs(rules@),
            error_specs(errors@) == error_specs(old(errors)@) + rule_list_errors(
                places@,
                specs,
                scope@,
                outline,
                at as int,
            ),
        decreases rules.len() - at,
    {
        let owner = if outline {
            Owner::OutlineRule(RuleIndex(at))
        } else {
            Owner::Rule(scope, RuleIndex(at))
        };
        validate_rule_shape(places, &rules[at], &owner, &scope.child(at), outline, errors);
        assert(error_specs(errors@) =~= error_specs(old(errors)@) + rule_list_errors(
            places@,
            specs,
            scope@,
            outline,
            at + 1,
        ));
        at += 1;
    }
}

/// Checks a `sections` or an `outline` list.
fn validate_rules_shape(
    places: &Places,
    value: &Json,
    scope: &ScopePath,
    outline: bool,
    range: SourceRange,
    errors: &mut Vec<SchemaError>,
)
    ensures
        error_specs(final(errors)@) == error_specs(old(errors)@) + rules_shape_errors(
            places@,
            value@,
            scope@,
            outline,
            range,
        ),
    decreases value,
{
    match value {
        Json::Array(rules) => validate_rule_list(places, rules, scope, outline, errors),
        _ => {
            shape_error_at(
                errors,
                range,
                if outline {
                    "outline must be a sequence and cannot be null".to_owned()
                } else {
                    "sections must be a sequence and cannot be null".to_owned()
                },
            );
            assert(error_specs(errors@) =~= error_specs(old(errors)@) + rules_shape_errors(
                places@,
                value@,
                scope@,
                outline,
                range,
            ));
        },
    }
}

fn validate_options_shape(places: &Places, value: &Json, errors: &mut Vec<SchemaError>)
    ensures
        error_specs(final(errors)@) == error_specs(old(errors)@) + options_errors(places@, value@),
{
    let range = places.range(RangeKey::DocumentField("options".to_owned()));
    match value.as_object() {
        None => shape_error_at(
            errors,
            range,
            "options must be a mapping and cannot be null".to_owned(),
        ),
        Some(members) => {
            validate_known_fields(members, &option_field_names(), range, errors);
            validate_field_types(
                places,
                members,
                &option_field_names(),
                &Owner::Options,
                FieldType::Bool,
                "options.",
                " must be a bool and cannot be null",
                errors,
            );
        },
    }
    assert(error_specs(errors@) =~= error_specs(old(errors)@) + options_errors(places@, value@));
}

fn validate_frontmatter_shape(places: &Places, value: &Json, errors: &mut Vec<SchemaError>)
    ensures
        error_specs(final(errors)@) == error_specs(old(errors)@) + frontmatter_errors(
            places@,
            value@,
        ),
{
    let range = places.range(RangeKey::DocumentField("frontmatter".to_owned()));
    match value.as_object() {
        None => shape_error_at(
            errors,
            range,
            "frontmatter must be a mapping and cannot be null".to_owned(),
        ),
        Some(members) => {
            validate_known_fields(members, &frontmatter_field_names(), range, errors);
            let flags: Vec<&'static str> = vec!["required", "allow"];
            assert(texts_of(flags@) =~= seq!["required"@, "allow"@]);
            validate_field_types(
                places,
                members,
                &flags,
                &Owner::Frontmatter,
                FieldType::Bool,
                "frontmatter.",
                " must be a bool and cannot be null",
                errors,
            );
            if let Some(schema) = get_member(members, "schema") {
                if !matches!(schema, Json::Text(_) | Json::Object(_)) {
                    let range = places.range(RangeKey::FrontmatterField("schema".to_owned()));
                    shape_error_at(
                        errors,
                        range,
                        "frontmatter.schema must be a path string or mapping and cannot be null".to_owned(),
                    );
                }
            }
        },
    }
    assert(error_specs(errors@) =~= error_specs(old(errors)@) + frontmatter_errors(
        places@,
        value@,
    ));
}

/// Whether a value is an integer that the schema's own fields can hold.
///
/// A number keeps its exact spelling, so an integer of any magnitude arrives
/// here as a number rather than failing the parse; one that does not fit the
/// 64-bit fields is a shape complaint against the value.
pub(crate) fn is_yaml_integer(value: &Json) -> (integer: bool)
    ensures
        integer == is_integer(value@),
{
    match value {
        Json::Number(spelling) => match parse_plain_integer(spelling.as_str()) {
            None => false,
            Some(number) => -9223372036854775808i128 <= number && number
                <= 18446744073709551615i128,
        },
        _ => false,
    }
}

/// Rejects `outline` beside one half of its sugar spelling.
///
/// `title` + `sections` is defined as sugar for a single-rule `outline`, so a
/// document declaring both forms has said the same thing twice and possibly
/// differently. The error anchors at the second-declared key, with the first
/// attached.
fn reject_beside_outline(places: &Places, other: &str, errors: &mut Vec<SchemaError>)
    ensures
        error_specs(final(errors)@) == error_specs(old(errors)@).push(
            outline_conflict_error(places@, other@),
        ),
{
    let outline_range = places.range(RangeKey::DocumentField("outline".to_owned()));
    let other_range = places.range(RangeKey::DocumentField(other.to_owned()));
    let outline_first = outline_range.range.start.0 <= other_range.range.start.0;
    let (anchor, anchor_name, first, first_name) = if outline_first {
        (other_range, other, outline_range, "outline")
    } else {
        (outline_range, "outline", other_range, other)
    };
    error_with_related_at(
        errors,
        SchemaErrorKind::ConflictingOutline,
        anchor,
        join5("`", anchor_name, "` cannot be declared together with `", first_name, "`"),
        RelatedLocation { range: first, message: join3("`", first_name, "` declared here") },
    );
}

fn validate_outline_exclusivity(
    places: &Places,
    members: &Vec<(String, Json)>,
    errors: &mut Vec<SchemaError>,
) -> (conflict: bool)
    ensures
        error_specs(final(errors)@) == error_specs(old(errors)@) + exclusivity_errors(
            places@,
            member_specs(members@),
        ),
        conflict == outline_conflicts(member_specs(members@)),
{
    let mut conflict = false;
    if get_member(members, "title").is_some() {
        conflict = true;
        reject_beside_outline(places, "title", errors);
    }
    if get_member(members, "sections").is_some() {
        conflict = true;
        reject_beside_outline(places, "sections", errors);
    }
    assert(error_specs(errors@) =~= error_specs(old(errors)@) + exclusivity_errors(
        places@,
        member_specs(members@),
    ));
    conflict
}

/// Checks the top-level fields, before what is nested in them, and tells
/// whether `outline` stands beside its sugar spelling.
fn validate_top_fields(
    places: &Places,
    members: &Vec<(String, Json)>,
    errors: &mut Vec<SchemaError>,
) -> (outline_conflict: bool)
    ensures
        error_specs(final(errors)@) == error_specs(old(errors)@) + top_field_errors(
            places@,
            member_specs(members@),
        ),
        outline_conflict == (member(member_specs(members@), "outline"@) is Some
            && outline_conflicts(member_specs(members@))),
{
    validate_known_fields(members, &document_field_names(), places.document, errors);
    validate_required_field(members, "version", places.document, errors);
    let outline_conflict = if get_member(members, "outline").is_some() {
        validate_outline_exclusivity(places, members, errors)
    } else {
        validate_required_field(members, "sections", places.document, errors);
        false
    };
    if let Some(value) = get_member(members, "version") {
        if !is_yaml_integer(value) {
            let range = places.range(RangeKey::DocumentField("version".to_owned()));
            shape_error_at(
                errors,
                range,
                "version must be an integer that fits in 64 bits and cannot be null".to_owned(),
            );
        }
    }
    if let Some(value) = get_member(members, "title") {
        if !matches!(value, Json::Text(_) | Json::Null) {
            let range = places.range(RangeKey::DocumentField("title".to_owned()));
            shape_error_at(errors, range, "title must be a string or null".to_owned());
        }
    }
    assert(error_specs(errors@) =~= error_specs(old(errors)@) + top_field_errors(
        places@,
        member_specs(members@),
    ));
    outline_conflict
}

/// Checks the shape of a document.
pub fn validate_document_shape(places: &Places, value: &Json, errors: &mut Vec<SchemaError>)
    ensures
        error_specs(final(errors)@) == error_specs(old(errors)@) + document_shape_errors(
            places@,
            value@,
        ),
{
    let members = match value.as_object() {
        Some(members) => members,
        None => {
            shape_error_at(
                errors,
                places.document,
                "schema document must be a mapping".to_owned(),
            );
            assert(error_specs(errors@) =~= error_specs(old(errors)@) + document_shape_errors(
                places@,
                value@,
            ));
            return;
        },
    };
    let ghost start = error_specs(errors@);
    let ghost specs = member_specs(members@);
    let outline_conflict = validate_top_fields(places, members, errors);
    let ghost top = top_field_errors(places@, specs);
    // On a conflict the outline forest holds no collected ranges (`sections`
    // keeps the shared nested-rule key space), so its shape is left to the
    // reload after the conflict is resolved.
    if !outline_conflict {
        validate_top_list(places, members, "outline", true, errors);
    }
    let ghost first = top + if outline_conflict {
        Seq::empty()
    } else {
        top_list_errors(places@, specs, "outline"@, true)
    };
    assert(error_specs(errors@) =~= start + first);
    validate_nested_field(places, members, true, errors);
    let ghost second = first + nested_errors(places@, specs, true);
    assert(error_specs(errors@) =~= start + second);
    validate_nested_field(places, members, false, errors);
    let ghost third = second + nested_errors(places@, specs, false);
    assert(error_specs(errors@) =~= start + third);
    validate_top_list(places, members, "sections", false, errors);
    let ghost fourth = third + top_list_errors(places@, specs, "sections"@, false);
    assert(error_specs(errors@) =~= start + fourth);
    validate_declared_constraints(places, members, &Owner::Document, &ScopePath::root(), errors);
    let ghost fifth = fourth + declared_constraint_errors(
        places@,
        specs,
        OwnerSpec::Document,
        Seq::empty(),
    );
    assert(error_specs(errors@) =~= start + fifth);
}

/// Checks a field that is a mapping of its own: the options, or the
/// frontmatter.
fn validate_nested_field(
    places: &Places,
    members: &Vec<(String, Json)>,
    options: bool,
    errors: &mut Vec<SchemaError>,
)
    ensures
        error_specs(final(errors)@) == error_specs(old(errors)@) + nested_errors(
            places@,
            member_specs(members@),
            options,
        ),
{
    if options {
        if let Some(value) = get_member(members, "options") {
            validate_options_shape(places, value, errors);
        }
    } else {
        if let Some(value) = get_member(members, "frontmatter") {
            validate_frontmatter_shape(places, value, errors);
        }
    }
    assert(error_specs(errors@) =~= error_specs(old(errors)@) + nested_errors(
        places@,
        member_specs(members@),
        options,
    ));
}

/// Checks the top-level list called `field`.
fn validate_top_list(
    places: &Places,
    members: &Vec<(String, Json)>,
    field: &str,
    outline: bool,
    errors: &mut Vec<SchemaError>,
)
    ensures
        error_specs(final(errors)@) == error_specs(old(errors)@) + top_list_errors(
            places@,
            member_specs(members@),
            field@,
            outline,
        ),
{
    if let Some(value) = get_member(members, field) {
        let range = places.range(RangeKey::DocumentField(field.to_owned()));
        validate_rules_shape(places, value, &ScopePath::root(), outline, range, errors);
    }
    assert(error_specs(errors@) =~= error_specs(old(errors)@) + top_list_errors(
        places@,
        member_specs(members@),
        field@,
        outline,
    ));
}

} // verus!
