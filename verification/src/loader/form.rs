//! Which documents have the form of a schema.

use vstd::prelude::*;

use super::external::PreparedSpec;
use super::load::load_of;
use super::places::{range_for, PlacesSpec};
use super::ranges::{
    document_fields, field_key, frontmatter_fields, option_fields, rule_fields, rule_key,
    rule_owner, KeySpec, OwnerSpec,
};
use super::shape::{
    constraint_list_errors, constraint_shape_errors, declared_constraint_errors,
    document_shape_errors, field_type_errors, frontmatter_errors, implication_errors, member_at,
    one_rule_errors, options_errors, ref_list_errors, rule_field_errors, rule_list_errors,
    rules_shape_errors, top_field_errors, unknown_field_errors, FieldType, Members,
};
use super::sugar::{reads_as, source_places};
use crate::json::{member, member_index_bounds, JsonSpec};
use crate::load_result::{ConstraintIndex, RuleIndex, SourceRange, SourceSpec};
use crate::text::plain_integer;

verus! {

/// Whether a member, if it is there, is a text.
pub open spec fn may_be_text(members: Members, name: Seq<char>) -> bool {
    member(members, name) matches Some(value) ==> value is Text
}

/// Whether a member, if it is there, is a truth value.
pub open spec fn may_be_bool(members: Members, name: Seq<char>) -> bool {
    member(members, name) matches Some(value) ==> value is Bool
}

/// Whether values are texts.
pub open spec fn are_texts(values: Seq<JsonSpec>) -> bool {
    forall|at: int| 0 <= at < values.len() ==> (#[trigger] values[at]) is Text
}

/// Whether an operand has the form of an implication: a condition under `if`,
/// one or more consequences under `field`, and nothing else.
pub open spec fn is_implication(operand: JsonSpec, field: Seq<char>) -> bool {
    operand matches JsonSpec::Object(parts) && {
        &&& forall|at: int|
            0 <= at < parts.len() ==> (#[trigger] parts[at]).0 == "if"@ || parts[at].0 == field
        &&& (member(parts, "if"@) matches Some(condition) && condition is Text)
        &&& match member(parts, field) {
            Some(JsonSpec::Text(_)) => true,
            Some(JsonSpec::Array(values)) => values.len() > 0 && are_texts(values),
            _ => false,
        }
    }
}

/// Whether a value has the form of a constraint: one keyword with its operand.
pub open spec fn is_constraint(value: JsonSpec) -> bool {
    value matches JsonSpec::Object(members) && members.len() == 1 && {
        let keyword = members[0].0;
        let operand = members[0].1;
        ||| {
            &&& {
                ||| keyword == "one_of"@
                ||| keyword == "any_of"@
                ||| keyword == "at_most_one"@
                ||| keyword == "all_or_none"@
                ||| keyword == "ordered"@
            }
            &&& (operand matches JsonSpec::Array(values) && values.len() >= 2 && are_texts(values))
        }
        ||| keyword == "requires"@ && is_implication(operand, "then"@)
        ||| keyword == "conflicts"@ && is_implication(operand, "then_not"@)
    }
}

/// Whether the constraints of an object, if it has any, have their form.
pub open spec fn may_have_constraints(members: Members) -> bool {
    match member(members, "constraints"@) {
        None => true,
        Some(JsonSpec::Array(values)) => forall|at: int|
            0 <= at < values.len() ==> is_constraint(#[trigger] values[at]),
        Some(_) => false,
    }
}

/// Whether a name is that of a field of rules.
pub open spec fn is_rule_field(name: Seq<char>) -> bool {
    ||| name == "id"@
    ||| name == "match"@
    ||| name == "allow"@
    ||| name == "required"@
    ||| name == "repeat"@
    ||| name == "strict"@
    ||| name == "sections"@
    ||| name == "constraints"@
}

/// Whether an object has the fields of a rule, but for its sections.
pub open spec fn has_rule_fields(members: Members) -> bool {
    &&& forall|at: int| 0 <= at < members.len() ==> is_rule_field((#[trigger] members[at]).0)
    &&& member(members, "match"@) is Some
    &&& may_be_text(members, "id"@)
    &&& may_be_text(members, "match"@)
    &&& may_be_text(members, "repeat"@)
    &&& may_be_bool(members, "allow"@)
    &&& may_be_bool(members, "required"@)
    &&& may_be_bool(members, "strict"@)
    &&& may_have_constraints(members)
}

/// Whether a value has the form of a rule, with the rules below it.
pub open spec fn is_rule(value: JsonSpec) -> bool
    decreases value, 0int,
{
    match value {
        JsonSpec::Object(members) => has_rule_fields(members) && match member_at(
            members,
            "sections"@,
        ) {
            None => true,
            Some(at) => 0 <= at < members.len() && is_rule_list(members[at].1),
        },
        _ => false,
    }
}

/// Whether a value is a list of values that have the form of rules.
pub open spec fn is_rule_list(value: JsonSpec) -> bool
    decreases value, 1int,
{
    match value {
        JsonSpec::Array(rules) => forall|at: int|
            0 <= at < rules.len() ==> is_rule(#[trigger] rules[at]),
        _ => false,
    }
}

/// Whether a value has the form of the options.
pub open spec fn is_options(value: JsonSpec) -> bool {
    value matches JsonSpec::Object(members) && {
        &&& forall|at: int|
            0 <= at < members.len() ==> (#[trigger] members[at]).0 == "match_case"@
                || members[at].0 == "strip_inline_markup"@ || members[at].0
                == "allow_skipped_levels"@
        &&& may_be_bool(members, "match_case"@)
        &&& may_be_bool(members, "strip_inline_markup"@)
        &&& may_be_bool(members, "allow_skipped_levels"@)
    }
}

/// Whether a value has the form of a frontmatter policy.
pub open spec fn is_policy(value: JsonSpec) -> bool {
    value matches JsonSpec::Object(members) && {
        &&& forall|at: int|
            0 <= at < members.len() ==> (#[trigger] members[at]).0 == "required"@
                || members[at].0 == "allow"@ || members[at].0 == "schema"@
        &&& may_be_bool(members, "required"@)
        &&& may_be_bool(members, "allow"@)
        &&& match member(members, "schema"@) {
            None => true,
            Some(schema) => schema is Text || schema is Object,
        }
    }
}

/// Whether a name is that of a field of schema documents.
pub open spec fn is_document_field(name: Seq<char>) -> bool {
    ||| name == "version"@
    ||| name == "title"@
    ||| name == "options"@
    ||| name == "frontmatter"@
    ||| name == "outline"@
    ||| name == "sections"@
    ||| name == "constraints"@
}

/// Whether a value has the form of a schema document: a version; either an
/// outline, or sections and perhaps a title; and perhaps options, a frontmatter
/// policy and constraints.
pub open spec fn is_document(value: JsonSpec) -> bool {
    value matches JsonSpec::Object(members) && {
        &&& forall|at: int|
            0 <= at < members.len() ==> is_document_field((#[trigger] members[at]).0)
        &&& (member(members, "version"@) matches Some(JsonSpec::Number(spelling))
            && plain_integer(spelling) matches Some(version) && i64::MIN <= version <= u64::MAX)
        &&& match member(members, "outline"@) {
            Some(rules) => {
                &&& is_rule_list(rules)
                &&& member(members, "title"@) is None
                &&& member(members, "sections"@) is None
            },
            None => {
                &&& (member(members, "sections"@) matches Some(rules) && is_rule_list(rules))
                &&& match member(members, "title"@) {
                    None => true,
                    Some(title) => title is Text || title is Null,
                }
            },
        }
        &&& (member(members, "options"@) matches Some(options) ==> is_options(options))
        &&& (member(members, "frontmatter"@) matches Some(policy) ==> is_policy(policy))
        &&& may_have_constraints(members)
    }
}

proof fn unknown_fields_are_reported(members: Members, allowed: Seq<Seq<char>>, range: SourceRange)
    ensures
        unknown_field_errors(members, allowed, range).len() == 0 <==> forall|at: int|
            0 <= at < members.len() ==> allowed.contains((#[trigger] members[at]).0),
    decreases members.len(),
{
    if members.len() > 0 {
        let before = members.drop_last();
        unknown_fields_are_reported(before, allowed, range);
        if forall|at: int|
            0 <= at < members.len() ==> allowed.contains((#[trigger] members[at]).0) {
            assert forall|at: int| 0 <= at < before.len() implies allowed.contains(
                (#[trigger] before[at]).0,
            ) by {
                assert(before[at] == members[at]);
            }
            assert(members[members.len() - 1] == members.last());
        }
        if unknown_field_errors(members, allowed, range).len() == 0 {
            assert forall|at: int| 0 <= at < members.len() implies allowed.contains(
                (#[trigger] members[at]).0,
            ) by {
                if at < before.len() {
                    assert(before[at] == members[at]);
                }
            }
        }
    }
}

proof fn field_types_are_reported(
    places: PlacesSpec,
    members: Members,
    fields: Seq<Seq<char>>,
    owner: OwnerSpec,
    expected: FieldType,
    prefix: Seq<char>,
    suffix: Seq<char>,
)
    ensures
        field_type_errors(places, members, fields, owner, expected, prefix, suffix).len() == 0
            <==> forall|at: int|
            0 <= at < fields.len() ==> (match expected {
                FieldType::Text => may_be_text(members, #[trigger] fields[at]),
                FieldType::Bool => may_be_bool(members, fields[at]),
            }),
    decreases fields.len(),
{
    if fields.len() > 0 {
        let before = fields.drop_last();
        field_types_are_reported(places, members, before, owner, expected, prefix, suffix);
        let fine = |field: Seq<char>|
            match expected {
                FieldType::Text => may_be_text(members, field),
                FieldType::Bool => may_be_bool(members, field),
            };
        assert forall|at: int| 0 <= at < before.len() implies before[at] == fields[at] by {}
        if forall|at: int| 0 <= at < fields.len() ==> fine(#[trigger] fields[at]) {
            assert forall|at: int| 0 <= at < before.len() implies fine(#[trigger] before[at]) by {
                assert(fine(fields[at]));
            }
            assert(fine(fields[fields.len() - 1]));
        }
        if field_type_errors(places, members, fields, owner, expected, prefix, suffix).len() == 0 {
            assert forall|at: int| 0 <= at < fields.len() implies fine(#[trigger] fields[at]) by {
                if at < before.len() {
                    assert(fine(before[at]));
                }
            }
        }
    }
}

proof fn texts_are_reported(values: Seq<JsonSpec>, range: SourceRange)
    ensures
        ref_list_errors(values, range).len() == 0 <==> are_texts(values),
    decreases values.len(),
{
    if values.len() > 0 {
        let before = values.drop_last();
        texts_are_reported(before, range);
        if are_texts(values) {
            assert forall|at: int| 0 <= at < before.len() implies (#[trigger] before[at]) is Text by {
                assert(values[at] == before[at]);
            }
            assert(values[values.len() - 1] is Text);
        }
        if are_texts(before) && values.last() is Text {
            assert forall|at: int| 0 <= at < values.len() implies (#[trigger] values[at]) is Text by {
                if at < before.len() {
                    assert(values[at] == before[at]);
                }
            }
        }
    }
}

proof fn implications_are_reported(keyword: Seq<char>, operand: JsonSpec, range: SourceRange)
    ensures
        implication_errors(keyword, operand, range).len() == 0 <==> is_implication(
            operand,
            if keyword == "requires"@ {
                "then"@
            } else {
                "then_not"@
            },
        ),
{
    let field = if keyword == "requires"@ {
        "then"@
    } else {
        "then_not"@
    };
    if let JsonSpec::Object(parts) = operand {
        let allowed = seq!["if"@, field];
        unknown_fields_are_reported(parts, allowed, range);
        assert forall|name: Seq<char>| #[trigger] allowed.contains(name) <==> name == "if"@ || name
            == field by {
            assert(allowed[0] == "if"@ && allowed[1] == field);
        }
        if let Some(JsonSpec::Array(values)) = member(parts, field) {
            texts_are_reported(values, range);
        }
    }
}

proof fn constraints_are_reported(value: JsonSpec, range: SourceRange)
    ensures
        constraint_shape_errors(value, range).len() == 0 <==> is_constraint(value),
{
    super::keywords::keywords_differ();
    if let JsonSpec::Object(members) = value {
        if members.len() == 1 {
            implications_are_reported(members[0].0, members[0].1, range);
            if let JsonSpec::Array(values) = members[0].1 {
                texts_are_reported(values, range);
            }
        }
    }
}

proof fn constraint_lists_are_reported(
    places: PlacesSpec,
    values: Seq<JsonSpec>,
    scope: Seq<RuleIndex>,
    count: int,
)
    requires
        0 <= count <= values.len(),
    ensures
        constraint_list_errors(places, values, scope, count).len() == 0 <==> forall|at: int|
            0 <= at < count ==> is_constraint(#[trigger] values[at]),
    decreases count,
{
    if count > 0 {
        constraint_lists_are_reported(places, values, scope, count - 1);
        constraints_are_reported(
            values[count - 1],
            range_for(
                places,
                KeySpec::Constraint(scope, ConstraintIndex((count - 1) as usize)),
            ),
        );
    }
}

proof fn declared_constraints_are_reported(
    places: PlacesSpec,
    members: Members,
    owner: OwnerSpec,
    scope: Seq<RuleIndex>,
)
    ensures
        declared_constraint_errors(places, members, owner, scope).len() == 0
            <==> may_have_constraints(members),
{
    if let Some(JsonSpec::Array(values)) = member(members, "constraints"@) {
        constraint_lists_are_reported(places, values, scope, values.len() as int);
    }
}

proof fn rule_field_names()
    ensures
        forall|name: Seq<char>| #[trigger] rule_fields().contains(name) <==> is_rule_field(name),
{
    let fields = rule_fields();
    assert forall|name: Seq<char>| #[trigger] fields.contains(name) <==> is_rule_field(name) by {
        assert(fields[0] == "id"@ && fields[1] == "match"@ && fields[2] == "allow"@ && fields[3]
            == "required"@ && fields[4] == "repeat"@ && fields[5] == "strict"@ && fields[6]
            == "sections"@ && fields[7] == "constraints"@);
    }
}

proof fn rule_fields_are_reported(places: PlacesSpec, members: Members, owner: OwnerSpec)
    ensures
        rule_field_errors(places, members, owner).len() == 0 && may_have_constraints(members)
            <==> has_rule_fields(members),
{
    let range = range_for(places, rule_key(owner));
    rule_field_names();
    unknown_fields_are_reported(members, rule_fields(), range);
    let texts = seq!["id"@, "match"@, "repeat"@];
    let flags = seq!["allow"@, "required"@, "strict"@];
    field_types_are_reported(
        places,
        members,
        texts,
        owner,
        FieldType::Text,
        "rule `"@,
        "` must be a string and cannot be null"@,
    );
    field_types_are_reported(
        places,
        members,
        flags,
        owner,
        FieldType::Bool,
        "rule `"@,
        "` must be a bool and cannot be null"@,
    );
    assert(texts[0] == "id"@ && texts[1] == "match"@ && texts[2] == "repeat"@);
    assert(flags[0] == "allow"@ && flags[1] == "required"@ && flags[2] == "strict"@);
}

proof fn rules_are_reported(
    places: PlacesSpec,
    value: JsonSpec,
    owner: OwnerSpec,
    child_scope: Seq<RuleIndex>,
    outline: bool,
)
    ensures
        one_rule_errors(places, value, owner, child_scope, outline).len() == 0 <==> is_rule(value),
    decreases value, 0int,
{
    if let JsonSpec::Object(members) = value {
        rule_fields_are_reported(places, members, owner);
        declared_constraints_are_reported(places, members, owner, child_scope);
        member_index_bounds(members, "sections"@, 0);
        if let Some(at) = member_at(members, "sections"@) {
            rule_lists_are_reported(
                places,
                members[at].1,
                child_scope,
                false,
                range_for(places, field_key(owner, "sections"@)),
            );
        }
    }
}

proof fn rule_lists_are_reported(
    places: PlacesSpec,
    value: JsonSpec,
    scope: Seq<RuleIndex>,
    outline: bool,
    range: SourceRange,
)
    ensures
        rules_shape_errors(places, value, scope, outline, range).len() == 0 <==> is_rule_list(
            value,
        ),
    decreases value, 1int,
{
    if let JsonSpec::Array(rules) = value {
        leading_rules_are_reported(places, rules, scope, outline, rules.len() as int);
    }
}

proof fn leading_rules_are_reported(
    places: PlacesSpec,
    rules: Seq<JsonSpec>,
    scope: Seq<RuleIndex>,
    outline: bool,
    count: int,
)
    requires
        0 <= count <= rules.len(),
    ensures
        rule_list_errors(places, rules, scope, outline, count).len() == 0 <==> forall|at: int|
            0 <= at < count ==> is_rule(#[trigger] rules[at]),
    decreases rules, count,
{
    if count > 0 {
        leading_rules_are_reported(places, rules, scope, outline, count - 1);
        let index = (count - 1) as usize;
        rules_are_reported(
            places,
            rules[count - 1],
            rule_owner(outline, scope, index),
            scope.push(RuleIndex(index)),
            outline,
        );
    }
}

proof fn options_are_reported(places: PlacesSpec, value: JsonSpec)
    ensures
        options_errors(places, value).len() == 0 <==> is_options(value),
{
    if let JsonSpec::Object(members) = value {
        let fields = option_fields();
        let range = range_for(places, KeySpec::DocumentField("options"@));
        unknown_fields_are_reported(members, fields, range);
        assert(fields[0] == "match_case"@ && fields[1] == "strip_inline_markup"@ && fields[2]
            == "allow_skipped_levels"@);
        assert forall|name: Seq<char>| #[trigger] fields.contains(name) <==> name == "match_case"@
            || name == "strip_inline_markup"@ || name == "allow_skipped_levels"@ by {
            assert(fields[0] == "match_case"@);
        }
        field_types_are_reported(
            places,
            members,
            fields,
            OwnerSpec::Options,
            FieldType::Bool,
            "options."@,
            " must be a bool and cannot be null"@,
        );
    }
}

proof fn policies_are_reported(places: PlacesSpec, value: JsonSpec)
    ensures
        frontmatter_errors(places, value).len() == 0 <==> is_policy(value),
{
    if let JsonSpec::Object(members) = value {
        let fields = frontmatter_fields();
        let flags = seq!["required"@, "allow"@];
        let range = range_for(places, KeySpec::DocumentField("frontmatter"@));
        unknown_fields_are_reported(members, fields, range);
        assert forall|name: Seq<char>| #[trigger] fields.contains(name) <==> name == "required"@
            || name == "allow"@ || name == "schema"@ by {
            assert(fields[0] == "required"@ && fields[1] == "allow"@ && fields[2] == "schema"@);
        }
        assert(flags[0] == "required"@ && flags[1] == "allow"@);
        field_types_are_reported(
            places,
            members,
            flags,
            OwnerSpec::Frontmatter,
            FieldType::Bool,
            "frontmatter."@,
            " must be a bool and cannot be null"@,
        );
    }
}

proof fn top_fields_are_reported(places: PlacesSpec, members: Members)
    ensures
        top_field_errors(places, members).len() == 0 <==> {
            &&& forall|at: int|
                0 <= at < members.len() ==> is_document_field((#[trigger] members[at]).0)
            &&& (member(members, "version"@) matches Some(JsonSpec::Number(spelling))
                && plain_integer(spelling) matches Some(version) && i64::MIN <= version
                <= u64::MAX)
            &&& match member(members, "outline"@) {
                Some(_) => member(members, "title"@) is None && member(members, "sections"@)
                    is None,
                None => member(members, "sections"@) is Some && match member(members, "title"@) {
                    None => true,
                    Some(title) => title is Text || title is Null,
                },
            }
        },
{
    let fields = document_fields();
    unknown_fields_are_reported(members, fields, places.document);
    assert forall|name: Seq<char>| #[trigger] fields.contains(name) <==> is_document_field(
        name,
    ) by {
        assert(fields[0] == "version"@ && fields[1] == "title"@ && fields[2] == "options"@
            && fields[3] == "frontmatter"@ && fields[4] == "outline"@ && fields[5] == "sections"@
            && fields[6] == "constraints"@);
    }
}

/// A document is refused for its form where it has not the form of a schema
/// document, and only there.
pub proof fn documents_are_accepted_by_their_form(places: PlacesSpec, value: JsonSpec)
    ensures
        document_shape_errors(places, value).len() == 0 <==> is_document(value),
{
    if let JsonSpec::Object(members) = value {
        top_fields_are_reported(places, members);
        declared_constraints_are_reported(places, members, OwnerSpec::Document, Seq::empty());
        if let Some(options) = member(members, "options"@) {
            options_are_reported(places, options);
        }
        if let Some(policy) = member(members, "frontmatter"@) {
            policies_are_reported(places, policy);
        }
        if let Some(rules) = member(members, "outline"@) {
            rule_lists_are_reported(
                places,
                rules,
                Seq::empty(),
                true,
                range_for(places, KeySpec::DocumentField("outline"@)),
            );
        }
        if let Some(rules) = member(members, "sections"@) {
            rule_lists_are_reported(
                places,
                rules,
                Seq::empty(),
                false,
                range_for(places, KeySpec::DocumentField("sections"@)),
            );
        }
    }
}

/// A document that loads has the form of a schema document, of the one version
/// that there is.
pub proof fn loaded_documents_have_their_form(
    source: Seq<char>,
    sources: Seq<SourceSpec>,
    prepared: Option<PreparedSpec>,
    members: Members,
)
    requires
        reads_as(source, members),
        load_of(source, sources, prepared) is Ok,
    ensures
        is_document(JsonSpec::Object(members)),
        member(members, "version"@) matches Some(JsonSpec::Number(spelling)) && plain_integer(
            spelling,
        ) == Some(1int),
{
    documents_are_accepted_by_their_form(source_places(source), JsonSpec::Object(members));
    super::sugar::documents_are_built(source_places(source), members, sources, prepared);
}

} // verus!
