//! Whether a document has a valid shape depends on what it says, not on where
//! it says it.

use vstd::prelude::*;

use super::places::{range_for, PlacesSpec};
use super::ranges::{
    document_fields, field_key, frontmatter_fields, option_fields, rule_fields, rule_key,
    rule_owner, KeySpec, OwnerSpec,
};
use super::shape::{
    consequence_field, constraint_list_errors, constraint_shape_errors, constraints_shape_errors,
    declared_constraint_errors, document_shape_errors, field_type_errors, frontmatter_errors,
    implication_errors, member_at, nested_errors, one_rule_errors, options_errors,
    ref_list_errors, ref_sequence_errors, rule_field_errors, rule_list_errors,
    rules_shape_errors, top_field_errors, top_list_errors, unknown_field_errors, FieldType,
    Members,
};
use super::sugar::spells_the_same;
use crate::json::{member, member_index_bounds, JsonSpec};
use crate::load_result::{ConstraintIndex, RuleIndex, SourceRange};

verus! {

/// Whether all members have one of the names.
pub open spec fn only(members: Members, names: Seq<Seq<char>>) -> bool {
    forall|at: int| 0 <= at < members.len() ==> names.contains((#[trigger] members[at]).0)
}

/// Whether a document says nothing but what a title with its sections can say,
/// its general form nothing but the same, and the rule there nothing else.
pub open spec fn says_nothing_else(members: Members, general: Members, rule: Members) -> bool {
    &&& only(
        members,
        seq![
            "version"@,
            "options"@,
            "frontmatter"@,
            "title"@,
            "sections"@,
            "constraints"@,
        ],
    )
    &&& only(general, seq!["version"@, "options"@, "frontmatter"@, "outline"@])
    &&& only(rule, seq!["match"@, "required"@, "sections"@, "constraints"@])
}

proof fn unknown_fields_are_alike(
    members: Members,
    allowed: Seq<Seq<char>>,
    one: SourceRange,
    two: SourceRange,
)
    ensures
        unknown_field_errors(members, allowed, one).len() == unknown_field_errors(
            members,
            allowed,
            two,
        ).len(),
    decreases members.len(),
{
    if members.len() > 0 {
        unknown_fields_are_alike(members.drop_last(), allowed, one, two);
    }
}

proof fn known_fields_are_allowed(
    members: Members,
    names: Seq<Seq<char>>,
    allowed: Seq<Seq<char>>,
    range: SourceRange,
)
    requires
        only(members, names),
        forall|at: int| 0 <= at < names.len() ==> allowed.contains(#[trigger] names[at]),
    ensures
        unknown_field_errors(members, allowed, range).len() == 0,
    decreases members.len(),
{
    if members.len() > 0 {
        let before = members.drop_last();
        assert forall|at: int| 0 <= at < before.len() implies names.contains(
            (#[trigger] before[at]).0,
        ) by {
            assert(before[at] == members[at]);
        }
        known_fields_are_allowed(before, names, allowed, range);
        assert(names.contains(members[members.len() - 1].0));
    }
}

proof fn field_types_are_alike(
    one: PlacesSpec,
    two: PlacesSpec,
    members: Members,
    fields: Seq<Seq<char>>,
    one_owner: OwnerSpec,
    two_owner: OwnerSpec,
    expected: FieldType,
    prefix: Seq<char>,
    suffix: Seq<char>,
)
    ensures
        field_type_errors(one, members, fields, one_owner, expected, prefix, suffix).len()
            == field_type_errors(two, members, fields, two_owner, expected, prefix, suffix).len(),
    decreases fields.len(),
{
    if fields.len() > 0 {
        field_types_are_alike(
            one,
            two,
            members,
            fields.drop_last(),
            one_owner,
            two_owner,
            expected,
            prefix,
            suffix,
        );
    }
}

proof fn ref_lists_are_alike(values: Seq<JsonSpec>, one: SourceRange, two: SourceRange)
    ensures
        ref_list_errors(values, one).len() == ref_list_errors(values, two).len(),
    decreases values.len(),
{
    if values.len() > 0 {
        ref_lists_are_alike(values.drop_last(), one, two);
    }
}

proof fn ref_sequences_are_alike(
    name: Seq<char>,
    value: JsonSpec,
    require_two: bool,
    one: SourceRange,
    two: SourceRange,
)
    ensures
        ref_sequence_errors(name, value, require_two, one).len() == ref_sequence_errors(
            name,
            value,
            require_two,
            two,
        ).len(),
{
    if let JsonSpec::Array(values) = value {
        ref_lists_are_alike(values, one, two);
    }
}

proof fn implications_are_alike(
    keyword: Seq<char>,
    operand: JsonSpec,
    one: SourceRange,
    two: SourceRange,
)
    ensures
        implication_errors(keyword, operand, one).len() == implication_errors(
            keyword,
            operand,
            two,
        ).len(),
{
    if let JsonSpec::Object(members) = operand {
        let consequence = consequence_field(keyword == "requires"@);
        unknown_fields_are_alike(members, seq!["if"@, consequence], one, two);
        if let Some(value) = member(members, consequence) {
            ref_sequences_are_alike(consequence, value, false, one, two);
        }
    }
}

proof fn constraints_are_alike(value: JsonSpec, one: SourceRange, two: SourceRange)
    ensures
        constraint_shape_errors(value, one).len() == constraint_shape_errors(value, two).len(),
{
    if let JsonSpec::Object(members) = value {
        if members.len() == 1 {
            ref_sequences_are_alike(members[0].0, members[0].1, true, one, two);
            implications_are_alike(members[0].0, members[0].1, one, two);
        }
    }
}

proof fn constraint_lists_are_alike(
    one: PlacesSpec,
    two: PlacesSpec,
    constraints: Seq<JsonSpec>,
    one_scope: Seq<RuleIndex>,
    two_scope: Seq<RuleIndex>,
    count: int,
)
    ensures
        constraint_list_errors(one, constraints, one_scope, count).len() == constraint_list_errors(
            two,
            constraints,
            two_scope,
            count,
        ).len(),
    decreases count,
{
    if 0 < count <= constraints.len() {
        let index = ConstraintIndex((count - 1) as usize);
        constraint_lists_are_alike(one, two, constraints, one_scope, two_scope, count - 1);
        constraints_are_alike(
            constraints[count - 1],
            range_for(one, KeySpec::Constraint(one_scope, index)),
            range_for(two, KeySpec::Constraint(two_scope, index)),
        );
    }
}

/// The constraints that members declare have as many errors in one place as in
/// another, also where other members declare the same.
proof fn declared_constraints_are_alike(
    one: PlacesSpec,
    two: PlacesSpec,
    members: Members,
    others: Members,
    one_owner: OwnerSpec,
    two_owner: OwnerSpec,
    one_scope: Seq<RuleIndex>,
    two_scope: Seq<RuleIndex>,
)
    requires
        member(members, "constraints"@) == member(others, "constraints"@),
    ensures
        declared_constraint_errors(one, members, one_owner, one_scope).len()
            == declared_constraint_errors(two, others, two_owner, two_scope).len(),
{
    if let Some(value) = member(members, "constraints"@) {
        if let JsonSpec::Array(constraints) = value {
            constraint_lists_are_alike(
                one,
                two,
                constraints,
                one_scope,
                two_scope,
                constraints.len() as int,
            );
        }
        assert(constraints_shape_errors(
            one,
            value,
            one_scope,
            range_for(one, field_key(one_owner, "constraints"@)),
        ).len() == constraints_shape_errors(
            two,
            value,
            two_scope,
            range_for(two, field_key(two_owner, "constraints"@)),
        ).len());
    }
}

proof fn rule_fields_are_alike(
    one: PlacesSpec,
    two: PlacesSpec,
    members: Members,
    one_owner: OwnerSpec,
    two_owner: OwnerSpec,
)
    ensures
        rule_field_errors(one, members, one_owner).len() == rule_field_errors(
            two,
            members,
            two_owner,
        ).len(),
{
    unknown_fields_are_alike(
        members,
        rule_fields(),
        range_for(one, rule_key(one_owner)),
        range_for(two, rule_key(two_owner)),
    );
    field_types_are_alike(
        one,
        two,
        members,
        seq!["id"@, "match"@, "repeat"@],
        one_owner,
        two_owner,
        FieldType::Text,
        "rule `"@,
        "` must be a string and cannot be null"@,
    );
    field_types_are_alike(
        one,
        two,
        members,
        seq!["allow"@, "required"@, "strict"@],
        one_owner,
        two_owner,
        FieldType::Bool,
        "rule `"@,
        "` must be a bool and cannot be null"@,
    );
}

proof fn single_rules_are_alike(
    one: PlacesSpec,
    two: PlacesSpec,
    value: JsonSpec,
    one_owner: OwnerSpec,
    two_owner: OwnerSpec,
    one_scope: Seq<RuleIndex>,
    two_scope: Seq<RuleIndex>,
)
    ensures
        one_rule_errors(one, value, one_owner, one_scope, false).len() == one_rule_errors(
            two,
            value,
            two_owner,
            two_scope,
            false,
        ).len(),
    decreases value, 0int,
{
    if let JsonSpec::Object(members) = value {
        rule_fields_are_alike(one, two, members, one_owner, two_owner);
        declared_constraints_are_alike(
            one,
            two,
            members,
            members,
            one_owner,
            two_owner,
            one_scope,
            two_scope,
        );
        if let Some(at) = member_at(members, "sections"@) {
            if 0 <= at < members.len() {
                rules_are_alike(
                    one,
                    two,
                    members[at].1,
                    one_scope,
                    two_scope,
                    range_for(one, field_key(one_owner, "sections"@)),
                    range_for(two, field_key(two_owner, "sections"@)),
                );
            }
        }
    }
}

proof fn rule_lists_are_alike(
    one: PlacesSpec,
    two: PlacesSpec,
    rules: Seq<JsonSpec>,
    one_scope: Seq<RuleIndex>,
    two_scope: Seq<RuleIndex>,
    count: int,
)
    ensures
        rule_list_errors(one, rules, one_scope, false, count).len() == rule_list_errors(
            two,
            rules,
            two_scope,
            false,
            count,
        ).len(),
    decreases rules, count,
{
    if 0 < count <= rules.len() {
        let index = (count - 1) as usize;
        rule_lists_are_alike(one, two, rules, one_scope, two_scope, count - 1);
        single_rules_are_alike(
            one,
            two,
            rules[count - 1],
            rule_owner(false, one_scope, index),
            rule_owner(false, two_scope, index),
            one_scope.push(RuleIndex(index)),
            two_scope.push(RuleIndex(index)),
        );
    }
}

proof fn rules_are_alike(
    one: PlacesSpec,
    two: PlacesSpec,
    value: JsonSpec,
    one_scope: Seq<RuleIndex>,
    two_scope: Seq<RuleIndex>,
    one_range: SourceRange,
    two_range: SourceRange,
)
    ensures
        rules_shape_errors(one, value, one_scope, false, one_range).len() == rules_shape_errors(
            two,
            value,
            two_scope,
            false,
            two_range,
        ).len(),
    decreases value, 1int,
{
    if let JsonSpec::Array(rules) = value {
        rule_lists_are_alike(one, two, rules, one_scope, two_scope, rules.len() as int);
    }
}

proof fn nested_fields_are_alike(
    one: PlacesSpec,
    two: PlacesSpec,
    members: Members,
    others: Members,
    options: bool,
)
    requires
        member(members, "options"@) == member(others, "options"@),
        member(members, "frontmatter"@) == member(others, "frontmatter"@),
    ensures
        nested_errors(one, members, options).len() == nested_errors(two, others, options).len(),
{
    if options {
        if let Some(JsonSpec::Object(fields)) = member(members, "options"@) {
            unknown_fields_are_alike(
                fields,
                option_fields(),
                range_for(one, KeySpec::DocumentField("options"@)),
                range_for(two, KeySpec::DocumentField("options"@)),
            );
            field_types_are_alike(
                one,
                two,
                fields,
                option_fields(),
                OwnerSpec::Options,
                OwnerSpec::Options,
                FieldType::Bool,
                "options."@,
                " must be a bool and cannot be null"@,
            );
        }
        if let Some(value) = member(members, "options"@) {
            assert(options_errors(one, value).len() == options_errors(two, value).len());
        }
    } else {
        if let Some(JsonSpec::Object(fields)) = member(members, "frontmatter"@) {
            unknown_fields_are_alike(
                fields,
                frontmatter_fields(),
                range_for(one, KeySpec::DocumentField("frontmatter"@)),
                range_for(two, KeySpec::DocumentField("frontmatter"@)),
            );
            field_types_are_alike(
                one,
                two,
                fields,
                seq!["required"@, "allow"@],
                OwnerSpec::Frontmatter,
                OwnerSpec::Frontmatter,
                FieldType::Bool,
                "frontmatter."@,
                " must be a bool and cannot be null"@,
            );
        }
        if let Some(value) = member(members, "frontmatter"@) {
            assert(frontmatter_errors(one, value).len() == frontmatter_errors(two, value).len());
        }
    }
}

/// The errors of the one rule of an outline: its fields are valid, so only what
/// is below it can be wrong.
proof fn only_rule_errors(
    one: PlacesSpec,
    two: PlacesSpec,
    members: Members,
    general: Members,
    rule: Members,
    title: Seq<char>,
)
    requires
        spells_the_same(members, general, rule, title),
        says_nothing_else(members, general, rule),
    ensures
        top_list_errors(two, general, "outline"@, true).len() == top_list_errors(
            one,
            members,
            "sections"@,
            false,
        ).len() + declared_constraint_errors(
            one,
            members,
            OwnerSpec::Document,
            Seq::empty(),
        ).len(),
{
    let value = JsonSpec::Object(rule);
    let rules = seq![value];
    let owner = rule_owner(true, Seq::empty(), 0);
    let scope = Seq::<RuleIndex>::empty().push(RuleIndex(0));
    reveal_with_fuel(rule_list_errors, 2);
    assert(rule_list_errors(two, rules, Seq::empty(), true, 1) =~= one_rule_errors(
        two,
        value,
        owner,
        scope,
        true,
    ));
    assert(rule_field_errors(two, rule, owner).len() == 0) by {
        let names = seq!["match"@, "required"@, "sections"@, "constraints"@];
        let allowed = rule_fields();
        assert(allowed[1] == "match"@ && allowed[3] == "required"@);
        assert(allowed[6] == "sections"@ && allowed[7] == "constraints"@);
        known_fields_are_allowed(rule, names, allowed, range_for(two, rule_key(owner)));
        reveal_with_fuel(field_type_errors, 4);
        let texts = seq!["id"@, "match"@, "repeat"@];
        assert(texts.drop_last() =~= seq!["id"@, "match"@]);
        assert(texts.drop_last().drop_last() =~= seq!["id"@]);
        let bools = seq!["allow"@, "required"@, "strict"@];
        assert(bools.drop_last() =~= seq!["allow"@, "required"@]);
        assert(bools.drop_last().drop_last() =~= seq!["allow"@]);
    }
    declared_constraints_are_alike(
        one,
        two,
        members,
        rule,
        OwnerSpec::Document,
        owner,
        Seq::empty(),
        scope,
    );
    member_index_bounds(rule, "sections"@, 0);
    if let Some(sections) = member(rule, "sections"@) {
        rules_are_alike(
            one,
            two,
            sections,
            Seq::empty(),
            scope,
            range_for(one, KeySpec::DocumentField("sections"@)),
            range_for(two, field_key(owner, "sections"@)),
        );
    }
}

/// A document that spells an outline with a title and its sections has a valid
/// shape exactly where the document that spells it as a single required rule
/// has one.
pub proof fn both_spellings_have_a_valid_shape(
    one: PlacesSpec,
    two: PlacesSpec,
    members: Members,
    general: Members,
    rule: Members,
    title: Seq<char>,
)
    requires
        spells_the_same(members, general, rule, title),
        says_nothing_else(members, general, rule),
        member(members, "sections"@) is Some,
    ensures
        document_shape_errors(one, JsonSpec::Object(members)).len() == 0
            <==> document_shape_errors(two, JsonSpec::Object(general)).len() == 0,
{
    absent_members(general);
    assert(top_field_errors(two, general).len() == top_field_errors(one, members).len()) by {
        let allowed = document_fields();
        assert(allowed[0] == "version"@ && allowed[1] == "title"@ && allowed[2] == "options"@);
        assert(allowed[3] == "frontmatter"@ && allowed[4] == "outline"@);
        assert(allowed[5] == "sections"@ && allowed[6] == "constraints"@);
        known_fields_are_allowed(
            members,
            seq![
                "version"@,
                "options"@,
                "frontmatter"@,
                "title"@,
                "sections"@,
                "constraints"@,
            ],
            allowed,
            one.document,
        );
        known_fields_are_allowed(
            general,
            seq!["version"@, "options"@, "frontmatter"@, "outline"@],
            allowed,
            two.document,
        );
    }
    only_rule_errors(one, two, members, general, rule, title);
    nested_fields_are_alike(one, two, members, general, true);
    nested_fields_are_alike(one, two, members, general, false);
}

/// A general form without other members has no title and no sections.
proof fn absent_members(general: Members)
    requires
        only(general, seq!["version"@, "options"@, "frontmatter"@, "outline"@]),
    ensures
        member(general, "title"@) is None,
        member(general, "sections"@) is None,
{
    let names = seq!["version"@, "options"@, "frontmatter"@, "outline"@];
    reveal_strlit("version");
    reveal_strlit("options");
    reveal_strlit("frontmatter");
    reveal_strlit("outline");
    reveal_strlit("title");
    reveal_strlit("sections");
    assert("title"@.len() == 5);
    assert("sections"@.len() == 8);
    assert(!names.contains("title"@));
    assert(!names.contains("sections"@));
    member_index_bounds(general, "title"@, 0);
    member_index_bounds(general, "sections"@, 0);
    if member(general, "title"@) is Some {
        let at = member_at(general, "title"@)->0;
        assert(names.contains(general[at].0));
    }
    if member(general, "sections"@) is Some {
        let at = member_at(general, "sections"@)->0;
        assert(names.contains(general[at].0));
    }
}

} // verus!
