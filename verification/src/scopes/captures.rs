//! Building typed captures out of their declarations.

use vstd::prelude::*;

use super::content::optional_value;
use super::model::{capture_specs, type_named, Captures, ValueType};
use super::names::{place_order, place_order_sorts, positions_in, sort_by_place};
use crate::json::{member_specs, Json, JsonSpec};
use crate::load_result::{
    error_specs, CapturePath, ErrorSpec, FoundNodes, NodeAddress, RuleIndex, RulePath, SchemaError,
    SchemaErrorKind, SchemaNode, SourceRange,
};
use crate::loader::places::{error_at, known_range, plain_error, range_for, Places, PlacesSpec};
use crate::loader::ranges::{KeySpec, RangeKey};
use crate::loader::rules::matcher_spec;
use crate::loader::shape::Members;
use crate::schema::{Matcher, MatcherSpec};
use crate::text::{chars_of, is_digit, is_lower, join3, join5, same_text};

verus! {

/// Whether a character may stand in a capture name after its first.
pub open spec fn is_name_char(character: char) -> bool {
    is_lower(character) || is_digit(character) || character == '_'
}

/// Whether a text is a capture name: a lowercase letter, then lowercase
/// letters, digits, and underscores.
pub open spec fn has_name_form(text: Seq<char>) -> bool {
    &&& text.len() > 0
    &&& is_lower(text[0])
    &&& forall|at: int| 0 <= at < text.len() ==> is_name_char(#[trigger] text[at])
}

/// Whether a text is a capture name.
pub fn is_capture_name(text: &str) -> (name: bool)
    ensures
        name == has_name_form(text@),
{
    let chars = chars_of(text);
    if chars.len() == 0 || !('a' <= chars[0] && chars[0] <= 'z') {
        return false;
    }
    let mut at: usize = 0;
    while at < chars.len()
        invariant
            at <= chars@.len(),
            chars@ == text@,
            forall|k: int| 0 <= k < at ==> is_name_char(#[trigger] text@[k]),
        decreases chars.len() - at,
    {
        let character = chars[at];
        assert(character == text@[at as int]);
        if !(('a' <= character && character <= 'z') || ('0' <= character && character <= '9')
            || character == '_') {
            return false;
        }
        at += 1;
    }
    true
}

/// What encloses a named group of a regular expression.
#[derive(Debug, Clone, Copy, PartialEq, Eq, Structural)]
pub struct GroupFacts {
    /// An alternation does.
    pub alternation: bool,
    /// A repetition that may be empty does.
    pub min_zero_repetition: bool,
}

/// The named groups of a regular expression with what encloses them.
pub type Groups = Vec<(String, GroupFacts)>;

/// What groups are.
pub open spec fn group_specs(groups: Seq<(String, GroupFacts)>) -> Seq<(Seq<char>, GroupFacts)> {
    groups.map_values(|group: (String, GroupFacts)| (group.0@, group.1))
}

/// What encloses the group called `name`, from `from` on.
pub open spec fn group_from(
    groups: Seq<(Seq<char>, GroupFacts)>,
    name: Seq<char>,
    from: int,
) -> Option<GroupFacts>
    decreases groups.len() - from,
{
    if from < 0 || from >= groups.len() {
        None
    } else if groups[from].0 == name {
        Some(groups[from].1)
    } else {
        group_from(groups, name, from + 1)
    }
}

fn find_group(groups: &Groups, name: &str) -> (facts: Option<GroupFacts>)
    ensures
        facts == group_from(group_specs(groups@), name@, 0),
{
    let ghost specs = group_specs(groups@);
    let mut at: usize = 0;
    while at < groups.len()
        invariant
            at <= groups@.len(),
            specs == group_specs(groups@),
            group_from(specs, name@, 0) == group_from(specs, name@, at as int),
        decreases groups.len() - at,
    {
        assert(specs[at as int] == (groups@[at as int].0@, groups@[at as int].1));
        if same_text(groups[at].0.as_str(), name) {
            return Some(groups[at].1);
        }
        at += 1;
    }
    None
}

/// What becomes of a capture declaration.
pub enum VerdictSpec {
    /// It declares a value of this type.
    Typed(ValueType),
    /// It is refused with this message.
    Refused(Seq<char>),
    /// It cannot be judged, because its matcher could not be built.
    Unjudged,
}

/// What encloses a group that need not take part in a match.
pub open spec fn enclosing(facts: GroupFacts) -> Seq<char> {
    match (facts.alternation, facts.min_zero_repetition) {
        (true, true) => "an alternation and a zero-minimum repetition"@,
        (true, false) => "an alternation"@,
        _ => "a zero-minimum repetition"@,
    }
}

/// What becomes of the declaration of a capture in a rule, given the named
/// groups of the rule's regular expression.
pub open spec fn capture_verdict(
    name: Seq<char>,
    value: JsonSpec,
    matcher: Option<MatcherSpec>,
    groups: Option<Seq<(Seq<char>, GroupFacts)>>,
) -> VerdictSpec {
    if !has_name_form(name) {
        VerdictSpec::Refused("capture name `"@ + name + "` must match `[a-z][a-z0-9_]*`"@)
    } else {
        match value {
            JsonSpec::Text(declared) => match type_named(declared) {
                None => VerdictSpec::Refused(
                    "capture `"@ + name + "` declares unknown type `"@ + declared + "`"@,
                ),
                Some(value_type) => match matcher {
                    None => VerdictSpec::Unjudged,
                    Some(MatcherSpec::Regex(_)) => match groups {
                        None => VerdictSpec::Unjudged,
                        Some(groups) => match group_from(groups, name, 0) {
                            None => VerdictSpec::Refused(
                                "capture `"@ + name + "` names no group in this rule's regex"@,
                            ),
                            Some(facts) => if facts.alternation || facts.min_zero_repetition {
                                VerdictSpec::Refused(
                                    "capture `"@ + name + "` is enclosed by "@ + enclosing(facts)
                                        + ", so its group does not participate in every match"@,
                                )
                            } else {
                                VerdictSpec::Typed(value_type)
                            },
                        },
                    },
                    Some(_) => VerdictSpec::Refused(
                        "capture `"@ + name
                            + "` needs a regex matcher; only a regex declares the named groups a capture binds"@,
                    ),
                },
            },
            _ => VerdictSpec::Refused(
                "capture `"@ + name + "` must declare its type as a string"@,
            ),
        }
    }
}

/// What becomes of a capture declaration.
enum Verdict {
    Typed(ValueType),
    Refused(String),
    Unjudged,
}

spec fn verdict_spec(verdict: Verdict) -> VerdictSpec {
    match verdict {
        Verdict::Typed(value_type) => VerdictSpec::Typed(value_type),
        Verdict::Refused(message) => VerdictSpec::Refused(message@),
        Verdict::Unjudged => VerdictSpec::Unjudged,
    }
}

/// What optional groups are.
pub open spec fn optional_groups(groups: Option<&Groups>) -> Option<Seq<(Seq<char>, GroupFacts)>> {
    match groups {
        None => None,
        Some(groups) => Some(group_specs(groups@)),
    }
}

/// Judges the declaration of a capture in a rule.
fn build_rule_capture(
    name: &str,
    value: &Json,
    matcher: &Option<Matcher>,
    groups: Option<&Groups>,
) -> (verdict: Verdict)
    ensures
        verdict_spec(verdict) == capture_verdict(
            name@,
            value@,
            matcher_spec(*matcher),
            optional_groups(groups),
        ),
{
    if !is_capture_name(name) {
        return Verdict::Refused(
            join3("capture name `", name, "` must match `[a-z][a-z0-9_]*`"),
        );
    }
    let declared = match value.as_str() {
        Some(declared) => declared,
        None => {
            return Verdict::Refused(
                join3("capture `", name, "` must declare its type as a string"),
            );
        },
    };
    let value_type = match ValueType::from_name(declared) {
        Some(value_type) => value_type,
        None => {
            return Verdict::Refused(
                join5("capture `", name, "` declares unknown type `", declared, "`"),
            );
        },
    };
    match matcher {
        None => {
            return Verdict::Unjudged;
        },
        Some(Matcher::Regex(_)) => {},
        Some(_) => {
            return Verdict::Refused(
                join3(
                    "capture `",
                    name,
                    "` needs a regex matcher; only a regex declares the named groups a capture binds",
                ),
            );
        },
    }
    let groups = match groups {
        Some(groups) => groups,
        None => {
            return Verdict::Unjudged;
        },
    };
    match find_group(groups, name) {
        None => Verdict::Refused(
            join3("capture `", name, "` names no group in this rule's regex"),
        ),
        Some(facts) => if facts.alternation || facts.min_zero_repetition {
            let cause = match (facts.alternation, facts.min_zero_repetition) {
                (true, true) => "an alternation and a zero-minimum repetition",
                (true, false) => "an alternation",
                _ => "a zero-minimum repetition",
            };
            Verdict::Refused(
                join5(
                    "capture `",
                    name,
                    "` is enclosed by ",
                    cause,
                    ", so its group does not participate in every match",
                ),
            )
        } else {
            Verdict::Typed(value_type)
        },
    }
}

/// Where the `captures` of a rule stand.
pub open spec fn captures_range(
    places: PlacesSpec,
    rule: (Seq<RuleIndex>, RuleIndex),
) -> SourceRange {
    range_for(places, KeySpec::RuleField(rule.0, rule.1, "captures"@))
}

/// Where a capture declaration stands: its own place, or that of all captures
/// where its key has no spelling of its own.
pub open spec fn capture_range(
    places: PlacesSpec,
    rule: (Seq<RuleIndex>, RuleIndex),
    name: Seq<char>,
) -> SourceRange {
    match known_range(places, KeySpec::RuleCapture(rule.0, rule.1, name)) {
        Some(range) => range,
        None => captures_range(places, rule),
    }
}

/// Where a capture declaration stands.
pub fn capture_declaration_range(places: &Places, rule: &RulePath, name: &str) -> (range:
    SourceRange)
    ensures
        range == capture_range(places@, rule@, name@),
{
    match places.find(RangeKey::RuleCapture(rule.scope.clone(), rule.index, name.to_owned())) {
        Some(range) => range,
        None => places.range(
            RangeKey::RuleField(rule.scope.clone(), rule.index, "captures".to_owned()),
        ),
    }
}

/// What captures are declared in, and judged against.
pub struct CaptureContext {
    /// Where things stand.
    pub places: PlacesSpec,
    /// The rule.
    pub rule: (Seq<RuleIndex>, RuleIndex),
    /// The rule's matcher, if it could be built.
    pub matcher: Option<MatcherSpec>,
    /// The named groups of its regular expression.
    pub groups: Option<Seq<(Seq<char>, GroupFacts)>>,
}

impl CaptureContext {
    /// What becomes of a declaration.
    pub open spec fn verdict(self, declared: (Seq<char>, JsonSpec)) -> VerdictSpec {
        capture_verdict(declared.0, declared.1, self.matcher, self.groups)
    }

    /// Where a declaration stands.
    pub open spec fn range(self, declared: (Seq<char>, JsonSpec)) -> SourceRange {
        capture_range(self.places, self.rule, declared.0)
    }
}

/// The places of captures.
pub open spec fn capture_ranges(context: CaptureContext, members: Members) -> Seq<SourceRange> {
    members.map_values(|declared: (Seq<char>, JsonSpec)| context.range(declared))
}

/// The errors in the declarations at the first `count` positions of `order`.
pub open spec fn verdict_errors(
    context: CaptureContext,
    members: Members,
    order: Seq<int>,
    count: int,
) -> Seq<ErrorSpec>
    decreases count,
{
    if count <= 0 {
        Seq::empty()
    } else {
        let before = verdict_errors(context, members, order, count - 1);
        let declared = members[order[count - 1]];
        match context.verdict(declared) {
            VerdictSpec::Refused(message) => before.push(
                plain_error(SchemaErrorKind::InvalidCapture, context.range(declared), message),
            ),
            _ => before,
        }
    }
}

/// The nodes of the declarations at the first `count` positions of `order`.
pub open spec fn verdict_nodes(
    context: CaptureContext,
    members: Members,
    order: Seq<int>,
    count: int,
) -> Seq<(NodeAddress, SourceRange)>
    decreases count,
{
    if count <= 0 {
        Seq::empty()
    } else {
        let before = verdict_nodes(context, members, order, count - 1);
        let declared = members[order[count - 1]];
        match context.verdict(declared) {
            VerdictSpec::Typed(_) => before.push(
                (
                    NodeAddress::Capture(context.rule.0, context.rule.1, declared.0),
                    context.range(declared),
                ),
            ),
            _ => before,
        }
    }
}

/// Whether every declaration is typed.
pub open spec fn all_typed(context: CaptureContext, members: Members) -> bool {
    forall|at: int| 0 <= at < members.len() ==> context.verdict(#[trigger] members[at]) is Typed
}

/// The captures that typed declarations make.
pub open spec fn captures_of(context: CaptureContext, members: Members) -> Seq<
    (Seq<char>, ValueType),
> {
    members.map_values(
        |declared: (Seq<char>, JsonSpec)| (declared.0, context.verdict(declared)->Typed_0),
    )
}

/// What building the captures of a rule yields.
#[verifier::ext_equal]
pub struct CapturesBuild {
    /// The captures, if all could be built.
    pub captures: Option<Seq<(Seq<char>, ValueType)>>,
    /// The errors.
    pub errors: Seq<ErrorSpec>,
    /// The ranges of the nodes that were built.
    pub nodes: Seq<(NodeAddress, SourceRange)>,
}

/// Captures that cannot be built, for one reason.
pub open spec fn captures_refused(range: SourceRange, message: Seq<char>) -> CapturesBuild {
    CapturesBuild {
        captures: None,
        errors: seq![plain_error(SchemaErrorKind::InvalidCapture, range, message)],
        nodes: Seq::empty(),
    }
}

/// What building the captures of a rule yields. Without a value there are
/// none, unless the field is spelled. The declarations are judged in the order
/// in which they stand in the source.
pub open spec fn captures_build(context: CaptureContext, value: Option<JsonSpec>) -> CapturesBuild {
    let key = KeySpec::RuleField(context.rule.0, context.rule.1, "captures"@);
    let field = captures_range(context.places, context.rule);
    match value {
        None => if known_range(context.places, key) is Some {
            captures_refused(
                field,
                "rule `captures` must be a non-empty mapping and cannot be null"@,
            )
        } else {
            CapturesBuild {
                captures: Some(Seq::empty()),
                errors: Seq::empty(),
                nodes: Seq::empty(),
            }
        },
        Some(JsonSpec::Object(members)) => if members.len() == 0 {
            captures_refused(field, "rule `captures` must declare at least one capture"@)
        } else {
            let count = members.len() as int;
            let order = place_order(capture_ranges(context, members), count);
            CapturesBuild {
                captures: if all_typed(context, members) {
                    Some(captures_of(context, members))
                } else {
                    None
                },
                errors: verdict_errors(context, members, order, count),
                nodes: verdict_nodes(context, members, order, count),
            }
        },
        Some(_) => captures_refused(
            field,
            "rule `captures` must be a mapping from capture names to types"@,
        ),
    }
}

/// Judges all declarations, in the order of their names.
fn judge_captures(
    members: &Vec<(String, Json)>,
    matcher: &Option<Matcher>,
    groups: Option<&Groups>,
) -> (verdicts: Vec<Verdict>)
    ensures
        verdicts@.len() == members@.len(),
        forall|k: int|
            0 <= k < verdicts@.len() ==> verdict_spec(#[trigger] verdicts@[k]) == capture_verdict(
                member_specs(members@)[k].0,
                member_specs(members@)[k].1,
                matcher_spec(*matcher),
                optional_groups(groups),
            ),
{
    let mut verdicts: Vec<Verdict> = Vec::new();
    let mut at: usize = 0;
    while at < members.len()
        invariant
            at <= members@.len(),
            verdicts@.len() == at,
            forall|k: int|
                0 <= k < at ==> verdict_spec(#[trigger] verdicts@[k]) == capture_verdict(
                    member_specs(members@)[k].0,
                    member_specs(members@)[k].1,
                    matcher_spec(*matcher),
                    optional_groups(groups),
                ),
        decreases members.len() - at,
    {
        verdicts.push(
            build_rule_capture(members[at].0.as_str(), &members[at].1, matcher, groups),
        );
        at += 1;
    }
    verdicts
}

/// The captures, where every declaration is typed.
fn typed_captures(
    members: &Vec<(String, Json)>,
    verdicts: &Vec<Verdict>,
    Ghost(context): Ghost<CaptureContext>,
) -> (captures: Option<Captures>)
    requires
        verdicts@.len() == members@.len(),
        forall|k: int|
            0 <= k < verdicts@.len() ==> verdict_spec(#[trigger] verdicts@[k]) == context.verdict(
                member_specs(members@)[k],
            ),
    ensures
        captures is Some <==> all_typed(context, member_specs(members@)),
        captures matches Some(captures) ==> capture_specs(captures@) == captures_of(
            context,
            member_specs(members@),
        ),
{
    let ghost specs = member_specs(members@);
    let mut captures: Captures = Vec::new();
    let mut at: usize = 0;
    while at < members.len()
        invariant
            at <= members@.len() == verdicts@.len(),
            specs == member_specs(members@),
            captures@.len() == at,
            forall|k: int|
                0 <= k < verdicts@.len() ==> verdict_spec(#[trigger] verdicts@[k])
                    == context.verdict(specs[k]),
            forall|k: int|
                0 <= k < at ==> context.verdict(#[trigger] specs[k]) == VerdictSpec::Typed(
                    captures@[k].1,
                ) && captures@[k].0@ == specs[k].0,
        decreases members.len() - at,
    {
        assert(verdict_spec(verdicts@[at as int]) == context.verdict(specs[at as int]));
        match &verdicts[at] {
            Verdict::Typed(value_type) => {
                captures.push((members[at].0.clone(), *value_type));
            },
            _ => {
                assert(!(context.verdict(specs[at as int]) is Typed));
                return None;
            },
        }
        at += 1;
    }
    assert(capture_specs(captures@) =~= captures_of(context, specs));
    Some(captures)
}

/// Reports what is wrong with captures, and records the nodes of the others,
/// in the order of their places.
fn report_captures(
    rule: &RulePath,
    members: &Vec<(String, Json)>,
    verdicts: &Vec<Verdict>,
    ranges: &Vec<SourceRange>,
    Ghost(context): Ghost<CaptureContext>,
    errors: &mut Vec<SchemaError>,
    nodes: &mut FoundNodes,
)
    requires
        verdicts@.len() == members@.len(),
        context.rule == rule@,
        ranges@ == capture_ranges(context, member_specs(members@)),
        forall|k: int|
            0 <= k < verdicts@.len() ==> verdict_spec(#[trigger] verdicts@[k]) == context.verdict(
                member_specs(members@)[k],
            ),
    ensures
        ({
            let specs = member_specs(members@);
            let count = specs.len() as int;
            let order = place_order(capture_ranges(context, specs), count);
            &&& error_specs(final(errors)@) == error_specs(old(errors)@) + verdict_errors(
                context,
                specs,
                order,
                count,
            )
            &&& final(nodes)@ == old(nodes)@ + verdict_nodes(context, specs, order, count)
        }),
{
    let ghost specs = member_specs(members@);
    let order = sort_by_place(ranges);
    let ghost positions = positions_in(order@);
    proof {
        place_order_sorts(ranges@, ranges@.len() as int);
        assert(positions.len() == order@.len());
        assert forall|k: int| 0 <= k < order@.len() implies #[trigger] order@[k]
            < members@.len() by {
            assert(positions[k] == order@[k]);
        }
    }
    let mut next: usize = 0;
    assert(error_specs(errors@) =~= error_specs(old(errors)@) + verdict_errors(
        context,
        specs,
        positions,
        0,
    ));
    assert(nodes@ =~= old(nodes)@ + verdict_nodes(context, specs, positions, 0));
    while next < order.len()
        invariant
            next <= order@.len(),
            specs == member_specs(members@),
            context.rule == rule@,
            ranges@ == capture_ranges(context, specs),
            positions == positions_in(order@),
            verdicts@.len() == members@.len() == ranges@.len(),
            forall|k: int| 0 <= k < order@.len() ==> #[trigger] order@[k] < members@.len(),
            forall|k: int|
                0 <= k < verdicts@.len() ==> verdict_spec(#[trigger] verdicts@[k])
                    == context.verdict(specs[k]),
            error_specs(errors@) == error_specs(old(errors)@) + verdict_errors(
                context,
                specs,
                positions,
                next as int,
            ),
            nodes@ == old(nodes)@ + verdict_nodes(context, specs, positions, next as int),
        decreases order.len() - next,
    {
        let at = order[next];
        assert(positions[next as int] == at);
        assert(verdict_spec(verdicts@[at as int]) == context.verdict(specs[at as int]));
        match &verdicts[at] {
            Verdict::Refused(message) => {
                error_at(errors, SchemaErrorKind::InvalidCapture, ranges[at], message.clone());
            },
            Verdict::Typed(_) => {
                nodes.record(
                    SchemaNode::Capture(
                        CapturePath { rule: rule.clone(), name: members[at].0.clone() },
                    ),
                    ranges[at],
                );
            },
            Verdict::Unjudged => {},
        }
        assert(error_specs(errors@) =~= error_specs(old(errors)@) + verdict_errors(
            context,
            specs,
            positions,
            next + 1,
        ));
        assert(nodes@ =~= old(nodes)@ + verdict_nodes(context, specs, positions, next + 1));
        next += 1;
    }
}

fn declaration_ranges(
    places: &Places,
    rule: &RulePath,
    members: &Vec<(String, Json)>,
    Ghost(context): Ghost<CaptureContext>,
) -> (ranges: Vec<SourceRange>)
    requires
        context.places == places@,
        context.rule == rule@,
    ensures
        ranges@ == capture_ranges(context, member_specs(members@)),
{
    let ghost specs = member_specs(members@);
    let mut ranges: Vec<SourceRange> = Vec::new();
    let mut at: usize = 0;
    while at < members.len()
        invariant
            at <= members@.len(),
            context.places == places@,
            context.rule == rule@,
            specs == member_specs(members@),
            ranges@.len() == at,
            forall|k: int| 0 <= k < at ==> #[trigger] ranges@[k] == context.range(specs[k]),
        decreases members.len() - at,
    {
        ranges.push(capture_declaration_range(places, rule, members[at].0.as_str()));
        at += 1;
    }
    assert(ranges@ =~= capture_ranges(context, specs));
    ranges
}

/// What built captures are.
pub open spec fn built_captures(captures: Option<Captures>) -> Option<Seq<(Seq<char>, ValueType)>> {
    match captures {
        None => None,
        Some(captures) => Some(capture_specs(captures@)),
    }
}

/// Builds the captures of a rule, given the named groups of its regular
/// expression.
///
/// An absent mapping and a fully valid one both give captures, while a mapping
/// that fails anywhere gives none at all: then no name of it enters a scope,
/// and no order may be resolved against it.
pub fn build_rule_captures(
    places: &Places,
    rule: &RulePath,
    value: Option<&Json>,
    matcher: &Option<Matcher>,
    groups: Option<&Groups>,
    errors: &mut Vec<SchemaError>,
    nodes: &mut FoundNodes,
) -> (captures: Option<Captures>)
    ensures
        ({
            let context = CaptureContext {
                places: places@,
                rule: rule@,
                matcher: matcher_spec(*matcher),
                groups: optional_groups(groups),
            };
            let build = captures_build(context, optional_value(value));
            &&& built_captures(captures) == build.captures
            &&& error_specs(final(errors)@) == error_specs(old(errors)@) + build.errors
            &&& final(nodes)@ == old(nodes)@ + build.nodes
        }),
{
    let ghost context = CaptureContext {
        places: places@,
        rule: rule@,
        matcher: matcher_spec(*matcher),
        groups: optional_groups(groups),
    };
    let ghost build = captures_build(context, optional_value(value));
    let ghost start = error_specs(errors@);
    let field = places.range(
        RangeKey::RuleField(rule.scope.clone(), rule.index, "captures".to_owned()),
    );
    let value = match value {
        Some(value) => value,
        None => {
            assert(nodes@ =~= old(nodes)@ + build.nodes);
            let spelled = places.find(
                RangeKey::RuleField(rule.scope.clone(), rule.index, "captures".to_owned()),
            );
            if spelled.is_some() {
                error_at(
                    errors,
                    SchemaErrorKind::InvalidCapture,
                    field,
                    "rule `captures` must be a non-empty mapping and cannot be null".to_owned(),
                );
                assert(error_specs(errors@) =~= start + build.errors);
                return None;
            }
            assert(error_specs(errors@) =~= start + build.errors);
            let none: Captures = Vec::new();
            assert(capture_specs(none@) =~= Seq::empty());
            return Some(none);
        },
    };
    let members = match value.as_object() {
        Some(members) => members,
        None => {
            error_at(
                errors,
                SchemaErrorKind::InvalidCapture,
                field,
                "rule `captures` must be a mapping from capture names to types".to_owned(),
            );
            assert(error_specs(errors@) =~= start + build.errors);
            assert(nodes@ =~= old(nodes)@ + build.nodes);
            return None;
        },
    };
    if members.len() == 0 {
        error_at(
            errors,
            SchemaErrorKind::InvalidCapture,
            field,
            "rule `captures` must declare at least one capture".to_owned(),
        );
        assert(error_specs(errors@) =~= start + build.errors);
        assert(nodes@ =~= old(nodes)@ + build.nodes);
        return None;
    }
    let verdicts = judge_captures(members, matcher, groups);
    let ranges = declaration_ranges(places, rule, members, Ghost(context));
    report_captures(rule, members, &verdicts, &ranges, Ghost(context), errors, nodes);
    typed_captures(members, &verdicts, Ghost(context))
}

/// Built captures have the form of names, and each names a group of the
/// rule's regular expression that takes part in every match.
pub proof fn built_captures_are_sound(context: CaptureContext, value: Option<JsonSpec>)
    ensures
        captures_build(context, value).captures matches Some(captures) ==> {
            &&& captures.len() > 0 ==> context.matcher is Some && context.matcher->0 is Regex
            &&& captures.len() > 0 ==> context.groups is Some
            &&& forall|at: int|
                0 <= at < captures.len() ==> {
                    &&& has_name_form((#[trigger] captures[at]).0)
                    &&& group_from(context.groups->0, captures[at].0, 0) == Some(
                        GroupFacts { alternation: false, min_zero_repetition: false },
                    )
                }
        },
{
    if let Some(JsonSpec::Object(members)) = value {
        if members.len() > 0 && all_typed(context, members) {
            let captures = captures_of(context, members);
            assert(context.verdict(members[0]) is Typed);
            assert forall|at: int| 0 <= at < captures.len() implies {
                &&& has_name_form((#[trigger] captures[at]).0)
                &&& group_from(context.groups->0, captures[at].0, 0) == Some(
                    GroupFacts { alternation: false, min_zero_repetition: false },
                )
            } by {
                assert(context.verdict(members[at]) is Typed);
            }
        }
    }
}

} // verus!
