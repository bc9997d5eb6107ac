//! Building the typed values that the frontmatter declares.

use vstd::prelude::*;

use super::captures::{has_name_form, is_capture_name};
use super::model::{
    export_specs, type_named, ExportSpec, FrontmatterCapture, FrontmatterCaptures, ValueType,
};
use super::order::text_specs;
use crate::json::{get_member, member, member_specs, Json, JsonSpec};
use crate::load_result::{
    error_specs, ErrorSpec, FoundNodes, NodeAddress, SchemaError, SchemaErrorKind, SchemaNode,
    SourceRange,
};
use crate::loader::places::{error_at, plain_error, range_for, Places, PlacesSpec};
use crate::loader::ranges::{KeySpec, RangeKey};
use crate::loader::shape::Members;
use crate::text::{join2, join3, join5, same_text};

verus! {

/// Queries that are no absolute singular JSONPath queries, each with the reason.
pub type QueryFaults = Vec<(String, String)>;

/// What query faults are.
pub open spec fn query_fault_specs(faults: Seq<(String, String)>) -> Seq<(Seq<char>, Seq<char>)> {
    faults.map_values(|fault: (String, String)| (fault.0@, fault.1@))
}

/// Why `query` is no absolute singular query, by the first of the faults from
/// `from` on that is about it.
pub open spec fn query_fault_from(
    faults: Seq<(Seq<char>, Seq<char>)>,
    query: Seq<char>,
    from: int,
) -> Option<Seq<char>>
    decreases faults.len() - from,
{
    if from < 0 || from >= faults.len() {
        None
    } else if faults[from].0 == query {
        Some(faults[from].1)
    } else {
        query_fault_from(faults, query, from + 1)
    }
}

/// The query that a typed value without a `path` reads: its own name.
pub open spec fn default_path(name: Seq<char>) -> Seq<char> {
    "$['"@ + name + "']"@
}

/// What is wrong with the name of a typed value.
pub open spec fn name_faults(name: Seq<char>) -> Seq<Seq<char>> {
    if has_name_form(name) {
        Seq::empty()
    } else {
        seq!["capture name `"@ + name + "` must match `[a-z][a-z0-9_]*`"@]
    }
}

/// Whether a declaration may hold a field of this name.
pub open spec fn is_export_field(field: Seq<char>) -> bool {
    field == "type"@ || field == "path"@ || field == "required"@
}

/// The faults of the first `count` fields whose names are not known.
pub open spec fn field_faults(name: Seq<char>, fields: Members, count: int) -> Seq<Seq<char>>
    decreases count,
{
    if count <= 0 {
        Seq::empty()
    } else {
        let before = field_faults(name, fields, count - 1);
        if is_export_field(fields[count - 1].0) {
            before
        } else {
            before.push(
                "unknown field `"@ + fields[count - 1].0 + "` in frontmatter capture `"@ + name
                    + "`"@,
            )
        }
    }
}

/// The type that a declaration names.
pub open spec fn export_type(fields: Members) -> Option<ValueType> {
    match member(fields, "type"@) {
        Some(JsonSpec::Text(spelling)) => type_named(spelling),
        _ => None,
    }
}

/// What is wrong with the type of a typed value.
pub open spec fn type_faults(name: Seq<char>, fields: Members) -> Seq<Seq<char>> {
    match member(fields, "type"@) {
        None => seq!["frontmatter capture `"@ + name + "` is missing required field `type`"@],
        Some(JsonSpec::Text(spelling)) => if type_named(spelling) is Some {
            Seq::empty()
        } else {
            seq![
                "unknown capture type `"@ + spelling + "` in frontmatter capture `"@ + name
                    + "`; expected one of `int`, `bool`, `date`, `semver`, `dotted`, `text`"@,
            ]
        },
        Some(_) => seq![
            "frontmatter capture `"@ + name + "` `type` must be a string and cannot be null"@,
        ],
    }
}

/// Whether a typed value must be there, which by default it need not.
pub open spec fn export_required(fields: Members) -> Option<bool> {
    match member(fields, "required"@) {
        None => Some(false),
        Some(JsonSpec::Bool(flag)) => Some(flag),
        Some(_) => None,
    }
}

/// What is wrong with the `required` flag of a typed value.
pub open spec fn required_faults(name: Seq<char>, fields: Members) -> Seq<Seq<char>> {
    if export_required(fields) is Some {
        Seq::empty()
    } else {
        seq![
            "frontmatter capture `"@ + name + "` `required` must be a bool and cannot be null"@,
        ]
    }
}

/// The query of a typed value.
pub open spec fn export_path(name: Seq<char>, fields: Members) -> Option<Seq<char>> {
    match member(fields, "path"@) {
        Some(JsonSpec::Text(query)) => Some(query),
        Some(_) => None,
        None => if has_name_form(name) {
            Some(default_path(name))
        } else {
            None
        },
    }
}

/// What is wrong with the query of a typed value. Without a name that could
/// make a default there is nothing to judge.
pub open spec fn path_faults(
    name: Seq<char>,
    fields: Members,
    queries: Seq<(Seq<char>, Seq<char>)>,
) -> Seq<Seq<char>> {
    match member(fields, "path"@) {
        Some(JsonSpec::Text(query)) => match query_fault_from(queries, query, 0) {
            None => Seq::empty(),
            Some(reason) => seq![
                "frontmatter capture `"@ + name + "` path `"@ + query
                    + "` is not an absolute singular JSONPath query: "@ + reason,
            ],
        },
        Some(_) => seq![
            "frontmatter capture `"@ + name + "` `path` must be a string and cannot be null"@,
        ],
        None => if has_name_form(name) && query_fault_from(queries, default_path(name), 0) is Some {
            seq!["frontmatter capture `"@ + name + "` has no usable default path"@]
        } else {
            Seq::empty()
        },
    }
}

/// Everything that is wrong with the declaration of a typed value. Its parts
/// are judged independently of one another.
pub open spec fn export_faults(
    name: Seq<char>,
    declaration: JsonSpec,
    queries: Seq<(Seq<char>, Seq<char>)>,
) -> Seq<Seq<char>> {
    name_faults(name) + match declaration {
        JsonSpec::Object(fields) => field_faults(name, fields, fields.len() as int) + type_faults(
            name,
            fields,
        ) + required_faults(name, fields) + path_faults(name, fields, queries),
        _ => seq![
            "frontmatter capture `"@ + name + "` must be a mapping declaring a `type`"@,
        ],
    }
}

/// The typed value that a declaration makes: one, unless something is wrong
/// with it.
pub open spec fn export_of(
    name: Seq<char>,
    declaration: JsonSpec,
    queries: Seq<(Seq<char>, Seq<char>)>,
) -> Option<ExportSpec> {
    match declaration {
        JsonSpec::Object(fields) => if export_faults(name, declaration, queries).len() == 0 {
            Some(
                ExportSpec {
                    path: export_path(name, fields)->Some_0,
                    value_type: export_type(fields)->Some_0,
                    required: export_required(fields)->Some_0,
                },
            )
        } else {
            None
        },
        _ => None,
    }
}

/// A declaration without faults has everything that a typed value needs.
pub proof fn sound_declarations_are_complete(
    name: Seq<char>,
    declaration: JsonSpec,
    queries: Seq<(Seq<char>, Seq<char>)>,
)
    ensures
        export_of(name, declaration, queries) is Some <==> export_faults(
            name,
            declaration,
            queries,
        ).len() == 0,
        export_of(name, declaration, queries) is Some ==> {
            &&& has_name_form(name)
            &&& declaration is Object
            &&& export_type(declaration->Object_0) is Some
            &&& export_required(declaration->Object_0) is Some
            &&& export_path(name, declaration->Object_0) is Some
            &&& query_fault_from(
                queries,
                export_path(name, declaration->Object_0)->Some_0,
                0,
            ) is None
        },
{
}

fn push_fault(faults: &mut Vec<String>, fault: String)
    ensures
        text_specs(final(faults)@) == text_specs(old(faults)@).push(fault@),
{
    faults.push(fault);
    assert(text_specs(faults@) =~= text_specs(old(faults)@).push(fault@));
}

fn find_query_fault<'a>(faults: &'a QueryFaults, query: &str) -> (reason: Option<&'a String>)
    ensures
        match reason {
            Some(reason) => query_fault_from(query_fault_specs(faults@), query@, 0) == Some(
                reason@,
            ),
            None => query_fault_from(query_fault_specs(faults@), query@, 0) is None,
        },
{
    let ghost specs = query_fault_specs(faults@);
    let mut at: usize = 0;
    while at < faults.len()
        invariant
            at <= faults@.len(),
            specs == query_fault_specs(faults@),
            query_fault_from(specs, query@, 0) == query_fault_from(specs, query@, at as int),
        decreases faults.len() - at,
    {
        if same_text(faults[at].0.as_str(), query) {
            return Some(&faults[at].1);
        }
        at += 1;
    }
    None
}

fn find_field_faults(name: &str, fields: &Vec<(String, Json)>, faults: &mut Vec<String>)
    ensures
        text_specs(final(faults)@) == text_specs(old(faults)@) + field_faults(
            name@,
            member_specs(fields@),
            fields@.len() as int,
        ),
{
    let ghost specs = member_specs(fields@);
    let ghost before = text_specs(faults@);
    let mut at: usize = 0;
    assert(text_specs(faults@) =~= before + field_faults(name@, specs, 0));
    while at < fields.len()
        invariant
            at <= fields@.len(),
            specs == member_specs(fields@),
            text_specs(faults@) == before + field_faults(name@, specs, at as int),
        decreases fields.len() - at,
    {
        let field = fields[at].0.as_str();
        if !(same_text(field, "type") || same_text(field, "path") || same_text(field, "required")) {
            push_fault(
                faults,
                join5("unknown field `", field, "` in frontmatter capture `", name, "`"),
            );
        }
        assert(text_specs(faults@) =~= before + field_faults(name@, specs, at + 1));
        at += 1;
    }
}

/// Reads the type that a declaration names.
fn capture_value_type(name: &str, fields: &Vec<(String, Json)>, faults: &mut Vec<String>) -> (found:
    Option<ValueType>)
    ensures
        found == export_type(member_specs(fields@)),
        text_specs(final(faults)@) == text_specs(old(faults)@) + type_faults(
            name@,
            member_specs(fields@),
        ),
{
    let ghost before = text_specs(faults@);
    let ghost expected = type_faults(name@, member_specs(fields@));
    let message = match get_member(fields, "type") {
        None => join3("frontmatter capture `", name, "` is missing required field `type`"),
        Some(value) => match value.as_str() {
            Some(spelling) => match ValueType::from_name(spelling) {
                Some(value_type) => {
                    assert(text_specs(faults@) =~= before + expected);
                    return Some(value_type);
                },
                None => join5(
                    "unknown capture type `",
                    spelling,
                    "` in frontmatter capture `",
                    name,
                    "`; expected one of `int`, `bool`, `date`, `semver`, `dotted`, `text`",
                ),
            },
            None => join3(
                "frontmatter capture `",
                name,
                "` `type` must be a string and cannot be null",
            ),
        },
    };
    push_fault(faults, message);
    assert(text_specs(faults@) =~= before + expected);
    None
}

/// Reads whether a typed value must be there.
fn capture_required_flag(name: &str, fields: &Vec<(String, Json)>, faults: &mut Vec<String>) -> (found:
    Option<bool>)
    ensures
        found == export_required(member_specs(fields@)),
        text_specs(final(faults)@) == text_specs(old(faults)@) + required_faults(
            name@,
            member_specs(fields@),
        ),
{
    let ghost before = text_specs(faults@);
    let ghost expected = required_faults(name@, member_specs(fields@));
    let found = match get_member(fields, "required") {
        None => Some(false),
        Some(Json::Bool(flag)) => Some(*flag),
        Some(_) => {
            push_fault(
                faults,
                join3(
                    "frontmatter capture `",
                    name,
                    "` `required` must be a bool and cannot be null",
                ),
            );
            None
        },
    };
    assert(text_specs(faults@) =~= before + expected);
    found
}

/// Reads the query of a typed value, or makes its default.
fn capture_path(
    name: &str,
    fields: &Vec<(String, Json)>,
    queries: &QueryFaults,
    faults: &mut Vec<String>,
) -> (found: Option<String>)
    ensures
        text_specs(final(faults)@) == text_specs(old(faults)@) + path_faults(
            name@,
            member_specs(fields@),
            query_fault_specs(queries@),
        ),
        match found {
            Some(path) => export_path(name@, member_specs(fields@)) == Some(path@),
            None => export_path(name@, member_specs(fields@)) is None || path_faults(
                name@,
                member_specs(fields@),
                query_fault_specs(queries@),
            ).len() > 0,
        },
{
    let ghost before = text_specs(faults@);
    let ghost expected = path_faults(
        name@,
        member_specs(fields@),
        query_fault_specs(queries@),
    );
    match get_member(fields, "path") {
        Some(value) => match value.as_str() {
            Some(query) => match find_query_fault(queries, query) {
                None => {
                    assert(text_specs(faults@) =~= before + expected);
                    Some(query.to_owned())
                },
                Some(reason) => {
                    push_fault(
                        faults,
                        join2(
                            join5(
                                "frontmatter capture `",
                                name,
                                "` path `",
                                query,
                                "` is not an absolute singular JSONPath query: ",
                            ).as_str(),
                            reason.as_str(),
                        ),
                    );
                    assert(text_specs(faults@) =~= before + expected);
                    None
                },
            },
            None => {
                push_fault(
                    faults,
                    join3(
                        "frontmatter capture `",
                        name,
                        "` `path` must be a string and cannot be null",
                    ),
                );
                assert(text_specs(faults@) =~= before + expected);
                None
            },
        },
        None => {
            if !is_capture_name(name) {
                assert(text_specs(faults@) =~= before + expected);
                return None;
            }
            let path = join3("$['", name, "']");
            match find_query_fault(queries, path.as_str()) {
                None => {
                    assert(text_specs(faults@) =~= before + expected);
                    Some(path)
                },
                Some(_) => {
                    push_fault(
                        faults,
                        join3("frontmatter capture `", name, "` has no usable default path"),
                    );
                    assert(text_specs(faults@) =~= before + expected);
                    None
                },
            }
        },
    }
}

/// What an optional typed value is.
pub open spec fn optional_export(capture: Option<FrontmatterCapture>) -> Option<ExportSpec> {
    match capture {
        Some(capture) => Some(capture@),
        None => None,
    }
}

/// Builds one typed value out of its declaration, and tells what is wrong
/// with it.
pub fn build_frontmatter_capture(name: &str, declaration: &Json, queries: &QueryFaults) -> (built: (
    Option<FrontmatterCapture>,
    Vec<String>,
))
    ensures
        optional_export(built.0) == export_of(name@, declaration@, query_fault_specs(queries@)),
        text_specs(built.1@) == export_faults(name@, declaration@, query_fault_specs(queries@)),
{
    let ghost query_specs = query_fault_specs(queries@);
    let mut faults: Vec<String> = Vec::new();
    assert(text_specs(faults@) =~= Seq::empty());
    if !is_capture_name(name) {
        push_fault(
            &mut faults,
            join3("capture name `", name, "` must match `[a-z][a-z0-9_]*`"),
        );
    }
    assert(text_specs(faults@) =~= name_faults(name@));
    let fields = match declaration.as_object() {
        Some(fields) => fields,
        None => {
            push_fault(
                &mut faults,
                join3("frontmatter capture `", name, "` must be a mapping declaring a `type`"),
            );
            assert(text_specs(faults@) =~= export_faults(name@, declaration@, query_specs));
            return (None, faults);
        },
    };
    let ghost specs = member_specs(fields@);
    find_field_faults(name, fields, &mut faults);
    let value_type = capture_value_type(name, fields, &mut faults);
    let required = capture_required_flag(name, fields, &mut faults);
    let path = capture_path(name, fields, queries, &mut faults);
    assert(text_specs(faults@) =~= export_faults(name@, declaration@, query_specs));
    assert(text_specs(faults@).len() == faults@.len());
    if faults.len() > 0 {
        return (None, faults);
    }
    proof {
        sound_declarations_are_complete(name@, declaration@, query_specs);
    }
    match (path, value_type, required) {
        (Some(path), Some(value_type), Some(required)) => (
            Some(FrontmatterCapture { path, value_type, required }),
            faults,
        ),
        _ => (None, faults),
    }
}

/// What the declared typed values of the frontmatter come to.
#[verifier::ext_equal]
pub enum DeclaredSpec {
    /// See [`DeclaredCaptures::Absent`].
    Absent,
    /// See [`DeclaredCaptures::Valid`].
    Valid(Seq<(Seq<char>, ExportSpec)>),
    /// See [`DeclaredCaptures::Invalid`].
    Invalid,
}

/// What the declared typed values of the frontmatter come to. A declaration
/// that cannot be used is not the same as none.
#[derive(Debug, PartialEq, Eq)]
pub enum DeclaredCaptures {
    /// None are declared.
    Absent,
    /// Some are declared, and every declaration is sound.
    Valid(FrontmatterCaptures),
    /// The declaration is refused.
    Invalid,
}

impl View for DeclaredCaptures {
    type V = DeclaredSpec;

    open spec fn view(&self) -> DeclaredSpec {
        match self {
            DeclaredCaptures::Absent => DeclaredSpec::Absent,
            DeclaredCaptures::Valid(captures) => DeclaredSpec::Valid(export_specs(captures@)),
            DeclaredCaptures::Invalid => DeclaredSpec::Invalid,
        }
    }
}

/// Faults at one place.
pub open spec fn export_errors(faults: Seq<Seq<char>>, range: SourceRange) -> Seq<ErrorSpec> {
    faults.map_values(
        |fault: Seq<char>| plain_error(SchemaErrorKind::InvalidCapture, range, fault),
    )
}

/// Where a typed value is declared.
pub open spec fn export_range(places: PlacesSpec, name: Seq<char>) -> SourceRange {
    range_for(places, KeySpec::FrontmatterCapture(name))
}

/// The errors in the first `count` declarations.
pub open spec fn declaration_errors(
    places: PlacesSpec,
    entries: Members,
    queries: Seq<(Seq<char>, Seq<char>)>,
    count: int,
) -> Seq<ErrorSpec>
    decreases count,
{
    if count <= 0 {
        Seq::empty()
    } else {
        let entry = entries[count - 1];
        declaration_errors(places, entries, queries, count - 1) + export_errors(
            export_faults(entry.0, entry.1, queries),
            export_range(places, entry.0),
        )
    }
}

/// The nodes of the sound ones among the first `count` declarations.
pub open spec fn declaration_nodes(
    places: PlacesSpec,
    entries: Members,
    queries: Seq<(Seq<char>, Seq<char>)>,
    count: int,
) -> Seq<(NodeAddress, SourceRange)>
    decreases count,
{
    if count <= 0 {
        Seq::empty()
    } else {
        let entry = entries[count - 1];
        let before = declaration_nodes(places, entries, queries, count - 1);
        if export_of(entry.0, entry.1, queries) is Some {
            before.push(
                (NodeAddress::FrontmatterCapture(entry.0), export_range(places, entry.0)),
            )
        } else {
            before
        }
    }
}

/// Whether the first `count` declarations are sound.
pub open spec fn all_sound(
    entries: Members,
    queries: Seq<(Seq<char>, Seq<char>)>,
    count: int,
) -> bool {
    forall|at: int|
        0 <= at < count ==> export_of(
            (#[trigger] entries[at]).0,
            entries[at].1,
            queries,
        ) is Some
}

/// The typed values that sound declarations make.
pub open spec fn exports_of(entries: Members, queries: Seq<(Seq<char>, Seq<char>)>) -> Seq<
    (Seq<char>, ExportSpec),
> {
    entries.map_values(
        |entry: (Seq<char>, JsonSpec)|
            (entry.0, export_of(entry.0, entry.1, queries)->Some_0),
    )
}

/// What building the typed values of the frontmatter yields.
#[verifier::ext_equal]
pub struct ExportsBuild {
    /// What the declaration comes to.
    pub captures: DeclaredSpec,
    /// The errors.
    pub errors: Seq<ErrorSpec>,
    /// The ranges of the nodes that were built.
    pub nodes: Seq<(NodeAddress, SourceRange)>,
}

/// What building the typed values of the frontmatter yields, where the field
/// that declares them is spelled or not. One unsound declaration refuses them
/// all, but does not hide what is wrong with the others.
#[verifier::opaque]
pub open spec fn exports_build(
    places: PlacesSpec,
    value: Option<JsonSpec>,
    declared: bool,
    queries: Seq<(Seq<char>, Seq<char>)>,
) -> ExportsBuild {
    if !declared {
        ExportsBuild {
            captures: DeclaredSpec::Absent,
            errors: Seq::empty(),
            nodes: Seq::empty(),
        }
    } else {
        match value {
            Some(JsonSpec::Object(entries)) if entries.len() > 0 => {
                let count = entries.len() as int;
                ExportsBuild {
                    captures: if all_sound(entries, queries, count) {
                        DeclaredSpec::Valid(exports_of(entries, queries))
                    } else {
                        DeclaredSpec::Invalid
                    },
                    errors: declaration_errors(places, entries, queries, count),
                    nodes: declaration_nodes(places, entries, queries, count),
                }
            },
            _ => ExportsBuild {
                captures: DeclaredSpec::Invalid,
                errors: seq![
                    plain_error(
                        SchemaErrorKind::InvalidCapture,
                        range_for(places, KeySpec::FrontmatterField("captures"@)),
                        "frontmatter.captures must be a non-empty mapping of capture declarations"@,
                    ),
                ],
                nodes: Seq::empty(),
            },
        }
    }
}

fn report_faults(faults: &Vec<String>, range: SourceRange, errors: &mut Vec<SchemaError>)
    ensures
        error_specs(final(errors)@) == error_specs(old(errors)@) + export_errors(
            text_specs(faults@),
            range,
        ),
{
    let ghost expected = export_errors(text_specs(faults@), range);
    let mut at: usize = 0;
    assert(error_specs(errors@) =~= error_specs(old(errors)@) + expected.take(0));
    while at < faults.len()
        invariant
            at <= faults@.len(),
            expected == export_errors(text_specs(faults@), range),
            error_specs(errors@) == error_specs(old(errors)@) + expected.take(at as int),
        decreases faults.len() - at,
    {
        error_at(errors, SchemaErrorKind::InvalidCapture, range, faults[at].clone());
        assert(expected.take(at + 1) =~= expected.take(at as int).push(expected[at as int]));
        assert(error_specs(errors@) =~= error_specs(old(errors)@) + expected.take(at + 1));
        at += 1;
    }
    assert(expected.take(at as int) =~= expected);
}

/// Builds the declarations one by one; `None` if any is unsound.
fn build_declarations(
    places: &Places,
    entries: &Vec<(String, Json)>,
    queries: &QueryFaults,
    errors: &mut Vec<SchemaError>,
    nodes: &mut FoundNodes,
) -> (captures: Option<FrontmatterCaptures>)
    ensures
        ({
            let specs = member_specs(entries@);
            let faults = query_fault_specs(queries@);
            let count = specs.len() as int;
            &&& captures is Some <==> all_sound(specs, faults, count)
            &&& captures is Some ==> export_specs(captures->Some_0@) == exports_of(specs, faults)
            &&& error_specs(final(errors)@) == error_specs(old(errors)@) + declaration_errors(
                places@,
                specs,
                faults,
                count,
            )
            &&& final(nodes)@ == old(nodes)@ + declaration_nodes(places@, specs, faults, count)
        }),
{
    let ghost specs = member_specs(entries@);
    let ghost faults = query_fault_specs(queries@);
    let mut captures: FrontmatterCaptures = Vec::new();
    let mut rejected = false;
    let mut at: usize = 0;
    assert(error_specs(errors@) =~= error_specs(old(errors)@) + declaration_errors(
        places@,
        specs,
        faults,
        0,
    ));
    assert(nodes@ =~= old(nodes)@ + declaration_nodes(places@, specs, faults, 0));
    while at < entries.len()
        invariant
            at <= entries@.len(),
            specs == member_specs(entries@),
            faults == query_fault_specs(queries@),
            rejected <==> !all_sound(specs, faults, at as int),
            !rejected ==> captures@.len() == at && forall|k: int|
                0 <= k < at ==> (#[trigger] captures@[k]).0@ == specs[k].0 && export_of(
                    specs[k].0,
                    specs[k].1,
                    faults,
                ) == Some(captures@[k].1@),
            error_specs(errors@) == error_specs(old(errors)@) + declaration_errors(
                places@,
                specs,
                faults,
                at as int,
            ),
            nodes@ == old(nodes)@ + declaration_nodes(places@, specs, faults, at as int),
        decreases entries.len() - at,
    {
        let ghost sound = export_of(specs[at as int].0, specs[at as int].1, faults) is Some;
        let name = entries[at].0.as_str();
        let range = places.range(RangeKey::FrontmatterCapture(entries[at].0.clone()));
        let (capture, found) = build_frontmatter_capture(name, &entries[at].1, queries);
        report_faults(&found, range, errors);
        match capture {
            Some(capture) => {
                nodes.record(SchemaNode::FrontmatterCapture(entries[at].0.clone()), range);
                captures.push((entries[at].0.clone(), capture));
            },
            None => {
                rejected = true;
            },
        }
        assert(all_sound(specs, faults, at + 1) <==> all_sound(specs, faults, at as int) && sound)
            by {
            if all_sound(specs, faults, at + 1) {
                assert(export_of(specs[at as int].0, specs[at as int].1, faults) is Some);
            }
        }
        assert(error_specs(errors@) =~= error_specs(old(errors)@) + declaration_errors(
            places@,
            specs,
            faults,
            at + 1,
        ));
        assert(nodes@ =~= old(nodes)@ + declaration_nodes(places@, specs, faults, at + 1));
        at += 1;
    }
    if rejected {
        return None;
    }
    assert(export_specs(captures@) =~= exports_of(specs, faults));
    Some(captures)
}

/// Builds the typed values that the frontmatter declares.
pub fn build_frontmatter_captures(
    places: &Places,
    value: Option<&Json>,
    declared: bool,
    queries: &QueryFaults,
    errors: &mut Vec<SchemaError>,
    nodes: &mut FoundNodes,
) -> (captures: DeclaredCaptures)
    ensures
        ({
            let build = exports_build(
                places@,
                optional_json(value),
                declared,
                query_fault_specs(queries@),
            );
            &&& captures@ == build.captures
            &&& error_specs(final(errors)@) == error_specs(old(errors)@) + build.errors
            &&& final(nodes)@ == old(nodes)@ + build.nodes
        }),
{
    let ghost build = exports_build(
        places@,
        optional_json(value),
        declared,
        query_fault_specs(queries@),
    );
    reveal(exports_build);
    if !declared {
        assert(error_specs(errors@) =~= error_specs(old(errors)@) + build.errors);
        assert(nodes@ =~= old(nodes)@ + build.nodes);
        return DeclaredCaptures::Absent;
    }
    if let Some(Json::Object(entries)) = value {
        assert(member_specs(entries@).len() == entries@.len());
        if entries.len() > 0 {
            return match build_declarations(places, entries, queries, errors, nodes) {
                Some(captures) => DeclaredCaptures::Valid(captures),
                None => DeclaredCaptures::Invalid,
            };
        }
    }
    error_at(
        errors,
        SchemaErrorKind::InvalidCapture,
        places.range(RangeKey::FrontmatterField("captures".to_owned())),
        "frontmatter.captures must be a non-empty mapping of capture declarations".to_owned(),
    );
    assert(error_specs(errors@) =~= error_specs(old(errors)@) + build.errors);
    assert(nodes@ =~= old(nodes)@ + build.nodes);
    DeclaredCaptures::Invalid
}

/// What an optional value is.
pub open spec fn optional_json(value: Option<&Json>) -> Option<JsonSpec> {
    match value {
        Some(value) => Some(value@),
        None => None,
    }
}

/// Declared typed values are refused exactly where an error says why, and the
/// accepted ones are as many as were declared.
pub proof fn refused_exports_are_explained(
    places: PlacesSpec,
    value: Option<JsonSpec>,
    declared: bool,
    queries: Seq<(Seq<char>, Seq<char>)>,
)
    ensures
        ({
            let build = exports_build(places, value, declared, queries);
            &&& build.captures is Invalid <==> build.errors.len() > 0
            &&& build.captures is Absent <==> !declared
            &&& build.captures is Valid ==> build.captures->Valid_0.len() > 0
        }),
{
    reveal(exports_build);
    if let Some(JsonSpec::Object(entries)) = value {
        if declared && entries.len() > 0 {
            errors_tell_soundness(places, entries, queries, entries.len() as int);
        }
    }
}

proof fn errors_tell_soundness(
    places: PlacesSpec,
    entries: Members,
    queries: Seq<(Seq<char>, Seq<char>)>,
    count: int,
)
    requires
        0 <= count <= entries.len(),
    ensures
        all_sound(entries, queries, count) <==> declaration_errors(
            places,
            entries,
            queries,
            count,
        ).len() == 0,
    decreases count,
{
    if count > 0 {
        let entry = entries[count - 1];
        errors_tell_soundness(places, entries, queries, count - 1);
        sound_declarations_are_complete(entry.0, entry.1, queries);
        if all_sound(entries, queries, count) {
            assert(all_sound(entries, queries, count - 1));
            assert(export_of(entries[count - 1].0, entries[count - 1].1, queries) is Some);
        }
    }
}

} // verus!
