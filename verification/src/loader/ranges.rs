//! Where the parts of a schema document stand in its source.

use vstd::prelude::*;

use crate::load_result::{
    ByteOffset, ConstraintIndex, ContentOwner, ContentOwnerSpec, OrderIndex, RuleIndex, ScopePath,
    SourceId, SourceRange, TextRange,
};
use crate::text::same_text;
use crate::yaml::tree::{
    entry_trees_of, text_of_tree, trees_of, Tree, TreeKind, YamlNode, YamlNodeKind,
};
use vstd::utf8::{encode_scalar, encode_utf8};

verus! {

/// The number of bytes that a character takes in UTF-8.
fn char_width(character: char) -> (width: usize)
    ensures
        width == encode_scalar(character as u32).len(),
{
    let code = character as u32;
    if code <= 0x7f {
        1
    } else if code <= 0x7ff {
        2
    } else if code <= 0xffff {
        3
    } else {
        4
    }
}

/// One more character adds its bytes at the end.
pub(crate) proof fn encode_utf8_push(chars: Seq<char>, character: char)
    ensures
        encode_utf8(chars.push(character)) == encode_utf8(chars) + encode_scalar(character as u32),
    decreases chars.len(),
{
    if chars.len() == 0 {
        assert(chars.push(character).drop_first() =~= Seq::empty());
        assert(encode_utf8(chars.push(character).drop_first()) =~= Seq::<u8>::empty());
        assert(encode_utf8(chars.push(character)) =~= encode_scalar(character as u32));
        assert(encode_utf8(chars) =~= Seq::empty());
    } else {
        assert(chars.push(character).drop_first() =~= chars.drop_first().push(character));
        encode_utf8_push(chars.drop_first(), character);
        assert(encode_utf8(chars.push(character)) =~= encode_utf8(chars) + encode_scalar(
            character as u32,
        ));
    }
}

/// A prefix of a text has no more bytes than the text.
proof fn encode_utf8_grows(chars: Seq<char>, at: int)
    requires
        0 <= at <= chars.len(),
    ensures
        encode_utf8(chars.take(at)).len() <= encode_utf8(chars).len(),
    decreases chars.len() - at,
{
    if at == chars.len() {
        assert(chars.take(at) =~= chars);
    } else {
        encode_utf8_grows(chars, at + 1);
        assert(chars.take(at + 1) =~= chars.take(at).push(chars[at]));
        encode_utf8_push(chars.take(at), chars[at]);
    }
}

/// The byte offset of every character of `source`, and of its end.
pub open spec fn offsets_of(source: Seq<char>) -> Seq<usize> {
    Seq::new(source.len() + 1, |at: int| encode_utf8(source.take(at)).len() as usize)
}

/// The byte offset of every character of `source`, and of its end.
pub fn char_offsets(source: &str) -> (offsets: Vec<usize>)
    ensures
        offsets@ == offsets_of(source@),
        encode_utf8(source@).len() <= usize::MAX,
{
    let total = source.as_bytes().len();
    let mut offsets: Vec<usize> = Vec::new();
    let mut offset: usize = 0;
    assert(source@.take(0) =~= Seq::empty());
    for character in iter: source.chars()
        invariant
            iter.seq() == source@,
            total == encode_utf8(source@).len(),
            offset == encode_utf8(source@.take(iter.index())).len(),
            offsets@ == offsets_of(source@).take(iter.index()),
    {
        proof {
            let at = iter.index();
            encode_utf8_grows(source@, at + 1);
            assert(source@.take(at + 1) =~= source@.take(at).push(character));
            encode_utf8_push(source@.take(at), character);
            assert(offsets_of(source@)[at] == offset);
            assert(offsets_of(source@).take(at + 1) =~= offsets_of(source@).take(at).push(offset));
        }
        offsets.push(offset);
        offset = offset + char_width(character);
    }
    proof {
        assert(source@.take(source@.len() as int) =~= source@);
        assert(offsets_of(source@) =~= offsets_of(source@).take(source@.len() as int).push(offset));
    }
    offsets.push(offset);
    offsets
}

/// The offset at `index` of the table, or `otherwise` beyond its end.
pub open spec fn offset_at(offsets: Seq<usize>, index: int, otherwise: usize) -> usize {
    if 0 <= index < offsets.len() {
        offsets[index]
    } else {
        otherwise
    }
}

/// The larger of two offsets.
pub open spec fn further(left: usize, right: usize) -> usize {
    if left < right {
        right
    } else {
        left
    }
}

/// A half-open range of characters as a range of bytes of the primary source.
///
/// An empty range is widened to the one character that it points at, so that
/// a caret has something to sit under; at the end of input it stays empty.
pub open spec fn range_of_chars(start: usize, end: usize, offsets: Seq<usize>) -> SourceRange {
    let source_end = if offsets.len() == 0 {
        0
    } else {
        offsets.last()
    };
    let start_byte = offset_at(offsets, start as int, source_end);
    let end_byte = further(offset_at(offsets, end as int, source_end), start_byte);
    SourceRange {
        source: SourceId(0),
        range: TextRange {
            start: ByteOffset(start_byte),
            end: ByteOffset(
                if end_byte <= start_byte {
                    further(offset_at(offsets, start + 1, end_byte), end_byte)
                } else {
                    end_byte
                },
            ),
        },
    }
}

fn max_offset(left: usize, right: usize) -> (largest: usize)
    ensures
        largest == further(left, right),
{
    if left < right {
        right
    } else {
        left
    }
}

fn offset_or(offsets: &Vec<usize>, index: usize, otherwise: usize) -> (offset: usize)
    ensures
        offset == offset_at(offsets@, index as int, otherwise),
{
    if index < offsets.len() {
        offsets[index]
    } else {
        otherwise
    }
}

/// A half-open range of characters as a range of bytes of the primary source.
pub fn char_range(start: usize, end: usize, offsets: &Vec<usize>) -> (range: SourceRange)
    ensures
        range == range_of_chars(start, end, offsets@),
{
    let source_end = if offsets.len() == 0 {
        0
    } else {
        offsets[offsets.len() - 1]
    };
    let start_byte = offset_or(offsets, start, source_end);
    let mut end_byte = max_offset(offset_or(offsets, end, source_end), start_byte);
    if end_byte <= start_byte {
        let next = if start < offsets.len() {
            offset_or(offsets, start + 1, end_byte)
        } else {
            end_byte
        };
        end_byte = max_offset(next, end_byte);
    }
    SourceRange {
        source: SourceId(0),
        range: TextRange { start: ByteOffset(start_byte), end: ByteOffset(end_byte) },
    }
}

/// The offsets of a source never fall.
proof fn offsets_rise(source: Seq<char>, left: int, right: int)
    requires
        0 <= left <= right <= source.len(),
        encode_utf8(source).len() <= usize::MAX,
    ensures
        offsets_of(source)[left] <= offsets_of(source)[right] <= encode_utf8(source).len(),
{
    assert(source.take(right).take(left) =~= source.take(left));
    encode_utf8_grows(source.take(right), left);
    encode_utf8_grows(source, right);
}

/// A range of characters starts and ends within its source, in this order, on
/// the offsets of characters or at the end.
pub proof fn ranges_stay_in_the_source(start: usize, end: usize, source: Seq<char>)
    requires
        encode_utf8(source).len() <= usize::MAX,
    ensures
        ({
            let range = range_of_chars(start, end, offsets_of(source)).range;
            &&& range.start.0 <= range.end.0 <= encode_utf8(source).len()
            &&& offsets_of(source).contains(range.start.0)
            &&& offsets_of(source).contains(range.end.0)
        }),
{
    let offsets = offsets_of(source);
    let len = source.len() as int;
    let place = |index: int| if 0 <= index <= len { index } else { len };
    assert(offsets.last() == offsets[len]);
    assert forall|index: int| 0 <= index <= len implies offsets.contains(
        #[trigger] offsets[index],
    ) && offsets[index] <= encode_utf8(source).len() by {
        offsets_rise(source, index, len);
    }
    let start_at = if start <= len { start as int } else { len };
    let end_at = if end <= len { end as int } else { len };
    assert(offsets.contains(offsets[start_at]));
    assert(offsets.contains(offsets[end_at]));
    if start < len {
        assert(offsets.contains(offsets[start + 1]));
    }
}

/// What a range belongs to.
#[derive(Debug)]
pub enum RangeKey {
    /// A field of the document.
    DocumentField(String),
    /// A field of `options`.
    OptionField(String),
    /// A field of `frontmatter`.
    FrontmatterField(String),
    /// A rule.
    Rule(ScopePath, RuleIndex),
    /// A field of a rule.
    RuleField(ScopePath, RuleIndex, String),
    /// A constraint.
    Constraint(ScopePath, ConstraintIndex),
    /// A first-level rule in the top-level `outline` list.
    OutlineRule(RuleIndex),
    /// A field of such a rule.
    OutlineRuleField(RuleIndex, String),
    /// A field of a section guard.
    GuardField(ScopePath, usize, String),
    /// One entry of a rule's `captures` mapping, by its raw spelling: a range
    /// has to exist for the declaration whose name is about to be refused.
    RuleCapture(ScopePath, RuleIndex, String),
    /// One entry of an outline rule's `captures` mapping.
    OutlineRuleCapture(RuleIndex, String),
    /// One entry of `frontmatter.captures`, by its raw spelling.
    FrontmatterCapture(String),
    /// One entry of a rule's `order` list.
    RuleOrderEntry(ScopePath, RuleIndex, OrderIndex),
    /// One entry of an outline rule's `order` list.
    OutlineRuleOrderEntry(RuleIndex, OrderIndex),
    /// A declaration among the content rules of an owner.
    Content(ContentOwner, ContentPlace),
    /// The key of a field of such a declaration.
    ContentFieldKey(ContentOwner, ContentPlace, String),
    /// The value of a field of such a declaration.
    ContentFieldValue(ContentOwner, ContentPlace, String),
}

/// A declaration among the content rules of one owner.
#[derive(Debug, Clone, Copy, PartialEq, Eq, Structural)]
pub enum ContentPlace {
    /// A content rule.
    Rule(usize),
    /// An alternative of a content rule.
    Alternative(usize, usize),
    /// An item rule of a content rule.
    Item(usize, usize),
}

/// What a range key is.
pub enum KeySpec {
    /// See [`RangeKey::DocumentField`].
    DocumentField(Seq<char>),
    /// See [`RangeKey::OptionField`].
    OptionField(Seq<char>),
    /// See [`RangeKey::FrontmatterField`].
    FrontmatterField(Seq<char>),
    /// See [`RangeKey::Rule`].
    Rule(Seq<RuleIndex>, RuleIndex),
    /// See [`RangeKey::RuleField`].
    RuleField(Seq<RuleIndex>, RuleIndex, Seq<char>),
    /// See [`RangeKey::Constraint`].
    Constraint(Seq<RuleIndex>, ConstraintIndex),
    /// See [`RangeKey::OutlineRule`].
    OutlineRule(RuleIndex),
    /// See [`RangeKey::OutlineRuleField`].
    OutlineRuleField(RuleIndex, Seq<char>),
    /// See [`RangeKey::GuardField`].
    GuardField(Seq<RuleIndex>, usize, Seq<char>),
    /// See [`RangeKey::RuleCapture`].
    RuleCapture(Seq<RuleIndex>, RuleIndex, Seq<char>),
    /// See [`RangeKey::OutlineRuleCapture`].
    OutlineRuleCapture(RuleIndex, Seq<char>),
    /// See [`RangeKey::FrontmatterCapture`].
    FrontmatterCapture(Seq<char>),
    /// See [`RangeKey::RuleOrderEntry`].
    RuleOrderEntry(Seq<RuleIndex>, RuleIndex, OrderIndex),
    /// See [`RangeKey::OutlineRuleOrderEntry`].
    OutlineRuleOrderEntry(RuleIndex, OrderIndex),
    /// See [`RangeKey::Content`].
    Content(ContentOwnerSpec, ContentPlace),
    /// See [`RangeKey::ContentFieldKey`].
    ContentFieldKey(ContentOwnerSpec, ContentPlace, Seq<char>),
    /// See [`RangeKey::ContentFieldValue`].
    ContentFieldValue(ContentOwnerSpec, ContentPlace, Seq<char>),
}

impl View for RangeKey {
    type V = KeySpec;

    open spec fn view(&self) -> KeySpec {
        match *self {
            RangeKey::DocumentField(field) => KeySpec::DocumentField(field@),
            RangeKey::OptionField(field) => KeySpec::OptionField(field@),
            RangeKey::FrontmatterField(field) => KeySpec::FrontmatterField(field@),
            RangeKey::Rule(scope, index) => KeySpec::Rule(scope@, index),
            RangeKey::RuleField(scope, index, field) => KeySpec::RuleField(scope@, index, field@),
            RangeKey::Constraint(scope, index) => KeySpec::Constraint(scope@, index),
            RangeKey::OutlineRule(index) => KeySpec::OutlineRule(index),
            RangeKey::OutlineRuleField(index, field) => KeySpec::OutlineRuleField(index, field@),
            RangeKey::GuardField(scope, index, field) => KeySpec::GuardField(
                scope@,
                index,
                field@,
            ),
            RangeKey::RuleCapture(scope, index, name) => KeySpec::RuleCapture(scope@, index, name@),
            RangeKey::OutlineRuleCapture(index, name) => KeySpec::OutlineRuleCapture(index, name@),
            RangeKey::FrontmatterCapture(name) => KeySpec::FrontmatterCapture(name@),
            RangeKey::RuleOrderEntry(scope, index, entry) => KeySpec::RuleOrderEntry(
                scope@,
                index,
                entry,
            ),
            RangeKey::OutlineRuleOrderEntry(index, entry) => KeySpec::OutlineRuleOrderEntry(
                index,
                entry,
            ),
            RangeKey::Content(owner, place) => KeySpec::Content(owner@, place),
            RangeKey::ContentFieldKey(owner, place, field) => KeySpec::ContentFieldKey(
                owner@,
                place,
                field@,
            ),
            RangeKey::ContentFieldValue(owner, place, field) => KeySpec::ContentFieldValue(
                owner@,
                place,
                field@,
            ),
        }
    }
}

impl RangeKey {
    /// Whether two keys are the same.
    pub fn same(&self, other: &RangeKey) -> (same: bool)
        ensures
            same == (self@ == other@),
    {
        match (self, other) {
            (RangeKey::DocumentField(left), RangeKey::DocumentField(right)) => same_text(
                left.as_str(),
                right.as_str(),
            ),
            (RangeKey::OptionField(left), RangeKey::OptionField(right)) => same_text(
                left.as_str(),
                right.as_str(),
            ),
            (RangeKey::FrontmatterField(left), RangeKey::FrontmatterField(right)) => same_text(
                left.as_str(),
                right.as_str(),
            ),
            (RangeKey::Rule(left, one), RangeKey::Rule(right, two)) => *one == *two && left.same(
                right,
            ),
            (
                RangeKey::RuleField(left, one, left_field),
                RangeKey::RuleField(right, two, right_field),
            ) => *one == *two && left.same(right) && same_text(
                left_field.as_str(),
                right_field.as_str(),
            ),
            (RangeKey::Constraint(left, one), RangeKey::Constraint(right, two)) => *one == *two
                && left.same(right),
            (RangeKey::OutlineRule(one), RangeKey::OutlineRule(two)) => *one == *two,
            (RangeKey::OutlineRuleField(one, left), RangeKey::OutlineRuleField(two, right)) => *one
                == *two && same_text(left.as_str(), right.as_str()),
            (
                RangeKey::GuardField(left, one, left_field),
                RangeKey::GuardField(right, two, right_field),
            ) => *one == *two && left.same(right) && same_text(
                left_field.as_str(),
                right_field.as_str(),
            ),
            (
                RangeKey::RuleCapture(left, one, left_name),
                RangeKey::RuleCapture(right, two, right_name),
            ) => *one == *two && left.same(right) && same_text(
                left_name.as_str(),
                right_name.as_str(),
            ),
            (RangeKey::OutlineRuleCapture(one, left), RangeKey::OutlineRuleCapture(two, right)) => {
                *one == *two && same_text(left.as_str(), right.as_str())
            },
            (RangeKey::FrontmatterCapture(left), RangeKey::FrontmatterCapture(right)) => same_text(
                left.as_str(),
                right.as_str(),
            ),
            (
                RangeKey::RuleOrderEntry(left, one, left_entry),
                RangeKey::RuleOrderEntry(right, two, right_entry),
            ) => *one == *two && *left_entry == *right_entry && left.same(right),
            (
                RangeKey::OutlineRuleOrderEntry(one, left),
                RangeKey::OutlineRuleOrderEntry(two, right),
            ) => *one == *two && *left == *right,
            (RangeKey::Content(left, one), RangeKey::Content(right, two)) => *one == *two
                && left.same(right),
            (
                RangeKey::ContentFieldKey(left, one, left_field),
                RangeKey::ContentFieldKey(right, two, right_field),
            ) => *one == *two && left.same(right) && same_text(
                left_field.as_str(),
                right_field.as_str(),
            ),
            (
                RangeKey::ContentFieldValue(left, one, left_field),
                RangeKey::ContentFieldValue(right, two, right_field),
            ) => *one == *two && left.same(right) && same_text(
                left_field.as_str(),
                right_field.as_str(),
            ),
            _ => false,
        }
    }
}

/// The thing that fields belong to.
pub enum OwnerSpec {
    /// The document.
    Document,
    /// `options`
    Options,
    /// `frontmatter`
    Frontmatter,
    /// A rule.
    Rule(Seq<RuleIndex>, RuleIndex),
    /// A first-level rule in the top-level `outline` list.
    OutlineRule(RuleIndex),
}

/// The key of a field.
pub open spec fn field_key(owner: OwnerSpec, field: Seq<char>) -> KeySpec {
    match owner {
        OwnerSpec::Document => KeySpec::DocumentField(field),
        OwnerSpec::Options => KeySpec::OptionField(field),
        OwnerSpec::Frontmatter => KeySpec::FrontmatterField(field),
        OwnerSpec::Rule(scope, index) => KeySpec::RuleField(scope, index, field),
        OwnerSpec::OutlineRule(index) => KeySpec::OutlineRuleField(index, field),
    }
}

/// The thing that fields belong to.
pub enum Owner<'a> {
    /// The document.
    Document,
    /// `options`
    Options,
    /// `frontmatter`
    Frontmatter,
    /// A rule.
    Rule(&'a ScopePath, RuleIndex),
    /// A first-level rule in the top-level `outline` list.
    OutlineRule(RuleIndex),
}

impl<'a> View for Owner<'a> {
    type V = OwnerSpec;

    open spec fn view(&self) -> OwnerSpec {
        match *self {
            Owner::Document => OwnerSpec::Document,
            Owner::Options => OwnerSpec::Options,
            Owner::Frontmatter => OwnerSpec::Frontmatter,
            Owner::Rule(scope, index) => OwnerSpec::Rule(scope@, index),
            Owner::OutlineRule(index) => OwnerSpec::OutlineRule(index),
        }
    }
}

impl<'a> Owner<'a> {
    /// The key of a field.
    pub fn field(&self, field: &str) -> (key: RangeKey)
        ensures
            key@ == field_key(self@, field@),
    {
        match self {
            Owner::Document => RangeKey::DocumentField(field.to_owned()),
            Owner::Options => RangeKey::OptionField(field.to_owned()),
            Owner::Frontmatter => RangeKey::FrontmatterField(field.to_owned()),
            Owner::Rule(scope, index) => RangeKey::RuleField(
                (*scope).clone(),
                *index,
                field.to_owned(),
            ),
            Owner::OutlineRule(index) => RangeKey::OutlineRuleField(*index, field.to_owned()),
        }
    }

    /// The key of the rule itself.
    pub fn rule(&self) -> (key: RangeKey)
        requires
            self@ is Rule || self@ is OutlineRule,
        ensures
            key@ == rule_key(self@),
    {
        match self {
            Owner::Rule(scope, index) => RangeKey::Rule((*scope).clone(), *index),
            Owner::OutlineRule(index) => RangeKey::OutlineRule(*index),
            _ => RangeKey::OutlineRule(RuleIndex(0)),
        }
    }
}

/// The key of a rule.
pub open spec fn rule_key(owner: OwnerSpec) -> KeySpec {
    match owner {
        OwnerSpec::Rule(scope, index) => KeySpec::Rule(scope, index),
        OwnerSpec::OutlineRule(index) => KeySpec::OutlineRule(index),
        _ => KeySpec::OutlineRule(RuleIndex(0)),
    }
}

/// The texts that `texts` are.
pub open spec fn texts_of(texts: Seq<&'static str>) -> Seq<Seq<char>> {
    texts.map_values(|text: &'static str| text@)
}

/// The fields of a document.
pub open spec fn document_fields() -> Seq<Seq<char>> {
    seq![
        "version"@,
        "title"@,
        "options"@,
        "frontmatter"@,
        "outline"@,
        "sections"@,
        "constraints"@,
    ]
}

/// The fields of `options`.
pub open spec fn option_fields() -> Seq<Seq<char>> {
    seq!["match_case"@, "strip_inline_markup"@, "allow_skipped_levels"@]
}

/// The fields of `frontmatter`.
pub open spec fn frontmatter_fields() -> Seq<Seq<char>> {
    seq!["required"@, "allow"@, "schema"@]
}

/// The fields of a rule.
pub open spec fn rule_fields() -> Seq<Seq<char>> {
    seq![
        "id"@,
        "match"@,
        "allow"@,
        "required"@,
        "repeat"@,
        "strict"@,
        "sections"@,
        "constraints"@,
    ]
}

/// The fields of a document.
pub fn document_field_names() -> (fields: Vec<&'static str>)
    ensures
        texts_of(fields@) == document_fields(),
{
    let fields: Vec<&'static str> = vec![
        "version",
        "title",
        "options",
        "frontmatter",
        "outline",
        "sections",
        "constraints",
    ];
    assert(texts_of(fields@) =~= document_fields());
    fields
}

/// The fields of `options`.
pub fn option_field_names() -> (fields: Vec<&'static str>)
    ensures
        texts_of(fields@) == option_fields(),
{
    let fields: Vec<&'static str> = vec![
        "match_case",
        "strip_inline_markup",
        "allow_skipped_levels",
    ];
    assert(texts_of(fields@) =~= option_fields());
    fields
}

/// The fields of `frontmatter`.
pub fn frontmatter_field_names() -> (fields: Vec<&'static str>)
    ensures
        texts_of(fields@) == frontmatter_fields(),
{
    let fields: Vec<&'static str> = vec!["required", "allow", "schema"];
    assert(texts_of(fields@) =~= frontmatter_fields());
    fields
}

/// The fields of a rule.
pub fn rule_field_names() -> (fields: Vec<&'static str>)
    ensures
        texts_of(fields@) == rule_fields(),
{
    let fields: Vec<&'static str> = vec![
        "id",
        "match",
        "allow",
        "required",
        "repeat",
        "strict",
        "sections",
        "constraints",
    ];
    assert(texts_of(fields@) =~= rule_fields());
    fields
}

/// The value of the entry whose key spells `key`, from `from` on.
pub open spec fn entry_index(entries: Seq<(Tree, Tree)>, key: Seq<char>, from: int) -> Option<int>
    decreases entries.len() - from,
{
    if from < 0 || from >= entries.len() {
        None
    } else if text_of_tree(entries[from].0) == Some(key) {
        Some(from)
    } else {
        entry_index(entries, key, from + 1)
    }
}

/// The value of the entry whose key spells `key`.
pub open spec fn entry_value(entries: Seq<(Tree, Tree)>, key: Seq<char>) -> Option<Tree> {
    match entry_index(entries, key, 0) {
        None => None,
        Some(at) => Some(entries[at].1),
    }
}

/// An entry that was found is one.
proof fn entry_index_bounds(entries: Seq<(Tree, Tree)>, key: Seq<char>, from: int)
    requires
        0 <= from,
    ensures
        entry_index(entries, key, from) matches Some(at) ==> from <= at < entries.len(),
    decreases entries.len() - from,
{
    if from < entries.len() && text_of_tree(entries[from].0) != Some(key) {
        entry_index_bounds(entries, key, from + 1);
    }
}

/// The value of the entry whose key spells `key`, by linear scan.
fn schema_mapping_get<'a>(entries: &'a Vec<(YamlNode, YamlNode)>, key: &str) -> (value: Option<
    &'a YamlNode,
>)
    ensures
        value is Some <==> entry_value(entry_trees_of(entries@), key@) is Some,
        value matches Some(value) ==> entry_value(entry_trees_of(entries@), key@) == Some(value@)
            && exists|at: int| 0 <= at < entries@.len() && entries@[at].1 == *value,
{
    let ghost trees = entry_trees_of(entries@);
    let mut at: usize = 0;
    while at < entries.len()
        invariant
            at <= entries@.len(),
            trees == entry_trees_of(entries@),
            entry_index(trees, key@, 0) == entry_index(trees, key@, at as int),
        decreases entries.len() - at,
    {
        let found = match entries[at].0.scalar_text() {
            Some(text) => same_text(text, key),
            None => false,
        };
        if found {
            assert(entries@[at as int].1 == entries[at as int].1);
            return Some(&entries[at].1);
        }
        at += 1;
    }
    None
}

/// The range that the parts of a subtree anchor at, once an alias expansion
/// encloses them: the alias site's own range.
pub open spec fn expansion_of(tree: Tree, inherited: Option<(usize, usize)>) -> Option<
    (usize, usize),
> {
    if inherited is Some {
        inherited
    } else if tree.expanded {
        Some((tree.start, tree.end))
    } else {
        None
    }
}

/// The range of a node, or that of the alias site that encloses it.
pub open spec fn range_of_node(
    tree: Tree,
    expansion: Option<(usize, usize)>,
    offsets: Seq<usize>,
) -> SourceRange {
    match expansion {
        Some((start, end)) => range_of_chars(start, end, offsets),
        None => range_of_chars(tree.start, tree.end, offsets),
    }
}

fn subtree_expansion(node: &YamlNode, inherited: Option<(usize, usize)>) -> (expansion: Option<
    (usize, usize),
>)
    ensures
        expansion == expansion_of(node@, inherited),
{
    if inherited.is_some() {
        inherited
    } else if node.expanded {
        Some((node.start, node.end))
    } else {
        None
    }
}

fn node_range(
    node: &YamlNode,
    expansion: Option<(usize, usize)>,
    offsets: &Vec<usize>,
) -> (range: SourceRange)
    ensures
        range == range_of_node(node@, expansion, offsets@),
{
    match expansion {
        Some((start, end)) => char_range(start, end, offsets),
        None => char_range(node.start, node.end, offsets),
    }
}

/// The ranges of the fields of a mapping.
pub open spec fn field_ranges(
    entries: Seq<(Tree, Tree)>,
    fields: Seq<Seq<char>>,
    owner: OwnerSpec,
    expansion: Option<(usize, usize)>,
    offsets: Seq<usize>,
) -> Seq<(KeySpec, SourceRange)>
    decreases fields.len(),
{
    if fields.len() == 0 {
        Seq::empty()
    } else {
        let before = field_ranges(entries, fields.drop_last(), owner, expansion, offsets);
        match entry_value(entries, fields.last()) {
            None => before,
            Some(value) => before.push(
                (field_key(owner, fields.last()), range_of_node(value, expansion, offsets)),
            ),
        }
    }
}

/// The ranges of constraints.
pub open spec fn constraint_ranges(
    constraints: Seq<Tree>,
    scope: Seq<RuleIndex>,
    expansion: Option<(usize, usize)>,
    offsets: Seq<usize>,
) -> Seq<(KeySpec, SourceRange)> {
    Seq::new(
        constraints.len(),
        |at: int|
            (
                KeySpec::Constraint(scope, ConstraintIndex(at as usize)),
                range_of_node(constraints[at], expansion, offsets),
            ),
    )
}

/// The items of a sequence.
pub open spec fn items_of(tree: Tree) -> Seq<Tree> {
    match tree.kind {
        TreeKind::Sequence(items) => items,
        _ => Seq::empty(),
    }
}

/// The entries of a mapping.
pub open spec fn entries_of(tree: Tree) -> Seq<(Tree, Tree)> {
    match tree.kind {
        TreeKind::Mapping(entries) => entries,
        _ => Seq::empty(),
    }
}

/// The ranges of the constraints that a mapping declares for `scope`.
pub open spec fn declared_constraint_ranges(
    entries: Seq<(Tree, Tree)>,
    scope: Seq<RuleIndex>,
    expansion: Option<(usize, usize)>,
    offsets: Seq<usize>,
) -> Seq<(KeySpec, SourceRange)> {
    match entry_value(entries, "constraints"@) {
        None => Seq::empty(),
        Some(node) => constraint_ranges(
            items_of(node),
            scope,
            expansion_of(node, expansion),
            offsets,
        ),
    }
}

/// The rule at `index` of a list in `scope`, or of the `outline` list.
pub open spec fn rule_owner(outline: bool, scope: Seq<RuleIndex>, index: usize) -> OwnerSpec {
    if outline {
        OwnerSpec::OutlineRule(RuleIndex(index))
    } else {
        OwnerSpec::Rule(scope, RuleIndex(index))
    }
}

/// The ranges of one rule: its own, then those of its fields, then those of
/// the rules and the constraints of its child scope.
pub open spec fn one_rule_ranges(
    node: Tree,
    owner: OwnerSpec,
    child_scope: Seq<RuleIndex>,
    expansion: Option<(usize, usize)>,
    offsets: Seq<usize>,
) -> Seq<(KeySpec, SourceRange)>
    decreases node, 0int,
{
    let inner = expansion_of(node, expansion);
    let own = seq![(rule_key(owner), range_of_node(node, expansion, offsets))];
    match node.kind {
        TreeKind::Mapping(entries) => {
            let nested = match entry_index(entries, "sections"@, 0) {
                Some(at) => if 0 <= at < entries.len() {
                    match entries[at].1.kind {
                        TreeKind::Sequence(items) => rule_ranges(
                            items,
                            items.len() as int,
                            false,
                            child_scope,
                            expansion_of(entries[at].1, inner),
                            offsets,
                        ),
                        _ => Seq::empty(),
                    }
                } else {
                    Seq::empty()
                },
                None => Seq::empty(),
            };
            own + field_ranges(entries, rule_fields(), owner, inner, offsets) + nested
                + declared_constraint_ranges(entries, child_scope, inner, offsets)
        },
        _ => own,
    }
}

/// The ranges of the first `count` rules of a list.
pub open spec fn rule_ranges(
    rules: Seq<Tree>,
    count: int,
    outline: bool,
    scope: Seq<RuleIndex>,
    expansion: Option<(usize, usize)>,
    offsets: Seq<usize>,
) -> Seq<(KeySpec, SourceRange)>
    decreases rules, count,
{
    if count <= 0 || count > rules.len() {
        Seq::empty()
    } else {
        let index = (count - 1) as usize;
        rule_ranges(rules, count - 1, outline, scope, expansion, offsets) + one_rule_ranges(
            rules[count - 1],
            rule_owner(outline, scope, index),
            scope.push(RuleIndex(index)),
            expansion,
            offsets,
        )
    }
}

/// The ranges of the fields of `options` or `frontmatter`.
pub open spec fn nested_field_ranges(
    entries: Seq<(Tree, Tree)>,
    section: Seq<char>,
    fields: Seq<Seq<char>>,
    owner: OwnerSpec,
    expansion: Option<(usize, usize)>,
    offsets: Seq<usize>,
) -> Seq<(KeySpec, SourceRange)> {
    match entry_value(entries, section) {
        None => Seq::empty(),
        Some(node) => field_ranges(
            entries_of(node),
            fields,
            owner,
            expansion_of(node, expansion),
            offsets,
        ),
    }
}

/// The ranges of the rules that the document declares: of `sections`, or else
/// of `outline`.
pub open spec fn top_rule_ranges(
    entries: Seq<(Tree, Tree)>,
    expansion: Option<(usize, usize)>,
    offsets: Seq<usize>,
) -> Seq<(KeySpec, SourceRange)> {
    if let Some(node) = entry_value(entries, "sections"@) {
        rule_ranges(
            items_of(node),
            items_of(node).len() as int,
            false,
            Seq::empty(),
            expansion_of(node, expansion),
            offsets,
        )
    } else if let Some(node) = entry_value(entries, "outline"@) {
        rule_ranges(
            items_of(node),
            items_of(node).len() as int,
            true,
            Seq::empty(),
            expansion_of(node, expansion),
            offsets,
        )
    } else {
        Seq::empty()
    }
}

/// Every addressable range of a document.
pub open spec fn document_ranges(root: Tree, offsets: Seq<usize>) -> Seq<(KeySpec, SourceRange)> {
    let entries = entries_of(root);
    let expansion = expansion_of(root, None);
    field_ranges(entries, document_fields(), OwnerSpec::Document, expansion, offsets)
        + nested_field_ranges(
        entries,
        "options"@,
        option_fields(),
        OwnerSpec::Options,
        expansion,
        offsets,
    ) + nested_field_ranges(
        entries,
        "frontmatter"@,
        frontmatter_fields(),
        OwnerSpec::Frontmatter,
        expansion,
        offsets,
    ) + top_rule_ranges(entries, expansion, offsets) + declared_constraint_ranges(
        entries,
        Seq::empty(),
        expansion,
        offsets,
    )
}

/// The ranges of a document by what they belong to.
pub struct RangeIndex {
    /// The keys with their ranges.
    pub ranges: Vec<(RangeKey, SourceRange)>,
}

impl View for RangeIndex {
    type V = Seq<(KeySpec, SourceRange)>;

    open spec fn view(&self) -> Seq<(KeySpec, SourceRange)> {
        self.ranges@.map_values(|entry: (RangeKey, SourceRange)| (entry.0@, entry.1))
    }
}

/// The range of the first entry for `key`, from `from` on.
pub open spec fn lookup(
    ranges: Seq<(KeySpec, SourceRange)>,
    key: KeySpec,
    from: int,
) -> Option<SourceRange>
    decreases ranges.len() - from,
{
    if from < 0 || from >= ranges.len() {
        None
    } else if ranges[from].0 == key {
        Some(ranges[from].1)
    } else {
        lookup(ranges, key, from + 1)
    }
}

impl RangeIndex {
    /// No ranges.
    pub fn new() -> (index: Self)
        ensures
            index@ == Seq::<(KeySpec, SourceRange)>::empty(),
    {
        let index = RangeIndex { ranges: Vec::new() };
        assert(index@ =~= Seq::empty());
        index
    }

    fn insert(&mut self, key: RangeKey, range: SourceRange)
        ensures
            final(self)@ == old(self)@.push((key@, range)),
    {
        self.ranges.push((key, range));
        assert(self@ =~= old(self)@.push((key@, range)));
    }

    /// The range of `key`.
    pub fn find(&self, key: &RangeKey) -> (range: Option<SourceRange>)
        ensures
            range == lookup(self@, key@, 0),
    {
        let mut at: usize = 0;
        while at < self.ranges.len()
            invariant
                at <= self.ranges@.len(),
                lookup(self@, key@, 0) == lookup(self@, key@, at as int),
            decreases self.ranges.len() - at,
        {
            if self.ranges[at].0.same(key) {
                return Some(self.ranges[at].1);
            }
            at += 1;
        }
        None
    }

    /// Reads every addressable range off a tree.
    pub fn from_tree(root: &YamlNode, offsets: &Vec<usize>) -> (index: Self)
        ensures
            index@ == document_ranges(root@, offsets@),
    {
        let mut index = RangeIndex::new();
        let expansion = subtree_expansion(root, None);
        let entries = match root.as_mapping() {
            Some(entries) => entries,
            None => {
                proof {
                    no_fields(document_fields(), OwnerSpec::Document, None, offsets@);
                    no_fields(document_fields(), OwnerSpec::Document, expansion, offsets@);
                }
                assert(index@ =~= document_ranges(root@, offsets@));
                return index;
            },
        };
        let ghost trees = entry_trees_of(entries@);
        index.collect_fields(
            entries,
            &document_field_names(),
            &Owner::Document,
            expansion,
            offsets,
        );
        if let Some(node) = schema_mapping_get(entries, "options") {
            index.collect_section(node, &option_field_names(), &Owner::Options, expansion, offsets);
        }
        if let Some(node) = schema_mapping_get(entries, "frontmatter") {
            index.collect_section(
                node,
                &frontmatter_field_names(),
                &Owner::Frontmatter,
                expansion,
                offsets,
            );
        }
        if let Some(node) = schema_mapping_get(entries, "sections") {
            index.collect_list(node, false, &ScopePath::root(), expansion, offsets);
        } else if let Some(node) = schema_mapping_get(entries, "outline") {
            // `outline` and `sections` share the nested-rule key space: an
            // outline rule's children live in the scope its index names. The
            // two lists are mutually exclusive, so when both appear the load
            // is already failing and only the `sections` forest keeps its
            // ranges.
            index.collect_list(node, true, &ScopePath::root(), expansion, offsets);
        }
        index.collect_declared_constraints(entries, &ScopePath::root(), expansion, offsets);
        assert(index@ =~= document_ranges(root@, offsets@));
        index
    }

    fn collect_fields(
        &mut self,
        entries: &Vec<(YamlNode, YamlNode)>,
        fields: &Vec<&'static str>,
        owner: &Owner<'_>,
        expansion: Option<(usize, usize)>,
        offsets: &Vec<usize>,
    )
        ensures
            final(self)@ == old(self)@ + field_ranges(
                entry_trees_of(entries@),
                texts_of(fields@),
                owner@,
                expansion,
                offsets@,
            ),
    {
        let ghost trees = entry_trees_of(entries@);
        let ghost names = texts_of(fields@);
        let mut at: usize = 0;
        assert(self@ =~= old(self)@ + field_ranges(
            trees,
            names.take(0),
            owner@,
            expansion,
            offsets@,
        ));
        while at < fields.len()
            invariant
                at <= fields@.len(),
                trees == entry_trees_of(entries@),
                names == texts_of(fields@),
                self@ == old(self)@ + field_ranges(
                    trees,
                    names.take(at as int),
                    owner@,
                    expansion,
                    offsets@,
                ),
            decreases fields.len() - at,
        {
            proof {
                assert(names.take(at + 1).drop_last() =~= names.take(at as int));
                assert(names.take(at + 1).last() == fields@[at as int]@);
            }
            if let Some(node) = schema_mapping_get(entries, fields[at]) {
                self.insert(owner.field(fields[at]), node_range(node, expansion, offsets));
            }
            assert(self@ =~= old(self)@ + field_ranges(
                trees,
                names.take(at + 1),
                owner@,
                expansion,
                offsets@,
            ));
            at += 1;
        }
        assert(names.take(at as int) =~= names);
    }

    /// The fields of `options` or `frontmatter`.
    fn collect_section(
        &mut self,
        node: &YamlNode,
        fields: &Vec<&'static str>,
        owner: &Owner<'_>,
        expansion: Option<(usize, usize)>,
        offsets: &Vec<usize>,
    )
        ensures
            final(self)@ == old(self)@ + field_ranges(
                entries_of(node@),
                texts_of(fields@),
                owner@,
                expansion_of(node@, expansion),
                offsets@,
            ),
    {
        let inner = subtree_expansion(node, expansion);
        match node.as_mapping() {
            Some(entries) => self.collect_fields(entries, fields, owner, inner, offsets),
            None => {
                proof {
                    no_fields(texts_of(fields@), owner@, inner, offsets@);
                }
                assert(self@ =~= old(self)@ + field_ranges(
                    Seq::empty(),
                    texts_of(fields@),
                    owner@,
                    inner,
                    offsets@,
                ));
            },
        }
    }

    /// The rules of a list.
    fn collect_list(
        &mut self,
        node: &YamlNode,
        outline: bool,
        scope: &ScopePath,
        expansion: Option<(usize, usize)>,
        offsets: &Vec<usize>,
    )
        ensures
            final(self)@ == old(self)@ + rule_ranges(
                items_of(node@),
                items_of(node@).len() as int,
                outline,
                scope@,
                expansion_of(node@, expansion),
                offsets@,
            ),
        decreases node,
    {
        let inner = subtree_expansion(node, expansion);
        match &node.kind {
            YamlNodeKind::Sequence(items) => {
                self.collect_rules(items, outline, scope, inner, offsets);
            },
            _ => {
                assert(self@ =~= old(self)@ + rule_ranges(
                    items_of(node@),
                    0,
                    outline,
                    scope@,
                    inner,
                    offsets@,
                ));
            },
        }
    }

    fn collect_rules(
        &mut self,
        rules: &Vec<YamlNode>,
        outline: bool,
        scope: &ScopePath,
        expansion: Option<(usize, usize)>,
        offsets: &Vec<usize>,
    )
        ensures
            final(self)@ == old(self)@ + rule_ranges(
                trees_of(rules@),
                rules@.len() as int,
                outline,
                scope@,
                expansion,
                offsets@,
            ),
        decreases rules,
    {
        let ghost trees = trees_of(rules@);
        let mut at: usize = 0;
        assert(self@ =~= old(self)@ + rule_ranges(
            trees,
            0,
            outline,
            scope@,
            expansion,
            offsets@,
        ));
        while at < rules.len()
            invariant
                at <= rules@.len(),
                trees == trees_of(rules@),
                self@ == old(self)@ + rule_ranges(
                    trees,
                    at as int,
                    outline,
                    scope@,
                    expansion,
                    offsets@,
                ),
            decreases rules.len() - at,
        {
            let owner = if outline {
                Owner::OutlineRule(RuleIndex(at))
            } else {
                Owner::Rule(scope, RuleIndex(at))
            };
            self.collect_rule(&rules[at], &owner, &scope.child(at), expansion, offsets);
            assert(self@ =~= old(self)@ + rule_ranges(
                trees,
                at + 1,
                outline,
                scope@,
                expansion,
                offsets@,
            ));
            at += 1;
        }
    }

    fn collect_rule(
        &mut self,
        node: &YamlNode,
        owner: &Owner<'_>,
        child_scope: &ScopePath,
        expansion: Option<(usize, usize)>,
        offsets: &Vec<usize>,
    )
        requires
            owner@ is Rule || owner@ is OutlineRule,
        ensures
            final(self)@ == old(self)@ + one_rule_ranges(
                node@,
                owner@,
                child_scope@,
                expansion,
                offsets@,
            ),
        decreases node,
    {
        self.insert(owner.rule(), node_range(node, expansion, offsets));
        let inner = subtree_expansion(node, expansion);
        if let YamlNodeKind::Mapping(entries) = &node.kind {
            let ghost trees = entry_trees_of(entries@);
            self.collect_fields(entries, &rule_field_names(), owner, inner, offsets);
            proof {
                entry_index_bounds(trees, "sections"@, 0);
            }
            if let Some(sections) = schema_mapping_get(entries, "sections") {
                proof {
                    let k = choose|k: int| 0 <= k < entries@.len() && entries@[k].1 == *sections;
                    assert(decreases_to!(*node => entries@[k].1));
                }
                self.collect_list(sections, false, child_scope, inner, offsets);
            }
            self.collect_declared_constraints(entries, child_scope, inner, offsets);
        }
        assert(self@ =~= old(self)@ + one_rule_ranges(
            node@,
            owner@,
            child_scope@,
            expansion,
            offsets@,
        ));
    }

    fn collect_declared_constraints(
        &mut self,
        entries: &Vec<(YamlNode, YamlNode)>,
        scope: &ScopePath,
        expansion: Option<(usize, usize)>,
        offsets: &Vec<usize>,
    )
        ensures
            final(self)@ == old(self)@ + declared_constraint_ranges(
                entry_trees_of(entries@),
                scope@,
                expansion,
                offsets@,
            ),
    {
        if let Some(constraints) = schema_mapping_get(entries, "constraints") {
            self.collect_constraints(constraints, scope, expansion, offsets);
        }
        assert(self@ =~= old(self)@ + declared_constraint_ranges(
            entry_trees_of(entries@),
            scope@,
            expansion,
            offsets@,
        ));
    }

    fn collect_constraints(
        &mut self,
        node: &YamlNode,
        scope: &ScopePath,
        expansion: Option<(usize, usize)>,
        offsets: &Vec<usize>,
    )
        ensures
            final(self)@ == old(self)@ + constraint_ranges(
                items_of(node@),
                scope@,
                expansion_of(node@, expansion),
                offsets@,
            ),
    {
        let inner = subtree_expansion(node, expansion);
        match node.as_sequence() {
            None => {
                assert(self@ =~= old(self)@ + constraint_ranges(
                    Seq::empty(),
                    scope@,
                    inner,
                    offsets@,
                ));
            },
            Some(items) => {
                let ghost all = constraint_ranges(trees_of(items@), scope@, inner, offsets@);
                let mut at: usize = 0;
                assert(self@ =~= old(self)@ + all.take(0));
                while at < items.len()
                    invariant
                        at <= items@.len(),
                        all == constraint_ranges(trees_of(items@), scope@, inner, offsets@),
                        self@ == old(self)@ + all.take(at as int),
                    decreases items.len() - at,
                {
                    let range = node_range(&items[at], inner, offsets);
                    self.insert(RangeKey::Constraint(scope.clone(), ConstraintIndex(at)), range);
                    proof {
                        assert(all[at as int] == (
                            KeySpec::Constraint(scope@, ConstraintIndex(at)),
                            range,
                        ));
                        assert(all.take(at + 1) =~= all.take(at as int).push(all[at as int]));
                        assert(self@ =~= old(self)@ + all.take(at + 1));
                    }
                    at += 1;
                }
                assert(all.take(at as int) =~= all);
            },
        }
    }
}

/// A node without entries has no fields.
proof fn no_fields(
    fields: Seq<Seq<char>>,
    owner: OwnerSpec,
    expansion: Option<(usize, usize)>,
    offsets: Seq<usize>,
)
    ensures
        field_ranges(Seq::empty(), fields, owner, expansion, offsets).len() == 0,
    decreases fields.len(),
{
    if fields.len() > 0 {
        no_fields(fields.drop_last(), owner, expansion, offsets);
    }
}

} // verus!
