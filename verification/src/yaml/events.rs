//! The events of a YAML stream.

use saphyr_parser::{Event, StrInput};
use vstd::prelude::*;

verus! {

/// What an event says.
#[derive(Debug, Clone, Copy, PartialEq, Eq, Structural)]
pub enum YamlKind {
    /// Nothing.
    Nothing,
    /// The stream starts.
    StreamStart,
    /// The stream ends.
    StreamEnd,
    /// A document starts.
    DocumentStart,
    /// A document ends.
    DocumentEnd,
    /// An alias stands for an anchored node.
    Alias,
    /// A scalar.
    Scalar,
    /// A sequence starts.
    SequenceStart,
    /// A sequence ends.
    SequenceEnd,
    /// A mapping starts.
    MappingStart,
    /// A mapping ends.
    MappingEnd,
}

/// A place in a YAML text, counted in characters.
#[derive(Debug, Clone, Copy, PartialEq, Eq, Structural)]
pub struct YamlMark {
    /// Zero-based index of the character.
    pub index: usize,
    /// One-based line.
    pub line: usize,
    /// Zero-based column.
    pub column: usize,
}

/// A range in a YAML text.
#[derive(Debug, Clone, Copy, PartialEq, Eq, Structural)]
pub struct YamlSpan {
    /// Where the range starts.
    pub start: YamlMark,
    /// Where the range ends.
    pub end: YamlMark,
}

/// A tag.
#[derive(Debug, PartialEq, Eq)]
pub struct YamlTag {
    /// The handle, resolved.
    pub handle: String,
    /// The suffix.
    pub suffix: String,
}

/// What a tag says.
pub struct TagSpec {
    /// See [`YamlTag::handle`].
    pub handle: Seq<char>,
    /// See [`YamlTag::suffix`].
    pub suffix: Seq<char>,
}

impl View for YamlTag {
    type V = TagSpec;

    open spec fn view(&self) -> TagSpec {
        TagSpec { handle: self.handle@, suffix: self.suffix@ }
    }
}

/// What an optional tag says.
pub open spec fn tag_spec(tag: Option<YamlTag>) -> Option<TagSpec> {
    match tag {
        None => None,
        Some(tag) => Some(tag@),
    }
}

/// One event with its place. The anchor is that of a node, or the one that an
/// alias names, or zero; value and style are those of a scalar.
#[derive(Debug)]
pub struct YamlEvent {
    /// What the event says.
    pub kind: YamlKind,
    /// The anchor, zero if there is none.
    pub anchor: usize,
    /// The tag of a node.
    pub tag: Option<YamlTag>,
    /// The text of a scalar.
    pub value: String,
    /// The style of a scalar; zero is plain.
    pub style: u8,
    /// Where the event stands.
    pub span: YamlSpan,
}

/// What an event and its place are.
pub struct EventSpec {
    /// See [`YamlEvent::kind`].
    pub kind: YamlKind,
    /// See [`YamlEvent::anchor`].
    pub anchor: usize,
    /// See [`YamlEvent::tag`].
    pub tag: Option<TagSpec>,
    /// See [`YamlEvent::value`].
    pub value: Seq<char>,
    /// See [`YamlEvent::style`].
    pub style: u8,
    /// See [`YamlEvent::span`].
    pub span: YamlSpan,
}

impl View for YamlEvent {
    type V = EventSpec;

    open spec fn view(&self) -> EventSpec {
        EventSpec {
            kind: self.kind,
            anchor: self.anchor,
            tag: tag_spec(self.tag),
            value: self.value@,
            style: self.style,
            span: self.span,
        }
    }
}

/// One read from a stream: an event, or the fault that ends it.
pub enum ReadSpec {
    /// An event.
    Event(EventSpec),
    /// A fault: what it says, and where.
    Fault(Seq<char>, YamlMark),
}

/// The stream of events of a YAML text, as `saphyr_parser::Parser` reads it.
#[verifier::external_body]
pub struct YamlStream<'s> {
    parser: saphyr_parser::Parser<'s, StrInput<'s>>,
}

/// The reads of a YAML text, up to its end or its first fault.
pub uninterp spec fn yaml_reads(text: Seq<char>) -> Seq<ReadSpec>;

/// The reads that a stream still holds.
pub uninterp spec fn pending(stream: YamlStream<'_>) -> Seq<ReadSpec>;

/// The event at the head of a stream.
pub open spec fn head(stream: YamlStream<'_>) -> EventSpec {
    pending(stream)[0]->Event_0
}

/// An event is at the head of a stream.
pub open spec fn at_event(stream: YamlStream<'_>) -> bool {
    pending(stream).len() > 0 && pending(stream)[0] is Event
}

/// `saphyr_parser::Parser::new_from_str` starts reading a text.
#[verifier::external_body]
pub fn open_stream<'s>(text: &'s str) -> (stream: YamlStream<'s>)
    ensures
        pending(stream) == yaml_reads(text@),
{
    YamlStream { parser: saphyr_parser::Parser::new_from_str(text) }
}

/// `saphyr_parser::Parser::peek` gives the next event, if there is one, and
/// leaves it in the stream; a fault is given once. Here: a fault, with what
/// `ScanError::info` and `ScanError::marker` tell of it.
#[verifier::external_body]
fn read_fault(stream: &mut YamlStream<'_>) -> (fault: Option<(String, YamlMark)>)
    ensures
        fault is Some <==> pending(*old(stream)).len() > 0 && !at_event(*old(stream)),
        fault matches Some((info, mark)) ==> pending(*old(stream))[0] == ReadSpec::Fault(
            info@,
            mark,
        ),
        fault is None ==> pending(*final(stream)) == pending(*old(stream)),
{
    let error = stream.parser.peek()?.err()?;
    let (index, line, column) = (
        error.marker().index(),
        error.marker().line(),
        error.marker().col(),
    );
    Some((error.info().to_owned(), YamlMark { index, line, column }))
}

/// `saphyr_parser::Parser::peek`, for what the next event says.
#[verifier::external_body]
fn peek_kind(stream: &mut YamlStream<'_>) -> (kind: Option<YamlKind>)
    requires
        pending(*old(stream)).len() == 0 || at_event(*old(stream)),
    ensures
        pending(*final(stream)) == pending(*old(stream)),
        kind is None <==> pending(*old(stream)).len() == 0,
        kind matches Some(kind) ==> kind == head(*old(stream)).kind,
{
    Some(match &stream.parser.peek()?.ok()?.0 {
        Event::Nothing => YamlKind::Nothing,
        Event::StreamStart => YamlKind::StreamStart,
        Event::StreamEnd => YamlKind::StreamEnd,
        Event::DocumentStart(_) => YamlKind::DocumentStart,
        Event::DocumentEnd => YamlKind::DocumentEnd,
        Event::Alias(_) => YamlKind::Alias,
        Event::Scalar(..) => YamlKind::Scalar,
        Event::SequenceStart(..) => YamlKind::SequenceStart,
        Event::SequenceEnd => YamlKind::SequenceEnd,
        Event::MappingStart(..) => YamlKind::MappingStart,
        Event::MappingEnd => YamlKind::MappingEnd,
    })
}

/// `saphyr_parser::Parser::peek`, for the anchor of the next event: that of a
/// node, or the one that an alias names, and zero for other events.
#[verifier::external_body]
fn peek_anchor(stream: &mut YamlStream<'_>) -> (anchor: usize)
    requires
        at_event(*old(stream)),
    ensures
        pending(*final(stream)) == pending(*old(stream)),
        anchor == head(*old(stream)).anchor,
{
    match stream.parser.peek() {
        Some(Ok((Event::Alias(anchor), _))) => *anchor,
        Some(Ok((Event::Scalar(_, _, anchor, _), _))) => *anchor,
        Some(Ok((Event::SequenceStart(anchor, _), _))) => *anchor,
        Some(Ok((Event::MappingStart(anchor, _), _))) => *anchor,
        _ => 0,
    }
}

/// `saphyr_parser::Parser::peek`, for the tag of the next event; only nodes
/// have one.
#[verifier::external_body]
fn peek_tag(stream: &mut YamlStream<'_>) -> (tag: Option<YamlTag>)
    requires
        at_event(*old(stream)),
    ensures
        pending(*final(stream)) == pending(*old(stream)),
        tag_spec(tag) == head(*old(stream)).tag,
{
    let tag = match &stream.parser.peek()?.ok()?.0 {
        Event::Scalar(_, _, _, tag) => tag.as_ref()?,
        Event::SequenceStart(_, tag) => tag.as_ref()?,
        Event::MappingStart(_, tag) => tag.as_ref()?,
        _ => return None,
    };
    Some(YamlTag { handle: tag.handle.clone(), suffix: tag.suffix.clone() })
}

/// `saphyr_parser::Parser::peek`, for the text and the style of a scalar;
/// other events have an empty text. The styles count up from plain.
#[verifier::external_body]
fn peek_scalar(stream: &mut YamlStream<'_>) -> (scalar: (String, u8))
    requires
        at_event(*old(stream)),
    ensures
        pending(*final(stream)) == pending(*old(stream)),
        scalar.0@ == head(*old(stream)).value,
        scalar.1 == head(*old(stream)).style,
{
    match stream.parser.peek() {
        Some(Ok((Event::Scalar(value, style, _, _), _))) => (value.to_string(), *style as u8),
        _ => (String::new(), 0),
    }
}

/// `saphyr_parser::Parser::next_event` takes the next event out of the stream
/// and tells where it stands.
#[verifier::external_body]
fn take_event(stream: &mut YamlStream<'_>) -> (span: YamlSpan)
    requires
        at_event(*old(stream)),
    ensures
        pending(*final(stream)) == pending(*old(stream)).drop_first(),
        span == head(*old(stream)).span,
{
    let span = stream.parser.next_event().and_then(Result::ok).map(|read| read.1).unwrap_or_default();
    let mark = |mark: saphyr_parser::Marker| YamlMark {
        index: mark.index(),
        line: mark.line(),
        column: mark.col(),
    };
    YamlSpan { start: mark(span.start), end: mark(span.end) }
}

/// What came out of a stream.
pub enum YamlRead {
    /// An event.
    Event(YamlEvent),
    /// A fault: what it says, and where.
    Fault(String, YamlMark),
    /// Nothing: the stream is at its end.
    Exhausted,
}

/// Takes the next read out of a stream.
pub fn next_read(stream: &mut YamlStream<'_>) -> (read: YamlRead)
    ensures
        match read {
            YamlRead::Event(event) => at_event(*old(stream)) && event@ == head(*old(stream))
                && pending(*final(stream)) == pending(*old(stream)).drop_first(),
            YamlRead::Fault(info, mark) => pending(*old(stream)).len() > 0 && pending(
                *old(stream),
            )[0] == ReadSpec::Fault(info@, mark),
            YamlRead::Exhausted => pending(*old(stream)).len() == 0,
        },
{
    if let Some((info, mark)) = read_fault(stream) {
        return YamlRead::Fault(info, mark);
    }
    match peek_kind(stream) {
        None => YamlRead::Exhausted,
        Some(kind) => {
            let anchor = peek_anchor(stream);
            let tag = peek_tag(stream);
            let (value, style) = peek_scalar(stream);
            let span = take_event(stream);
            YamlRead::Event(YamlEvent { kind, anchor, tag, value, style, span })
        },
    }
}

} // verus!
