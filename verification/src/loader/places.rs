//! Places of declarations, and the errors reported at them.

use vstd::prelude::*;

use super::ranges::{lookup, KeySpec, RangeIndex, RangeKey};
use crate::load_result::{
    error_specs, ErrorSpec, RelatedLocation, SchemaError, SchemaErrorKind, SourceRange,
};

verus! {

/// Where the declarations of a document stand.
pub struct Places {
    /// The ranges that were read off the document.
    pub ranges: RangeIndex,
    /// The range of the whole document.
    pub document: SourceRange,
    /// Whether the document declares the general `outline` form.
    ///
    /// The outline's rules are built at the empty scope they semantically live
    /// in, while their spellings were collected under the dedicated outline
    /// keys; this flag bridges the two. Sugar documents need no bridge: their
    /// `sections` forest is both spelled and built at the empty scope.
    pub outline_general: bool,
}

/// What places are.
pub struct PlacesSpec {
    /// See [`Places::ranges`].
    pub ranges: Seq<(KeySpec, SourceRange)>,
    /// See [`Places::document`].
    pub document: SourceRange,
    /// See [`Places::outline_general`].
    pub outline_general: bool,
}

impl View for Places {
    type V = PlacesSpec;

    open spec fn view(&self) -> PlacesSpec {
        PlacesSpec {
            ranges: self.ranges@,
            document: self.document,
            outline_general: self.outline_general,
        }
    }
}

/// The key under which the spelling of `key` was collected.
///
/// The two differ only for the general form's top-level rules. Every deeper
/// scope, and every sugar document, was collected exactly where it is built.
pub open spec fn source_key(outline_general: bool, key: KeySpec) -> KeySpec {
    if !outline_general {
        key
    } else {
        match key {
            KeySpec::Rule(scope, index) => if scope.len() == 0 {
                KeySpec::OutlineRule(index)
            } else {
                key
            },
            KeySpec::RuleField(scope, index, field) => if scope.len() == 0 {
                KeySpec::OutlineRuleField(index, field)
            } else {
                key
            },
            KeySpec::RuleCapture(scope, index, name) => if scope.len() == 0 {
                KeySpec::OutlineRuleCapture(index, name)
            } else {
                key
            },
            KeySpec::RuleOrderEntry(scope, index, entry) => if scope.len() == 0 {
                KeySpec::OutlineRuleOrderEntry(index, entry)
            } else {
                key
            },
            _ => key,
        }
    }
}

/// The range of `key`, if its spelling was collected.
pub open spec fn known_range(places: PlacesSpec, key: KeySpec) -> Option<SourceRange> {
    lookup(places.ranges, source_key(places.outline_general, key), 0)
}

/// The range of `key`, or that of the whole document.
pub open spec fn range_for(places: PlacesSpec, key: KeySpec) -> SourceRange {
    match known_range(places, key) {
        Some(range) => range,
        None => places.document,
    }
}

impl Places {
    /// The range of `key`, if its spelling was collected.
    pub fn find(&self, key: RangeKey) -> (range: Option<SourceRange>)
        ensures
            range == known_range(self@, key@),
    {
        let key = if self.outline_general {
            match key {
                RangeKey::Rule(scope, index) => if scope.0.len() == 0 {
                    RangeKey::OutlineRule(index)
                } else {
                    RangeKey::Rule(scope, index)
                },
                RangeKey::RuleField(scope, index, field) => if scope.0.len() == 0 {
                    RangeKey::OutlineRuleField(index, field)
                } else {
                    RangeKey::RuleField(scope, index, field)
                },
                RangeKey::RuleCapture(scope, index, name) => if scope.0.len() == 0 {
                    RangeKey::OutlineRuleCapture(index, name)
                } else {
                    RangeKey::RuleCapture(scope, index, name)
                },
                RangeKey::RuleOrderEntry(scope, index, entry) => if scope.0.len() == 0 {
                    RangeKey::OutlineRuleOrderEntry(index, entry)
                } else {
                    RangeKey::RuleOrderEntry(scope, index, entry)
                },
                other => other,
            }
        } else {
            key
        };
        self.ranges.find(&key)
    }

    /// The range of `key`, or that of the whole document.
    pub fn range(&self, key: RangeKey) -> (range: SourceRange)
        ensures
            range == range_for(self@, key@),
    {
        match self.find(key) {
            Some(range) => range,
            None => self.document,
        }
    }
}

/// An error without related places.
pub open spec fn plain_error(
    kind: SchemaErrorKind,
    range: SourceRange,
    message: Seq<char>,
) -> ErrorSpec {
    ErrorSpec { kind, range, related: Seq::empty(), message }
}

/// An error in the shape of the document.
pub open spec fn shape_error(range: SourceRange, message: Seq<char>) -> ErrorSpec {
    plain_error(SchemaErrorKind::InvalidDocumentShape, range, message)
}

/// Reports an error.
pub fn error_at(
    errors: &mut Vec<SchemaError>,
    kind: SchemaErrorKind,
    range: SourceRange,
    message: String,
)
    ensures
        error_specs(final(errors)@) == error_specs(old(errors)@).push(
            plain_error(kind, range, message@),
        ),
{
    let error = SchemaError { kind, range, related: Vec::new(), message };
    assert(error@ =~= plain_error(kind, range, message@));
    errors.push(error);
    assert(error_specs(errors@) =~= error_specs(old(errors)@).push(error@));
}

/// Reports an error in the shape of the document.
pub fn shape_error_at(errors: &mut Vec<SchemaError>, range: SourceRange, message: String)
    ensures
        error_specs(final(errors)@) == error_specs(old(errors)@).push(
            shape_error(range, message@),
        ),
{
    error_at(errors, SchemaErrorKind::InvalidDocumentShape, range, message);
}

/// Reports an error with one related place.
pub fn error_with_related_at(
    errors: &mut Vec<SchemaError>,
    kind: SchemaErrorKind,
    range: SourceRange,
    message: String,
    related: RelatedLocation,
)
    ensures
        error_specs(final(errors)@) == error_specs(old(errors)@).push(
            ErrorSpec { kind, range, related: seq![related@], message: message@ },
        ),
{
    let error = SchemaError { kind, range, related: vec![related], message };
    assert(error@ =~= ErrorSpec { kind, range, related: seq![related@], message: message@ });
    errors.push(error);
    assert(error_specs(errors@) =~= error_specs(old(errors)@).push(error@));
}

} // verus!
