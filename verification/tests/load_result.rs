//! Load results.

use outlint_core::SchemaErrorKind;

#[test]
fn schema_error_ids_use_the_public_spellings() {
    let expected = [
        (SchemaErrorKind::Syntax, "syntax"),
        (
            SchemaErrorKind::InvalidDocumentShape,
            "invalid-document-shape",
        ),
        (SchemaErrorKind::UnsupportedVersion, "unsupported-version"),
        (SchemaErrorKind::DuplicateId, "duplicate-id"),
        (SchemaErrorKind::UnresolvedRef, "unresolved-ref"),
        (SchemaErrorKind::ForbiddenRef, "forbidden-ref"),
        (SchemaErrorKind::DuplicateRef, "duplicate-ref"),
        (SchemaErrorKind::ReservedId, "reserved-id"),
        (SchemaErrorKind::InvalidMatcher, "invalid-matcher"),
        (SchemaErrorKind::InvalidRepeat, "invalid-repeat"),
        (SchemaErrorKind::InvalidCapture, "invalid-capture"),
        (SchemaErrorKind::InvalidOrder, "invalid-order"),
        (
            SchemaErrorKind::OrderedScopeMismatch,
            "ordered-scope-mismatch",
        ),
        (
            SchemaErrorKind::ConflictingCardinality,
            "conflicting-cardinality",
        ),
        (
            SchemaErrorKind::ConflictingFrontmatter,
            "conflicting-frontmatter",
        ),
        (SchemaErrorKind::ConflictingOutline, "conflicting-outline"),
        (
            SchemaErrorKind::InvalidFrontmatterSchema,
            "invalid-frontmatter-schema",
        ),
    ];
    for (kind, spelling) in expected {
        assert_eq!(kind.as_str(), spelling);
    }
}
