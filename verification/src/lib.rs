//! Loading and addressing of structured Markdown: document paths over a parsed
//! heading outline, and the schema documents that describe such outlines.

pub mod case_fold;
pub mod diagnostics;
pub mod document;
pub mod document_path;
pub mod json;
pub mod json_value;
pub mod load_result;
pub mod loader;
pub mod matcher;
pub mod number;
pub mod scalar;
pub mod schema;
pub mod scopes;
pub mod text;
pub mod values;
pub mod yaml;

pub use diagnostics::Diagnostic;
pub use document::{Document, HeaderLevel, Heading, Section};
pub use json_value::json_schema_external_references;
pub use load_result::{
    ByteOffset, CapturePath, ConstraintIndex, ConstraintPath, ContentOwner, ContentRulePath,
    GuardPath, InvalidSchema, ItemRulePath, JsonSchemaExternalReference,
    JsonSchemaResourceContents, JsonSchemaResourceInput, LinkedJsonSchemaInput, LoadSchemaResult,
    LoadedSchema, OrderEntryPath, OrderIndex, RelatedLocation, RuleIndex, RulePath, SchemaError,
    SchemaErrorKind, SchemaLocations, SchemaNode, SchemaSource, SchemaSources, ScopePath,
    SourceId, SourceLabel, SourceRange, TextRange,
};
pub use loader::load::{
    linked_frontmatter_schema_path, load_schema, load_schema_with_label,
    load_schema_with_resources,
};
pub use scalar::{CanonicalFloat, CanonicalInteger, FrontmatterScalar};
pub use schema::{
    AtLeastTwo, Cardinality, Constraint, ExactText, FrontmatterPolicy, FrontmatterSchema,
    GlobPattern, Matcher, NonEmpty, Options, OutlineProvenance, Proposition, RefAnchor,
    RegexPattern, RuleId, RuleOutcome, Schema, SchemaVersion, SectionRule, UpperBound,
};
pub use scopes::locators::{
    BoundRuleStep, ResolvedFrontmatterCapture, ResolvedFrontmatterQuery,
    ResolvedIntrinsicTextLocator, ResolvedRuleCaptureLocator, ResolvedRuleLocator,
};
pub use scopes::model::{
    FrontmatterCapture, FrontmatterCaptures, ValueOrderDirection, ValueOrderEntry,
};
