//! Loading, semantic validation, and normalization of schema documents.

pub mod apart;
pub mod bounds;
pub mod constraints;
pub mod external;
pub mod form;
pub mod frontmatter;
pub mod graph;
pub mod identity;
pub mod keywords;
pub mod labels;
pub mod load;
pub mod loaded;
pub mod located;
pub mod patterns;
pub mod placement;
pub mod places;
pub mod ranges;
pub mod refs;
pub mod refusals;
pub mod rules;
pub mod scoped;
pub mod shape;
pub mod sugar;
pub mod validity;
