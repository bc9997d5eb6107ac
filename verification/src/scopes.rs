//! Named scopes: section rules with content, captures, and value orders, and
//! the constraints that locators bind against them.

pub mod binding;
pub mod captures;
pub mod cardinality;
pub mod constraints;
pub mod content;
pub mod declared;
pub mod document;
pub mod exports;
pub mod frontmatter;
pub mod inline;
pub mod keywords;
pub mod locators;
pub mod meaning;
pub mod model;
pub mod names;
pub mod order;
pub mod placed;
pub mod refusals;
pub mod rules;
