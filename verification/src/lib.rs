//! A gitattributes-based filter classifier.
//!
//! The crate models a stack of `.gitattributes` files layered by directory
//! prefix. Given a set of filter-driver names, the classifier decides whether
//! a workspace-relative path resolves to `filter=<name>` for one of those
//! names, following git's attribute semantics: glob matching, per-file
//! scoping, inheritance, last-wins precedence and negation.
pub mod model;
pub mod scan;
pub mod glob;
pub mod parse;
pub mod resolve;
pub mod classifier;
