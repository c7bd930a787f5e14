//! Boolean filters over faceted attributes, evaluated against a multi-level
//! facet index.
//!
//! A [`FacetCondition`] is a tree of comparisons on faceted fields joined by
//! `AND`, `OR` and `NOT`. Evaluating it against a [`FacetIndex`] yields the
//! bitmap of the documents that satisfy it. Numeric ranges are resolved by
//! walking the index from its coarsest summaries down to single values.

pub mod bitmap;
pub mod builder;
pub mod catalog;
pub mod condition;
pub mod explore;
pub mod hierarchy;
pub mod index;
pub mod number;
pub mod walk;

pub use condition::FacetCondition;
pub use condition::FacetStringOperator;
pub use index::FacetIndex;
pub use number::FacetNumberOperator;
