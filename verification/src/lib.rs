//! Document text analysis core.
//!
//! Turns the full text of a document into derived facts (word count,
//! emptiness, an ordered list of ATX-style headings) and reconciles each
//! fresh heading list against a presentation-facing list of entries with
//! stable slot identifiers, producing minimal change operations.

pub mod analyzer;
pub mod document;
pub mod reconciler;
pub mod text;
