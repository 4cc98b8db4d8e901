//! A minimal error-report renderer.
//!
//! Given a root error value that may carry a chain of causal predecessor
//! errors, the library produces a deterministic, human-readable multi-line
//! report: the root's display text, then a `Caused by:` section listing every
//! predecessor, re-indenting multi-line texts and numbering the entries when
//! the chain is more than one element deep.

pub mod error;
pub mod indent;
pub mod laws;
pub mod report;
