//! A tiny text linter with a verified core.
//!
//! The library scans a byte buffer for a fixed set of structural defects
//! (a UTF-8 byte-order mark, unresolved merge-conflict markers, trailing
//! whitespace, carriage returns) plus caller-supplied literal byte patterns,
//! reports each occurrence with a 1-based line and column, and can rewrite
//! the buffer with every matched span removed.

pub mod lint;
pub mod patterns;
pub mod position;
pub mod search;

pub use lint::lint_bytes;
pub use lint::lint_patterns;
pub use lint::PatternSet;
pub use patterns::Diagnostic;
pub use patterns::LintError;
pub use patterns::Reason;
