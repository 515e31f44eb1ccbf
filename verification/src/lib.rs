//! Decision engine for correcting filename extensions.
//!
//! Given a detected content description and media type for a file, the
//! library classifies the file against an ordered rule table, decomposes
//! the filename according to a signed dot-cut index, plans a rename (or a
//! reasoned no-op), and decides whether a planned rename may proceed under
//! the dry-run / interactive / force policy.  All of that logic is
//! verified; filesystem access, the content-inspection oracle and the
//! terminal live outside the library.

pub mod analyzer;
pub mod classify;
pub mod executor;
pub mod laws;
pub mod opts;
pub mod pattern;
pub mod planner;
pub mod report;
pub mod strutil;
pub mod table;
pub mod walker;
