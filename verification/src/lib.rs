//! Verified core of a configuration editor for a text-expansion tool.
//!
//! The library holds the logic that is worth proving: the document model for
//! match files together with its textual encoding and decoding, the filter
//! that turns a directory listing into match-file stems, the validity rule
//! for a configuration root, and the edit-session state machine with its
//! unsaved-changes confirmation flow.  Window rendering, dialogs and all
//! file-system access stay outside and hand this crate plain values.

use vstd::prelude::*;

pub mod espanso_yaml;
pub mod scan;
pub mod session;
pub mod text;
pub mod validate;

verus! {

/// The error kinds the library reports.
#[derive(Clone, Copy, Debug, PartialEq, Eq, Structural)]
pub enum EditError {
    /// Text does not match the expected match-file shape.
    Format,
    /// A file could not be read or written (raised by callers doing I/O).
    Io,
    /// A pair index outside the current document bounds.
    Index,
}

} // verus!
