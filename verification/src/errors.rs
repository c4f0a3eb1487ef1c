//! Error values shared by the line reader and the line writer.

use vstd::prelude::*;

verus! {

/// A failure of the underlying transport: a fetch or a flush that did not
/// complete. The transport keeps the detail; this layer only propagates it.
#[derive(Clone, Copy, PartialEq, Eq, Structural, Debug)]
pub struct IoError;

/// What can go wrong while reading or writing one line.
#[derive(Clone, Copy, PartialEq, Eq, Structural, Debug)]
pub enum LineError {
    /// The underlying fetch or flush failed.
    Io,
    /// The scanned line content is not valid UTF-8.
    Encoding,
}

} // verus!
