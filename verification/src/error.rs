//! The ways an operation can fail. None of them is fatal: the caller reports
//! the failure and the session goes on.

use vstd::prelude::*;

verus! {

/// Why an operation did nothing.
#[derive(Clone, Copy, Debug, PartialEq, Eq, Structural)]
pub enum Error {
    /// The directory arena, the file slots or the child slots are full.
    CapacityExceeded,
    /// No child directory or file has the name asked for.
    NotFound,
    /// The name does not end in `.txt`, which reading and writing ask for.
    InvalidOperationForType,
    /// The command lacks an argument it needs.
    MalformedCommand,
}

} // verus!
