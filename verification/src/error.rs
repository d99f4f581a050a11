//! The ways in which a record of events can fail to nest.

use vstd::prelude::*;
use crate::event::ExecTrace;

verus! {

/// Why a record of events describes no call hierarchy.
#[derive(Clone, Copy, Debug, PartialEq, Eq, Structural)]
pub enum TraceError {
    /// A frame was closed by a result of the other kind.
    TypeMismatch { action: ExecTrace, result: ExecTrace },
    /// A result came while no frame was open.
    OrphanedResult { result: ExecTrace },
    /// An event came after the outermost frame had closed.
    TrailingTraces { trace: ExecTrace },
    /// A self-destruct came while no frame was open.
    OrphanSelfDestruct,
    /// The record ended before the outermost frame closed.
    IncompleteTrace,
}

} // verus!
