//! Execution events as the matcher sees them: a kind and a handle.

use vstd::prelude::*;

verus! {

/// The kind of one recorded execution event.
#[derive(Clone, Copy, Debug, PartialEq, Eq, Structural)]
pub enum Action {
    /// A message call begins.
    Call,
    /// A contract creation begins.
    Create,
    /// A message call ends.
    CallResult,
    /// A contract creation ends.
    CreateResult,
    /// A contract destroys itself.
    SelfDestruct,
    /// A balance movement inside the node's bookkeeping.
    InternalTransferAction,
    /// An authorization is set.
    SetAuth,
}

impl Action {
    /// Bookkeeping kinds carry no structure and are skipped everywhere.
    pub open spec fn is_ignored(self) -> bool {
        self is InternalTransferAction || self is SetAuth
    }

    /// `Call` and `Create` open a frame.
    pub open spec fn is_opener(self) -> bool {
        self is Call || self is Create
    }

    /// `CallResult` and `CreateResult` close a frame.
    pub open spec fn is_closer(self) -> bool {
        self is CallResult || self is CreateResult
    }

    /// Whether `closer` is the kind that ends a frame begun by `self`.
    pub open spec fn closed_by(self, closer: Action) -> bool {
        (self is Call && closer is CallResult) || (self is Create && closer is CreateResult)
    }
}

/// One recorded execution event: its kind, and the number under which the
/// recorder of the transaction finds the full record again.
#[derive(Clone, Copy, Debug, PartialEq, Eq, Structural)]
pub struct ExecTrace {
    pub action: Action,
    pub id: u64,
}

impl ExecTrace {
    pub fn new(action: Action, id: u64) -> (event: ExecTrace)
        ensures
            event.action == action,
            event.id == id,
    {
        ExecTrace { action, id }
    }
}

} // verus!
