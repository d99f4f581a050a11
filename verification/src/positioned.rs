//! Entries of the positional listing of a call hierarchy.

use vstd::prelude::*;
use crate::automaton::hierarchy;
use crate::error::TraceError;
use crate::event::ExecTrace;
use crate::tree::Tree;

verus! {

/// One entry of the listing, as a mathematical value.
///
/// `trace_path` holds the sibling indices that lead from the node at which
/// the listing starts down to the entry's node; `child_count` is the number
/// of nodes strictly beneath that node.
pub enum Positioned {
    CallCreate { action: ExecTrace, result: ExecTrace, child_count: nat, trace_path: Seq<nat> },
    Suicide { action: ExecTrace, child_count: nat, trace_path: Seq<nat> },
}

impl Positioned {
    /// The path of the entry, whichever kind it is.
    pub open spec fn path(self) -> Seq<nat> {
        match self {
            Positioned::CallCreate { trace_path, .. } => trace_path,
            Positioned::Suicide { trace_path, .. } => trace_path,
        }
    }

    /// The descendant count of the entry, whichever kind it is.
    pub open spec fn count(self) -> nat {
        match self {
            Positioned::CallCreate { child_count, .. } => child_count,
            Positioned::Suicide { child_count, .. } => child_count,
        }
    }

    /// The event that made the entry's node: a frame's opener, or the
    /// self-destruct.
    pub open spec fn event(self) -> ExecTrace {
        match self {
            Positioned::CallCreate { action, .. } => action,
            Positioned::Suicide { action, .. } => action,
        }
    }
}

/// A path of sibling indices as a sequence of naturals.
pub open spec fn path_of(indices: Seq<usize>) -> Seq<nat> {
    indices.map_values(|i: usize| i as nat)
}

/// Entry of a frame with its matched events.
pub struct CallCreateTraceWithPosition<'a> {
    pub action: &'a ExecTrace,
    pub result: &'a ExecTrace,
    pub child_count: usize,
    pub trace_path: Vec<usize>,
}

/// Entry of a self-destruct.
pub struct SelfDestructTraceWithPosition<'a> {
    pub action: &'a ExecTrace,
    pub child_count: usize,
    pub trace_path: Vec<usize>,
}

/// One entry of the listing.
pub enum TraceWithPosition<'a> {
    CallCreate(CallCreateTraceWithPosition<'a>),
    Suicide(SelfDestructTraceWithPosition<'a>),
}

impl<'a> View for CallCreateTraceWithPosition<'a> {
    type V = Positioned;

    open spec fn view(&self) -> Positioned {
        Positioned::CallCreate {
            action: *self.action,
            result: *self.result,
            child_count: self.child_count as nat,
            trace_path: path_of(self.trace_path@),
        }
    }
}

impl<'a> View for SelfDestructTraceWithPosition<'a> {
    type V = Positioned;

    open spec fn view(&self) -> Positioned {
        Positioned::Suicide {
            action: *self.action,
            child_count: self.child_count as nat,
            trace_path: path_of(self.trace_path@),
        }
    }
}

impl<'a> View for TraceWithPosition<'a> {
    type V = Positioned;

    open spec fn view(&self) -> Positioned {
        match self {
            TraceWithPosition::CallCreate(entry) => entry@,
            TraceWithPosition::Suicide(entry) => entry@,
        }
    }
}

/// The listing that a vector of entries holds.
pub open spec fn listing<'a>(entries: Seq<TraceWithPosition<'a>>) -> Seq<Positioned> {
    entries.map_values(|entry: TraceWithPosition<'a>| entry@)
}

/// The pre-order listings of a row of sibling subtrees, one after the other,
/// the `i`-th of them under `path` extended by `i`.
pub open spec fn flatten_forest(forest: Seq<Tree>, path: Seq<nat>) -> Seq<Positioned>
    decreases forest,
{
    if forest.len() == 0 {
        Seq::empty()
    } else {
        flatten_forest(forest.drop_last(), path) + forest.last().flatten(
            path.push((forest.len() - 1) as nat),
        )
    }
}

impl Tree {
    /// The entry of the node itself when it stands at `path`.
    pub open spec fn entry(self, path: Seq<nat>) -> Positioned {
        match self {
            Tree::CallCreate { action, result, .. } => Positioned::CallCreate {
                action,
                result,
                child_count: self.descendant_count(),
                trace_path: path,
            },
            Tree::Suicide { event } => Positioned::Suicide {
                action: event,
                child_count: self.descendant_count(),
                trace_path: path,
            },
        }
    }

    /// The pre-order listing of the subtree when its root stands at `path`:
    /// the node's own entry, then the listings of its children in order.
    pub open spec fn flatten(self, path: Seq<nat>) -> Seq<Positioned>
        decreases self,
    {
        match self {
            Tree::CallCreate { children, .. } => seq![self.entry(path)] + flatten_forest(
                children,
                path,
            ),
            Tree::Suicide { .. } => seq![self.entry(path)],
        }
    }
}

/// Whether a record holds nothing but bookkeeping events.
pub open spec fn untraceable(events: Seq<ExecTrace>) -> bool {
    forall|i: int| 0 <= i < events.len() ==> (#[trigger] events[i]).action.is_ignored()
}

/// The positional listing of a record of events: nothing for a record of
/// bookkeeping events alone, else the pre-order listing of its call
/// hierarchy with the root at the empty path, or the first fault in it.
pub open spec fn parity_trace(events: Seq<ExecTrace>) -> Result<Seq<Positioned>, TraceError> {
    if untraceable(events) {
        Ok(Seq::empty())
    } else {
        match hierarchy(events) {
            Ok(root) => Ok(root.flatten(Seq::empty())),
            Err(fault) => Err(fault),
        }
    }
}

} // verus!
