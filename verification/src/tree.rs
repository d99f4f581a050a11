//! The call hierarchy as a mathematical value, and what is measured on it.

use vstd::prelude::*;
use crate::event::ExecTrace;

verus! {

/// A node of the call hierarchy.
///
/// A `CallCreate` node is a frame: the event that opened it, the event that
/// closed it, and what happened in between, in the order in which it
/// happened. A `Suicide` node is a self-destruct, which never has children.
pub enum Tree {
    CallCreate { action: ExecTrace, result: ExecTrace, children: Seq<Tree> },
    Suicide { event: ExecTrace },
}

/// Number of nodes in a row of sibling subtrees.
pub open spec fn forest_size(forest: Seq<Tree>) -> nat
    decreases forest,
{
    if forest.len() == 0 {
        0
    } else {
        forest_size(forest.drop_last()) + forest.last().size()
    }
}

/// The events of a row of sibling subtrees, in recording order.
pub open spec fn forest_events(forest: Seq<Tree>) -> Seq<ExecTrace>
    decreases forest,
{
    if forest.len() == 0 {
        Seq::empty()
    } else {
        forest_events(forest.drop_last()) + forest.last().events()
    }
}

impl Tree {
    /// Number of nodes of the subtree, the node itself included.
    pub open spec fn size(self) -> nat
        decreases self,
    {
        match self {
            Tree::CallCreate { children, .. } => 1 + forest_size(children),
            Tree::Suicide { .. } => 1,
        }
    }

    /// Number of nodes strictly beneath the node: for a frame, each child
    /// and all that is beneath it; for a self-destruct, nothing.
    pub open spec fn descendant_count(self) -> nat {
        match self {
            Tree::CallCreate { children, .. } => forest_size(children),
            Tree::Suicide { .. } => 0,
        }
    }

    /// The events from which the subtree was made, in recording order: a
    /// frame's opener, then its children's events, then its closer.
    pub open spec fn events(self) -> Seq<ExecTrace>
        decreases self,
    {
        match self {
            Tree::CallCreate { action, result, children } => seq![action] + forest_events(
                children,
            ) + seq![result],
            Tree::Suicide { event } => seq![event],
        }
    }

    /// Every frame is opened by a `Call` or `Create` and closed by the
    /// matching result, and every leaf is a `SelfDestruct`.
    pub open spec fn well_formed(self) -> bool
        decreases self,
    {
        match self {
            Tree::CallCreate { action, result, children } => {
                &&& action.action.closed_by(result.action)
                &&& forall|i: int|
                    0 <= i < children.len() ==> (#[trigger] children[i]).well_formed()
            },
            Tree::Suicide { event } => event.action is SelfDestruct,
        }
    }
}

/// A row that grows by one subtree grows by that subtree's size.
pub proof fn lemma_forest_size_step(forest: Seq<Tree>, k: int)
    requires
        0 <= k < forest.len(),
    ensures
        forest_size(forest.take(k + 1)) == forest_size(forest.take(k)) + forest[k].size(),
{
    assert(forest.take(k + 1).drop_last() == forest.take(k));
}

/// No prefix of a row holds more nodes than the row.
pub proof fn lemma_forest_size_prefix(forest: Seq<Tree>, k: int)
    requires
        0 <= k <= forest.len(),
    ensures
        forest_size(forest.take(k)) <= forest_size(forest),
    decreases forest.len() - k,
{
    if k < forest.len() {
        lemma_forest_size_step(forest, k);
        lemma_forest_size_prefix(forest, k + 1);
    } else {
        assert(forest.take(k) == forest);
    }
}

} // verus!
