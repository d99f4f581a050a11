//! The stack automaton that reads a record of events once, left to right,
//! and ends in a call hierarchy or in the first fault it met.

use vstd::prelude::*;
use crate::error::TraceError;
use crate::event::ExecTrace;
use crate::tree::{forest_size, Tree};

verus! {

/// A frame that has been opened and not yet closed.
pub struct OpenFrame {
    /// The event that opened the frame.
    pub opener: ExecTrace,
    /// What has completed inside the frame so far, oldest first.
    pub children: Seq<Tree>,
}

/// Where the automaton stands after a prefix of the record.
pub enum Matcher {
    /// The open frames, outermost first. Empty before the first opener.
    Open(Seq<OpenFrame>),
    /// The outermost frame has closed and nothing has followed it.
    Closed(Tree),
    /// The record is not well nested; the first fault is kept.
    Failed(TraceError),
}

/// The stack after `node` has completed inside its innermost frame.
pub open spec fn attach(stack: Seq<OpenFrame>, node: Tree) -> Seq<OpenFrame>
    recommends
        stack.len() > 0,
{
    stack.update(
        stack.len() - 1,
        OpenFrame { opener: stack.last().opener, children: stack.last().children.push(node) },
    )
}

/// What a closing event does to a stack of open frames.
pub open spec fn close(stack: Seq<OpenFrame>, e: ExecTrace) -> Matcher {
    if stack.len() == 0 {
        Matcher::Failed(TraceError::OrphanedResult { result: e })
    } else if !stack.last().opener.action.closed_by(e.action) {
        Matcher::Failed(TraceError::TypeMismatch { action: stack.last().opener, result: e })
    } else {
        let node = Tree::CallCreate {
            action: stack.last().opener,
            result: e,
            children: stack.last().children,
        };
        if stack.len() == 1 {
            Matcher::Closed(node)
        } else {
            Matcher::Open(attach(stack.drop_last(), node))
        }
    }
}

/// One move of the automaton.
///
/// Bookkeeping events change nothing. An opener pushes a frame. A closer
/// pops the innermost frame and completes it, as a child of the frame below
/// or, if there is none, as the root. A self-destruct becomes a leaf of the
/// innermost frame. After the root has closed, any further event is a fault,
/// and a fault is final.
pub open spec fn step(m: Matcher, e: ExecTrace) -> Matcher {
    if e.action.is_ignored() {
        m
    } else {
        match m {
            Matcher::Failed(_) => m,
            Matcher::Closed(_) => Matcher::Failed(TraceError::TrailingTraces { trace: e }),
            Matcher::Open(stack) => {
                if e.action.is_opener() {
                    Matcher::Open(stack.push(OpenFrame { opener: e, children: Seq::empty() }))
                } else if e.action.is_closer() {
                    close(stack, e)
                } else if stack.len() == 0 {
                    Matcher::Failed(TraceError::OrphanSelfDestruct)
                } else {
                    Matcher::Open(attach(stack, Tree::Suicide { event: e }))
                }
            },
        }
    }
}

/// The automaton's state after all of `events`.
pub open spec fn run(events: Seq<ExecTrace>) -> Matcher
    decreases events.len(),
{
    if events.len() == 0 {
        Matcher::Open(Seq::empty())
    } else {
        step(run(events.drop_last()), events.last())
    }
}

/// The call hierarchy that `events` describes, or the first fault in it.
///
/// A record in which some frame is still open at the end, or in which no
/// frame was ever opened, is incomplete.
pub open spec fn hierarchy(events: Seq<ExecTrace>) -> Result<Tree, TraceError> {
    match run(events) {
        Matcher::Open(_) => Err(TraceError::IncompleteTrace),
        Matcher::Closed(root) => Ok(root),
        Matcher::Failed(fault) => Err(fault),
    }
}

/// Number of nodes that a stack of open frames holds: one for each frame,
/// and those of the subtrees completed inside it.
pub open spec fn stack_size(stack: Seq<OpenFrame>) -> nat
    decreases stack.len(),
{
    if stack.len() == 0 {
        0
    } else {
        stack_size(stack.drop_last()) + 1 + forest_size(stack.last().children)
    }
}

/// Attaching a subtree adds its nodes to the stack's.
pub proof fn lemma_stack_size_attach(stack: Seq<OpenFrame>, node: Tree)
    requires
        stack.len() > 0,
    ensures
        stack_size(attach(stack, node)) == stack_size(stack) + node.size(),
{
    let grown = attach(stack, node);
    assert(grown.drop_last() == stack.drop_last());
    assert(grown.last().children.drop_last() == stack.last().children);
}

/// A state reached by a prefix decides the whole record once it has failed.
pub proof fn lemma_fault_is_final(events: Seq<ExecTrace>, n: int)
    requires
        0 <= n <= events.len(),
        run(events.take(n)) is Failed,
    ensures
        run(events) == run(events.take(n)),
    decreases events.len() - n,
{
    if n < events.len() {
        assert(events.take(n + 1).drop_last() == events.take(n));
        lemma_fault_is_final(events, n + 1);
    } else {
        assert(events.take(n) == events);
    }
}

} // verus!
