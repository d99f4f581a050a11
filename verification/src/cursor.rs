//! The listing of a call hierarchy, handed out entry by entry.

use vstd::prelude::*;
use crate::matcher::{lemma_view_node, lemma_view_nodes, view_nodes, CallCreateTraceNode, TraceNode};
use crate::positioned::{
    flatten_forest, listing, path_of, Positioned, SelfDestructTraceWithPosition,
    TraceWithPosition,
};
use crate::tree::Tree;

verus! {

/// The listings of a row of sibling subtrees, one after the other, the first
/// of them under `path` extended by `index`, the next by `index + 1`, and so
/// on.
pub open spec fn flatten_from(forest: Seq<Tree>, path: Seq<nat>, index: nat) -> Seq<Positioned>
    decreases forest.len(),
{
    if forest.len() == 0 {
        Seq::empty()
    } else {
        forest.first().flatten(path.push(index)) + flatten_from(
            forest.drop_first(),
            path,
            index + 1,
        )
    }
}

proof fn lemma_flatten_from_last(forest: Seq<Tree>, path: Seq<nat>, index: nat)
    requires
        forest.len() > 0,
    ensures
        flatten_from(forest, path, index) == flatten_from(forest.drop_last(), path, index)
            + forest.last().flatten(path.push((index + forest.len() - 1) as nat)),
    decreases forest.len(),
{
    let head = forest.first().flatten(path.push(index));
    let tail = forest.last().flatten(path.push((index + forest.len() - 1) as nat));
    if forest.len() == 1 {
        assert(forest.drop_last() == Seq::<Tree>::empty());
        assert(forest.drop_first() == Seq::<Tree>::empty());
        assert(flatten_from(Seq::<Tree>::empty(), path, index + 1) == Seq::<Positioned>::empty());
        assert(flatten_from(Seq::<Tree>::empty(), path, index) == Seq::<Positioned>::empty());
        assert(head + Seq::<Positioned>::empty() =~= Seq::<Positioned>::empty() + tail);
    } else {
        let later = forest.drop_first();
        let between = flatten_from(later.drop_last(), path, index + 1);
        lemma_flatten_from_last(later, path, index + 1);
        assert(flatten_from(later, path, index + 1) == between + tail);
        assert(flatten_from(forest, path, index) == head + flatten_from(later, path, index + 1));
        assert(later.drop_last() == forest.drop_last().drop_first());
        assert(later.last() == forest.last());
        assert(forest.drop_last().first() == forest.first());
        assert(flatten_from(forest.drop_last(), path, index) == head + between);
        assert(head + (between + tail) =~= (head + between) + tail);
    }
}

/// Counting the siblings from nought gives the listing of the row.
pub proof fn lemma_flatten_from_start(forest: Seq<Tree>, path: Seq<nat>)
    ensures
        flatten_from(forest, path, 0) == flatten_forest(forest, path),
    decreases forest.len(),
{
    if forest.len() > 0 {
        lemma_flatten_from_last(forest, path, 0);
        lemma_flatten_from_start(forest.drop_last(), path);
    }
}

/// The children of one frame that are still to be listed.
struct Pending<'a> {
    /// The children, the next one last.
    rest: Vec<TraceNode<'a>>,
    /// The path of their parent.
    path: Vec<usize>,
    /// The index of the next child among its siblings.
    next_index: usize,
}

impl<'a> Pending<'a> {
    #[verifier::type_invariant]
    spec fn indexed(self) -> bool {
        self.next_index + self.rest.len() <= usize::MAX
    }

    /// What is still to be listed of the children.
    spec fn pending(self) -> Seq<Positioned> {
        flatten_from(
            view_nodes(self.rest@.reverse()),
            path_of(self.path@),
            self.next_index as nat,
        )
    }
}

/// What is still to be listed of a stack of frames, innermost last: the
/// children of the innermost frame first.
spec fn stacked<'a>(stack: Seq<Pending<'a>>) -> Seq<Positioned>
    decreases stack.len(),
{
    if stack.len() == 0 {
        Seq::empty()
    } else {
        stack.last().pending() + stacked(stack.drop_last())
    }
}

/// A pre-order listing in progress. It is read once, front to back, and may
/// be left at any entry.
pub struct TraceCursor<'a> {
    /// The frame at which the listing starts, with its path, until its
    /// entry has been handed out.
    start: Option<(CallCreateTraceNode<'a>, Vec<usize>)>,
    /// The frames whose children are being listed, innermost last.
    stack: Vec<Pending<'a>>,
}

/// The same nodes, last first.
fn reversed<'a>(nodes: Vec<TraceNode<'a>>) -> (turned: Vec<TraceNode<'a>>)
    ensures
        turned@ == nodes@.reverse(),
{
    let mut nodes = nodes;
    let ghost whole = nodes@;
    let mut turned: Vec<TraceNode<'a>> = Vec::new();
    while nodes.len() > 0
        invariant
            nodes@ == whole.take(nodes.len() as int),
            nodes.len() + turned.len() == whole.len(),
            forall|j: int| 0 <= j < turned.len() ==> turned@[j] == whole[whole.len() - 1 - j],
        decreases nodes.len(),
    {
        let node = nodes.pop().unwrap();
        turned.push(node);
    }
    proof {
        assert(turned@ =~= whole.reverse());
    }
    turned
}

impl<'a> TraceCursor<'a> {
    /// The entries that have not been handed out yet, in order.
    pub closed spec fn remaining(&self) -> Seq<Positioned> {
        let first = match self.start {
            Some((root, path)) => root@.flatten(path_of(path@)),
            None => Seq::empty(),
        };
        first + stacked(self.stack@)
    }

    /// A listing without entries.
    pub fn empty() -> (cursor: Self)
        ensures
            cursor.remaining() == Seq::<Positioned>::empty(),
    {
        TraceCursor { start: None, stack: Vec::new() }
    }

    /// Hands out the next entry of the listing, if there is one.
    pub fn next(&mut self) -> (entry: Option<TraceWithPosition<'a>>)
        ensures
            match entry {
                Some(e) => {
                    &&& old(self).remaining().len() > 0
                    &&& e@ == old(self).remaining().first()
                    &&& final(self).remaining() == old(self).remaining().drop_first()
                },
                None => {
                    &&& old(self).remaining().len() == 0
                    &&& final(self).remaining().len() == 0
                },
            },
    {
        let ghost whole = self.remaining();
        if let Some((root, path)) = self.start.take() {
            let (own, children) = root.open(&path);
            let rest = reversed(children);
            proof {
                assert(rest@.reverse() =~= children@);
                lemma_flatten_from_start(view_nodes(children@), path_of(path@));
            }
            let frame = Pending { rest, path, next_index: 0 };
            self.stack.push(frame);
            proof {
                assert(self.stack@.drop_last() == old(self).stack@);
                assert(self.remaining() =~= whole.drop_first());
            }
            return Some(TraceWithPosition::CallCreate(own));
        }
        while self.stack.len() > 0
            invariant
                self.start is None,
                whole == old(self).remaining(),
                stacked(self.stack@) == whole,
            decreases self.stack.len(),
        {
            let ghost before = self.stack@;
            let top = self.stack.pop().unwrap();
            let ghost below = stacked(self.stack@);
            proof {
                use_type_invariant(&top);
                assert(self.stack@ == before.drop_last());
            }
            let Pending { rest, path, next_index } = top;
            let mut rest = rest;
            let ghost full = rest@;
            let ghost row = view_nodes(full.reverse());
            proof {
                lemma_view_nodes(full.reverse());
            }
            match rest.pop() {
                None => {},
                Some(child) => {
                    let mut child_path = path.clone();
                    child_path.push(next_index);
                    proof {
                        lemma_view_nodes(rest@.reverse());
                        lemma_view_node(child);
                        assert(full.reverse().drop_first() =~= rest@.reverse());
                        assert(row.drop_first() =~= view_nodes(rest@.reverse()));
                        assert(row.first() == child.view());
                        assert(path_of(child_path@) =~= path_of(path@).push(next_index as nat));
                    }
                    let frame = Pending { rest, path, next_index: next_index + 1 };
                    proof {
                        assert(whole == child.view().flatten(path_of(child_path@))
                            + frame.pending() + below);
                    }
                    self.stack.push(frame);
                    proof {
                        assert(self.stack@.drop_last() == before.drop_last());
                    }
                    match child {
                        TraceNode::Suicide(leaf) => {
                            let entry = SelfDestructTraceWithPosition {
                                action: leaf.trace(),
                                child_count: 0,
                                trace_path: child_path,
                            };
                            proof {
                                assert(self.remaining() =~= whole.drop_first());
                            }
                            return Some(TraceWithPosition::Suicide(entry));
                        },
                        TraceNode::CallCreate(node) => {
                            let ghost outer = self.stack@;
                            let (own, children) = node.open(&child_path);
                            let inner = reversed(children);
                            proof {
                                assert(inner@.reverse() =~= children@);
                                lemma_flatten_from_start(
                                    view_nodes(children@),
                                    path_of(child_path@),
                                );
                            }
                            let nested = Pending { rest: inner, path: child_path, next_index: 0 };
                            self.stack.push(nested);
                            proof {
                                let beneath = flatten_forest(
                                    view_nodes(children@),
                                    path_of(child_path@),
                                );
                                assert(self.stack@.drop_last() == outer);
                                assert(stacked(outer) == frame.pending() + below);
                                assert(nested.pending() == beneath);
                                assert(child.view().flatten(path_of(child_path@)) == seq![own@]
                                    + beneath);
                                assert(stacked(self.stack@) == beneath + (frame.pending()
                                    + below));
                                assert(whole =~= seq![own@] + (beneath + (frame.pending()
                                    + below)));
                                assert(self.remaining() =~= whole.drop_first());
                            }
                            return Some(TraceWithPosition::CallCreate(own));
                        },
                    }
                },
            }
        }
        None
    }

    /// Hands out all the entries that are left, in order.
    pub fn collect(self) -> (entries: Vec<TraceWithPosition<'a>>)
        ensures
            listing(entries@) == self.remaining(),
    {
        let mut cursor = self;
        let mut entries: Vec<TraceWithPosition<'a>> = Vec::new();
        let ghost whole = cursor.remaining();
        loop
            invariant
                listing(entries@) + cursor.remaining() == whole,
            ensures
                listing(entries@) == whole,
            decreases cursor.remaining().len(),
        {
            let ghost listed = listing(entries@);
            let ghost left = cursor.remaining();
            match cursor.next() {
                Some(entry) => {
                    entries.push(entry);
                    proof {
                        assert(listing(entries@) =~= listed.push(left.first()));
                        assert(listed.push(left.first()) + left.drop_first() =~= listed + left);
                    }
                },
                None => {
                    proof {
                        assert(listed + left =~= listed);
                    }
                    break ;
                },
            }
        }
        entries
    }
}

impl<'a> CallCreateTraceNode<'a> {
    /// Lists the frame and all beneath it in pre-order, the frame itself at
    /// `trace_path` and each child at its parent's path extended by the
    /// child's index among its siblings. Nothing is listed before it is
    /// asked for.
    pub fn flatten_into_traces(self, trace_path: Vec<usize>) -> (entries: TraceCursor<'a>)
        ensures
            entries.remaining() == self@.flatten(path_of(trace_path@)),
    {
        TraceCursor { start: Some((self, trace_path)), stack: Vec::new() }
    }
}

} // verus!
