//! Building the call hierarchy of a transaction from its record of events,
//! and listing it again with positions.

use vstd::prelude::*;
use vstd::std_specs::convert::TryFromSpecImpl;
use crate::automaton::{
    attach, hierarchy, lemma_fault_is_final, lemma_stack_size_attach, run, stack_size, step,
    Matcher, OpenFrame,
};
use crate::error::TraceError;
use crate::event::{Action, ExecTrace};
use crate::cursor::TraceCursor;
use crate::positioned::{
    parity_trace, path_of, untraceable, CallCreateTraceWithPosition, Positioned,
};
use crate::tree::{forest_size, lemma_forest_size_prefix, lemma_forest_size_step, Tree};

verus! {

/// An event known to open a frame.
pub(crate) struct ActionTrace<'a>(&'a ExecTrace);

/// An event known to close a frame.
pub(crate) struct ResultTrace<'a>(&'a ExecTrace);

/// An event known to be a self-destruct.
pub(crate) struct SelfDestructTrace<'a>(&'a ExecTrace);

impl<'a> ActionTrace<'a> {
    #[verifier::type_invariant]
    spec fn opens(self) -> bool {
        self.0.action.is_opener()
    }

    /// The event held.
    pub closed spec fn event(self) -> ExecTrace {
        *self.0
    }
}

impl<'a> ResultTrace<'a> {
    #[verifier::type_invariant]
    spec fn closes(self) -> bool {
        self.0.action.is_closer()
    }

    /// The event held.
    pub closed spec fn event(self) -> ExecTrace {
        *self.0
    }
}

impl<'a> SelfDestructTrace<'a> {
    #[verifier::type_invariant]
    spec fn destroys(self) -> bool {
        self.0.action is SelfDestruct
    }

    /// The event held.
    pub closed spec fn event(self) -> ExecTrace {
        *self.0
    }

    /// The event held, as it was borrowed from the record.
    pub(crate) fn trace(&self) -> (trace: &'a ExecTrace)
        ensures
            *trace == self.event(),
    {
        self.0
    }
}

impl<'a> TryFrom<&'a ExecTrace> for ActionTrace<'a> {
    type Error = &'static str;

    fn try_from(trace: &'a ExecTrace) -> (ret: Result<Self, Self::Error>) {
        match trace.action {
            Action::Call | Action::Create => Ok(Self(trace)),
            _ => Err("Not an action trace"),
        }
    }
}

impl<'a> TryFromSpecImpl<&'a ExecTrace> for ActionTrace<'a> {
    open spec fn obeys_try_from_spec() -> bool {
        true
    }

    closed spec fn try_from_spec(trace: &'a ExecTrace) -> Result<Self, Self::Error> {
        if trace.action.is_opener() {
            Ok(ActionTrace(trace))
        } else {
            Err("Not an action trace")
        }
    }
}

impl<'a> TryFrom<&'a ExecTrace> for ResultTrace<'a> {
    type Error = &'static str;

    fn try_from(trace: &'a ExecTrace) -> (ret: Result<Self, Self::Error>) {
        match trace.action {
            Action::CallResult | Action::CreateResult => Ok(Self(trace)),
            _ => Err("Not a result trace"),
        }
    }
}

impl<'a> TryFromSpecImpl<&'a ExecTrace> for ResultTrace<'a> {
    open spec fn obeys_try_from_spec() -> bool {
        true
    }

    closed spec fn try_from_spec(trace: &'a ExecTrace) -> Result<Self, Self::Error> {
        if trace.action.is_closer() {
            Ok(ResultTrace(trace))
        } else {
            Err("Not a result trace")
        }
    }
}

impl<'a> TryFrom<&'a ExecTrace> for SelfDestructTrace<'a> {
    type Error = &'static str;

    fn try_from(trace: &'a ExecTrace) -> (ret: Result<Self, Self::Error>) {
        match trace.action {
            Action::SelfDestruct => Ok(Self(trace)),
            _ => Err("Not a self-destruct trace"),
        }
    }
}

impl<'a> TryFromSpecImpl<&'a ExecTrace> for SelfDestructTrace<'a> {
    open spec fn obeys_try_from_spec() -> bool {
        true
    }

    closed spec fn try_from_spec(trace: &'a ExecTrace) -> Result<Self, Self::Error> {
        if trace.action is SelfDestruct {
            Ok(SelfDestructTrace(trace))
        } else {
            Err("Not a self-destruct trace")
        }
    }
}

/// A child of a frame: a nested frame, or a self-destruct.
pub(crate) enum TraceNode<'a> {
    CallCreate(CallCreateTraceNode<'a>),
    Suicide(SelfDestructTrace<'a>),
}

/// A frame with its matched opener and closer and its children.
pub struct CallCreateTraceNode<'a> {
    action_trace: ActionTrace<'a>,
    result_trace: ResultTrace<'a>,
    child_nodes: Vec<TraceNode<'a>>,
    total_child_count: usize,
}

/// The trees that a row of nodes stands for.
pub(crate) closed spec fn view_nodes<'a>(nodes: Seq<TraceNode<'a>>) -> Seq<Tree>
    decreases nodes,
{
    if nodes.len() == 0 {
        Seq::empty()
    } else {
        view_nodes(nodes.drop_last()).push(nodes.last().view())
    }
}

impl<'a> TraceNode<'a> {
    /// The subtree that the node stands for.
    pub closed spec fn view(&self) -> Tree
        decreases self,
    {
        match self {
            TraceNode::CallCreate(node) => node.view(),
            TraceNode::Suicide(leaf) => Tree::Suicide { event: leaf.event() },
        }
    }
}

/// A node stands for its frame's subtree, or for a leaf with its event.
pub(crate) proof fn lemma_view_node<'a>(node: TraceNode<'a>)
    ensures
        node.view() == match node {
            TraceNode::CallCreate(frame) => frame.view(),
            TraceNode::Suicide(leaf) => Tree::Suicide { event: leaf.event() },
        },
{
}

/// `view_nodes` maps a row node by node.
pub(crate) proof fn lemma_view_nodes<'a>(nodes: Seq<TraceNode<'a>>)
    ensures
        view_nodes(nodes).len() == nodes.len(),
        forall|i: int|
            0 <= i < nodes.len() ==> (#[trigger] view_nodes(nodes)[i]) == nodes[i].view(),
    decreases nodes.len(),
{
    if nodes.len() > 0 {
        lemma_view_nodes(nodes.drop_last());
    }
}

impl<'a> CallCreateTraceNode<'a> {
    /// The opener and the closer correspond, and the stored count is the
    /// number of nodes beneath the frame.
    #[verifier::type_invariant]
    spec fn counted(self) -> bool {
        &&& self.action_trace.event().action.closed_by(self.result_trace.event().action)
        &&& self.total_child_count == forest_size(view_nodes(self.child_nodes@))
    }

    /// The subtree that the frame stands for.
    pub closed spec fn view(&self) -> Tree
        decreases self,
    {
        Tree::CallCreate {
            action: self.action_trace.event(),
            result: self.result_trace.event(),
            children: view_nodes(self.child_nodes@),
        }
    }

    /// Makes a frame of an opener, a closer and the children between them,
    /// unless the closer is of the other kind.
    fn new(
        action: ActionTrace<'a>,
        result: ResultTrace<'a>,
        children: Vec<TraceNode<'a>>,
    ) -> (made: Result<Self, TraceError>)
        requires
            forest_size(view_nodes(children@)) <= usize::MAX,
        ensures
            match made {
                Ok(node) => {
                    &&& action.event().action.closed_by(result.event().action)
                    &&& node@ == Tree::CallCreate {
                        action: action.event(),
                        result: result.event(),
                        children: view_nodes(children@),
                    }
                },
                Err(fault) => {
                    &&& !action.event().action.closed_by(result.event().action)
                    &&& fault == TraceError::TypeMismatch {
                        action: action.event(),
                        result: result.event(),
                    }
                },
            },
    {
        match (action.0.action, result.0.action) {
            (Action::Call, Action::CallResult) | (Action::Create, Action::CreateResult) => {},
            _ => {
                return Err(TraceError::TypeMismatch { action: *action.0, result: *result.0 });
            },
        }
        let ghost forest = view_nodes(children@);
        proof {
            lemma_view_nodes(children@);
        }
        let mut total_child_count: usize = 0;
        let mut k: usize = 0;
        while k < children.len()
            invariant
                k <= children.len(),
                forest == view_nodes(children@),
                forest.len() == children.len(),
                forest_size(forest) <= usize::MAX,
                total_child_count == forest_size(forest.take(k as int)),
            decreases children.len() - k,
        {
            proof {
                lemma_view_nodes(children@);
                lemma_forest_size_step(forest, k as int);
                lemma_forest_size_prefix(forest, k + 1);
            }
            let beneath: usize = match &children[k] {
                TraceNode::CallCreate(node) => {
                    proof {
                        use_type_invariant(node);
                    }
                    node.total_child_count
                },
                TraceNode::Suicide(_) => 0,
            };
            total_child_count = total_child_count + 1 + beneath;
            k = k + 1;
        }
        proof {
            assert(forest.take(k as int) == forest);
        }
        Ok(
            Self {
                action_trace: action,
                result_trace: result,
                child_nodes: children,
                total_child_count,
            },
        )
    }

    /// Takes the frame apart into its own entry, at `trace_path`, and its
    /// children.
    pub(crate) fn open(self, trace_path: &Vec<usize>) -> (opened: (
        CallCreateTraceWithPosition<'a>,
        Vec<TraceNode<'a>>,
    ))
        ensures
            self@ is CallCreate,
            opened.0@ == self@.entry(path_of(trace_path@)),
            view_nodes(opened.1@) == self@->children,
    {
        proof {
            use_type_invariant(&self);
        }
        let own = CallCreateTraceWithPosition {
            action: self.action_trace.0,
            result: self.result_trace.0,
            child_count: self.total_child_count,
            trace_path: trace_path.clone(),
        };
        proof {
            assert(own.trace_path@ =~= trace_path@);
        }
        (own, self.child_nodes)
    }
}

/// The open frames that the builder's stack stands for.
spec fn view_stack<'a>(stack: Seq<(ActionTrace<'a>, Vec<TraceNode<'a>>)>) -> Seq<OpenFrame> {
    Seq::new(
        stack.len(),
        |i: int| OpenFrame { opener: stack[i].0.event(), children: view_nodes(stack[i].1@) },
    )
}

/// Builds the call hierarchy that a record of events describes.
///
/// The record is read once, in order, with a stack of the frames that are
/// open. Bookkeeping events are passed over. The result is the root frame,
/// or the first fault in the nesting; no part of a tree is returned for a
/// faulty record.
pub fn build_call_hierarchy<'a>(traces: &'a [ExecTrace]) -> (built: Result<
    CallCreateTraceNode<'a>,
    TraceError,
>)
    ensures
        match built {
            Ok(root) => hierarchy(traces@) == Ok::<Tree, TraceError>(root@),
            Err(fault) => hierarchy(traces@) == Err::<Tree, TraceError>(fault),
        },
{
    let mut unclosed_actions: Vec<(ActionTrace<'a>, Vec<TraceNode<'a>>)> = Vec::new();
    let mut i: usize = 0;
    proof {
        assert(view_stack(unclosed_actions@) == Seq::<OpenFrame>::empty());
    }
    while i < traces.len()
        invariant
            i <= traces.len(),
            run(traces@.take(i as int)) == Matcher::Open(view_stack(unclosed_actions@)),
            stack_size(view_stack(unclosed_actions@)) <= i,
        decreases traces.len() - i,
    {
        let trace = &traces[i];
        let ghost before = view_stack(unclosed_actions@);
        proof {
            assert(traces@.take(i + 1).drop_last() == traces@.take(i as int));
            assert(run(traces@.take(i + 1)) == step(Matcher::Open(before), *trace));
        }
        match trace.action {
            Action::Call | Action::Create => {
                let action = ActionTrace::try_from(trace).unwrap();
                unclosed_actions.push((action, Vec::new()));
                proof {
                    let frame = OpenFrame { opener: *trace, children: Seq::empty() };
                    assert(view_nodes(Seq::<TraceNode<'a>>::empty()) == Seq::<Tree>::empty());
                    assert(view_stack(unclosed_actions@) =~= before.push(frame));
                    assert(before.push(frame).drop_last() == before);
                }
            },
            Action::CallResult | Action::CreateResult => {
                let result = ResultTrace::try_from(trace).unwrap();
                let (action, children) = match unclosed_actions.pop() {
                    Some(frame) => frame,
                    None => {
                        proof {
                            lemma_fault_is_final(traces@, i + 1);
                        }
                        return Err(TraceError::OrphanedResult { result: *trace });
                    },
                };
                let ghost below = view_stack(unclosed_actions@);
                proof {
                    assert(below =~= before.drop_last());
                    assert(before.last() == OpenFrame {
                        opener: action.event(),
                        children: view_nodes(children@),
                    });
                }
                let node = match CallCreateTraceNode::new(action, result, children) {
                    Ok(node) => node,
                    Err(fault) => {
                        proof {
                            lemma_fault_is_final(traces@, i + 1);
                        }
                        return Err(fault);
                    },
                };
                if let Some((_, parent_children)) = unclosed_actions.last_mut() {
                    proof {
                        lemma_view_nodes(parent_children@);
                        lemma_view_nodes(parent_children@.push(TraceNode::CallCreate(node)));
                        assert(view_nodes(parent_children@.push(TraceNode::CallCreate(node)))
                            =~= view_nodes(parent_children@).push(node@));
                    }
                    parent_children.push(TraceNode::CallCreate(node));
                    proof {
                        assert(view_stack(unclosed_actions@) =~= attach(below, node@));
                        lemma_stack_size_attach(below, node@);
                    }
                } else {
                    let mut j: usize = i + 1;
                    while j < traces.len()
                        invariant
                            i < j <= traces.len(),
                            run(traces@.take(j as int)) == Matcher::Closed(node@),
                        decreases traces.len() - j,
                    {
                        let trailing = &traces[j];
                        proof {
                            assert(traces@.take(j + 1).drop_last() == traces@.take(j as int));
                        }
                        match trailing.action {
                            Action::InternalTransferAction | Action::SetAuth => {},
                            _ => {
                                proof {
                                    lemma_fault_is_final(traces@, j + 1);
                                }
                                return Err(TraceError::TrailingTraces { trace: *trailing });
                            },
                        }
                        j = j + 1;
                    }
                    proof {
                        assert(traces@.take(j as int) == traces@);
                    }
                    return Ok(node);
                }
            },
            Action::SelfDestruct => {
                let leaf = SelfDestructTrace::try_from(trace).unwrap();
                if let Some((_, parent_children)) = unclosed_actions.last_mut() {
                    proof {
                        lemma_view_nodes(parent_children@);
                        lemma_view_nodes(parent_children@.push(TraceNode::Suicide(leaf)));
                        assert(view_nodes(parent_children@.push(TraceNode::Suicide(leaf)))
                            =~= view_nodes(parent_children@).push(Tree::Suicide { event: *trace }));
                    }
                    parent_children.push(TraceNode::Suicide(leaf));
                    proof {
                        assert(view_stack(unclosed_actions@) =~= attach(
                            before,
                            Tree::Suicide { event: *trace },
                        ));
                        lemma_stack_size_attach(before, Tree::Suicide { event: *trace });
                    }
                } else {
                    proof {
                        lemma_fault_is_final(traces@, i + 1);
                    }
                    return Err(TraceError::OrphanSelfDestruct);
                }
            },
            Action::InternalTransferAction | Action::SetAuth => {},
        }
        i = i + 1;
    }
    proof {
        assert(traces@.take(i as int) == traces@);
    }
    Err(TraceError::IncompleteTrace)
}

/// Turns the record of one transaction into its positional listing, each
/// frame paired with the result that closed it. The listing is handed out
/// entry by entry.
pub fn construct_parity_trace<'a>(tx_traces: &'a [ExecTrace]) -> (traced: Result<
    TraceCursor<'a>,
    TraceError,
>)
    ensures
        match traced {
            Ok(entries) => parity_trace(tx_traces@) == Ok::<Seq<Positioned>, TraceError>(
                entries.remaining(),
            ),
            Err(fault) => parity_trace(tx_traces@) == Err::<Seq<Positioned>, TraceError>(fault),
        },
{
    let mut empty_traces = true;
    let mut i: usize = 0;
    while i < tx_traces.len() && empty_traces
        invariant
            i <= tx_traces.len(),
            empty_traces == untraceable(tx_traces@.take(i as int)),
        decreases tx_traces.len() - i,
    {
        match tx_traces[i].action {
            Action::InternalTransferAction | Action::SetAuth => {},
            _ => {
                empty_traces = false;
            },
        }
        proof {
            let seen = tx_traces@.take(i + 1);
            assert(seen[i as int] == tx_traces@[i as int]);
            assert forall|k: int| 0 <= k < i implies tx_traces@.take(i as int)[k] == seen[k] by {}
        }
        i = i + 1;
    }
    if empty_traces {
        proof {
            assert(tx_traces@.take(i as int) == tx_traces@);
        }
        return Ok(TraceCursor::empty());
    }
    proof {
        let seen = tx_traces@.take(i as int);
        let k = choose|k: int| 0 <= k < seen.len() && !(#[trigger] seen[k]).action.is_ignored();
        assert(tx_traces@[k] == seen[k]);
    }
    let call_hierarchy = build_call_hierarchy(tx_traces)?;
    proof {
        assert(path_of(Seq::<usize>::empty()) =~= Seq::<nat>::empty());
    }
    Ok(call_hierarchy.flatten_into_traces(Vec::new()))
}

} // verus!
