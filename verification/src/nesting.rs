//! What the automaton accepts: exactly the records that are the events of a
//! well-formed frame, read in order, with bookkeeping events anywhere among
//! them.

use vstd::prelude::*;
use crate::automaton::{attach, close, hierarchy, run, step, Matcher, OpenFrame};
use crate::event::ExecTrace;
use crate::tree::{forest_events, Tree};

verus! {

/// The events of a record that take part in the nesting, in order.
pub open spec fn traceable(events: Seq<ExecTrace>) -> Seq<ExecTrace> {
    events.filter(|e: ExecTrace| !e.action.is_ignored())
}

/// `traceable` reads a record event by event.
pub proof fn lemma_traceable_push(events: Seq<ExecTrace>, e: ExecTrace)
    ensures
        traceable(events.push(e)) == if e.action.is_ignored() {
            traceable(events)
        } else {
            traceable(events).push(e)
        },
{
    reveal(Seq::filter);
    assert(events.push(e).drop_last() == events);
}

/// The events that a stack of open frames has taken in, in order: for each
/// frame its opener and the events of what completed inside it.
pub open spec fn stack_events(stack: Seq<OpenFrame>) -> Seq<ExecTrace>
    decreases stack.len(),
{
    if stack.len() == 0 {
        Seq::empty()
    } else {
        stack_events(stack.drop_last()) + seq![stack.last().opener] + forest_events(
            stack.last().children,
        )
    }
}

/// Every subtree that has completed inside an open frame is well formed.
pub open spec fn stack_well_formed(stack: Seq<OpenFrame>) -> bool {
    forall|i: int, j: int|
        0 <= i < stack.len() && 0 <= j < stack[i].children.len() ==> (
        #[trigger] stack[i].children[j]).well_formed()
}

/// What holds of the automaton's state after it has read `events`.
pub open spec fn consistent(m: Matcher, events: Seq<ExecTrace>) -> bool {
    match m {
        Matcher::Open(stack) => stack_well_formed(stack) && stack_events(stack) == traceable(
            events,
        ),
        Matcher::Closed(root) => {
            &&& root is CallCreate
            &&& root.well_formed()
            &&& root.events() == traceable(events)
        },
        Matcher::Failed(_) => true,
    }
}

proof fn lemma_stack_events_attach(stack: Seq<OpenFrame>, node: Tree)
    requires
        stack.len() > 0,
    ensures
        stack_events(attach(stack, node)) == stack_events(stack) + node.events(),
{
    let grown = attach(stack, node);
    let children = stack.last().children;
    assert(grown.drop_last() == stack.drop_last());
    assert(children.push(node).drop_last() == children);
    assert(forest_events(children.push(node)) == forest_events(children) + node.events());
    assert(stack_events(grown) =~= stack_events(stack) + node.events());
}

proof fn lemma_stack_well_formed_attach(stack: Seq<OpenFrame>, node: Tree)
    requires
        stack.len() > 0,
        stack_well_formed(stack),
        node.well_formed(),
    ensures
        stack_well_formed(attach(stack, node)),
{
    let grown = attach(stack, node);
    assert forall|i: int, j: int|
        0 <= i < grown.len() && 0 <= j < grown[i].children.len() implies (
    #[trigger] grown[i].children[j]).well_formed() by {
        if i < stack.len() - 1 {
            assert(grown[i].children[j] == stack[i].children[j]);
        } else if j < stack.last().children.len() {
            assert(grown[i].children[j] == stack[i].children[j]);
        }
    }
}

proof fn lemma_step_consistent(m: Matcher, events: Seq<ExecTrace>, e: ExecTrace)
    requires
        consistent(m, events),
    ensures
        consistent(step(m, e), events.push(e)),
{
    lemma_traceable_push(events, e);
    if e.action.is_ignored() {
    } else if let Matcher::Open(stack) = m {
        if e.action.is_opener() {
            let frame = OpenFrame { opener: e, children: Seq::empty() };
            let grown = stack.push(frame);
            assert(grown.drop_last() == stack);
            assert(stack_events(grown) =~= stack_events(stack).push(e));
            assert forall|i: int, j: int|
                0 <= i < grown.len() && 0 <= j < grown[i].children.len() implies (
            #[trigger] grown[i].children[j]).well_formed() by {
                assert(grown[i].children[j] == stack[i].children[j]);
            }
        } else if e.action.is_closer() {
            if stack.len() > 0 && stack.last().opener.action.closed_by(e.action) {
                let top = stack.last();
                let node = Tree::CallCreate {
                    action: top.opener,
                    result: e,
                    children: top.children,
                };
                assert(node.well_formed()) by {
                    assert forall|j: int| 0 <= j < top.children.len() implies (
                    #[trigger] top.children[j]).well_formed() by {
                        assert(stack[stack.len() - 1].children[j].well_formed());
                    }
                }
                assert(stack_events(stack) + seq![e] =~= stack_events(stack.drop_last())
                    + node.events());
                if stack.len() == 1 {
                    assert(stack_events(stack.drop_last()) =~= Seq::<ExecTrace>::empty());
                    assert(node.events() =~= traceable(events).push(e));
                } else {
                    let below = stack.drop_last();
                    assert(stack_well_formed(below)) by {
                        assert forall|i: int, j: int|
                            0 <= i < below.len() && 0 <= j < below[i].children.len() implies (
                        #[trigger] below[i].children[j]).well_formed() by {
                            assert(below[i].children[j] == stack[i].children[j]);
                        }
                    }
                    lemma_stack_events_attach(below, node);
                    lemma_stack_well_formed_attach(below, node);
                    assert(stack_events(attach(below, node)) =~= traceable(events).push(e));
                }
            }
        } else if stack.len() > 0 {
            let leaf = Tree::Suicide { event: e };
            lemma_stack_events_attach(stack, leaf);
            lemma_stack_well_formed_attach(stack, leaf);
            assert(stack_events(attach(stack, leaf)) =~= traceable(events).push(e));
        }
    }
}

/// The automaton keeps account of what it has read.
pub proof fn lemma_run_consistent(events: Seq<ExecTrace>)
    ensures
        consistent(run(events), events),
    decreases events.len(),
{
    if events.len() == 0 {
        reveal(Seq::filter);
        assert(stack_events(Seq::<OpenFrame>::empty()) =~= traceable(events));
    } else {
        lemma_run_consistent(events.drop_last());
        lemma_step_consistent(run(events.drop_last()), events.drop_last(), events.last());
        assert(events.drop_last().push(events.last()) == events);
    }
}

/// The automaton's state after it has read `events`, starting in `m`.
pub open spec fn run_from(m: Matcher, events: Seq<ExecTrace>) -> Matcher
    decreases events.len(),
{
    if events.len() == 0 {
        m
    } else {
        step(run_from(m, events.drop_last()), events.last())
    }
}

proof fn lemma_run_from_start(events: Seq<ExecTrace>)
    ensures
        run(events) == run_from(Matcher::Open(Seq::empty()), events),
    decreases events.len(),
{
    if events.len() > 0 {
        lemma_run_from_start(events.drop_last());
    }
}

proof fn lemma_run_from_add(m: Matcher, a: Seq<ExecTrace>, b: Seq<ExecTrace>)
    ensures
        run_from(m, a + b) == run_from(run_from(m, a), b),
    decreases b.len(),
{
    if b.len() == 0 {
        assert(a + b == a);
    } else {
        assert((a + b).drop_last() == a + b.drop_last());
        lemma_run_from_add(m, a, b.drop_last());
    }
}

proof fn lemma_run_from_one(m: Matcher, e: ExecTrace)
    ensures
        run_from(m, seq![e]) == step(m, e),
{
    assert(seq![e].drop_last() == Seq::<ExecTrace>::empty());
    assert(run_from(m, seq![e].drop_last()) == m);
}

/// The stack after a row of subtrees has completed inside its innermost
/// frame.
spec fn attach_all(stack: Seq<OpenFrame>, forest: Seq<Tree>) -> Seq<OpenFrame>
    recommends
        stack.len() > 0,
{
    stack.update(
        stack.len() - 1,
        OpenFrame { opener: stack.last().opener, children: stack.last().children + forest },
    )
}

proof fn lemma_forest_attaches(stack: Seq<OpenFrame>, forest: Seq<Tree>)
    requires
        stack.len() > 0,
        forall|i: int| 0 <= i < forest.len() ==> (#[trigger] forest[i]).well_formed(),
    ensures
        run_from(Matcher::Open(stack), forest_events(forest)) == Matcher::Open(
            attach_all(stack, forest),
        ),
    decreases forest,
{
    if forest.len() == 0 {
        assert(stack.last().children + forest == stack.last().children);
        assert(attach_all(stack, forest) == stack);
    } else {
        let init = forest.drop_last();
        let last = forest.last();
        assert(forall|i: int| 0 <= i < init.len() ==> (#[trigger] init[i]) == forest[i]);
        lemma_forest_attaches(stack, init);
        lemma_run_from_add(Matcher::Open(stack), forest_events(init), last.events());
        lemma_tree_attaches(attach_all(stack, init), last);
        assert((stack.last().children + init).push(last) == stack.last().children + forest);
        assert(attach(attach_all(stack, init), last) == attach_all(stack, forest));
    }
}

proof fn lemma_tree_attaches(stack: Seq<OpenFrame>, tree: Tree)
    requires
        stack.len() > 0,
        tree.well_formed(),
    ensures
        run_from(Matcher::Open(stack), tree.events()) == Matcher::Open(attach(stack, tree)),
    decreases tree,
{
    match tree {
        Tree::Suicide { event } => {
            lemma_run_from_one(Matcher::Open(stack), event);
        },
        Tree::CallCreate { action, result, children } => {
            let start = Matcher::Open(stack);
            let opened = stack.push(OpenFrame { opener: action, children: Seq::empty() });
            let filled = stack.push(OpenFrame { opener: action, children });
            lemma_run_from_add(start, seq![action] + forest_events(children), seq![result]);
            lemma_run_from_add(start, seq![action], forest_events(children));
            lemma_run_from_one(start, action);
            lemma_forest_attaches(opened, children);
            assert(Seq::<Tree>::empty() + children == children);
            assert(attach_all(opened, children) == filled);
            lemma_run_from_one(Matcher::Open(filled), result);
            assert(filled.drop_last() == stack);
            assert(close(filled, result) == Matcher::Open(attach(stack, tree)));
        },
    }
}

/// The events of a well-formed frame, read in order, give back the frame.
pub proof fn lemma_frame_accepted(root: Tree)
    requires
        root is CallCreate,
        root.well_formed(),
    ensures
        hierarchy(root.events()) == Ok::<Tree, crate::error::TraceError>(root),
{
    let start = Matcher::Open(Seq::<OpenFrame>::empty());
    match root {
        Tree::Suicide { .. } => {},
        Tree::CallCreate { action, result, children } => {
            let opened = Seq::<OpenFrame>::empty().push(
                OpenFrame { opener: action, children: Seq::empty() },
            );
            let filled = Seq::<OpenFrame>::empty().push(OpenFrame { opener: action, children });
            lemma_run_from_start(root.events());
            lemma_run_from_add(start, seq![action] + forest_events(children), seq![result]);
            lemma_run_from_add(start, seq![action], forest_events(children));
            lemma_run_from_one(start, action);
            lemma_forest_attaches(opened, children);
            assert(Seq::<Tree>::empty() + children == children);
            assert(attach_all(opened, children) == filled);
            lemma_run_from_one(Matcher::Open(filled), result);
            assert(close(filled, result) == Matcher::Closed(root));
        },
    }
}

/// Bookkeeping events may be struck from a record without changing what the
/// automaton makes of it.
pub proof fn lemma_bookkeeping_is_passed_over(events: Seq<ExecTrace>)
    ensures
        run(events) == run(traceable(events)),
    decreases events.len(),
{
    if events.len() == 0 {
        reveal(Seq::filter);
    } else {
        let init = events.drop_last();
        let last = events.last();
        lemma_bookkeeping_is_passed_over(init);
        lemma_traceable_push(init, last);
        assert(init.push(last) == events);
        if !last.action.is_ignored() {
            assert(traceable(init).push(last).drop_last() == traceable(init));
        }
    }
}

/// A record describes a call hierarchy exactly when, bookkeeping events
/// aside, it is the events of a well-formed frame read in order, and the
/// hierarchy is then that frame and no other.
pub proof fn lemma_hierarchy_is_the_nesting(events: Seq<ExecTrace>, root: Tree)
    ensures
        hierarchy(events) == Ok::<Tree, crate::error::TraceError>(root) <==> {
            &&& root is CallCreate
            &&& root.well_formed()
            &&& root.events() == traceable(events)
        },
{
    lemma_run_consistent(events);
    if root is CallCreate && root.well_formed() && root.events() == traceable(events) {
        lemma_frame_accepted(root);
        lemma_bookkeeping_is_passed_over(events);
    }
}

} // verus!
