//! What holds of a pre-order listing: its length, the order of its entries
//! and where the subtree of each child stands in it.

use vstd::prelude::*;
use crate::automaton::hierarchy;
use crate::event::ExecTrace;
use crate::nesting::{lemma_run_consistent, traceable};
use crate::positioned::{flatten_forest, parity_trace, untraceable, Positioned};
use crate::tree::{forest_events, forest_size, lemma_forest_size_step, Tree};

verus! {

/// The events of a record that make a node of the hierarchy, in order: the
/// openers and the self-destructs.
pub open spec fn node_events(events: Seq<ExecTrace>) -> Seq<ExecTrace> {
    events.filter(|e: ExecTrace| e.action.is_opener() || e.action is SelfDestruct)
}

/// The events that made the nodes of a listing's entries, in the order of
/// the listing.
pub open spec fn listed_events(list: Seq<Positioned>) -> Seq<ExecTrace> {
    list.map_values(|entry: Positioned| entry.event())
}

/// Whether `p` begins `q`.
pub open spec fn is_prefix(p: Seq<nat>, q: Seq<nat>) -> bool {
    p.len() <= q.len() && q.take(p.len() as int) == p
}

proof fn lemma_node_events_add(a: Seq<ExecTrace>, b: Seq<ExecTrace>)
    ensures
        node_events(a + b) == node_events(a) + node_events(b),
{
    Seq::filter_distributes_over_add(
        a,
        b,
        |e: ExecTrace| e.action.is_opener() || e.action is SelfDestruct,
    );
}

proof fn lemma_node_events_one(e: ExecTrace)
    ensures
        node_events(seq![e]) == if e.action.is_opener() || e.action is SelfDestruct {
            seq![e]
        } else {
            Seq::empty()
        },
{
    reveal_with_fuel(Seq::filter, 2);
    assert(seq![e].drop_last() == Seq::<ExecTrace>::empty());
    assert(Seq::<ExecTrace>::empty().push(e) == seq![e]);
}

proof fn lemma_node_events_of_traceable(events: Seq<ExecTrace>)
    ensures
        node_events(traceable(events)) == node_events(events),
        untraceable(events) ==> node_events(events).len() == 0,
    decreases events.len(),
{
    reveal(Seq::filter);
    if events.len() > 0 {
        let init = events.drop_last();
        let last = events.last();
        lemma_node_events_of_traceable(init);
        if untraceable(events) {
            assert(forall|i: int| 0 <= i < init.len() ==> init[i] == events[i]);
            assert(untraceable(init));
            assert(last.action.is_ignored());
        }
        if !last.action.is_ignored() {
            assert(traceable(init).push(last).drop_last() == traceable(init));
        }
    }
}

/// A listing has one entry for each node.
pub proof fn lemma_flatten_len(tree: Tree, path: Seq<nat>)
    ensures
        tree.flatten(path).len() == tree.size(),
    decreases tree,
{
    match tree {
        Tree::CallCreate { children, .. } => lemma_flatten_forest_len(children, path),
        Tree::Suicide { .. } => {},
    }
}

/// The listings of a row of subtrees have one entry for each node.
pub proof fn lemma_flatten_forest_len(forest: Seq<Tree>, path: Seq<nat>)
    ensures
        flatten_forest(forest, path).len() == forest_size(forest),
    decreases forest,
{
    if forest.len() > 0 {
        lemma_flatten_forest_len(forest.drop_last(), path);
        lemma_flatten_len(forest.last(), path.push((forest.len() - 1) as nat));
    }
}

proof fn lemma_tree_listing_events(tree: Tree, path: Seq<nat>)
    requires
        tree.well_formed(),
    ensures
        listed_events(tree.flatten(path)) == node_events(tree.events()),
    decreases tree,
{
    match tree {
        Tree::CallCreate { action, result, children } => {
            lemma_forest_listing_events(children, path);
            lemma_node_events_add(seq![action] + forest_events(children), seq![result]);
            lemma_node_events_add(seq![action], forest_events(children));
            lemma_node_events_one(action);
            lemma_node_events_one(result);
            assert(listed_events(tree.flatten(path)) =~= seq![action] + listed_events(
                flatten_forest(children, path),
            ));
            assert(node_events(tree.events()) =~= seq![action] + node_events(
                forest_events(children),
            ));
        },
        Tree::Suicide { event } => {
            lemma_node_events_one(event);
            assert(listed_events(tree.flatten(path)) =~= seq![event]);
        },
    }
}

proof fn lemma_forest_listing_events(forest: Seq<Tree>, path: Seq<nat>)
    requires
        forall|i: int| 0 <= i < forest.len() ==> (#[trigger] forest[i]).well_formed(),
    ensures
        listed_events(flatten_forest(forest, path)) == node_events(forest_events(forest)),
    decreases forest,
{
    if forest.len() == 0 {
        reveal(Seq::filter);
        assert(listed_events(flatten_forest(forest, path)) =~= Seq::<ExecTrace>::empty());
    } else {
        let init = forest.drop_last();
        let last = forest.last();
        let last_path = path.push((forest.len() - 1) as nat);
        assert(forall|i: int| 0 <= i < init.len() ==> (#[trigger] init[i]) == forest[i]);
        lemma_forest_listing_events(init, path);
        lemma_tree_listing_events(last, last_path);
        lemma_node_events_add(forest_events(init), last.events());
        assert(listed_events(flatten_forest(forest, path)) =~= listed_events(
            flatten_forest(init, path),
        ) + listed_events(last.flatten(last_path)));
    }
}

/// The entries of a record's listing stand in the order in which the
/// openers and self-destructs of the record were recorded, one entry for
/// each of them.
pub proof fn lemma_listing_follows_record(events: Seq<ExecTrace>, list: Seq<Positioned>)
    requires
        parity_trace(events) == Ok::<Seq<Positioned>, crate::error::TraceError>(list),
    ensures
        listed_events(list) == node_events(events),
{
    lemma_node_events_of_traceable(events);
    if untraceable(events) {
        assert(listed_events(list) =~= node_events(events));
    } else {
        let root = hierarchy(events).unwrap();
        lemma_run_consistent(events);
        lemma_tree_listing_events(root, Seq::empty());
    }
}

/// A record's listing is as long as the record has openers and
/// self-destructs.
pub proof fn lemma_listing_length(events: Seq<ExecTrace>, list: Seq<Positioned>)
    requires
        parity_trace(events) == Ok::<Seq<Positioned>, crate::error::TraceError>(list),
    ensures
        list.len() == node_events(events).len(),
{
    lemma_listing_follows_record(events, list);
}

/// Each path in a subtree's listing begins with the path at which the
/// subtree stands, and the first entry stands at that path itself.
pub proof fn lemma_paths_begin_at_root(tree: Tree, path: Seq<nat>)
    ensures
        tree.flatten(path)[0].path() == path,
        forall|j: int|
            0 <= j < tree.flatten(path).len() ==> is_prefix(
                path,
                (#[trigger] tree.flatten(path)[j]).path(),
            ),
    decreases tree,
{
    let list = tree.flatten(path);
    assert(path.take(path.len() as int) == path);
    match tree {
        Tree::CallCreate { children, .. } => {
            lemma_paths_pass_through_child(children, path);
            assert forall|j: int| 0 <= j < list.len() implies is_prefix(
                path,
                (#[trigger] list[j]).path(),
            ) by {
                if j > 0 {
                    let below = flatten_forest(children, path);
                    assert(list[j] == below[j - 1]);
                    assert(passes_through(below[j - 1].path(), path, 0, children.len()));
                }
            }
        },
        Tree::Suicide { .. } => {},
    }
}

/// Whether `q` goes on from `path` with a sibling index from `lo` up to, not
/// including, `hi`.
pub open spec fn passes_through(q: Seq<nat>, path: Seq<nat>, lo: nat, hi: nat) -> bool {
    &&& path.len() < q.len()
    &&& q.take(path.len() as int) == path
    &&& lo <= q[path.len() as int] < hi
}

/// Each path in the listings of a row of subtrees goes on from the row's
/// path with the index of one of the subtrees.
pub proof fn lemma_paths_pass_through_child(forest: Seq<Tree>, path: Seq<nat>)
    ensures
        forall|j: int|
            0 <= j < flatten_forest(forest, path).len() ==> passes_through(
                (#[trigger] flatten_forest(forest, path)[j]).path(),
                path,
                0,
                forest.len(),
            ),
    decreases forest,
{
    if forest.len() > 0 {
        let list = flatten_forest(forest, path);
        let init = flatten_forest(forest.drop_last(), path);
        let slot = (forest.len() - 1) as nat;
        let last = forest.last().flatten(path.push(slot));
        lemma_paths_pass_through_child(forest.drop_last(), path);
        lemma_paths_begin_at_root(forest.last(), path.push(slot));
        assert forall|j: int| 0 <= j < list.len() implies passes_through(
            (#[trigger] list[j]).path(),
            path,
            0,
            forest.len(),
        ) by {
            if j < init.len() {
                assert(list[j] == init[j]);
                assert(passes_through(init[j].path(), path, 0, forest.drop_last().len()));
            } else {
                let q = last[j - init.len()].path();
                assert(list[j] == last[j - init.len()]);
                assert(is_prefix(path.push(slot), q));
                let depth = path.len() as int;
                assert(q.take(depth + 1) == path.push(slot));
                assert(q.take(depth) =~= q.take(depth + 1).take(depth));
                assert(path.push(slot).take(depth) =~= path);
                assert(q[depth] == q.take(depth + 1)[depth]);
            }
        }
    }
}

proof fn lemma_forest_listing_step(forest: Seq<Tree>, path: Seq<nat>, k: int)
    requires
        0 <= k < forest.len(),
    ensures
        flatten_forest(forest.take(k + 1), path) == flatten_forest(forest.take(k), path)
            + forest[k].flatten(path.push(k as nat)),
{
    assert(forest.take(k + 1).drop_last() == forest.take(k));
}

proof fn lemma_forest_listing_prefix(forest: Seq<Tree>, path: Seq<nat>, k: int)
    requires
        0 <= k <= forest.len(),
    ensures
        forest_size(forest.take(k)) <= flatten_forest(forest, path).len(),
        flatten_forest(forest.take(k), path) == flatten_forest(forest, path).take(
            forest_size(forest.take(k)) as int,
        ),
    decreases forest.len() - k,
{
    lemma_flatten_forest_len(forest.take(k), path);
    if k == forest.len() {
        assert(forest.take(k) == forest);
    } else {
        lemma_forest_listing_prefix(forest, path, k + 1);
        lemma_forest_listing_step(forest, path, k);
        lemma_forest_size_step(forest, k);
        let longer = flatten_forest(forest.take(k + 1), path);
        assert(flatten_forest(forest.take(k), path) =~= longer.take(
            forest_size(forest.take(k)) as int,
        ));
        assert(longer.take(forest_size(forest.take(k)) as int) =~= flatten_forest(
            forest,
            path,
        ).take(forest_size(forest.take(k)) as int));
    }
}

/// In the listing of a frame, the subtrees of its children follow the
/// frame's own entry in the children's order, each in one piece: that of
/// child `k` begins where those of the children before it end, begins with
/// the child's own entry at the frame's path extended by `k`, and all its
/// paths begin with that path.
pub proof fn lemma_children_in_order(tree: Tree, path: Seq<nat>, k: int)
    requires
        tree is CallCreate,
        0 <= k < tree->children.len(),
    ensures
        ({
            let children = tree->children;
            let from = 1 + forest_size(children.take(k)) as int;
            let piece = children[k].flatten(path.push(k as nat));
            &&& from + piece.len() <= tree.flatten(path).len()
            &&& tree.flatten(path).subrange(from, from + piece.len()) == piece
            &&& tree.flatten(path)[from].path() == path.push(k as nat)
            &&& forall|j: int|
                from <= j < from + piece.len() ==> is_prefix(
                    path.push(k as nat),
                    (#[trigger] tree.flatten(path)[j]).path(),
                )
        }),
{
    let children = tree->children;
    let list = tree.flatten(path);
    let below = flatten_forest(children, path);
    let before = forest_size(children.take(k)) as int;
    let piece = children[k].flatten(path.push(k as nat));
    lemma_forest_listing_prefix(children, path, k);
    lemma_forest_listing_prefix(children, path, k + 1);
    lemma_forest_listing_step(children, path, k);
    lemma_forest_size_step(children, k);
    lemma_flatten_len(children[k], path.push(k as nat));
    lemma_flatten_forest_len(children.take(k), path);
    lemma_paths_begin_at_root(children[k], path.push(k as nat));
    let upto = flatten_forest(children.take(k + 1), path);
    assert(below.subrange(before, before + piece.len()) =~= piece) by {
        assert forall|j: int| 0 <= j < piece.len() implies below[before + j] == piece[j] by {
            assert(upto[before + j] == piece[j]);
            assert(below.take(before + piece.len())[before + j] == below[before + j]);
        }
    }
    assert(list.subrange(1 + before, 1 + before + piece.len()) =~= piece) by {
        assert forall|j: int| 0 <= j < piece.len() implies list[1 + before + j] == piece[j] by {
            assert(list[1 + before + j] == below[before + j]);
            assert(below.subrange(before, before + piece.len())[j] == below[before + j]);
        }
    }
    assert forall|j: int| 1 + before <= j < 1 + before + piece.len() implies is_prefix(
        path.push(k as nat),
        (#[trigger] list[j]).path(),
    ) by {
        assert(list.subrange(1 + before, 1 + before + piece.len())[j - 1 - before] == list[j]);
    }
    assert(list.subrange(1 + before, 1 + before + piece.len())[0] == list[1 + before]);
}

/// Listing the same subtree at the same path again gives the same entries.
pub proof fn lemma_listing_is_repeatable(
    tree: Tree,
    path: Seq<nat>,
    first: Seq<Positioned>,
    second: Seq<Positioned>,
)
    requires
        first == tree.flatten(path),
        second == tree.flatten(path),
    ensures
        first.len() == second.len(),
        forall|i: int| 0 <= i < first.len() ==> first[i] == second[i],
        first == second,
{
}

} // verus!
