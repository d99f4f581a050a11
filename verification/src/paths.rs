//! Descendant counts read off the paths of a listing.

use vstd::prelude::*;
use crate::positioned::{flatten_forest, Positioned};
use crate::preorder::{
    lemma_flatten_forest_len, lemma_paths_begin_at_root, lemma_paths_pass_through_child,
    passes_through,
};
use crate::tree::Tree;

verus! {

/// Whether `q` begins with `p` and goes on.
pub open spec fn is_strict_prefix(p: Seq<nat>, q: Seq<nat>) -> bool {
    p.len() < q.len() && q.take(p.len() as int) == p
}

/// Number of entries of a listing whose path begins with `p` and goes on.
pub open spec fn entries_beneath(list: Seq<Positioned>, p: Seq<nat>) -> nat {
    list.filter(|entry: Positioned| is_strict_prefix(p, entry.path())).len()
}

proof fn lemma_beneath_add(a: Seq<Positioned>, b: Seq<Positioned>, p: Seq<nat>)
    ensures
        entries_beneath(a + b, p) == entries_beneath(a, p) + entries_beneath(b, p),
{
    Seq::filter_distributes_over_add(
        a,
        b,
        |entry: Positioned| is_strict_prefix(p, entry.path()),
    );
}

proof fn lemma_beneath_none(list: Seq<Positioned>, p: Seq<nat>)
    requires
        forall|j: int| 0 <= j < list.len() ==> !is_strict_prefix(p, (#[trigger] list[j]).path()),
    ensures
        entries_beneath(list, p) == 0,
    decreases list.len(),
{
    reveal(Seq::filter);
    if list.len() > 0 {
        let init = list.drop_last();
        assert(forall|j: int| 0 <= j < init.len() ==> init[j] == list[j]);
        lemma_beneath_none(init, p);
        assert(!is_strict_prefix(p, list[list.len() - 1].path()));
    }
}

proof fn lemma_beneath_all(list: Seq<Positioned>, p: Seq<nat>)
    requires
        forall|j: int| 0 <= j < list.len() ==> is_strict_prefix(p, (#[trigger] list[j]).path()),
    ensures
        entries_beneath(list, p) == list.len(),
    decreases list.len(),
{
    reveal(Seq::filter);
    if list.len() > 0 {
        let init = list.drop_last();
        assert(forall|j: int| 0 <= j < init.len() ==> init[j] == list[j]);
        lemma_beneath_all(init, p);
        assert(is_strict_prefix(p, list[list.len() - 1].path()));
    }
}

/// Two paths that leave `path` by different sibling indices do not begin
/// one another.
proof fn lemma_branches_part(path: Seq<nat>, q: Seq<nat>, r: Seq<nat>)
    requires
        path.len() < q.len(),
        path.len() < r.len(),
        q[path.len() as int] != r[path.len() as int],
    ensures
        !is_strict_prefix(q, r),
{
    if is_strict_prefix(q, r) {
        assert(r.take(q.len() as int)[path.len() as int] == q[path.len() as int]);
    }
}

proof fn lemma_counts_in_forest(forest: Seq<Tree>, path: Seq<nat>, i: int)
    requires
        0 <= i < flatten_forest(forest, path).len(),
    ensures
        flatten_forest(forest, path)[i].count() == entries_beneath(
            flatten_forest(forest, path),
            flatten_forest(forest, path)[i].path(),
        ),
    decreases forest,
{
    let list = flatten_forest(forest, path);
    let q = list[i].path();
    let init = flatten_forest(forest.drop_last(), path);
    let slot = (forest.len() - 1) as nat;
    let last = forest.last().flatten(path.push(slot));
    let depth = path.len() as int;
    lemma_paths_pass_through_child(forest, path);
    lemma_paths_pass_through_child(forest.drop_last(), path);
    lemma_paths_begin_at_root(forest.last(), path.push(slot));
    lemma_beneath_add(init, last, q);
    assert(passes_through(list[i].path(), path, 0, forest.len()));
    assert forall|j: int| 0 <= j < last.len() implies (#[trigger] last[j]).path()[depth]
        == slot && depth < last[j].path().len() by {
        let r = last[j].path();
        assert(r.take(depth + 1) == path.push(slot));
        assert(r[depth] == r.take(depth + 1)[depth]);
    }
    if i < init.len() {
        assert(list[i] == init[i]);
        lemma_counts_in_forest(forest.drop_last(), path, i);
        assert(passes_through(init[i].path(), path, 0, forest.drop_last().len()));
        assert forall|j: int| 0 <= j < last.len() implies !is_strict_prefix(
            q,
            (#[trigger] last[j]).path(),
        ) by {
            lemma_branches_part(path, q, last[j].path());
        }
        lemma_beneath_none(last, q);
    } else {
        assert(list[i] == last[i - init.len()]);
        lemma_counts_in_tree(forest.last(), path.push(slot), i - init.len());
        assert forall|j: int| 0 <= j < init.len() implies !is_strict_prefix(
            q,
            (#[trigger] init[j]).path(),
        ) by {
            assert(passes_through(init[j].path(), path, 0, forest.drop_last().len()));
            lemma_branches_part(path, q, init[j].path());
        }
        lemma_beneath_none(init, q);
    }
}

proof fn lemma_counts_in_tree(tree: Tree, path: Seq<nat>, i: int)
    requires
        0 <= i < tree.flatten(path).len(),
    ensures
        tree.flatten(path)[i].count() == entries_beneath(
            tree.flatten(path),
            tree.flatten(path)[i].path(),
        ),
    decreases tree,
{
    let list = tree.flatten(path);
    let q = list[i].path();
    let own = seq![tree.entry(path)];
    match tree {
        Tree::Suicide { .. } => {
            assert(path.take(path.len() as int) == path);
            lemma_beneath_none(list, q);
        },
        Tree::CallCreate { children, .. } => {
            let below = flatten_forest(children, path);
            lemma_paths_pass_through_child(children, path);
            lemma_beneath_add(own, below, q);
            if i == 0 {
                assert(!is_strict_prefix(q, own[0].path()));
                lemma_beneath_none(own, q);
                assert forall|j: int| 0 <= j < below.len() implies is_strict_prefix(
                    q,
                    (#[trigger] below[j]).path(),
                ) by {
                    assert(passes_through(below[j].path(), path, 0, children.len()));
                }
                lemma_beneath_all(below, q);
                lemma_flatten_forest_len(children, path);
            } else {
                assert(list[i] == below[i - 1]);
                assert(passes_through(below[i - 1].path(), path, 0, children.len()));
                assert(!is_strict_prefix(q, own[0].path()));
                lemma_beneath_none(own, q);
                lemma_counts_in_forest(children, path, i - 1);
            }
        },
    }
}

/// The descendant count of each entry of a listing is the number of entries
/// of the listing whose path begins with the entry's path and goes on.
pub proof fn lemma_descendant_count_is_entries_beneath(tree: Tree, path: Seq<nat>, i: int)
    requires
        0 <= i < tree.flatten(path).len(),
    ensures
        tree.flatten(path)[i].count() == entries_beneath(
            tree.flatten(path),
            tree.flatten(path)[i].path(),
        ),
{
    lemma_counts_in_tree(tree, path, i);
}

} // verus!
