//! The order in which a breadth-first walk discovers the assets of a graph,
//! and what that order holds: each asset that can be reached from the root,
//! once.

use crate::graph::{well_formed, AssetId, GraphView};
use vstd::prelude::*;

verus! {

/// `walk` names assets of `g`, each one referred to by the one before it.
pub open spec fn is_walk(g: GraphView, walk: Seq<AssetId>) -> bool {
    &&& walk.len() > 0
    &&& forall|i: int| 0 <= i < walk.len() ==> (#[trigger] walk[i]) < g.len()
    &&& forall|i: int|
        0 < i < walk.len() ==> g[walk[i - 1] as int].references.contains(#[trigger] walk[i])
}

/// `a` can be reached from `root` by following references.
pub open spec fn reachable(g: GraphView, root: AssetId, a: AssetId) -> bool {
    exists|walk: Seq<AssetId>| #[trigger]
        is_walk(g, walk) && walk[0] == root && walk.last() == a
}

/// `longer` starts with `shorter`.
pub open spec fn extends(longer: Seq<AssetId>, shorter: Seq<AssetId>) -> bool {
    &&& shorter.len() <= longer.len()
    &&& forall|i: int| 0 <= i < shorter.len() ==> longer[i] == shorter[i]
}

/// `order`, followed by those of `references` that it does not hold yet, each
/// once and in the order of `references`.
pub open spec fn add_new(order: Seq<AssetId>, references: Seq<AssetId>) -> Seq<AssetId>
    decreases references.len(),
{
    if references.len() == 0 {
        order
    } else {
        let before = add_new(order, references.drop_last());
        if before.contains(references.last()) {
            before
        } else {
            before.push(references.last())
        }
    }
}

/// The discovery order of a breadth-first walk that has discovered `order`
/// and has followed the references of its first `done` assets.
pub open spec fn discover(g: GraphView, order: Seq<AssetId>, done: nat) -> Seq<AssetId>
    decreases g.len() - done,
{
    if done >= order.len() || done >= g.len() {
        order
    } else {
        discover(g, add_new(order, g[order[done as int] as int].references), done + 1)
    }
}

/// The assets that can be reached from `root`, in the order in which a
/// breadth-first walk from `root` discovers them. Empty when `root` names no
/// asset of the graph.
pub open spec fn traversal(g: GraphView, root: AssetId) -> Seq<AssetId> {
    if root < g.len() {
        discover(g, seq![root], 0)
    } else {
        Seq::empty()
    }
}

/// What holds of a walk in progress: the discovered assets are assets of the
/// graph, none twice, and whatever one of the first `done` refers to has been
/// discovered.
pub open spec fn in_progress(g: GraphView, order: Seq<AssetId>, done: nat) -> bool {
    &&& done <= order.len()
    &&& order.no_duplicates()
    &&& forall|i: int| 0 <= i < order.len() ==> (#[trigger] order[i]) < g.len()
    &&& forall|i: int, k: int|
        0 <= i < done && 0 <= k < g[order[i] as int].references.len() ==> order.contains(
            #[trigger] g[order[i] as int].references[k],
        )
}

/// What a sequence holds after one more asset was put at its end.
pub proof fn lemma_push_contains(order: Seq<AssetId>, a: AssetId)
    ensures
        forall|x: AssetId| #[trigger] order.push(a).contains(x) <==> order.contains(x) || x == a,
{
    let longer = order.push(a);
    assert forall|x: AssetId| longer.contains(x) <==> order.contains(x) || x == a by {
        if order.contains(x) {
            let i = choose|i: int| 0 <= i < order.len() && order[i] == x;
            assert(longer[i] == x);
        }
        if x == a {
            assert(longer[order.len() as int] == x);
        }
        if longer.contains(x) {
            let i = choose|i: int| 0 <= i < longer.len() && longer[i] == x;
            assert(i < order.len() || x == a);
        }
    }
}

/// What `add_new` keeps and what it adds.
pub proof fn lemma_add_new(order: Seq<AssetId>, references: Seq<AssetId>)
    ensures
        extends(add_new(order, references), order),
        forall|x: AssetId|
            add_new(order, references).contains(x) <==> order.contains(x) || references.contains(
                x,
            ),
        order.no_duplicates() ==> add_new(order, references).no_duplicates(),
    decreases references.len(),
{
    let result = add_new(order, references);
    if references.len() == 0 {
        assert forall|x: AssetId| result.contains(x) <==> order.contains(x) || references.contains(
            x,
        ) by {
            if references.contains(x) {
                let k = choose|k: int| 0 <= k < references.len() && references[k] == x;
            }
        }
    } else {
        let front = references.drop_last();
        let last = references.last();
        let before = add_new(order, front);
        lemma_add_new(order, front);
        assert forall|x: AssetId| result.contains(x) <==> order.contains(x) || references.contains(
            x,
        ) by {
            if result.contains(x) && front.contains(x) {
                let k = choose|k: int| 0 <= k < front.len() && front[k] == x;
                assert(references[k] == x);
            }
            if order.contains(x) {
                let i = choose|i: int| 0 <= i < before.len() && before[i] == x;
                assert(result[i] == x);
            }
            if references.contains(x) {
                let k = choose|k: int| 0 <= k < references.len() && references[k] == x;
                if k < front.len() {
                    assert(front[k] == x);
                    let i = choose|i: int| 0 <= i < before.len() && before[i] == x;
                    assert(result[i] == x);
                } else if !before.contains(last) {
                    assert(result[before.len() as int] == x);
                }
            }
        }
        if order.no_duplicates() && !before.contains(last) {
            assert forall|i: int, j: int|
                0 <= i < result.len() && 0 <= j < result.len() && i != j implies result[i]
                != result[j] by {
                if i < before.len() {
                    assert(before.contains(before[i]));
                }
                if j < before.len() {
                    assert(before.contains(before[j]));
                }
            }
        }
    }
}

/// Taking one more reference into account only adds to the end.
pub proof fn lemma_add_new_step(order: Seq<AssetId>, references: Seq<AssetId>, k: int)
    requires
        0 <= k < references.len(),
    ensures
        add_new(order, references.take(k + 1)) == if add_new(order, references.take(k)).contains(
            references[k],
        ) {
            add_new(order, references.take(k))
        } else {
            add_new(order, references.take(k)).push(references[k])
        },
        add_new(order, references.take(0)) == order,
{
    assert(references.take(k + 1).drop_last() =~= references.take(k));
}

/// What is discovered after some of the references stays in place when the
/// others are taken into account.
pub proof fn lemma_add_new_take(order: Seq<AssetId>, references: Seq<AssetId>, k: int, upto: int)
    requires
        0 <= k <= upto <= references.len(),
    ensures
        extends(add_new(order, references.take(upto)), add_new(order, references.take(k))),
    decreases upto - k,
{
    if k < upto {
        lemma_add_new_take(order, references, k, upto - 1);
        lemma_add_new_step(order, references, upto - 1);
    }
}

/// A sequence of distinct numbers below `n` has at most `n` of them.
pub proof fn lemma_distinct_below(order: Seq<AssetId>, n: nat)
    requires
        order.no_duplicates(),
        forall|i: int| 0 <= i < order.len() ==> (#[trigger] order[i]) < n,
    ensures
        order.len() <= n,
    decreases n,
{
    if order.len() > 0 {
        assert(order[0] < n);
        let top = (n - 1) as nat;
        if exists|k: int| 0 <= k < order.len() && order[k] == top {
            let k = choose|k: int| 0 <= k < order.len() && order[k] == top;
            let rest = order.subrange(0, k) + order.subrange(k + 1, order.len() as int);
            assert forall|i: int| 0 <= i < rest.len() implies (#[trigger] rest[i]) < top by {
                assert(rest[i] == order[if i < k { i } else { i + 1 }]);
            }
            assert forall|i: int, j: int|
                0 <= i < rest.len() && 0 <= j < rest.len() && i != j implies rest[i]
                != rest[j] by {
                assert(rest[i] == order[if i < k { i } else { i + 1 }]);
                assert(rest[j] == order[if j < k { j } else { j + 1 }]);
            }
            lemma_distinct_below(rest, top);
        } else {
            lemma_distinct_below(order, top);
        }
    }
}

/// An asset that a reachable asset refers to is reachable.
pub proof fn lemma_reachable_step(g: GraphView, root: AssetId, a: AssetId, b: AssetId)
    requires
        reachable(g, root, a),
        b < g.len(),
        g[a as int].references.contains(b),
    ensures
        reachable(g, root, b),
{
    let walk = choose|walk: Seq<AssetId>| #[trigger]
        is_walk(g, walk) && walk[0] == root && walk.last() == a;
    let longer = walk.push(b);
    assert(is_walk(g, longer) && longer[0] == root && longer.last() == b);
}

/// An asset of the graph can be reached from itself.
pub proof fn lemma_reachable_root(g: GraphView, root: AssetId)
    requires
        root < g.len(),
    ensures
        reachable(g, root, root),
{
    let walk = seq![root];
    assert(is_walk(g, walk) && walk[0] == root && walk.last() == root);
}

/// One step of the walk keeps what holds of a walk in progress, and
/// discovers only assets that can be reached.
pub proof fn lemma_follow(g: GraphView, root: AssetId, order: Seq<AssetId>, done: nat)
    requires
        well_formed(g),
        in_progress(g, order, done),
        done < order.len(),
        forall|i: int| 0 <= i < order.len() ==> reachable(g, root, #[trigger] order[i]),
    ensures
        done < g.len(),
        in_progress(g, add_new(order, g[order[done as int] as int].references), done + 1),
        forall|i: int|
            0 <= i < add_new(order, g[order[done as int] as int].references).len() ==> reachable(
                g,
                root,
                #[trigger] add_new(order, g[order[done as int] as int].references)[i],
            ),
{
    lemma_distinct_below(order, g.len());
    let a = order[done as int];
    let references = g[a as int].references;
    let next = add_new(order, references);
    lemma_add_new(order, references);
    assert forall|i: int| 0 <= i < next.len() implies (#[trigger] next[i]) < g.len() && reachable(
        g,
        root,
        next[i],
    ) by {
        if !order.contains(next[i]) {
            let k = choose|k: int| 0 <= k < references.len() && references[k] == next[i];
            lemma_reachable_step(g, root, a, next[i]);
        }
    }
    assert forall|i: int, k: int|
        0 <= i < done + 1 && 0 <= k < g[next[i] as int].references.len() implies next.contains(
        #[trigger] g[next[i] as int].references[k],
    ) by {
        assert(next[i] == order[i]);
    }
}

/// Where the walk ends: the discovered assets are distinct assets of the
/// graph that can be reached, the first ones are those it began with, and
/// whatever one of them refers to is among them.
pub proof fn lemma_discover(g: GraphView, root: AssetId, order: Seq<AssetId>, done: nat)
    requires
        well_formed(g),
        in_progress(g, order, done),
        forall|i: int| 0 <= i < order.len() ==> reachable(g, root, #[trigger] order[i]),
    ensures
        in_progress(g, discover(g, order, done), discover(g, order, done).len()),
        extends(discover(g, order, done), order),
        forall|i: int|
            0 <= i < discover(g, order, done).len() ==> reachable(
                g,
                root,
                #[trigger] discover(g, order, done)[i],
            ),
    decreases g.len() - done,
{
    if done < order.len() {
        lemma_follow(g, root, order, done);
        let next = add_new(order, g[order[done as int] as int].references);
        lemma_add_new(order, g[order[done as int] as int].references);
        lemma_discover(g, root, next, done + 1);
    }
}

/// A set of assets that holds the root and whatever its members refer to
/// holds every asset that can be reached.
pub proof fn lemma_closed_holds_reachable(
    g: GraphView,
    root: AssetId,
    order: Seq<AssetId>,
    walk: Seq<AssetId>,
    upto: int,
)
    requires
        in_progress(g, order, order.len()),
        is_walk(g, walk),
        walk[0] == root,
        order.contains(root),
        0 <= upto < walk.len(),
    ensures
        order.contains(walk[upto]),
    decreases upto,
{
    if upto > 0 {
        lemma_closed_holds_reachable(g, root, order, walk, upto - 1);
        let before = walk[upto - 1];
        let references = g[before as int].references;
        let i = choose|i: int| 0 <= i < order.len() && order[i] == before;
        let k = choose|k: int| 0 <= k < references.len() && references[k] == walk[upto];
        assert(order.contains(g[order[i] as int].references[k]));
    }
}

/// The traversal holds exactly the assets that can be reached from the root,
/// each once, the root first.
pub proof fn lemma_traversal(g: GraphView, root: AssetId)
    requires
        well_formed(g),
        root < g.len(),
    ensures
        traversal(g, root).no_duplicates(),
        traversal(g, root).len() > 0,
        traversal(g, root)[0] == root,
        traversal(g, root).len() <= g.len(),
        forall|i: int|
            0 <= i < traversal(g, root).len() ==> (#[trigger] traversal(g, root)[i]) < g.len(),
        forall|a: AssetId| traversal(g, root).contains(a) <==> reachable(g, root, a),
{
    let start = seq![root];
    let order = traversal(g, root);
    lemma_reachable_root(g, root);
    lemma_discover(g, root, start, 0);
    lemma_distinct_below(order, g.len());
    assert forall|a: AssetId| order.contains(a) <==> reachable(g, root, a) by {
        if reachable(g, root, a) {
            let walk = choose|walk: Seq<AssetId>| #[trigger]
                is_walk(g, walk) && walk[0] == root && walk.last() == a;
            lemma_closed_holds_reachable(g, root, order, walk, walk.len() - 1);
        }
    }
}

} // verus!
