//! The asset that a path names.
//!
//! A path names the first asset with that path in the order in which a
//! breadth-first walk from the root discovers the assets. Where no two assets
//! share a path, that is the one asset with the path that can be reached.

use crate::graph::{well_formed, AssetId, GraphView};
use crate::traversal::{extends, is_walk, lemma_traversal, reachable, traversal};
use vstd::prelude::*;

verus! {

/// The outcome of looking for an asset.
#[derive(Clone, Copy, Debug, PartialEq, Eq, Structural)]
pub enum FindAssetResult {
    /// No asset that can be reached has the path.
    NotFound,
    /// The asset with the path.
    Found(AssetId),
}

/// The asset `a` of `g` has the relative path `path`.
pub open spec fn has_path(g: GraphView, a: AssetId, path: Seq<char>) -> bool {
    a < g.len() && g[a as int].path == Some(path)
}

/// `order[i]` has the path, and nothing before it in `order` has.
pub open spec fn is_first_match(
    g: GraphView,
    order: Seq<AssetId>,
    path: Seq<char>,
    i: int,
) -> bool {
    &&& 0 <= i < order.len()
    &&& has_path(g, order[i], path)
    &&& forall|j: int| 0 <= j < i ==> !has_path(g, #[trigger] order[j], path)
}

/// The first asset in `order` that has the path.
pub open spec fn first_match(
    g: GraphView,
    order: Seq<AssetId>,
    path: Seq<char>,
) -> FindAssetResult {
    if exists|i: int| is_first_match(g, order, path, i) {
        FindAssetResult::Found(order[choose|i: int| is_first_match(g, order, path, i)])
    } else {
        FindAssetResult::NotFound
    }
}

/// The asset that `path` names in the graph below `root`: the first one with
/// that path that a breadth-first walk from `root` discovers.
pub open spec fn resolution(g: GraphView, root: AssetId, path: Seq<char>) -> FindAssetResult {
    first_match(g, traversal(g, root), path)
}

/// No two assets that can be reached from `root` have the same relative path.
pub open spec fn unique_paths(g: GraphView, root: AssetId) -> bool {
    forall|a: AssetId, b: AssetId, path: Seq<char>|
        reachable(g, root, a) && reachable(g, root, b) && #[trigger] has_path(g, a, path)
            && #[trigger] has_path(g, b, path) ==> a == b
}

/// The first match is the asset at the position where it was found.
pub proof fn lemma_first_match_at(g: GraphView, order: Seq<AssetId>, path: Seq<char>, i: int)
    requires
        is_first_match(g, order, path, i),
    ensures
        first_match(g, order, path) == FindAssetResult::Found(order[i]),
{
    let c = choose|c: int| is_first_match(g, order, path, c);
    if c < i {
        assert(!has_path(g, order[c], path));
    } else if i < c {
        assert(!has_path(g, order[i], path));
    }
}

/// Without a match there is no first match.
pub proof fn lemma_first_match_none(g: GraphView, order: Seq<AssetId>, path: Seq<char>)
    requires
        forall|j: int| 0 <= j < order.len() ==> !has_path(g, #[trigger] order[j], path),
    ensures
        first_match(g, order, path) == FindAssetResult::NotFound,
{
}

/// A first match stays the first match when the order grows at its end.
pub proof fn lemma_first_match_extends(
    g: GraphView,
    longer: Seq<AssetId>,
    shorter: Seq<AssetId>,
    path: Seq<char>,
    i: int,
)
    requires
        extends(longer, shorter),
        is_first_match(g, shorter, path, i),
    ensures
        is_first_match(g, longer, path, i),
{
    assert forall|j: int| 0 <= j < i implies !has_path(g, #[trigger] longer[j], path) by {
        assert(longer[j] == shorter[j]);
    }
}

/// Where some asset in `order` has the path, one of them is the first.
pub proof fn lemma_some_match_is_first(
    g: GraphView,
    order: Seq<AssetId>,
    path: Seq<char>,
    i: int,
)
    requires
        0 <= i < order.len(),
        has_path(g, order[i], path),
    ensures
        exists|j: int| is_first_match(g, order, path, j),
    decreases i,
{
    if exists|j: int| 0 <= j < i && has_path(g, #[trigger] order[j], path) {
        let j = choose|j: int| 0 <= j < i && has_path(g, #[trigger] order[j], path);
        lemma_some_match_is_first(g, order, path, j);
    } else {
        assert(is_first_match(g, order, path, i));
    }
}

/// What an answer means. A found asset can be reached from the root and has
/// the path; where nothing is found, no asset that can be reached has it.
pub proof fn lemma_resolution(g: GraphView, root: AssetId, path: Seq<char>)
    requires
        well_formed(g),
    ensures
        match resolution(g, root, path) {
            FindAssetResult::Found(a) => reachable(g, root, a) && has_path(g, a, path),
            FindAssetResult::NotFound => forall|a: AssetId|
                reachable(g, root, a) ==> !has_path(g, a, path),
        },
{
    let order = traversal(g, root);
    if root < g.len() {
        lemma_traversal(g, root);
        if exists|i: int| is_first_match(g, order, path, i) {
            let i = choose|i: int| is_first_match(g, order, path, i);
            assert(order.contains(order[i]));
        } else {
            assert forall|a: AssetId| reachable(g, root, a) implies !has_path(g, a, path) by {
                if has_path(g, a, path) {
                    let i = choose|i: int| 0 <= i < order.len() && order[i] == a;
                    lemma_some_match_is_first(g, order, path, i);
                }
            }
        }
    } else {
        assert forall|a: AssetId| !reachable(g, root, a) by {
            if reachable(g, root, a) {
                let walk = choose|walk: Seq<AssetId>| #[trigger]
                    is_walk(g, walk) && walk[0] == root && walk.last() == a;
                assert(walk[0] < g.len());
            }
        }
    }
}

/// A path that some asset below the root has is found: the answer is an
/// asset that can be reached and has the path, and it is that very asset
/// where no two assets share a path.
pub proof fn lemma_reachable_path_is_found(
    g: GraphView,
    root: AssetId,
    path: Seq<char>,
    a: AssetId,
)
    requires
        well_formed(g),
        reachable(g, root, a),
        has_path(g, a, path),
    ensures
        resolution(g, root, path) matches FindAssetResult::Found(b) && reachable(g, root, b)
            && has_path(g, b, path),
        unique_paths(g, root) ==> resolution(g, root, path) == FindAssetResult::Found(a),
{
    lemma_resolution(g, root, path);
}

/// A path that no asset below the root has is not found.
pub proof fn lemma_unmatched_path_is_not_found(g: GraphView, root: AssetId, path: Seq<char>)
    requires
        well_formed(g),
        forall|a: AssetId| reachable(g, root, a) ==> !has_path(g, a, path),
    ensures
        resolution(g, root, path) == FindAssetResult::NotFound,
{
    lemma_resolution(g, root, path);
}

/// Asking again gives the same answer: whatever two searches of one graph for
/// one path return, they return the same asset.
pub proof fn lemma_same_answer_again(
    g: GraphView,
    root: AssetId,
    path: Seq<char>,
    first: FindAssetResult,
    second: FindAssetResult,
)
    requires
        first == resolution(g, root, path),
        second == resolution(g, root, path),
    ensures
        first == second,
{
}

/// Looking through all the assets below the root and stopping at the first
/// one that fits give the same answer: what is first with the path among all
/// is what the path names.
pub proof fn lemma_both_ways_agree(
    g: GraphView,
    root: AssetId,
    path: Seq<char>,
    scanned: FindAssetResult,
    searched: FindAssetResult,
)
    requires
        scanned == first_match(g, traversal(g, root), path),
        searched == resolution(g, root, path),
    ensures
        scanned == searched,
{
}

/// The walk looks at no asset twice, whatever cycles the graph holds, and at
/// no more assets than the graph has.
pub proof fn lemma_each_asset_once(g: GraphView, root: AssetId)
    requires
        well_formed(g),
    ensures
        traversal(g, root).no_duplicates(),
        traversal(g, root).len() <= g.len(),
{
    if root < g.len() {
        lemma_traversal(g, root);
    }
}

} // verus!
