//! Finding the asset that a path names, in a graph held in memory.
//!
//! Two functions compute it. [`find_asset`] walks the whole graph below the
//! root and then looks through what it found. [`find_asset_2`] looks at each
//! asset as it discovers it and stops at the first one that fits; it is the
//! one to use.

use crate::graph::{well_formed, Asset, AssetGraph, AssetId};
use crate::resolution::{has_path, lemma_first_match_at, resolution, FindAssetResult};
use crate::response::text_of;
use crate::search::{
    asked, assets_left, lemma_started_tracks, lemma_step_tracks, lemma_tracks_to_the_end,
    references_left, tracks, Search, SearchAction, SearchEvent,
};
use crate::traversal::{
    add_new, discover, in_progress, lemma_add_new_step, lemma_follow, lemma_push_contains,
    lemma_reachable_root, lemma_traversal, reachable, traversal,
};
use std::collections::HashSet;
use vstd::prelude::*;
use vstd::string::*;

verus! {

broadcast use vstd::std_specs::hash::group_hash_axioms;

/// Whether the asset has the path.
fn asset_has_path(asset: &Asset, path: &String) -> (matches: bool)
    ensures
        matches == (asset@.path == Some(path@)),
{
    match &asset.path {
        Some(p) => *p == *path,
        None => false,
    }
}

/// The assets that can be reached from `root`, in the order in which a
/// breadth-first walk discovers them.
pub fn transitive_closure(graph: &AssetGraph, root: AssetId) -> (assets: Vec<AssetId>)
    ensures
        assets@ == traversal(graph@, root),
{
    let n: usize = graph.len();
    let mut order: Vec<AssetId> = Vec::new();
    if root >= n {
        return order;
    }
    let ghost g = graph@;
    let mut visited: HashSet<AssetId> = HashSet::new();
    visited.insert(root);
    order.push(root);
    let mut done: usize = 0;
    proof {
        lemma_reachable_root(g, root);
        assert forall|x: AssetId| visited@.contains(x) <==> order@.contains(x) by {
            if x == root {
                assert(order@[0] == x);
            }
        }
    }
    while done < order.len()
        invariant
            g == graph@,
            n == g.len(),
            well_formed(g),
            root < n,
            in_progress(g, order@, done as nat),
            forall|i: int| 0 <= i < order@.len() ==> reachable(g, root, #[trigger] order@[i]),
            forall|x: AssetId| visited@.contains(x) <==> order@.contains(x),
            discover(g, order@, done as nat) == traversal(g, root),
        decreases n - done,
    {
        let ghost before = order@;
        let current: AssetId = order[done];
        let references = &graph.asset(current).references;
        proof {
            lemma_follow(g, root, before, done as nat);
        }
        let mut k: usize = 0;
        while k < references.len()
            invariant
                k <= references@.len(),
                done < before.len(),
                references@ == g[before[done as int] as int].references,
                order@ == add_new(before, references@.take(k as int)),
                forall|x: AssetId| visited@.contains(x) <==> order@.contains(x),
            decreases references@.len() - k,
        {
            let reference: AssetId = references[k];
            proof {
                lemma_add_new_step(before, references@, k as int);
                lemma_push_contains(order@, reference);
            }
            if visited.insert(reference) {
                order.push(reference);
            }
            k += 1;
        }
        assert(references@.take(k as int) =~= references@);
        done += 1;
    }
    order
}

/// Finds the asset that `path` names by walking the whole graph below
/// `root_asset` and looking through the assets in the order of discovery.
pub fn find_asset(graph: &AssetGraph, root_asset: AssetId, path: &str) -> (found: FindAssetResult)
    ensures
        found == resolution(graph@, root_asset, path@),
        found matches FindAssetResult::Found(asset) ==> asset < graph@.len(),
{
    let n: usize = graph.len();
    let assets = transitive_closure(graph, root_asset);
    let target = String::from_str(path);
    let ghost g = graph@;
    proof {
        if root_asset < n {
            lemma_traversal(g, root_asset);
        }
    }
    let mut i: usize = 0;
    while i < assets.len()
        invariant
            g == graph@,
            target@ == path@,
            assets@ == traversal(g, root_asset),
            forall|j: int| 0 <= j < assets@.len() ==> (#[trigger] assets@[j]) < g.len(),
            forall|j: int| 0 <= j < i ==> !has_path(g, #[trigger] assets@[j], path@),
        decreases assets@.len() - i,
    {
        let candidate: AssetId = assets[i];
        if asset_has_path(graph.asset(candidate), &target) {
            proof {
                lemma_first_match_at(g, assets@, path@, i as int);
            }
            return FindAssetResult::Found(candidate);
        }
        i += 1;
    }
    FindAssetResult::NotFound
}

/// The path of an asset, for a search to take.
fn path_of(asset: &Asset) -> (path: Option<String>)
    ensures
        text_of(path) == asset@.path,
{
    match &asset.path {
        Some(p) => Some(p.clone()),
        None => None,
    }
}

/// Finds the asset that `path` names by a breadth-first search from
/// `root_asset` that looks at each asset when it discovers it and stops at
/// the first one with the path. No asset is looked at twice, so that the
/// search ends on a graph with cycles too.
///
/// This runs a [`Search`] and answers each of its questions from the graph.
pub fn find_asset_2(graph: &AssetGraph, root_asset: AssetId, path: &str) -> (found:
    FindAssetResult)
    ensures
        found == resolution(graph@, root_asset, path@),
        found matches FindAssetResult::Found(asset) ==> asset < graph@.len(),
{
    let n: usize = graph.len();
    let ghost g = graph@;
    if root_asset >= n {
        return FindAssetResult::NotFound;
    }
    let begun = Search::start(root_asset, path);
    let mut search = begun.0;
    let mut action = begun.1;
    let ghost mut before: Seq<AssetId> = Seq::empty();
    proof {
        lemma_started_tracks(g, root_asset, path@);
    }
    loop
        invariant
            g == graph@,
            n == g.len(),
            well_formed(g),
            root_asset < n,
            tracks(g, root_asset, search@, before),
            search@.target == path@,
            action == asked(search@.stage),
        decreases assets_left(g, search@), references_left(search@),
    {
        proof {
            lemma_tracks_to_the_end(g, root_asset, search@, before);
            if search@.stage is Path || search@.stage is References {
                lemma_step_tracks(g, root_asset, search@, before);
            }
        }
        let event = match action {
            SearchAction::ReadPath { asset } => SearchEvent::Path {
                path: path_of(graph.asset(asset)),
            },
            SearchAction::ReadReferences { asset } => SearchEvent::References {
                references: graph.asset(asset).references.clone(),
            },
            SearchAction::Finish { found } => {
                return found;
            },
            _ => {
                return FindAssetResult::NotFound;
            },
        };
        proof {
            if search@.stage is References {
                before = search@.order;
            }
        }
        let stepped = search.step(event);
        search = stepped.0;
        action = stepped.1;
    }
}

} // verus!
