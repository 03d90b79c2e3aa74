use turbopack_dev_server::graph::{Asset, AssetGraph};
use turbopack_dev_server::request_path::asset_path;
use turbopack_dev_server::resolution::FindAssetResult;
use turbopack_dev_server::resolver::{find_asset, find_asset_2, transitive_closure};

fn node(path: Option<&str>, references: Vec<usize>) -> Asset {
    Asset { path: path.map(|p| p.to_string()), content: None, references }
}

fn graph(assets: Vec<Asset>) -> AssetGraph {
    AssetGraph::from_assets(assets).expect("references in range")
}

/// index.html -> [app.js, style.css]; app.js -> [lib.js, style.css];
/// lib.js -> [outside]; outside (no path) -> [docs/index.html].
fn site() -> AssetGraph {
    graph(vec![
        node(Some("index.html"), vec![1, 2]),
        node(Some("app.js"), vec![3, 2]),
        node(Some("style.css"), vec![]),
        node(Some("lib.js"), vec![4]),
        node(None, vec![5]),
        node(Some("docs/index.html"), vec![]),
        node(Some("orphan.js"), vec![0]),
    ])
}

#[test]
fn graph_keeps_its_assets_by_position() {
    let g = site();
    assert_eq!(g.len(), 7);
    assert_eq!(g.get(1), Some(&node(Some("app.js"), vec![3, 2])));
    assert_eq!(g.asset(4), &node(None, vec![5]));
    assert_eq!(g.get(7), None);
}

#[test]
fn graph_refuses_a_reference_to_nowhere() {
    assert!(AssetGraph::from_assets(vec![node(Some("a"), vec![1])]).is_none());
    assert!(AssetGraph::from_assets(vec![node(Some("a"), vec![0, 0]), node(None, vec![2])])
        .is_none());
    assert!(AssetGraph::from_assets(vec![node(Some("a"), vec![0])]).is_some());
    assert!(AssetGraph::from_assets(vec![]).is_some());
}

#[test]
fn closure_is_in_breadth_first_order() {
    let g = site();
    assert_eq!(transitive_closure(&g, 0), vec![0, 1, 2, 3, 4, 5]);
    assert_eq!(transitive_closure(&g, 3), vec![3, 4, 5]);
    assert_eq!(transitive_closure(&g, 6), vec![6, 0, 1, 2, 3, 4, 5]);
    assert_eq!(transitive_closure(&g, 2), vec![2]);
}

#[test]
fn closure_from_no_asset_is_empty() {
    let g = site();
    assert_eq!(transitive_closure(&g, 7), Vec::<usize>::new());
    assert_eq!(transitive_closure(&graph(vec![]), 0), Vec::<usize>::new());
}

#[test]
fn every_reachable_path_is_found_by_both() {
    let g = site();
    let expected = [
        ("index.html", 0),
        ("app.js", 1),
        ("style.css", 2),
        ("lib.js", 3),
        ("docs/index.html", 5),
    ];
    for (path, asset) in expected {
        assert_eq!(find_asset(&g, 0, path), FindAssetResult::Found(asset));
        assert_eq!(find_asset_2(&g, 0, path), FindAssetResult::Found(asset));
    }
}

#[test]
fn asset_behind_one_outside_the_tree_is_found() {
    let g = site();
    assert_eq!(find_asset_2(&g, 3, "docs/index.html"), FindAssetResult::Found(5));
    assert_eq!(find_asset(&g, 3, "docs/index.html"), FindAssetResult::Found(5));
}

#[test]
fn root_outside_the_tree_is_walked_through() {
    let g = site();
    assert_eq!(find_asset_2(&g, 4, "docs/index.html"), FindAssetResult::Found(5));
    assert_eq!(find_asset(&g, 4, "docs/index.html"), FindAssetResult::Found(5));
}

#[test]
fn unmatched_path_is_not_found() {
    let g = site();
    for path in ["missing.txt", "", "index.htm", "/index.html", "docs/", "INDEX.HTML"] {
        assert_eq!(find_asset(&g, 0, path), FindAssetResult::NotFound);
        assert_eq!(find_asset_2(&g, 0, path), FindAssetResult::NotFound);
    }
}

#[test]
fn unreachable_asset_is_not_found() {
    let g = site();
    assert_eq!(find_asset(&g, 0, "orphan.js"), FindAssetResult::NotFound);
    assert_eq!(find_asset_2(&g, 0, "orphan.js"), FindAssetResult::NotFound);
    assert_eq!(find_asset_2(&g, 3, "index.html"), FindAssetResult::NotFound);
    assert_eq!(find_asset_2(&g, 6, "orphan.js"), FindAssetResult::Found(6));
}

#[test]
fn root_that_is_no_asset_finds_nothing() {
    let g = site();
    assert_eq!(find_asset(&g, 7, "index.html"), FindAssetResult::NotFound);
    assert_eq!(find_asset_2(&g, 7, "index.html"), FindAssetResult::NotFound);
    assert_eq!(find_asset_2(&graph(vec![]), 0, "index.html"), FindAssetResult::NotFound);
}

#[test]
fn resolving_again_gives_the_same_asset() {
    let g = site();
    let first = find_asset_2(&g, 0, "lib.js");
    let second = find_asset_2(&g, 0, "lib.js");
    assert_eq!(first, FindAssetResult::Found(3));
    assert_eq!(first, second);
    assert_eq!(find_asset(&g, 0, "lib.js"), find_asset(&g, 0, "lib.js"));
    assert_eq!(find_asset_2(&g, 0, "nope"), find_asset_2(&g, 0, "nope"));
}

#[test]
fn cycle_of_two_ends_and_visits_each_once() {
    let g = graph(vec![node(Some("a"), vec![1]), node(Some("b"), vec![0])]);
    assert_eq!(transitive_closure(&g, 0), vec![0, 1]);
    assert_eq!(transitive_closure(&g, 1), vec![1, 0]);
    assert_eq!(find_asset_2(&g, 0, "b"), FindAssetResult::Found(1));
    assert_eq!(find_asset_2(&g, 1, "a"), FindAssetResult::Found(0));
    assert_eq!(find_asset_2(&g, 0, "c"), FindAssetResult::NotFound);
    assert_eq!(find_asset(&g, 0, "c"), FindAssetResult::NotFound);
}

#[test]
fn self_reference_and_repeated_references_are_visited_once() {
    let g = graph(vec![node(Some("a"), vec![0, 1, 1, 0]), node(Some("b"), vec![1, 0, 1])]);
    assert_eq!(transitive_closure(&g, 0), vec![0, 1]);
    assert_eq!(find_asset_2(&g, 0, "b"), FindAssetResult::Found(1));
    assert_eq!(find_asset_2(&g, 0, "zz"), FindAssetResult::NotFound);
}

#[test]
fn diamond_is_visited_once() {
    let g = graph(vec![
        node(Some("top"), vec![1, 2]),
        node(Some("left"), vec![3]),
        node(Some("right"), vec![3]),
        node(Some("bottom"), vec![]),
    ]);
    assert_eq!(transitive_closure(&g, 0), vec![0, 1, 2, 3]);
    assert_eq!(find_asset(&g, 0, "bottom"), FindAssetResult::Found(3));
    assert_eq!(find_asset_2(&g, 0, "bottom"), FindAssetResult::Found(3));
}

#[test]
fn first_in_breadth_first_order_wins_a_shared_path() {
    // 0 -> [1, 2]; 1 -> [3]; 3 and 2 share a path; 2 is discovered first.
    let g = graph(vec![
        node(Some("index.html"), vec![1, 2]),
        node(Some("a"), vec![3]),
        node(Some("same"), vec![]),
        node(Some("same"), vec![]),
    ]);
    assert_eq!(transitive_closure(&g, 0), vec![0, 1, 2, 3]);
    assert_eq!(find_asset(&g, 0, "same"), FindAssetResult::Found(2));
    assert_eq!(find_asset_2(&g, 0, "same"), FindAssetResult::Found(2));
    // The root wins over everything else.
    let h = graph(vec![node(Some("same"), vec![1]), node(Some("same"), vec![])]);
    assert_eq!(find_asset(&h, 0, "same"), FindAssetResult::Found(0));
    assert_eq!(find_asset_2(&h, 0, "same"), FindAssetResult::Found(0));
    assert_eq!(find_asset_2(&h, 1, "same"), FindAssetResult::Found(1));
}

#[test]
fn order_of_references_decides_among_siblings() {
    let g = graph(vec![
        node(None, vec![2, 1]),
        node(Some("same"), vec![]),
        node(Some("same"), vec![]),
    ]);
    assert_eq!(transitive_closure(&g, 0), vec![0, 2, 1]);
    assert_eq!(find_asset(&g, 0, "same"), FindAssetResult::Found(2));
    assert_eq!(find_asset_2(&g, 0, "same"), FindAssetResult::Found(2));
}

#[test]
fn both_strategies_agree_on_every_path_and_root() {
    let g = site();
    let paths = ["index.html", "app.js", "style.css", "lib.js", "docs/index.html", "orphan.js", "x"];
    for root in 0..8 {
        for path in paths {
            assert_eq!(find_asset(&g, root, path), find_asset_2(&g, root, path));
        }
    }
}

#[test]
fn long_chain_is_walked_to_its_end() {
    let n = 2000;
    let mut assets = Vec::new();
    for i in 0..n {
        let next = if i + 1 < n { vec![i + 1] } else { vec![0] };
        assets.push(node(Some(&format!("p{}", i)), next));
    }
    let g = graph(assets);
    assert_eq!(find_asset_2(&g, 0, "p1999"), FindAssetResult::Found(1999));
    assert_eq!(find_asset(&g, 0, "p1999"), FindAssetResult::Found(1999));
    assert_eq!(find_asset_2(&g, 0, "p2000"), FindAssetResult::NotFound);
    assert_eq!(transitive_closure(&g, 5).len(), n);
}

#[test]
fn request_for_a_directory_resolves_to_its_index_document() {
    let g = site();
    assert_eq!(
        find_asset_2(&g, 0, &asset_path("/")),
        find_asset_2(&g, 0, &asset_path("/index.html"))
    );
    assert_eq!(find_asset_2(&g, 0, &asset_path("/")), FindAssetResult::Found(0));
    assert_eq!(
        find_asset_2(&g, 0, &asset_path("/docs/")),
        find_asset_2(&g, 0, &asset_path("/docs/index.html"))
    );
    assert_eq!(find_asset_2(&g, 0, &asset_path("/docs/")), FindAssetResult::Found(5));
}
