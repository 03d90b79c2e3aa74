//! The breadth-first search for the asset with a path, cut at the points
//! where it reads from the graph.
//!
//! The search asks for one thing at a time: the path of an asset that it has
//! just discovered, or the references of the next asset whose references it
//! has not followed yet. Whoever runs the search reads that from the graph
//! and hands it back. The search asks for the path of no asset twice, and
//! ends as soon as a path fits.

use crate::graph::{well_formed, AssetId, GraphView};
use crate::resolution::{
    has_path, lemma_first_match_at, lemma_first_match_extends, lemma_first_match_none,
    resolution, FindAssetResult,
};
use crate::response::text_of;
use crate::traversal::{
    add_new, discover, extends, in_progress, lemma_add_new_step, lemma_add_new_take,
    lemma_discover, lemma_distinct_below, lemma_follow, lemma_push_contains,
    lemma_reachable_root, lemma_traversal, reachable, traversal,
};
use std::collections::HashSet;
use vstd::prelude::*;

verus! {

broadcast use vstd::std_specs::hash::group_hash_axioms;

/// Where a search stands.
#[derive(Clone, Copy, Debug, PartialEq, Eq, Structural)]
pub enum SearchStage {
    /// Waiting for the path of this asset, the last one discovered.
    Path { asset: AssetId },
    /// Waiting for the references of this asset.
    References { asset: AssetId },
    /// The search has its answer.
    Finished { found: FindAssetResult },
    /// The graph could not be read, or something else came back than was
    /// asked for.
    Failed,
}

/// What came of the last thing the search asked for.
#[derive(Clone, Debug, PartialEq, Eq)]
pub enum SearchEvent {
    /// The relative path of the asset; `None` for one outside the served
    /// tree.
    Path { path: Option<String> },
    /// The assets that the asset refers to, in order.
    References { references: Vec<AssetId> },
    /// The graph could not be read.
    Failed,
}

/// A [`SearchEvent`] as mathematical values.
pub enum SearchEventView {
    Path { path: Option<Seq<char>> },
    References { references: Seq<AssetId> },
    Failed,
}

impl View for SearchEvent {
    type V = SearchEventView;

    open spec fn view(&self) -> SearchEventView {
        match *self {
            SearchEvent::Path { path } => SearchEventView::Path { path: text_of(path) },
            SearchEvent::References { references } => SearchEventView::References {
                references: references@,
            },
            SearchEvent::Failed => SearchEventView::Failed,
        }
    }
}

/// What the search asks for next.
#[derive(Clone, Copy, Debug, PartialEq, Eq, Structural)]
pub enum SearchAction {
    /// Read the path of this asset.
    ReadPath { asset: AssetId },
    /// Read the references of this asset.
    ReadReferences { asset: AssetId },
    /// Take the answer.
    Finish { found: FindAssetResult },
    /// Give up: the search failed.
    Fail,
    /// Nothing: the search is over.
    Nothing,
}

/// A search as mathematical values.
pub struct SearchView {
    /// The path that is looked for.
    pub target: Seq<char>,
    /// The assets discovered so far, in the order of discovery.
    pub order: Seq<AssetId>,
    /// How many of them have had their references asked for.
    pub next: nat,
    /// The references that are being followed.
    pub references: Seq<AssetId>,
    /// How many of these have been looked at.
    pub looked: nat,
    /// What the search waits for.
    pub stage: SearchStage,
}

/// The search for `target` from `root`, before anything came back.
pub open spec fn started(root: AssetId, target: Seq<char>) -> SearchView {
    SearchView {
        target,
        order: seq![root],
        next: 0,
        references: Seq::empty(),
        looked: 0,
        stage: SearchStage::Path { asset: root },
    }
}

/// The search goes on after an asset whose path did not fit. It looks at the
/// references that are left until one names an asset not discovered yet, and
/// asks for that asset's path. Where none is left it asks for the references
/// of the asset that was discovered first among those not followed yet.
/// Where there is no such asset either, nothing is found.
pub open spec fn advance(search: SearchView) -> (SearchView, SearchAction)
    decreases search.references.len() - search.looked,
{
    if search.looked < search.references.len() {
        let asset = search.references[search.looked as int];
        if search.order.contains(asset) {
            advance(SearchView { looked: search.looked + 1, ..search })
        } else {
            (
                SearchView {
                    order: search.order.push(asset),
                    looked: search.looked + 1,
                    stage: SearchStage::Path { asset },
                    ..search
                },
                SearchAction::ReadPath { asset },
            )
        }
    } else if search.next < search.order.len() {
        let asset = search.order[search.next as int];
        (
            SearchView { stage: SearchStage::References { asset }, ..search },
            SearchAction::ReadReferences { asset },
        )
    } else {
        finish(search, FindAssetResult::NotFound)
    }
}

/// The search ends with an answer.
pub open spec fn finish(search: SearchView, found: FindAssetResult) -> (SearchView, SearchAction) {
    (
        SearchView { stage: SearchStage::Finished { found }, ..search },
        SearchAction::Finish { found },
    )
}

/// The search fails.
pub open spec fn fail(search: SearchView) -> (SearchView, SearchAction) {
    (SearchView { stage: SearchStage::Failed, ..search }, SearchAction::Fail)
}

/// What the search becomes, and what it asks for, when `event` comes back.
///
/// A path that fits ends the search with the asset it belongs to. An event
/// that does not answer what the search asked for, a failure among them,
/// makes it fail.
pub open spec fn spec_step(search: SearchView, event: SearchEventView) -> (
    SearchView,
    SearchAction,
) {
    match search.stage {
        SearchStage::Path { asset } => match event {
            SearchEventView::Path { path } => if path == Some(search.target) {
                finish(search, FindAssetResult::Found(asset))
            } else {
                advance(search)
            },
            _ => fail(search),
        },
        SearchStage::References { asset } => match event {
            SearchEventView::References { references } => advance(
                SearchView { references, looked: 0, next: search.next + 1, ..search },
            ),
            _ => fail(search),
        },
        _ => (search, SearchAction::Nothing),
    }
}

/// A search in progress.
pub struct Search {
    target: String,
    visited: HashSet<AssetId>,
    order: Vec<AssetId>,
    next: usize,
    references: Vec<AssetId>,
    looked: usize,
    stage: SearchStage,
}

impl View for Search {
    type V = SearchView;

    closed spec fn view(&self) -> SearchView {
        SearchView {
            target: self.target@,
            order: self.order@,
            next: self.next as nat,
            references: self.references@,
            looked: self.looked as nat,
            stage: self.stage,
        }
    }
}

impl Search {
    #[verifier::type_invariant]
    spec fn inv(&self) -> bool {
        &&& forall|asset: AssetId| self.visited@.contains(asset) <==> self.order@.contains(asset)
        &&& self.next <= self.order@.len()
        &&& self.looked <= self.references@.len()
        &&& self.stage is References ==> self.next < self.order@.len()
    }

    /// Begins the search for the asset with the path `target` among those
    /// that can be reached from `root`. The first thing it asks for is the
    /// path of `root`.
    pub fn start(root: AssetId, target: &str) -> (begun: (Search, SearchAction))
        ensures
            begun.0@ == started(root, target@),
            begun.1 == (SearchAction::ReadPath { asset: root }),
    {
        let mut visited: HashSet<AssetId> = HashSet::new();
        visited.insert(root);
        let mut order: Vec<AssetId> = Vec::new();
        order.push(root);
        assert forall|asset: AssetId| visited@.contains(asset) <==> order@.contains(asset) by {
            if asset == root {
                assert(order@[0] == asset);
            }
        }
        let search = Search {
            target: target.to_owned(),
            visited,
            order,
            next: 0,
            references: Vec::new(),
            looked: 0,
            stage: SearchStage::Path { asset: root },
        };
        (search, SearchAction::ReadPath { asset: root })
    }

    /// Where the search stands.
    pub fn stage(&self) -> (stage: SearchStage)
        ensures
            stage == self@.stage,
    {
        self.stage
    }

    /// How many assets the search has discovered.
    pub fn discovered(&self) -> (count: usize)
        ensures
            count == self@.order.len(),
    {
        self.order.len()
    }

    /// Takes what came of the last thing the search asked for and says what
    /// it asks for next.
    pub fn step(self, event: SearchEvent) -> (next: (Search, SearchAction))
        ensures
            (next.0@, next.1) == spec_step(self@, event@),
    {
        proof {
            use_type_invariant(&self);
        }
        let Search { target, visited, order, next, references, looked, stage } = self;
        assert(order.len() <= usize::MAX);
        match stage {
            SearchStage::Path { asset } => match event {
                SearchEvent::Path { path } => {
                    let fits = match path {
                        Some(p) => p == target,
                        None => false,
                    };
                    if fits {
                        let found = FindAssetResult::Found(asset);
                        (
                            Search {
                                target,
                                visited,
                                order,
                                next,
                                references,
                                looked,
                                stage: SearchStage::Finished { found },
                            },
                            SearchAction::Finish { found },
                        )
                    } else {
                        Search::advance(target, visited, order, next, references, looked, stage)
                    }
                },
                _ => (
                    Search {
                        target,
                        visited,
                        order,
                        next,
                        references,
                        looked,
                        stage: SearchStage::Failed,
                    },
                    SearchAction::Fail,
                ),
            },
            SearchStage::References { asset } => match event {
                SearchEvent::References { references: fresh } => Search::advance(
                    target,
                    visited,
                    order,
                    next + 1,
                    fresh,
                    0,
                    stage,
                ),
                _ => (
                    Search {
                        target,
                        visited,
                        order,
                        next,
                        references,
                        looked,
                        stage: SearchStage::Failed,
                    },
                    SearchAction::Fail,
                ),
            },
            _ => (
                Search { target, visited, order, next, references, looked, stage },
                SearchAction::Nothing,
            ),
        }
    }

    #[verifier::loop_isolation(false)]
    fn advance(
        target: String,
        visited: HashSet<AssetId>,
        order: Vec<AssetId>,
        next: usize,
        references: Vec<AssetId>,
        looked: usize,
        stage: SearchStage,
    ) -> (advanced: (Search, SearchAction))
        requires
            forall|asset: AssetId| visited@.contains(asset) <==> order@.contains(asset),
            next <= order@.len(),
            looked <= references@.len(),
        ensures
            (advanced.0@, advanced.1) == advance(
                SearchView {
                    target: target@,
                    order: order@,
                    next: next as nat,
                    references: references@,
                    looked: looked as nat,
                    stage,
                },
            ),
    {
        let mut visited = visited;
        let mut order = order;
        let mut looked = looked;
        let ghost begun = SearchView {
            target: target@,
            order: order@,
            next: next as nat,
            references: references@,
            looked: looked as nat,
            stage,
        };
        while looked < references.len()
            invariant
                forall|asset: AssetId| visited@.contains(asset) <==> order@.contains(asset),
                next <= order@.len(),
                looked <= references@.len(),
                advance(
                    SearchView {
                        target: target@,
                        order: order@,
                        next: next as nat,
                        references: references@,
                        looked: looked as nat,
                        stage,
                    },
                ) == advance(begun),
            decreases references@.len() - looked,
        {
            let ghost current = SearchView {
                target: target@,
                order: order@,
                next: next as nat,
                references: references@,
                looked: looked as nat,
                stage,
            };
            let asset: AssetId = references[looked];
            looked += 1;
            if visited.insert(asset) {
                order.push(asset);
                proof {
                    lemma_push_contains(current.order, asset);
                    assert(advance(current) == (
                        SearchView {
                            order: current.order.push(asset),
                            looked: current.looked + 1,
                            stage: SearchStage::Path { asset },
                            ..current
                        },
                        SearchAction::ReadPath { asset },
                    ));
                }
                return (
                    Search {
                        target,
                        visited,
                        order,
                        next,
                        references,
                        looked,
                        stage: SearchStage::Path { asset },
                    },
                    SearchAction::ReadPath { asset },
                );
            }
            assert(advance(current) == advance(
                SearchView { looked: current.looked + 1, ..current },
            ));
        }
        if next < order.len() {
            let asset: AssetId = order[next];
            (
                Search {
                    target,
                    visited,
                    order,
                    next,
                    references,
                    looked,
                    stage: SearchStage::References { asset },
                },
                SearchAction::ReadReferences { asset },
            )
        } else {
            let found = FindAssetResult::NotFound;
            (
                Search {
                    target,
                    visited,
                    order,
                    next,
                    references,
                    looked,
                    stage: SearchStage::Finished { found },
                },
                SearchAction::Finish { found },
            )
        }
    }
}

/// What the graph `g` answers to what a search in this stage asked for.
pub open spec fn answer(g: GraphView, stage: SearchStage) -> SearchEventView {
    match stage {
        SearchStage::Path { asset } => SearchEventView::Path { path: g[asset as int].path },
        SearchStage::References { asset } => SearchEventView::References {
            references: g[asset as int].references,
        },
        _ => SearchEventView::Failed,
    }
}

/// What a search in this stage has asked for.
pub open spec fn asked(stage: SearchStage) -> SearchAction {
    match stage {
        SearchStage::Path { asset } => SearchAction::ReadPath { asset },
        SearchStage::References { asset } => SearchAction::ReadReferences { asset },
        SearchStage::Finished { found } => SearchAction::Finish { found },
        SearchStage::Failed => SearchAction::Fail,
    }
}

/// The search has only looked at the root.
pub open spec fn at_root(root: AssetId, search: SearchView) -> bool {
    &&& search.next == 0
    &&& search.order == seq![root]
    &&& search.references.len() == 0
    &&& search.looked == 0
}

/// The search follows the references of the last asset it asked them for.
/// `before` is what it had discovered when it asked: a walk in progress on
/// the way to the traversal of `g` from `root`.
pub open spec fn following(
    g: GraphView,
    root: AssetId,
    search: SearchView,
    before: Seq<AssetId>,
) -> bool {
    &&& 1 <= search.next <= before.len()
    &&& in_progress(g, before, (search.next - 1) as nat)
    &&& forall|i: int| 0 <= i < before.len() ==> reachable(g, root, #[trigger] before[i])
    &&& discover(g, before, (search.next - 1) as nat) == traversal(g, root)
    &&& search.references == g[before[search.next - 1] as int].references
    &&& search.looked <= search.references.len()
    &&& search.order == add_new(before, search.references.take(search.looked as int))
}

/// None of the first `count` assets that the search discovered has the path
/// it looks for.
pub open spec fn none_fits(g: GraphView, search: SearchView, count: int) -> bool {
    forall|i: int| 0 <= i < count ==> !has_path(g, #[trigger] search.order[i], search.target)
}

/// The search is one that reads from the graph `g`, on its way to the asset
/// that its path names below `root`. `before` is what it had discovered when
/// it last asked for references.
#[verifier::opaque]
pub open spec fn tracks(
    g: GraphView,
    root: AssetId,
    search: SearchView,
    before: Seq<AssetId>,
) -> bool {
    match search.stage {
        SearchStage::Path { asset } => {
            &&& search.order.len() > 0
            &&& asset == search.order.last()
            &&& none_fits(g, search, search.order.len() - 1)
            &&& at_root(root, search) || following(g, root, search, before)
        },
        SearchStage::References { asset } => {
            &&& search.next < search.order.len()
            &&& asset == search.order[search.next as int]
            &&& none_fits(g, search, search.order.len() as int)
            &&& in_progress(g, search.order, search.next)
            &&& forall|i: int|
                0 <= i < search.order.len() ==> reachable(g, root, #[trigger] search.order[i])
            &&& discover(g, search.order, search.next) == traversal(g, root)
        },
        SearchStage::Finished { found } => found == resolution(g, root, search.target),
        SearchStage::Failed => false,
    }
}

/// How far a search that reads from `g` is from its end, at most: the assets
/// whose references it has not asked for, then the references left to look
/// at.
pub open spec fn assets_left(g: GraphView, search: SearchView) -> int {
    g.len() - search.next
}

/// See [`assets_left`].
pub open spec fn references_left(search: SearchView) -> int {
    match search.stage {
        SearchStage::Path { asset } => search.references.len() - search.looked + 1,
        _ => 0,
    }
}

/// Going on after an asset that did not fit keeps the search on its way.
pub proof fn lemma_advance_tracks(
    g: GraphView,
    root: AssetId,
    search: SearchView,
    before: Seq<AssetId>,
)
    requires
        well_formed(g),
        root < g.len(),
        at_root(root, search) || following(g, root, search, before),
        none_fits(g, search, search.order.len() as int),
    ensures
        tracks(g, root, advance(search).0, before),
        advance(search).1 == asked(advance(search).0.stage),
        advance(search).0.target == search.target,
        advance(search).0.next == search.next,
        advance(search).0.references == search.references,
        advance(search).0.stage is Path ==> advance(search).0.looked > search.looked,
        advance(search).0.looked <= search.references.len(),
    decreases search.references.len() - search.looked,
{
    reveal(tracks);
    let references = search.references;
    let advanced = advance(search).0;
    if search.looked < references.len() {
        let asset = references[search.looked as int];
        lemma_add_new_step(before, references, search.looked as int);
        if search.order.contains(asset) {
            let skipped = SearchView { looked: search.looked + 1, ..search };
            lemma_advance_tracks(g, root, skipped, before);
        } else {
            assert(advanced.order == search.order.push(asset));
            assert forall|i: int| 0 <= i < advanced.order.len() - 1 implies !has_path(
                g,
                #[trigger] advanced.order[i],
                advanced.target,
            ) by {
                assert(advanced.order[i] == search.order[i]);
            }
        }
    } else if at_root(root, search) {
        lemma_reachable_root(g, root);
    } else {
        let done = (search.next - 1) as nat;
        assert(references.take(search.looked as int) =~= references);
        lemma_follow(g, root, before, done);
        assert(discover(g, search.order, search.next) == traversal(g, root));
        if search.next >= search.order.len() {
            lemma_first_match_none(g, search.order, search.target);
        }
    }
}

/// What a search has discovered while it waits for a path are assets of
/// the graph, the first ones of the traversal, in their order.
pub proof fn lemma_discovered_so_far(
    g: GraphView,
    root: AssetId,
    search: SearchView,
    before: Seq<AssetId>,
)
    requires
        well_formed(g),
        root < g.len(),
        tracks(g, root, search, before),
        search.stage is Path,
    ensures
        extends(traversal(g, root), search.order),
        search.order.last() < g.len(),
        search.next <= g.len(),
{
    reveal(tracks);
    let whole = traversal(g, root);
    lemma_traversal(g, root);
    if !at_root(root, search) {
        let done = (search.next - 1) as nat;
        let references = search.references;
        let all = add_new(before, references);
        assert(references.take(references.len() as int) =~= references);
        lemma_add_new_take(before, references, search.looked as int, references.len() as int);
        lemma_follow(g, root, before, done);
        lemma_discover(g, root, all, done + 1);
        assert forall|i: int| 0 <= i < search.order.len() implies whole[i] == search.order[i] by {
            assert(all[i] == search.order[i]);
        }
    }
}

/// The answer to a question for a path keeps the search on its way.
proof fn lemma_step_path(g: GraphView, root: AssetId, search: SearchView, before: Seq<AssetId>)
    requires
        well_formed(g),
        root < g.len(),
        tracks(g, root, search, before),
        search.stage is Path,
    ensures
        search.order.last() < g.len(),
        tracks(g, root, spec_step(search, answer(g, search.stage)).0, before),
        spec_step(search, answer(g, search.stage)).1 == asked(
            spec_step(search, answer(g, search.stage)).0.stage,
        ),
        spec_step(search, answer(g, search.stage)).0.target == search.target,
        search.next <= g.len(),
        spec_step(search, answer(g, search.stage)).0.next == search.next,
        0 <= references_left(spec_step(search, answer(g, search.stage)).0) < references_left(
            search,
        ),
{
    reveal(tracks);
    let whole = traversal(g, root);
    let asset = search.order.last();
    let last = search.order.len() - 1;
    lemma_discovered_so_far(g, root, search, before);
    if g[asset as int].path == Some(search.target) {
        lemma_first_match_extends(g, whole, search.order, search.target, last);
        lemma_first_match_at(g, whole, search.target, last);
    } else {
        lemma_advance_tracks(g, root, search, before);
    }
}

/// The answer to a question for references keeps the search on its way.
proof fn lemma_step_references(g: GraphView, root: AssetId, search: SearchView)
    requires
        well_formed(g),
        root < g.len(),
        tracks(g, root, search, search.order),
        search.stage is References,
    ensures
        search.order[search.next as int] < g.len(),
        tracks(g, root, spec_step(search, answer(g, search.stage)).0, search.order),
        spec_step(search, answer(g, search.stage)).1 == asked(
            spec_step(search, answer(g, search.stage)).0.stage,
        ),
        spec_step(search, answer(g, search.stage)).0.target == search.target,
        search.next < g.len(),
        spec_step(search, answer(g, search.stage)).0.next == search.next + 1,
        0 <= references_left(spec_step(search, answer(g, search.stage)).0),
{
    reveal(tracks);
    let asset = search.order[search.next as int];
    let references = g[asset as int].references;
    let fed = SearchView { references, looked: 0, next: search.next + 1, ..search };
    lemma_distinct_below(search.order, g.len());
    lemma_advance_tracks(g, root, fed, search.order);
}

/// A search that reads from a graph stays on its way to the asset that the
/// path names: it asks only for assets of the graph, it comes nearer to its
/// end with each answer, it does not fail, and when it ends its answer is
/// the first asset with the path in the order of a breadth-first walk.
pub proof fn lemma_step_tracks(
    g: GraphView,
    root: AssetId,
    search: SearchView,
    before: Seq<AssetId>,
)
    requires
        well_formed(g),
        root < g.len(),
        tracks(g, root, search, before),
        search.stage is Path || search.stage is References,
    ensures
        search.stage matches SearchStage::Path { asset } ==> asset < g.len(),
        search.stage matches SearchStage::References { asset } ==> asset < g.len(),
        tracks(
            g,
            root,
            spec_step(search, answer(g, search.stage)).0,
            if search.stage is References {
                search.order
            } else {
                before
            },
        ),
        spec_step(search, answer(g, search.stage)).1 == asked(
            spec_step(search, answer(g, search.stage)).0.stage,
        ),
        spec_step(search, answer(g, search.stage)).0.target == search.target,
        0 <= assets_left(g, spec_step(search, answer(g, search.stage)).0),
        0 <= references_left(spec_step(search, answer(g, search.stage)).0),
        assets_left(g, spec_step(search, answer(g, search.stage)).0) < assets_left(g, search) || (
        assets_left(g, spec_step(search, answer(g, search.stage)).0) == assets_left(g, search)
            && references_left(spec_step(search, answer(g, search.stage)).0) < references_left(
            search,
        )),
{
    reveal(tracks);
    if search.stage is Path {
        lemma_step_path(g, root, search, before);
    } else {
        lemma_step_references(g, root, search);
    }
}

/// A search that has just begun is on its way.
pub proof fn lemma_started_tracks(g: GraphView, root: AssetId, target: Seq<char>)
    ensures
        tracks(g, root, started(root, target), Seq::empty()),
{
    reveal(tracks);
}

/// A search that reads from a graph does not fail, and the answer it ends
/// with is the asset that the path names.
pub proof fn lemma_tracks_to_the_end(
    g: GraphView,
    root: AssetId,
    search: SearchView,
    before: Seq<AssetId>,
)
    requires
        tracks(g, root, search, before),
    ensures
        !(search.stage is Failed),
        search.stage matches SearchStage::Finished { found } ==> found == resolution(
            g,
            root,
            search.target,
        ),
{
    reveal(tracks);
}

/// The search after the events came back one after the other.
pub open spec fn run(search: SearchView, events: Seq<SearchEventView>) -> SearchView
    decreases events.len(),
{
    if events.len() == 0 {
        search
    } else {
        spec_step(run(search, events.drop_last()), events.last()).0
    }
}

/// The assets whose path an action asks for: one for `ReadPath`, else none.
pub open spec fn path_asked_by(action: SearchAction) -> Seq<AssetId> {
    match action {
        SearchAction::ReadPath { asset } => seq![asset],
        _ => Seq::empty(),
    }
}

/// The assets whose path the search asked for while the events came back, in
/// order.
pub open spec fn paths_asked_in(search: SearchView, events: Seq<SearchEventView>) -> Seq<AssetId>
    decreases events.len(),
{
    if events.len() == 0 {
        Seq::empty()
    } else {
        paths_asked_in(search, events.drop_last()) + path_asked_by(
            spec_step(run(search, events.drop_last()), events.last()).1,
        )
    }
}

/// Going on discovers at most one asset, a new one, and asks for its path.
pub proof fn lemma_advance_discovers(search: SearchView)
    requires
        search.order.no_duplicates(),
    ensures
        advance(search).0.order == search.order + path_asked_by(advance(search).1),
        advance(search).0.order.no_duplicates(),
    decreases search.references.len() - search.looked,
{
    if search.looked < search.references.len() {
        let asset = search.references[search.looked as int];
        if search.order.contains(asset) {
            lemma_advance_discovers(SearchView { looked: search.looked + 1, ..search });
        } else {
            lemma_push_contains(search.order, asset);
            assert(search.order.push(asset).no_duplicates());
        }
    }
}

/// Whatever comes back, and in whatever order, a search asks for the path of
/// no asset twice: the assets whose path it has asked for are the assets it
/// has discovered, in the order of discovery, each once.
pub proof fn lemma_no_path_twice(root: AssetId, target: Seq<char>, events: Seq<SearchEventView>)
    ensures
        run(started(root, target), events).order == seq![root] + paths_asked_in(
            started(root, target),
            events,
        ),
        run(started(root, target), events).order.no_duplicates(),
    decreases events.len(),
{
    let begun = started(root, target);
    if events.len() > 0 {
        let before = run(begun, events.drop_last());
        let asked_before = paths_asked_in(begun, events.drop_last());
        lemma_no_path_twice(root, target, events.drop_last());
        let stepped = spec_step(before, events.last());
        assert(stepped.0.order == before.order + path_asked_by(stepped.1)
            && stepped.0.order.no_duplicates()) by {
            match before.stage {
                SearchStage::Path { asset } => {
                    if let SearchEventView::Path { path } = events.last() {
                        if path != Some(before.target) {
                            lemma_advance_discovers(before);
                        }
                    }
                },
                SearchStage::References { asset } => {
                    if let SearchEventView::References { references } = events.last() {
                        lemma_advance_discovers(
                            SearchView {
                                references,
                                looked: 0,
                                next: before.next + 1,
                                ..before
                            },
                        );
                    }
                },
                _ => {},
            }
        }
        assert(seq![root] + asked_before + path_asked_by(stepped.1) =~= seq![root] + (asked_before
            + path_asked_by(stepped.1)));
    }
}

} // verus!
