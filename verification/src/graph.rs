//! An asset graph held in memory.
//!
//! An asset is a node with a path, a content and an ordered list of the
//! assets it refers to. Assets are named by their position in the graph. The
//! graph may hold cycles and shared nodes; every reference points at an asset
//! of the same graph.

use vstd::prelude::*;

verus! {

/// Names an asset of a graph: its position in the order of insertion.
pub type AssetId = usize;

/// One node of the graph.
#[derive(Clone, Debug, PartialEq, Eq)]
pub struct Asset {
    /// The path relative to the served root; `None` for an asset that lies
    /// outside the served tree.
    pub path: Option<String>,
    /// The bytes of the asset; `None` for one that has none, such as a
    /// directory.
    pub content: Option<Vec<u8>>,
    /// The assets this one refers to, in order.
    pub references: Vec<AssetId>,
}

/// What an [`Asset`] is, as mathematical values.
pub struct AssetView {
    pub path: Option<Seq<char>>,
    pub content: Option<Seq<u8>>,
    pub references: Seq<AssetId>,
}

impl View for Asset {
    type V = AssetView;

    open spec fn view(&self) -> AssetView {
        AssetView {
            path: match self.path {
                Some(p) => Some(p@),
                None => None,
            },
            content: match self.content {
                Some(c) => Some(c@),
                None => None,
            },
            references: self.references@,
        }
    }
}

/// A graph as a sequence of nodes; position is identity.
pub type GraphView = Seq<AssetView>;

/// Every reference of every asset names an asset of the graph.
pub open spec fn well_formed(g: GraphView) -> bool {
    forall|a: int, k: int|
        0 <= a < g.len() && 0 <= k < g[a].references.len() ==> (#[trigger] g[a].references[k])
            < g.len()
}

/// The nodes that a sequence of assets stands for.
pub open spec fn nodes_of(assets: Seq<Asset>) -> GraphView {
    Seq::new(assets.len(), |i: int| assets[i]@)
}

/// Every reference of the node `a` names an asset of the graph.
pub open spec fn references_in_range(g: GraphView, a: int) -> bool {
    forall|k: int| 0 <= k < g[a].references.len() ==> (#[trigger] g[a].references[k]) < g.len()
}

/// A well-formed asset graph.
#[derive(Debug)]
pub struct AssetGraph {
    assets: Vec<Asset>,
}

impl View for AssetGraph {
    type V = GraphView;

    closed spec fn view(&self) -> GraphView {
        Seq::new(self.assets@.len(), |i: int| self.assets@[i]@)
    }
}

impl AssetGraph {
    #[verifier::type_invariant]
    spec fn inv(&self) -> bool {
        well_formed(self@)
    }

    /// Makes a graph of the given assets, each named by its position.
    /// Refused when some reference names no asset among them.
    pub fn from_assets(assets: Vec<Asset>) -> (graph: Option<AssetGraph>)
        ensures
            graph is Some <==> well_formed(nodes_of(assets@)),
            graph matches Some(g) ==> g@ == nodes_of(assets@),
    {
        let ghost g = nodes_of(assets@);
        let n: usize = assets.len();
        let mut a: usize = 0;
        while a < n
            invariant
                a <= n,
                n == assets@.len(),
                g == nodes_of(assets@),
                forall|i: int| 0 <= i < a ==> references_in_range(g, i),
            decreases n - a,
        {
            let references = &assets[a].references;
            let mut k: usize = 0;
            while k < references.len()
                invariant
                    a < n,
                    n == assets@.len(),
                    g == nodes_of(assets@),
                    k <= references@.len(),
                    references@ == g[a as int].references,
                    forall|j: int| 0 <= j < k ==> (#[trigger] g[a as int].references[j]) < g.len(),
                decreases references@.len() - k,
            {
                if references[k] >= n {
                    return None;
                }
                k += 1;
            }
            a += 1;
        }
        assert(well_formed(g)) by {
            assert forall|i: int, k: int|
                0 <= i < g.len() && 0 <= k < g[i].references.len() implies (
            #[trigger] g[i].references[k]) < g.len() by {
                assert(references_in_range(g, i));
            }
        }
        let graph = AssetGraph { assets };
        Some(graph)
    }

    /// The number of assets.
    pub fn len(&self) -> (n: usize)
        ensures
            n == self@.len(),
            well_formed(self@),
    {
        proof {
            use_type_invariant(self);
        }
        self.assets.len()
    }

    /// The asset named `id`.
    pub fn asset(&self, id: AssetId) -> (asset: &Asset)
        requires
            id < self@.len(),
        ensures
            asset@ == self@[id as int],
    {
        &self.assets[id]
    }

    /// The asset named `id`, if the graph has one.
    pub fn get(&self, id: AssetId) -> (asset: Option<&Asset>)
        ensures
            asset is Some <==> id < self@.len(),
            asset matches Some(a) ==> a@ == self@[id as int],
    {
        if id < self.assets.len() {
            Some(&self.assets[id])
        } else {
            None
        }
    }
}

} // verus!
