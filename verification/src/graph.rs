//! The graph model: an indexed, topology-immutable store of nodes
//! and edges with an adjacency index, built once from parsed input
//! and mutated only through node positions and pins.

use vstd::prelude::*;
use vstd::string::StrSliceExecFns;
use crate::geom::{clamp_world, clamp_i64, clamp_spec, in_world, V2};

verus! {

/// Upper bound on node counts, so index arithmetic and centroid sums
/// stay within machine integers.
pub const MAX_NODES: usize = 65_536;

/// Upper bound on edge counts.
pub const MAX_EDGES: usize = 1_048_576;

/// Edge weights are forced into `[1, WEIGHT_LIMIT]` at build time.
pub const WEIGHT_LIMIT: i64 = 1_000;

/// Semantic category of a node, as reported by the parser.
#[derive(Clone, Copy, PartialEq, Eq, Structural, Debug)]
pub enum NodeKind {
    Module,
    File,
    Symbol,
    Other,
}

/// Semantic category of an edge.
#[derive(Clone, Copy, PartialEq, Eq, Structural, Debug)]
pub enum EdgeKind {
    DependsOn,
    Contains,
    Other,
}

/// A node as the parser reports it; its index in the input list is
/// its identity everywhere afterwards.
pub struct NodeData {
    pub label: String,
    pub kind: NodeKind,
}

/// An edge as the parser reports it, endpoints given as indices into
/// the node list.
#[derive(Clone, Copy, PartialEq, Eq, Structural, Debug)]
pub struct EdgeData {
    pub source: usize,
    pub target: usize,
    pub directed: bool,
    pub kind: EdgeKind,
    pub weight: i64,
}

/// A stored node: parser data plus the mutable layout state.
pub struct Node {
    pub label: String,
    pub kind: NodeKind,
    /// Current position, owned by the layout engine.
    pub pos: V2,
    /// Bounding-size hint derived from the label length.
    pub size: V2,
    /// Whether the interaction controller holds this node in place.
    pub pinned: bool,
    /// Where a pinned node is held.
    pub pin_pos: V2,
}

/// A stored edge; the weight has been forced into `[1, WEIGHT_LIMIT]`.
#[derive(Clone, Copy, PartialEq, Eq, Structural, Debug)]
pub struct Edge {
    pub source: usize,
    pub target: usize,
    pub directed: bool,
    pub kind: EdgeKind,
    pub weight: i64,
}

/// Why a graph could not be built.
#[derive(Clone, Copy, PartialEq, Eq, Structural, Debug)]
pub enum GraphError {
    /// An edge endpoint is not an index of the node list.
    InvalidReference,
}

/// Whether edge `e` touches node `i`.
pub open spec fn incident(e: Edge, i: int) -> bool {
    e.source == i || e.target == i
}

/// An edge whose endpoints index a node list of length `n` and whose
/// weight is in range.
pub open spec fn edge_ok(e: Edge, n: int) -> bool {
    e.source < n && e.target < n && 1 <= e.weight <= WEIGHT_LIMIT
}

/// The deterministic initial placement: a grid walked in index
/// order, so no two nodes start at the same point and repulsion is
/// never asked for a direction between coincident points.
pub open spec fn jitter_pos(i: int) -> V2 {
    V2 { x: ((i % 256) * 100) as i64, y: ((i / 256) * 100) as i64 }
}

/// A stored node whose layout state is within bounds.
pub open spec fn node_ok(nd: Node) -> bool {
    in_world(nd.pos) && in_world(nd.pin_pos) && 1 <= nd.size.x <= 1_000 && 1 <= nd.size.y
        <= 1_000
}

/// The node-and-edge store.
pub struct Graph {
    pub nodes: Vec<Node>,
    pub edges: Vec<Edge>,
    /// For each node index, the indices of its incident edges, in
    /// increasing order; rebuilt at construction and never stale,
    /// since the topology never changes afterwards.
    pub adj: Vec<Vec<usize>>,
}

impl Graph {
    /// Node count as a mathematical integer.
    pub open spec fn n(self) -> int {
        self.nodes@.len() as int
    }

    /// Edge count as a mathematical integer.
    pub open spec fn m(self) -> int {
        self.edges@.len() as int
    }

    /// The adjacency list of node `i` is strictly increasing and
    /// holds exactly the indices of the edges that touch `i`.
    pub open spec fn adj_list_ok(self, i: int) -> bool {
        let a = self.adj@[i]@;
        &&& forall|j: int, k: int| 0 <= j < k < a.len() ==> a[j] < a[k]
        &&& forall|j: int|
            0 <= j < a.len() ==> (#[trigger] a[j]) < self.m() && incident(
                self.edges@[a[j] as int],
                i,
            )
        &&& forall|e: int|
            0 <= e < self.m() && incident(#[trigger] self.edges@[e], i) ==> a.contains(e as usize)
    }

    /// Structural well-formedness: every edge endpoint is a valid
    /// node index, the adjacency index matches the edge list, and
    /// every node's layout state is in bounds.
    pub open spec fn wf(self) -> bool {
        &&& self.nodes@.len() <= MAX_NODES
        &&& self.edges@.len() <= MAX_EDGES
        &&& forall|e: int| 0 <= e < self.m() ==> edge_ok(#[trigger] self.edges@[e], self.n())
        &&& self.adj@.len() == self.nodes@.len()
        &&& forall|i: int| 0 <= i < self.n() ==> self.adj_list_ok(i)
        &&& forall|i: int| 0 <= i < self.n() ==> node_ok(#[trigger] self.nodes@[i])
    }

    /// How many nodes the graph holds.
    pub fn node_count(&self) -> (r: usize)
        ensures
            r == self.n(),
    {
        self.nodes.len()
    }

    /// How many edges the graph holds.
    pub fn edge_count(&self) -> (r: usize)
        ensures
            r == self.m(),
    {
        self.edges.len()
    }

    /// Read-only access to node `i`.
    pub fn node(&self, i: usize) -> (r: &Node)
        requires
            i < self.n(),
        ensures
            r == self.nodes@[i as int],
    {
        &self.nodes[i]
    }

    /// Read-only access to edge `e`.
    pub fn edge(&self, e: usize) -> (r: &Edge)
        requires
            e < self.m(),
        ensures
            r == self.edges@[e as int],
    {
        &self.edges[e]
    }

    /// The indices of the edges incident to node `i`, in increasing
    /// order.
    pub fn adjacency(&self, i: usize) -> (r: &Vec<usize>)
        requires
            self.wf(),
            i < self.n(),
        ensures
            r@ == self.adj@[i as int]@,
    {
        &self.adj[i]
    }

    /// Overwrite the position of node `i`, keeping it in the world
    /// region.
    pub fn set_position(&mut self, i: usize, p: V2)
        requires
            old(self).wf(),
            i < old(self).n(),
        ensures
            final(self).wf(),
            same_topology(*old(self), *final(self)),
            final(self).nodes@[i as int].pos == clamp_world_spec(p),
            forall|j: int|
                0 <= j < final(self).n() && j != i ==> (#[trigger] final(self).nodes@[j]).pos
                    == old(self).nodes@[j].pos,
    {
        let q = clamp_world(p);
        self.nodes[i].pos = q;
        proof {
            lemma_wf_after_node_update(*old(self), *self, i as int);
        }
    }

    /// Pin node `i` at `p` (clamped into the world region) and snap
    /// its position there.
    pub fn set_pin(&mut self, i: usize, p: V2)
        requires
            old(self).wf(),
            i < old(self).n(),
        ensures
            final(self).wf(),
            same_shape(*old(self), *final(self)),
            final(self).nodes@[i as int].pinned,
            final(self).nodes@[i as int].pin_pos == clamp_world_spec(p),
            final(self).nodes@[i as int].pos == clamp_world_spec(p),
            forall|j: int|
                0 <= j < final(self).n() && j != i ==> #[trigger] final(self).nodes@[j] == old(
                    self,
                ).nodes@[j],
    {
        let q = clamp_world(p);
        self.nodes[i].pinned = true;
        self.nodes[i].pin_pos = q;
        self.nodes[i].pos = q;
        proof {
            lemma_wf_after_node_update(*old(self), *self, i as int);
        }
    }

    /// Release the pin on node `i`; its position stays where it was.
    pub fn clear_pin(&mut self, i: usize)
        requires
            old(self).wf(),
            i < old(self).n(),
        ensures
            final(self).wf(),
            same_shape(*old(self), *final(self)),
            !final(self).nodes@[i as int].pinned,
            final(self).nodes@[i as int].pos == old(self).nodes@[i as int].pos,
            final(self).nodes@[i as int].pin_pos == old(self).nodes@[i as int].pin_pos,
            forall|j: int|
                0 <= j < final(self).n() && j != i ==> #[trigger] final(self).nodes@[j] == old(
                    self,
                ).nodes@[j],
    {
        self.nodes[i].pinned = false;
        proof {
            lemma_wf_after_node_update(*old(self), *self, i as int);
        }
    }
}

/// Updating one node in a well-formed graph, without moving it or
/// its pin out of the world region, keeps the graph well-formed.
pub(crate) proof fn lemma_wf_after_node_update(a: Graph, b: Graph, i: int)
    requires
        a.wf(),
        0 <= i < a.n(),
        b.adj == a.adj,
        b.edges == a.edges,
        b.nodes@.len() == a.nodes@.len(),
        node_ok(b.nodes@[i]),
        forall|j: int| 0 <= j < b.n() && j != i ==> #[trigger] b.nodes@[j] == a.nodes@[j],
    ensures
        b.wf(),
{
    assert forall|j: int| 0 <= j < b.n() implies b.adj_list_ok(j) by {
        assert(a.adj_list_ok(j));
        assert(b.adj@[j]@ == a.adj@[j]@);
    }
    assert forall|j: int| 0 <= j < b.n() implies node_ok(#[trigger] b.nodes@[j]) by {
        if j != i {
            assert(b.nodes@[j] == a.nodes@[j]);
        }
    }
}

/// Clamping a point into the world region, as a value.
pub open spec fn clamp_world_spec(p: V2) -> V2 {
    V2 {
        x: clamp_spec(p.x as int, -crate::geom::POS_LIMIT as int, crate::geom::POS_LIMIT as int)
            as i64,
        y: clamp_spec(p.y as int, -crate::geom::POS_LIMIT as int, crate::geom::POS_LIMIT as int)
            as i64,
    }
}

/// The two graphs differ at most in node positions, pins and pin
/// positions: same nodes, labels, kinds, sizes, edges, adjacency.
pub open spec fn same_shape(a: Graph, b: Graph) -> bool {
    &&& b.nodes@.len() == a.nodes@.len()
    &&& b.edges == a.edges
    &&& b.adj == a.adj
    &&& forall|i: int|
        0 <= i < a.n() ==> (#[trigger] b.nodes@[i]).label == a.nodes@[i].label && b.nodes@[i].kind
            == a.nodes@[i].kind && b.nodes@[i].size == a.nodes@[i].size
}

/// The two graphs differ at most in node positions: same shape, and
/// pins untouched as well.
pub open spec fn same_topology(a: Graph, b: Graph) -> bool {
    &&& same_shape(a, b)
    &&& forall|i: int|
        0 <= i < a.n() ==> (#[trigger] b.nodes@[i]).pinned == a.nodes@[i].pinned
            && b.nodes@[i].pin_pos == a.nodes@[i].pin_pos
}

/// Whether every edge of `edges` has both endpoints inside a node
/// list of length `n`.
pub open spec fn endpoints_ok(edges: Seq<EdgeData>, n: int) -> bool {
    forall|e: int|
        0 <= e < edges.len() ==> (#[trigger] edges[e]).source < n && edges[e].target < n
}

/// What `build` stores for input edge `e`.
pub open spec fn built_edge(d: EdgeData) -> Edge {
    Edge {
        source: d.source,
        target: d.target,
        directed: d.directed,
        kind: d.kind,
        weight: clamp_spec(d.weight as int, 1, WEIGHT_LIMIT as int) as i64,
    }
}

/// The bounding-size hint `build` derives from a label of `len`
/// characters.
pub open spec fn size_hint(len: int) -> V2 {
    V2 { x: (20 + 8 * clamp_spec(len, 0, 100)) as i64, y: 24 }
}

/// Construct the graph from parser output. Fails with
/// `InvalidReference`, and builds nothing, exactly when some edge
/// endpoint is out of range of the node list; an empty node list is
/// not an error. On success every node stands unpinned on the
/// deterministic initial grid and every adjacency list is complete.
pub fn build(nodes: Vec<NodeData>, edges: Vec<EdgeData>) -> (r: Result<Graph, GraphError>)
    requires
        nodes@.len() <= MAX_NODES,
        edges@.len() <= MAX_EDGES,
    ensures
        r is Ok <==> endpoints_ok(edges@, nodes@.len() as int),
        r is Err ==> r == Err::<Graph, GraphError>(GraphError::InvalidReference),
        r is Ok ==> {
            let g = r.unwrap();
            &&& g.wf()
            &&& g.n() == nodes@.len()
            &&& g.m() == edges@.len()
            &&& forall|e: int| 0 <= e < g.m() ==> g.edges@[e] == built_edge(#[trigger] edges@[e])
            &&& forall|i: int|
                0 <= i < g.n() ==> {
                    let nd = #[trigger] g.nodes@[i];
                    &&& nd.label == nodes@[i].label
                    &&& nd.kind == nodes@[i].kind
                    &&& nd.pos == jitter_pos(i)
                    &&& nd.size == size_hint(nodes@[i].label@.len() as int)
                    &&& !nd.pinned
                }
        },
{
    let n = nodes.len();
    let m = edges.len();

    let mut e: usize = 0;
    while e < m
        invariant
            m == edges@.len(),
            n == nodes@.len(),
            e <= m,
            forall|k: int| 0 <= k < e ==> (#[trigger] edges@[k]).source < n && edges@[k].target < n,
        decreases m - e,
    {
        if edges[e].source >= n || edges[e].target >= n {
            return Err(GraphError::InvalidReference);
        }
        e += 1;
    }

    let mut stored_edges: Vec<Edge> = Vec::new();
    let mut e: usize = 0;
    while e < m
        invariant
            m == edges@.len(),
            n == nodes@.len(),
            e <= m,
            endpoints_ok(edges@, n as int),
            stored_edges@.len() == e,
            forall|k: int| 0 <= k < e ==> stored_edges@[k] == built_edge(#[trigger] edges@[k]),
        decreases m - e,
    {
        let d = edges[e];
        let w = clamp_i64(d.weight, 1, WEIGHT_LIMIT);
        stored_edges.push(
            Edge {
                source: d.source,
                target: d.target,
                directed: d.directed,
                kind: d.kind,
                weight: w,
            },
        );
        e += 1;
    }

    let mut stored_nodes: Vec<Node> = Vec::new();
    let mut i: usize = 0;
    while i < n
        invariant
            n == nodes@.len(),
            n <= MAX_NODES,
            i <= n,
            stored_nodes@.len() == i,
            forall|k: int|
                0 <= k < i ==> {
                    let nd = #[trigger] stored_nodes@[k];
                    &&& nd.label == nodes@[k].label
                    &&& nd.kind == nodes@[k].kind
                    &&& nd.pos == jitter_pos(k)
                    &&& nd.size == size_hint(nodes@[k].label@.len() as int)
                    &&& !nd.pinned
                    &&& node_ok(nd)
                },
        decreases n - i,
    {
        let label = nodes[i].label.clone();
        let len_raw = label.as_str().unicode_len();
        let len: i64 = if len_raw > 100 {
            100
        } else {
            len_raw as i64
        };
        let px: i64 = ((i % 256) as i64) * 100;
        let py: i64 = ((i / 256) as i64) * 100;
        let nd = Node {
            label,
            kind: nodes[i].kind,
            pos: V2 { x: px, y: py },
            size: V2 { x: 20 + 8 * len, y: 24 },
            pinned: false,
            pin_pos: V2 { x: px, y: py },
        };
        stored_nodes.push(nd);
        i += 1;
    }

    let mut adj: Vec<Vec<usize>> = Vec::new();
    let mut i: usize = 0;
    while i < n
        invariant
            n == stored_nodes@.len(),
            m == stored_edges@.len(),
            i <= n,
            adj@.len() == i,
            forall|k: int|
                0 <= k < i ==> adj_seq_ok(adj@[k]@, stored_edges@, k, m as int),
        decreases n - i,
    {
        let mut list: Vec<usize> = Vec::new();
        let mut e: usize = 0;
        while e < m
            invariant
                m == stored_edges@.len(),
                i < n,
                e <= m,
                forall|j: int, k: int| 0 <= j < k < list@.len() ==> list@[j] < list@[k],
                forall|j: int| 0 <= j < list@.len() ==> (#[trigger] list@[j]) < e,
                forall|j: int|
                    0 <= j < list@.len() ==> incident(
                        stored_edges@[#[trigger] list@[j] as int],
                        i as int,
                    ),
                forall|k: int|
                    0 <= k < e && incident(#[trigger] stored_edges@[k], i as int)
                        ==> list@.contains(k as usize),
            decreases m - e,
        {
            let ed = stored_edges[e];
            if ed.source == i || ed.target == i {
                let ghost prev = list@;
                list.push(e);
                proof {
                    assert(list@[prev.len() as int] == e);
                    assert forall|k: int|
                        0 <= k <= e && incident(#[trigger] stored_edges@[k], i as int)
                            implies list@.contains(k as usize) by {
                        if k < e {
                            let j = choose|j: int| 0 <= j < prev.len() && prev[j] == k as usize;
                            assert(list@[j] == k as usize);
                        } else {
                            assert(list@[prev.len() as int] == k as usize);
                        }
                    }
                }
            }
            e += 1;
        }
        adj.push(list);
        i += 1;
    }

    let g = Graph { nodes: stored_nodes, edges: stored_edges, adj };
    proof {
        assert forall|e: int| 0 <= e < g.m() implies edge_ok(#[trigger] g.edges@[e], g.n()) by {
            assert(g.edges@[e] == built_edge(edges@[e]));
            assert(edges@[e].source < n && edges@[e].target < n);
        }
        assert forall|k: int| 0 <= k < g.n() implies g.adj_list_ok(k) by {
            assert(adj_seq_ok(g.adj@[k]@, g.edges@, k, g.m()));
        }
    }
    Ok(g)
}

/// A node as the parser reports it when its identity is an opaque
/// id rather than a position: `build_from_ids` maps ids to indices.
pub struct NodeInput {
    pub id: u64,
    pub label: String,
    pub kind: NodeKind,
}

/// An edge as the parser reports it, endpoints given as node ids.
#[derive(Clone, Copy, PartialEq, Eq, Structural, Debug)]
pub struct EdgeInput {
    pub source_id: u64,
    pub target_id: u64,
    pub directed: bool,
    pub kind: EdgeKind,
    pub weight: i64,
}

/// The index of the first of the leading `k` nodes that carries
/// `id`, if any.
pub open spec fn id_index_upto(nodes: Seq<NodeInput>, id: u64, k: int) -> Option<int>
    decreases k,
{
    if k <= 0 {
        None
    } else {
        match id_index_upto(nodes, id, k - 1) {
            Some(j) => Some(j),
            None => if nodes[k - 1].id == id {
                Some(k - 1)
            } else {
                None
            },
        }
    }
}

/// The index the id `id` maps to: the first node that carries it.
pub open spec fn id_index(nodes: Seq<NodeInput>, id: u64) -> Option<int> {
    id_index_upto(nodes, id, nodes.len() as int)
}

/// Once an id has been found among a prefix, longer prefixes find
/// the same index.
proof fn lemma_id_index_stable(nodes: Seq<NodeInput>, id: u64, k: int, m: int)
    requires
        0 <= k <= m,
        id_index_upto(nodes, id, k) is Some,
    ensures
        id_index_upto(nodes, id, m) == id_index_upto(nodes, id, k),
    decreases m - k,
{
    if k < m {
        lemma_id_index_stable(nodes, id, k, m - 1);
    }
}

/// Find the first node carrying `id`.
fn find_id(nodes: &Vec<NodeInput>, id: u64) -> (r: Option<usize>)
    ensures
        match r {
            Some(j) => id_index(nodes@, id) == Some(j as int),
            None => id_index(nodes@, id) is None,
        },
{
    let n = nodes.len();
    let mut j: usize = 0;
    while j < n
        invariant
            n == nodes@.len(),
            j <= n,
            id_index_upto(nodes@, id, j as int) is None,
        decreases n - j,
    {
        if nodes[j].id == id {
            proof {
                assert(id_index_upto(nodes@, id, j as int + 1) == Some(j as int));
                lemma_id_index_stable(nodes@, id, j as int + 1, nodes@.len() as int);
            }
            return Some(j);
        }
        j += 1;
    }
    None
}

/// Whether every edge endpoint id occurs in the node list.
pub open spec fn ids_resolve(nodes: Seq<NodeInput>, edges: Seq<EdgeInput>) -> bool {
    forall|e: int|
        0 <= e < edges.len() ==> id_index(nodes, (#[trigger] edges[e]).source_id) is Some
            && id_index(nodes, edges[e].target_id) is Some
}

/// Construct the graph from parser output whose nodes carry ids:
/// each id maps to the index of the first node that carries it, and
/// the graph is then built as by `build`. Fails with
/// `InvalidReference`, and builds nothing, exactly when some edge
/// names an id that no node carries.
pub fn build_from_ids(nodes: Vec<NodeInput>, edges: Vec<EdgeInput>) -> (r: Result<
    Graph,
    GraphError,
>)
    requires
        nodes@.len() <= MAX_NODES,
        edges@.len() <= MAX_EDGES,
    ensures
        r is Ok <==> ids_resolve(nodes@, edges@),
        r is Err ==> r == Err::<Graph, GraphError>(GraphError::InvalidReference),
        r is Ok ==> {
            let g = r.unwrap();
            &&& g.wf()
            &&& g.n() == nodes@.len()
            &&& g.m() == edges@.len()
            &&& forall|i: int|
                0 <= i < g.n() ==> {
                    let nd = #[trigger] g.nodes@[i];
                    &&& nd.label == nodes@[i].label
                    &&& nd.kind == nodes@[i].kind
                    &&& nd.pos == jitter_pos(i)
                    &&& !nd.pinned
                }
            &&& forall|e: int|
                0 <= e < g.m() ==> {
                    let se = #[trigger] g.edges@[e];
                    &&& Some(se.source as int) == id_index(nodes@, edges@[e].source_id)
                    &&& Some(se.target as int) == id_index(nodes@, edges@[e].target_id)
                    &&& se.directed == edges@[e].directed
                    &&& se.kind == edges@[e].kind
                    &&& se.weight == clamp_spec(edges@[e].weight as int, 1, WEIGHT_LIMIT as int)
                }
        },
{
    let m = edges.len();
    let mut resolved: Vec<EdgeData> = Vec::new();
    let mut e: usize = 0;
    while e < m
        invariant
            m == edges@.len(),
            e <= m,
            resolved@.len() == e,
            forall|k: int|
                0 <= k < e ==> {
                    let d = #[trigger] resolved@[k];
                    &&& Some(d.source as int) == id_index(nodes@, edges@[k].source_id)
                    &&& Some(d.target as int) == id_index(nodes@, edges@[k].target_id)
                    &&& d.directed == edges@[k].directed
                    &&& d.kind == edges@[k].kind
                    &&& d.weight == edges@[k].weight
                },
        decreases m - e,
    {
        let ed = edges[e];
        let s = match find_id(&nodes, ed.source_id) {
            Some(j) => j,
            None => {
                return Err(GraphError::InvalidReference);
            },
        };
        let t = match find_id(&nodes, ed.target_id) {
            Some(j) => j,
            None => {
                return Err(GraphError::InvalidReference);
            },
        };
        resolved.push(
            EdgeData { source: s, target: t, directed: ed.directed, kind: ed.kind, weight: ed.weight },
        );
        e += 1;
    }

    let n = nodes.len();
    let mut data: Vec<NodeData> = Vec::new();
    let mut i: usize = 0;
    while i < n
        invariant
            n == nodes@.len(),
            i <= n,
            data@.len() == i,
            forall|k: int|
                0 <= k < i ==> (#[trigger] data@[k]).label == nodes@[k].label && data@[k].kind
                    == nodes@[k].kind,
        decreases n - i,
    {
        data.push(NodeData { label: nodes[i].label.clone(), kind: nodes[i].kind });
        i += 1;
    }

    proof {
        assert forall|k: int|
            0 <= k < resolved@.len() implies (#[trigger] resolved@[k]).source < nodes@.len()
            && resolved@[k].target < nodes@.len() by {
            lemma_id_index_in_range(nodes@, edges@[k].source_id);
            lemma_id_index_in_range(nodes@, edges@[k].target_id);
        }
        assert(endpoints_ok(resolved@, nodes@.len() as int));
        assert(ids_resolve(nodes@, edges@)) by {
            assert forall|k: int|
                0 <= k < edges@.len() implies id_index(
                nodes@,
                (#[trigger] edges@[k]).source_id,
            ) is Some && id_index(nodes@, edges@[k].target_id) is Some by {
                assert(Some(resolved@[k].source as int) == id_index(nodes@, edges@[k].source_id));
                assert(Some(resolved@[k].target as int) == id_index(nodes@, edges@[k].target_id));
            }
        }
    }
    match build(data, resolved) {
        Ok(g) => {
            proof {
                assert forall|k: int|
                    0 <= k < g.m() implies {
                        let se = #[trigger] g.edges@[k];
                        &&& Some(se.source as int) == id_index(nodes@, edges@[k].source_id)
                        &&& Some(se.target as int) == id_index(nodes@, edges@[k].target_id)
                        &&& se.directed == edges@[k].directed
                        &&& se.kind == edges@[k].kind
                        &&& se.weight == clamp_spec(edges@[k].weight as int, 1, WEIGHT_LIMIT as int)
                    } by {
                    assert(g.edges@[k] == built_edge(resolved@[k]));
                }
                assert forall|i2: int|
                    0 <= i2 < g.n() implies {
                        let nd = #[trigger] g.nodes@[i2];
                        &&& nd.label == nodes@[i2].label
                        &&& nd.kind == nodes@[i2].kind
                        &&& nd.pos == jitter_pos(i2)
                        &&& !nd.pinned
                    } by {
                    assert(g.nodes@[i2].label == data@[i2].label);
                }
            }
            Ok(g)
        },
        Err(_) => {
            proof {
                assert(false);
            }
            Err(GraphError::InvalidReference)
        },
    }
}

/// A resolved id names an existing node.
proof fn lemma_id_index_in_range(nodes: Seq<NodeInput>, id: u64)
    ensures
        id_index(nodes, id) is Some ==> 0 <= id_index(nodes, id).unwrap() < nodes.len(),
{
    lemma_id_index_upto_in_range(nodes, id, nodes.len() as int);
}

/// Helper for the range of a first-match index.
proof fn lemma_id_index_upto_in_range(nodes: Seq<NodeInput>, id: u64, k: int)
    ensures
        id_index_upto(nodes, id, k) is Some ==> 0 <= id_index_upto(nodes, id, k).unwrap() < k,
    decreases k,
{
    if k > 0 {
        lemma_id_index_upto_in_range(nodes, id, k - 1);
    }
}

/// The adjacency list `a` is exactly the increasing list of edges of
/// `edges` (length `m`) that touch node `i`.
pub open spec fn adj_seq_ok(a: Seq<usize>, edges: Seq<Edge>, i: int, m: int) -> bool {
    &&& forall|j: int, k: int| 0 <= j < k < a.len() ==> a[j] < a[k]
    &&& forall|j: int| 0 <= j < a.len() ==> (#[trigger] a[j]) < m && incident(edges[a[j] as int], i)
    &&& forall|e: int| 0 <= e < m && incident(#[trigger] edges[e], i) ==> a.contains(e as usize)
}

} // verus!
