//! A local, undirected knowledge graph where each node carries a markdown
//! note. Ids come from a monotonic counter and are never reused; edges are
//! stored once each, as `(lo, hi)` id pairs.

use vstd::prelude::*;
use vstd::string::*;

verus! {

broadcast use vstd::seq_lib::group_seq_properties;

#[derive(Debug)]
pub struct Node {
    pub id: u64,
    pub title: String,
    pub markdown: String,
}

#[derive(Debug)]
pub struct Graph {
    /// Monotonic id source. Ids are never reused, so an id in a stale edge or
    /// note can never silently point at a different node.
    pub next_id: u64,
    pub nodes: Vec<Node>,
    /// Undirected edges, normalized as `(lo, hi)` id pairs with no duplicates.
    pub edges: Vec<(u64, u64)>,
}

/// The canonical `(lo, hi)` form of the undirected edge between `a` and `b`.
pub open spec fn edge_of(a: u64, b: u64) -> (u64, u64) {
    if a <= b {
        (a, b)
    } else {
        (b, a)
    }
}

/// The edge list after toggling `key`: its first occurrence removed if it is
/// there, appended otherwise.
pub open spec fn toggled(edges: Seq<(u64, u64)>, key: (u64, u64)) -> Seq<(u64, u64)> {
    if edges.contains(key) {
        edges.remove_value(key)
    } else {
        edges.push(key)
    }
}

/// The ids adjacent to `id`, in edge order.
pub open spec fn neighbors_of(edges: Seq<(u64, u64)>, id: u64) -> Seq<u64>
    decreases edges.len(),
{
    if edges.len() == 0 {
        Seq::empty()
    } else {
        let rest = neighbors_of(edges.drop_last(), id);
        let (a, b) = edges.last();
        if a == id {
            rest.push(b)
        } else if b == id {
            rest.push(a)
        } else {
            rest
        }
    }
}

/// Whether an edge touches `id`.
pub open spec fn touches(edge: (u64, u64), id: u64) -> bool {
    edge.0 == id || edge.1 == id
}

/// Keeps the nodes whose id is not `id`.
pub open spec fn node_kept(id: u64) -> spec_fn(Node) -> bool {
    |node: Node| node.id != id
}

/// Keeps the edges that do not touch `id`.
pub open spec fn edge_kept(id: u64) -> spec_fn((u64, u64)) -> bool {
    |edge: (u64, u64)| !touches(edge, id)
}

/// The ids of `nodes`, in order.
pub open spec fn ids_of(nodes: Seq<Node>) -> Seq<u64> {
    nodes.map_values(|node: Node| node.id)
}

impl Graph {
    /// The graph's invariant: edges are normalized with distinct endpoints and
    /// stored once, node ids are distinct, and every id in use is below
    /// `next_id`.
    pub open spec fn well_formed(&self) -> bool {
        &&& edges_well_formed(self.edges@)
        &&& nodes_well_formed(self.nodes@, self.next_id)
    }

    /// An empty graph whose first node gets id 0.
    pub fn new() -> (graph: Self)
        ensures
            graph.next_id == 0,
            graph.nodes@.len() == 0,
            graph.edges@.len() == 0,
            graph.well_formed(),
    {
        Graph { next_id: 0, nodes: Vec::new(), edges: Vec::new() }
    }

    /// Adds a node with an empty note under a fresh id, and returns the id.
    pub fn add_node(&mut self, title: String) -> (id: u64)
        requires
            old(self).next_id < u64::MAX,
        ensures
            id == old(self).next_id,
            final(self).next_id == old(self).next_id + 1,
            final(self).nodes@.len() == old(self).nodes@.len() + 1,
            final(self).nodes@.take(old(self).nodes@.len() as int) == old(self).nodes@,
            final(self).nodes@.last().id == id,
            final(self).nodes@.last().title@ == title@,
            final(self).nodes@.last().markdown@ == Seq::<char>::empty(),
            final(self).edges@ == old(self).edges@,
            old(self).well_formed() ==> final(self).well_formed(),
            old(self).well_formed() ==> !ids_of(old(self).nodes@).contains(id),
    {
        let id = self.next_id;
        self.next_id = self.next_id + 1;
        self.nodes.push(Node { id, title, markdown: String::new() });
        proof {
            let old_nodes = old(self).nodes@;
            assert(self.nodes@.take(old_nodes.len() as int) =~= old_nodes);
            assert(ids_of(self.nodes@) =~= ids_of(old_nodes).push(id));
            if old(self).well_formed() {
                assert forall|i: int| 0 <= i < ids_of(old_nodes).len() implies ids_of(
                    old_nodes,
                )[i] != id by {
                    assert(old_nodes[i].id < old(self).next_id);
                }
                assert(!ids_of(old_nodes).contains(id));
                assert forall|i: int, j: int|
                    0 <= i < ids_of(self.nodes@).len() && 0 <= j < ids_of(self.nodes@).len() && i
                        != j implies ids_of(self.nodes@)[i] != ids_of(self.nodes@)[j] by {
                    if i < old_nodes.len() && j < old_nodes.len() {
                    } else if i < old_nodes.len() {
                        assert(ids_of(old_nodes)[i] != id);
                    } else if j < old_nodes.len() {
                        assert(ids_of(old_nodes)[j] != id);
                    }
                }
            }
        }
        id
    }

    /// The index of the first node with `id`, if any.
    pub fn node_index(&self, id: u64) -> (index: Option<usize>)
        ensures
            index is Some <==> ids_of(self.nodes@).contains(id),
            index matches Some(i) ==> i < self.nodes@.len() && self.nodes@[i as int].id == id
                && forall|j: int| 0 <= j < i ==> #[trigger] self.nodes@[j].id != id,
    {
        let mut i: usize = 0;
        while i < self.nodes.len()
            invariant
                i <= self.nodes@.len(),
                forall|j: int| 0 <= j < i ==> #[trigger] self.nodes@[j].id != id,
            decreases self.nodes.len() - i,
        {
            if self.nodes[i].id == id {
                assert(ids_of(self.nodes@)[i as int] == id);
                return Some(i);
            }
            i = i + 1;
        }
        assert forall|j: int| 0 <= j < ids_of(self.nodes@).len() implies ids_of(self.nodes@)[j]
            != id by {
            assert(self.nodes@[j].id != id);
        }
        None
    }

    /// The first node with `id`, to be edited in place.
    pub fn node_mut(&mut self, id: u64) -> (node: Option<&mut Node>)
        ensures
            node is Some <==> ids_of(old(self).nodes@).contains(id),
            node is None ==> *final(self) == *old(self),
            node matches Some(n) ==> exists|i: int|
                0 <= i < old(self).nodes@.len() && old(self).nodes@[i].id == id && (forall|j: int|
                    0 <= j < i ==> #[trigger] old(self).nodes@[j].id != id) && *n == old(
                    self,
                ).nodes@[i] && final(self).nodes@ == old(self).nodes@.update(i, *final(n))
                    && final(self).next_id == old(self).next_id && final(self).edges@ == old(
                    self,
                ).edges@,
    {
        match self.node_index(id) {
            Some(i) => Some(&mut self.nodes[i]),
            None => None,
        }
    }
}


impl Graph {
    /// Removes every node with `id` and every edge incident to it.
    pub fn remove_node(&mut self, id: u64)
        ensures
            final(self).nodes@ == old(self).nodes@.filter(node_kept(id)),
            final(self).edges@ == old(self).edges@.filter(edge_kept(id)),
            final(self).next_id == old(self).next_id,
            old(self).well_formed() ==> final(self).well_formed(),
    {
        let ghost old_nodes = self.nodes@;
        let ghost old_edges = self.edges@;
        let ghost keep_node = node_kept(id);
        let ghost keep_edge = edge_kept(id);
        let total: usize = self.nodes.len();
        let mut pending: Vec<Node> = Vec::new();
        std::mem::swap(&mut pending, &mut self.nodes);
        assert(pending@ =~= old_nodes.skip(0));
        assert(old_nodes.take(0).filter(keep_node) =~= Seq::<Node>::empty()) by {
            reveal(Seq::filter);
        }
        let mut kept: Vec<Node> = Vec::new();
        let mut consumed: usize = 0;
        while pending.len() > 0
            invariant
                total == old_nodes.len(),
                consumed + pending@.len() == total,
                pending@ == old_nodes.skip(consumed as int),
                keep_node == node_kept(id),
                kept@ == old_nodes.take(consumed as int).filter(keep_node),
                self.edges@ == old_edges,
                self.next_id == old(self).next_id,
            decreases pending@.len(),
        {
            let node = pending.remove(0);
            proof {
                assert(node == old_nodes[consumed as int]);
                assert(old_nodes.take(consumed + 1) =~= old_nodes.take(consumed as int).push(node));
                old_nodes.take(consumed as int).lemma_filter_push(node, keep_node);
            }
            if node.id != id {
                kept.push(node);
            }
            consumed = consumed + 1;
            assert(pending@ =~= old_nodes.skip(consumed as int));
        }
        assert(old_nodes.take(consumed as int) =~= old_nodes);
        self.nodes = kept;

        let mut edges: Vec<(u64, u64)> = Vec::new();
        let mut i: usize = 0;
        assert(old_edges.take(0).filter(keep_edge) =~= Seq::<(u64, u64)>::empty()) by {
            reveal(Seq::filter);
        }
        while i < self.edges.len()
            invariant
                self.edges@ == old_edges,
                self.nodes@ == old_nodes.filter(keep_node),
                self.next_id == old(self).next_id,
                i <= old_edges.len(),
                keep_edge == edge_kept(id),
                edges@ == old_edges.take(i as int).filter(keep_edge),
            decreases self.edges.len() - i,
        {
            let edge = self.edges[i];
            proof {
                assert(old_edges.take(i + 1) =~= old_edges.take(i as int).push(edge));
                old_edges.take(i as int).lemma_filter_push(edge, keep_edge);
            }
            if edge.0 != id && edge.1 != id {
                edges.push(edge);
            }
            i = i + 1;
        }
        assert(old_edges.take(i as int) =~= old_edges);
        self.edges = edges;
        proof {
            if old(self).well_formed() {
                lemma_removal_keeps_well_formed(old_nodes, old_edges, old(self).next_id, id);
            }
        }
    }

    /// Toggles the undirected edge between two nodes and returns whether the
    /// pair is linked afterwards. Self-loops are rejected.
    pub fn toggle_edge(&mut self, a: u64, b: u64) -> (linked: bool)
        ensures
            a == b ==> !linked && final(self).edges@ == old(self).edges@,
            a != b ==> final(self).edges@ == toggled(old(self).edges@, edge_of(a, b)),
            a != b ==> linked == !old(self).edges@.contains(edge_of(a, b)),
            final(self).nodes@ == old(self).nodes@,
            final(self).next_id == old(self).next_id,
            old(self).well_formed() ==> final(self).well_formed(),
            old(self).well_formed() ==> linked == final(self).edges@.contains(edge_of(a, b)),
            a != b && at_most_once(old(self).edges@, edge_of(a, b)) ==> linked == final(self).edges@.contains(
                edge_of(a, b),
            ),
            a != b ==> forall|e: (u64, u64)|
                e != edge_of(a, b) ==> (#[trigger] final(self).edges@.contains(e) == old(self).edges@.contains(e)),
    {
        proof {
            lemma_toggled_contains(old(self).edges@, edge_of(a, b));
        }
        if a == b {
            proof {
                if old(self).well_formed() && self.edges@.contains(edge_of(a, b)) {
                    let k = choose|k: int| 0 <= k < self.edges@.len() && self.edges@[k] == edge_of(a, b);
                    assert(self.edges@[k].0 < self.edges@[k].1);
                }
            }
            return false;
        }
        let key = edge_key(a, b);
        let mut i: usize = 0;
        while i < self.edges.len()
            invariant
                a != b,
                key == edge_of(a, b),
                self.edges@ == old(self).edges@,
                self.nodes@ == old(self).nodes@,
                self.next_id == old(self).next_id,
                i <= self.edges@.len(),
                forall|j: int| 0 <= j < i ==> #[trigger] self.edges@[j] != key,
            decreases self.edges.len() - i,
        {
            if self.edges[i].0 == key.0 && self.edges[i].1 == key.1 {
                assert(self.edges@[i as int] == key);
                assert(old(self).edges@.contains(key));
                proof {
                    let old_edges = self.edges@;
                    old_edges.index_of_first_ensures(key);
                    let first = old_edges.index_of_first(key).unwrap();
                    assert(first == i);
                }
                self.edges.remove(i);
                proof {
                    if old(self).well_formed() {
                        lemma_toggle_keeps_well_formed(old(self).edges@, key);
                    }
                }
                return false;
            }
            i = i + 1;
        }
        assert(!self.edges@.contains(key));
        self.edges.push(key);
        proof {
            if old(self).well_formed() {
                lemma_toggle_keeps_well_formed(old(self).edges@, key);
            }
        }
        true
    }

    /// Whether the undirected edge between `a` and `b` is stored.
    pub fn is_linked(&self, a: u64, b: u64) -> (linked: bool)
        ensures
            linked == self.edges@.contains(edge_of(a, b)),
    {
        let key = edge_key(a, b);
        let mut i: usize = 0;
        while i < self.edges.len()
            invariant
                key == edge_of(a, b),
                i <= self.edges@.len(),
                forall|j: int| 0 <= j < i ==> #[trigger] self.edges@[j] != key,
            decreases self.edges.len() - i,
        {
            if self.edges[i].0 == key.0 && self.edges[i].1 == key.1 {
                assert(self.edges@[i as int] == key);
                return true;
            }
            i = i + 1;
        }
        assert(!self.edges@.contains(key));
        false
    }

    /// The ids linked to `id`, in edge order.
    pub fn neighbors(&self, id: u64) -> (ids: Vec<u64>)
        ensures
            ids@ == neighbors_of(self.edges@, id),
    {
        let mut ids: Vec<u64> = Vec::new();
        let mut i: usize = 0;
        while i < self.edges.len()
            invariant
                i <= self.edges@.len(),
                ids@ == neighbors_of(self.edges@.take(i as int), id),
            decreases self.edges.len() - i,
        {
            let (a, b) = self.edges[i];
            assert(self.edges@.take(i + 1).drop_last() =~= self.edges@.take(i as int));
            if a == id {
                ids.push(b);
            } else if b == id {
                ids.push(a);
            }
            i = i + 1;
        }
        assert(self.edges@.take(i as int) =~= self.edges@);
        ids
    }

    /// How many edges touch `id`.
    pub fn degree(&self, id: u64) -> (count: usize)
        ensures
            count == neighbors_of(self.edges@, id).len(),
    {
        self.neighbors(id).len()
    }
}

impl Default for Graph {
    fn default() -> (graph: Self)
        ensures
            graph.next_id == 0,
            graph.nodes@.len() == 0,
            graph.edges@.len() == 0,
            graph.well_formed(),
    {
        Graph::new()
    }
}

/// Normalizes an undirected edge to its canonical `(lo, hi)` form.
pub fn edge_key(a: u64, b: u64) -> (key: (u64, u64))
    ensures
        key == edge_of(a, b),
{
    if a <= b {
        (a, b)
    } else {
        (b, a)
    }
}

/// Whether every edge is normalized with distinct endpoints and stored once.
pub open spec fn edges_well_formed(edges: Seq<(u64, u64)>) -> bool {
    &&& forall|i: int| 0 <= i < edges.len() ==> #[trigger] edges[i].0 < edges[i].1
    &&& edges.no_duplicates()
}

/// Whether node ids are distinct and all below `next_id`.
pub open spec fn nodes_well_formed(nodes: Seq<Node>, next_id: u64) -> bool {
    &&& ids_of(nodes).no_duplicates()
    &&& forall|i: int| 0 <= i < nodes.len() ==> #[trigger] nodes[i].id < next_id
}

/// Filtering `s` keeps only elements of `s`, and keeps distinct images
/// under `f` distinct.
pub proof fn lemma_filter_keeps_distinct<A, B>(s: Seq<A>, pred: spec_fn(A) -> bool, f: spec_fn(A) -> B)
    requires
        s.map_values(f).no_duplicates(),
    ensures
        s.filter(pred).map_values(f).no_duplicates(),
        forall|x: A| #[trigger] s.filter(pred).contains(x) ==> s.contains(x),
    decreases s.len(),
{
    broadcast use vstd::seq_lib::group_filter_ensures;

    reveal(Seq::filter);
    assert forall|x: A| #[trigger] s.filter(pred).contains(x) implies s.contains(x) by {
        s.lemma_filter_contains_rev(pred, x);
    }
    if s.len() > 0 {
        let rest = s.drop_last();
        assert(rest.map_values(f) =~= s.map_values(f).drop_last());
        lemma_filter_keeps_distinct(rest, pred, f);
        let kept = rest.filter(pred);
        if pred(s.last()) {
            assert(s.filter(pred) == kept.push(s.last()));
            assert(kept.push(s.last()).map_values(f) =~= kept.map_values(f).push(f(s.last())));
            assert forall|i: int| 0 <= i < kept.len() implies #[trigger] f(kept[i]) != f(s.last()) by {
                assert(kept.contains(kept[i]));
                assert(rest.contains(kept[i]));
                let k = choose|k: int| 0 <= k < rest.len() && rest[k] == kept[i];
                assert(s.map_values(f)[k] == f(kept[i]));
                assert(s.map_values(f)[s.len() - 1] == f(s.last()));
            }
            let m = kept.map_values(f).push(f(s.last()));
            assert forall|i: int, j: int| 0 <= i < m.len() && 0 <= j < m.len() && i != j implies m[i]
                != m[j] by {
                if i < kept.len() && j < kept.len() {
                    assert(m[i] == kept.map_values(f)[i]);
                    assert(m[j] == kept.map_values(f)[j]);
                } else if i < kept.len() {
                    assert(m[i] == f(kept[i]));
                } else if j < kept.len() {
                    assert(m[j] == f(kept[j]));
                }
            }
        } else {
            assert(s.filter(pred) == kept);
        }
    }
}

/// Filtering nodes and edges by one id keeps the graph's invariant.
proof fn lemma_removal_keeps_well_formed(
    nodes: Seq<Node>,
    edges: Seq<(u64, u64)>,
    next_id: u64,
    id: u64,
)
    requires
        edges_well_formed(edges),
        nodes_well_formed(nodes, next_id),
    ensures
        edges_well_formed(edges.filter(edge_kept(id))),
        nodes_well_formed(nodes.filter(node_kept(id)), next_id),
{
    broadcast use vstd::seq_lib::group_filter_ensures;

    let keep_edge = edge_kept(id);
    let keep_node = node_kept(id);
    let same = |edge: (u64, u64)| edge;
    assert(edges.map_values(same) =~= edges);
    lemma_filter_keeps_distinct(edges, keep_edge, same);
    assert(edges.filter(keep_edge).map_values(same) =~= edges.filter(keep_edge));
    let fe = edges.filter(keep_edge);
    assert forall|i: int| 0 <= i < fe.len() implies #[trigger] fe[i].0 < fe[i].1 by {
        assert(fe.contains(fe[i]));
        let k = choose|k: int| 0 <= k < edges.len() && edges[k] == fe[i];
        assert(edges[k].0 < edges[k].1);
    }
    lemma_filter_keeps_distinct(nodes, keep_node, |node: Node| node.id);
    let fnodes = nodes.filter(keep_node);
    assert forall|i: int| 0 <= i < fnodes.len() implies #[trigger] fnodes[i].id < next_id by {
        assert(fnodes.contains(fnodes[i]));
        let k = choose|k: int| 0 <= k < nodes.len() && nodes[k] == fnodes[i];
        assert(nodes[k].id < next_id);
    }
}

/// Whether `key` occurs at most once in `edges`.
pub open spec fn at_most_once(edges: Seq<(u64, u64)>, key: (u64, u64)) -> bool {
    forall|i: int, j: int| 0 <= i < j < edges.len() ==> !(#[trigger] edges[i] == key && #[trigger] edges[j] == key)
}

/// Toggling `key` leaves every other edge as stored or not as before, and,
/// where `key` was stored at most once, stores it exactly when it was not.
pub proof fn lemma_toggled_contains(edges: Seq<(u64, u64)>, key: (u64, u64))
    ensures
        at_most_once(edges, key) ==> toggled(edges, key).contains(key) == !edges.contains(key),
        forall|e: (u64, u64)| e != key ==> (#[trigger] toggled(edges, key).contains(e) == edges.contains(e)),
{
    if edges.contains(key) {
        edges.index_of_first_ensures(key);
        let i = edges.index_of_first(key).unwrap();
        let out = edges.remove(i);
        assert(out == toggled(edges, key));
        assert forall|e: (u64, u64)| e != key implies #[trigger] out.contains(e) == edges.contains(e) by {
            if out.contains(e) {
                let a = choose|a: int| 0 <= a < out.len() && out[a] == e;
                let ia = if a < i { a } else { a + 1 };
                assert(out[a] == edges[ia]);
            }
            if edges.contains(e) {
                let b = choose|b: int| 0 <= b < edges.len() && edges[b] == e;
                assert(b != i);
                let ob = if b < i { b } else { b - 1 };
                assert(out[ob] == edges[b]);
            }
        }
        if at_most_once(edges, key) && out.contains(key) {
            let a = choose|a: int| 0 <= a < out.len() && out[a] == key;
            let ia = if a < i { a } else { a + 1 };
            assert(out[a] == edges[ia]);
            if ia < i {
                assert(!(edges[ia] == key && edges[i] == key));
            } else {
                assert(!(edges[i] == key && edges[ia] == key));
            }
        }
    } else {
        let out = edges.push(key);
        assert(out[edges.len() as int] == key);
        assert forall|e: (u64, u64)| e != key implies #[trigger] out.contains(e) == edges.contains(e) by {
            if out.contains(e) {
                let a = choose|a: int| 0 <= a < out.len() && out[a] == e;
                assert(a < edges.len());
                assert(edges[a] == e);
            }
            if edges.contains(e) {
                let b = choose|b: int| 0 <= b < edges.len() && edges[b] == e;
                assert(out[b] == e);
            }
        }
    }
}

/// Toggling a normalized edge keeps the edge list well formed, and leaves
/// the edge stored exactly when it was not before.
pub proof fn lemma_toggle_keeps_well_formed(edges: Seq<(u64, u64)>, key: (u64, u64))
    requires
        edges_well_formed(edges),
        key.0 < key.1,
    ensures
        edges_well_formed(toggled(edges, key)),
        toggled(edges, key).contains(key) == !edges.contains(key),
{
    if edges.contains(key) {
        edges.index_of_first_ensures(key);
        let i = edges.index_of_first(key).unwrap();
        let out = edges.remove(i);
        assert(out == toggled(edges, key));
        assert forall|a: int, b: int| 0 <= a < out.len() && 0 <= b < out.len() && a != b implies out[a]
            != out[b] by {
            let ia = if a < i { a } else { a + 1 };
            let ib = if b < i { b } else { b + 1 };
            assert(out[a] == edges[ia]);
            assert(out[b] == edges[ib]);
        }
        assert forall|a: int| 0 <= a < out.len() implies #[trigger] out[a].0 < out[a].1 by {
            let ia = if a < i { a } else { a + 1 };
            assert(out[a] == edges[ia]);
        }
        if out.contains(key) {
            let a = choose|a: int| 0 <= a < out.len() && out[a] == key;
            let ia = if a < i { a } else { a + 1 };
            assert(out[a] == edges[ia]);
            assert(edges[ia] == edges[i]);
        }
    } else {
        let out = edges.push(key);
        assert(out[edges.len() as int] == key);
        assert forall|a: int, b: int| 0 <= a < out.len() && 0 <= b < out.len() && a != b implies out[a]
            != out[b] by {
            if a < edges.len() && b < edges.len() {
            } else if a < edges.len() {
                assert(out[a] == edges[a]);
            } else if b < edges.len() {
                assert(out[b] == edges[b]);
            }
        }
    }
}

/// Links are undirected: the pair `(a, b)` and the pair `(b, a)` name the
/// same stored edge, so `is_linked` and `toggle_edge` answer the same for
/// either order.
pub proof fn lemma_links_are_undirected(a: u64, b: u64)
    ensures
        edge_of(a, b) == edge_of(b, a),
{
}

/// Toggling a link and then toggling it again, from either end, leaves the
/// graph with the same set of links it started with.
pub proof fn lemma_toggle_twice_restores_links(edges: Seq<(u64, u64)>, a: u64, b: u64)
    requires
        edges_well_formed(edges),
        a != b,
    ensures
        toggled(toggled(edges, edge_of(a, b)), edge_of(b, a)).to_set() == edges.to_set(),
        edges_well_formed(toggled(toggled(edges, edge_of(a, b)), edge_of(b, a))),
{
    let key = edge_of(a, b);
    lemma_toggle_keeps_well_formed(edges, key);
    let once = toggled(edges, key);
    lemma_toggle_keeps_well_formed(once, key);
    let twice = toggled(once, key);
    if edges.contains(key) {
        edges.index_of_first_ensures(key);
        let i = edges.index_of_first(key).unwrap();
        assert(once == edges.remove(i));
        assert(!once.contains(key));
        assert(twice == once.push(key));
        assert forall|x: (u64, u64)| twice.contains(x) <==> edges.contains(x) by {
            if twice.contains(x) {
                let k = choose|k: int| 0 <= k < twice.len() && twice[k] == x;
                if k < once.len() {
                    let ik = if k < i { k } else { k + 1 };
                    assert(edges[ik] == x);
                } else {
                    assert(edges[i] == x);
                }
            }
            if edges.contains(x) {
                let k = choose|k: int| 0 <= k < edges.len() && edges[k] == x;
                if k == i {
                    assert(twice[once.len() as int] == x);
                } else {
                    let ok = if k < i { k } else { k - 1 };
                    assert(once[ok] == x);
                    assert(twice[ok] == x);
                }
            }
        }
    } else {
        assert(once == edges.push(key));
        assert(once.contains(key)) by {
            assert(once[edges.len() as int] == key);
        }
        once.index_of_first_ensures(key);
        let i = once.index_of_first(key).unwrap();
        assert(i == edges.len()) by {
            if i < edges.len() {
                assert(edges[i] == key);
            }
        }
        assert(twice =~= edges);
    }
    assert(twice.to_set() =~= edges.to_set());
}

/// After `remove_node(id)`, no node carries `id` and no link touches it, and
/// every other node and link is still there.
pub proof fn lemma_removed_node_leaves_no_trace(nodes: Seq<Node>, edges: Seq<(u64, u64)>, id: u64)
    ensures
        !ids_of(nodes.filter(node_kept(id))).contains(id),
        forall|i: int|
            0 <= i < edges.filter(edge_kept(id)).len() ==> !touches(
                #[trigger] edges.filter(edge_kept(id))[i],
                id,
            ),
        forall|node: Node| nodes.contains(node) && node.id != id ==> #[trigger] nodes.filter(
            node_kept(id),
        ).contains(node),
        forall|edge: (u64, u64)|
            edges.contains(edge) && !touches(edge, id) ==> #[trigger] edges.filter(
                edge_kept(id),
            ).contains(edge),
{
    broadcast use vstd::seq_lib::group_filter_ensures;

    let kept = nodes.filter(node_kept(id));
    if ids_of(kept).contains(id) {
        let k = choose|k: int| 0 <= k < ids_of(kept).len() && ids_of(kept)[k] == id;
        assert(kept[k].id == id);
        assert(node_kept(id)(kept[k]));
    }
    assert forall|i: int| 0 <= i < edges.filter(edge_kept(id)).len() implies !touches(
        #[trigger] edges.filter(edge_kept(id))[i],
        id,
    ) by {
        assert(edge_kept(id)(edges.filter(edge_kept(id))[i]));
    }
    assert forall|node: Node| nodes.contains(node) && node.id != id implies #[trigger] nodes.filter(
        node_kept(id),
    ).contains(node) by {
        let k = choose|k: int| 0 <= k < nodes.len() && nodes[k] == node;
        nodes.lemma_filter_contains(node_kept(id), k);
    }
    assert forall|edge: (u64, u64)| edges.contains(edge) && !touches(edge, id) implies #[trigger] edges.filter(
        edge_kept(id),
    ).contains(edge) by {
        let k = choose|k: int| 0 <= k < edges.len() && edges[k] == edge;
        edges.lemma_filter_contains(edge_kept(id), k);
    }
}

} // verus!
