//! A mutable, time-indexed directed graph: the storage the generator fills.
//!
//! Nodes and edges are recorded in insertion order, each tagged with the event
//! time of its insertion, and the graph remembers the latest event time seen.

use vstd::prelude::*;

verus! {

/// A directed edge, tagged with the event time of its insertion.
#[derive(Clone, Copy, Debug, PartialEq, Eq, Structural)]
pub struct Edge {
    pub src: u64,
    pub dst: u64,
    pub time: i64,
}

/// The ways an insertion into the graph can fail.
#[derive(Clone, Copy, Debug, PartialEq, Eq, Structural)]
pub enum GraphError {
    /// A node with the given id is already present.
    DuplicateNodeId,
    /// An endpoint of the edge names no node of the graph.
    MissingEndpoint,
}

/// Whether a sequence of node ids holds no id twice.
pub open spec fn distinct_ids(ids: Seq<u64>) -> bool {
    forall|i: int, j: int| 0 <= i < j < ids.len() ==> ids[i] != ids[j]
}

/// The latest event time after an insertion at time `t`: the old latest time,
/// unless `t` exceeds it.
pub open spec fn bump_latest(latest: Option<i64>, t: i64) -> Option<i64> {
    match latest {
        Some(l) => if l >= t {
            Some(l)
        } else {
            Some(t)
        },
        None => Some(t),
    }
}

/// A directed graph with time-tagged nodes and edges.
pub struct Graph {
    /// Node ids, in insertion order, each held once.
    pub node_ids: Vec<u64>,
    /// Insertion time of each node, aligned with `node_ids`.
    pub node_times: Vec<i64>,
    /// Directed edges, in insertion order.
    pub edge_list: Vec<Edge>,
    /// The latest event time recorded, or `None` for a graph with no events.
    pub latest: Option<i64>,
}

impl Graph {
    /// Well-formedness: ids are unique, edges join present nodes, and the
    /// recorded latest time bounds every event time (absent only when the
    /// graph holds no events at all).
    pub open spec fn wf(self) -> bool {
        &&& self.node_times@.len() == self.node_ids@.len()
        &&& distinct_ids(self.node_ids@)
        &&& forall|k: int|
            0 <= k < self.edge_list@.len() ==> self.node_ids@.contains(#[trigger] self.edge_list@[k].src)
                && self.node_ids@.contains(self.edge_list@[k].dst)
        &&& match self.latest {
            Some(t) => {
                &&& forall|k: int| 0 <= k < self.node_times@.len() ==> #[trigger] self.node_times@[k] <= t
                &&& forall|k: int| 0 <= k < self.edge_list@.len() ==> #[trigger] self.edge_list@[k].time <= t
            },
            None => self.node_ids@.len() == 0 && self.edge_list@.len() == 0,
        }
    }

    /// An empty graph.
    pub fn new() -> (g: Graph)
        ensures
            g.wf(),
            g.node_ids@ == Seq::<u64>::empty(),
            g.node_times@ == Seq::<i64>::empty(),
            g.edge_list@ == Seq::<Edge>::empty(),
            g.latest is None,
    {
        Graph { node_ids: Vec::new(), node_times: Vec::new(), edge_list: Vec::new(), latest: None }
    }

    /// The latest recorded event time, or `None` when the graph is empty of
    /// events.
    pub fn latest_time(&self) -> (r: Option<i64>)
        ensures
            r == self.latest,
    {
        self.latest
    }

    /// The number of nodes.
    pub fn count_nodes(&self) -> (n: usize)
        ensures
            n == self.node_ids@.len(),
    {
        self.node_ids.len()
    }

    /// The number of directed edges.
    pub fn count_edges(&self) -> (n: usize)
        ensures
            n == self.edge_list@.len(),
    {
        self.edge_list.len()
    }

    /// All node ids, in insertion order.
    pub fn all_node_ids(&self) -> (r: Vec<u64>)
        ensures
            r@ == self.node_ids@,
    {
        let mut r: Vec<u64> = Vec::new();
        let mut k: usize = 0;
        while k < self.node_ids.len()
            invariant
                k <= self.node_ids@.len(),
                r@ == self.node_ids@.subrange(0, k as int),
            decreases self.node_ids@.len() - k,
        {
            r.push(self.node_ids[k]);
            k = k + 1;
            proof {
                assert(r@ =~= self.node_ids@.subrange(0, k as int));
            }
        }
        proof {
            assert(r@ =~= self.node_ids@);
        }
        r
    }

    /// Whether a node with the given id is present.
    pub fn contains_node(&self, id: u64) -> (r: bool)
        ensures
            r == self.node_ids@.contains(id),
    {
        let mut k: usize = 0;
        while k < self.node_ids.len()
            invariant
                k <= self.node_ids@.len(),
                forall|i: int| 0 <= i < k ==> self.node_ids@[i] != id,
            decreases self.node_ids@.len() - k,
        {
            if self.node_ids[k] == id {
                return true;
            }
            k = k + 1;
        }
        false
    }

    /// The source and destination of each edge, in insertion order.
    pub fn edge_endpoints(&self) -> (r: Vec<(u64, u64)>)
        ensures
            r@.len() == self.edge_list@.len(),
            forall|k: int|
                0 <= k < r@.len() ==> #[trigger] r@[k] == (
                    self.edge_list@[k].src,
                    self.edge_list@[k].dst,
                ),
    {
        let mut r: Vec<(u64, u64)> = Vec::new();
        let mut k: usize = 0;
        while k < self.edge_list.len()
            invariant
                k <= self.edge_list@.len(),
                r@.len() == k,
                forall|i: int|
                    0 <= i < k ==> #[trigger] r@[i] == (
                        self.edge_list@[i].src,
                        self.edge_list@[i].dst,
                    ),
            decreases self.edge_list@.len() - k,
        {
            let e = self.edge_list[k];
            r.push((e.src, e.dst));
            k = k + 1;
        }
        r
    }

    /// Inserts a node at event time `t`. Fails, leaving the graph unchanged,
    /// exactly when the id is already taken.
    pub fn add_node(&mut self, t: i64, id: u64) -> (r: Result<(), GraphError>)
        requires
            old(self).wf(),
        ensures
            final(self).wf(),
            r is Ok <==> !old(self).node_ids@.contains(id),
            r is Ok ==> final(self).node_ids@ == old(self).node_ids@.push(id)
                && final(self).node_times@ == old(self).node_times@.push(t)
                && final(self).edge_list@ == old(self).edge_list@
                && final(self).latest == bump_latest(old(self).latest, t),
            r matches Err(e) ==> e == GraphError::DuplicateNodeId && *final(self) == *old(self),
    {
        if self.contains_node(id) {
            return Err(GraphError::DuplicateNodeId);
        }
        self.node_ids.push(id);
        self.node_times.push(t);
        self.latest = match self.latest {
            Some(l) => if l >= t {
                Some(l)
            } else {
                Some(t)
            },
            None => Some(t),
        };
        proof {
            assert forall|k: int|
                0 <= k < self.edge_list@.len() implies self.node_ids@.contains(
                #[trigger] self.edge_list@[k].src,
            ) && self.node_ids@.contains(self.edge_list@[k].dst) by {
                assert(old(self).node_ids@.contains(self.edge_list@[k].src));
                assert(old(self).node_ids@.contains(self.edge_list@[k].dst));
                let ks = choose|i: int|
                    0 <= i < old(self).node_ids@.len() && old(self).node_ids@[i]
                        == self.edge_list@[k].src;
                assert(self.node_ids@[ks] == self.edge_list@[k].src);
                let kd = choose|i: int|
                    0 <= i < old(self).node_ids@.len() && old(self).node_ids@[i]
                        == self.edge_list@[k].dst;
                assert(self.node_ids@[kd] == self.edge_list@[k].dst);
            }
        }
        Ok(())
    }

    /// Inserts a directed edge at event time `t`. Fails, leaving the graph
    /// unchanged, exactly when an endpoint names no node of the graph.
    pub fn add_edge(&mut self, t: i64, src: u64, dst: u64) -> (r: Result<(), GraphError>)
        requires
            old(self).wf(),
        ensures
            final(self).wf(),
            r is Ok <==> old(self).node_ids@.contains(src) && old(self).node_ids@.contains(dst),
            r is Ok ==> final(self).node_ids@ == old(self).node_ids@
                && final(self).node_times@ == old(self).node_times@
                && final(self).edge_list@ == old(self).edge_list@.push(Edge { src, dst, time: t })
                && final(self).latest == bump_latest(old(self).latest, t),
            r matches Err(e) ==> e == GraphError::MissingEndpoint && *final(self) == *old(self),
    {
        if !self.contains_node(src) || !self.contains_node(dst) {
            return Err(GraphError::MissingEndpoint);
        }
        self.edge_list.push(Edge { src, dst, time: t });
        self.latest = match self.latest {
            Some(l) => if l >= t {
                Some(l)
            } else {
                Some(t)
            },
            None => Some(t),
        };
        Ok(())
    }
}

} // verus!
