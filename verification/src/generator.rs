//! The Erdos-Renyi generator: id allocation, node insertion, edge sampling.
//!
//! Generation runs in two strictly sequential phases over a shared timestamp
//! counter. First, new node ids are allocated after the current maximum and
//! inserted, one timestamp apiece. Second, for every ordered pair of distinct
//! node ids — pre-existing and new alike, in insertion order — one uniform
//! value is drawn, and a directed edge is inserted when the draw falls below
//! the edge probability.

use vstd::prelude::*;
use crate::graph::{distinct_ids, Edge, Graph, GraphError};
use crate::prob::{Probability, PROB_ONE};
use crate::rng::{std_rng_u64, RandomSource};

verus! {

/// The 53-bit uniform value the `k`-th draw of the stream for `seed` gives:
/// the top 53 bits of the 64-bit draw, uniform over `0 .. PROB_ONE`.
pub open spec fn sample53(seed: Seq<u8>, k: int) -> u64 {
    std_rng_u64(seed, k) >> 11
}

/// How many draws the inner loop of row `i` makes for inner positions below
/// `j`: one per position other than `i` itself.
pub open spec fn draws_in_row(i: int, j: int) -> int
    decreases j,
{
    if j <= 0 {
        0
    } else {
        draws_in_row(i, j - 1) + if j - 1 == i {
            0int
        } else {
            1int
        }
    }
}

/// How many draws the rows before row `i` make, over `n` positions.
pub open spec fn draws_before_row(n: int, i: int) -> int
    decreases i,
{
    if i <= 0 {
        0
    } else {
        draws_before_row(n, i - 1) + draws_in_row(i - 1, n)
    }
}

/// The position, in the stream of draws, of the trial for the ordered pair of
/// positions `(i, j)` out of `n`.
pub open spec fn pair_draw(n: int, i: int, j: int) -> int {
    draws_before_row(n, i) + draws_in_row(i, j)
}

/// Whether the trial for the pair of positions `(i, j)` out of `n` adds an
/// edge: equal positions are skipped without a draw, and any other pair's
/// draw must fall strictly below the probability's unit count.
pub open spec fn pair_taken(n: int, seed: Seq<u8>, units: u64, i: int, j: int) -> bool {
    i != j && sample53(seed, pair_draw(n, i, j)) < units
}

/// The edges row `i` adds for inner positions below `j`, with `t_row` the
/// timestamp just before the row's first insertion.
pub open spec fn row_edges(
    ids: Seq<u64>,
    seed: Seq<u8>,
    units: u64,
    t_row: int,
    i: int,
    j: int,
) -> Seq<Edge>
    decreases j,
{
    if j <= 0 {
        Seq::empty()
    } else {
        let pre = row_edges(ids, seed, units, t_row, i, j - 1);
        if pair_taken(ids.len() as int, seed, units, i, j - 1) {
            pre.push(Edge { src: ids[i], dst: ids[j - 1], time: (t_row + pre.len() + 1) as i64 })
        } else {
            pre
        }
    }
}

/// The edges the rows before row `i` add, with `t0` the timestamp after the
/// last node insertion.
pub open spec fn rows_edges(ids: Seq<u64>, seed: Seq<u8>, units: u64, t0: int, i: int) -> Seq<
    Edge,
>
    decreases i,
{
    if i <= 0 {
        Seq::empty()
    } else {
        let pre = rows_edges(ids, seed, units, t0, i - 1);
        pre + row_edges(ids, seed, units, t0 + pre.len(), i - 1, ids.len() as int)
    }
}

/// The full sequence of edges the sampling pass over `ids` adds, drawing the
/// stream for `seed`, with timestamps counting on from `t0`.
pub open spec fn sampled_edges(ids: Seq<u64>, seed: Seq<u8>, units: u64, t0: int) -> Seq<Edge> {
    rows_edges(ids, seed, units, t0, ids.len() as int)
}

/// The ids allocated for `n` new nodes after the previous maximum `base`.
pub open spec fn fresh_ids(base: u64, n: int) -> Seq<u64> {
    Seq::new(n as nat, |k: int| (base + 1 + k) as u64)
}

/// The timestamps given to `n` new nodes, counting on from `t0`.
pub open spec fn fresh_times(t0: int, n: int) -> Seq<i64> {
    Seq::new(n as nat, |k: int| (t0 + 1 + k) as i64)
}

/// The timestamp the counter starts from: the latest recorded event time, or
/// zero for a graph without events.
pub open spec fn latest_or_zero(latest: Option<i64>) -> int {
    match latest {
        Some(l) => l as int,
        None => 0,
    }
}

/// The latest event time after a generation pass that inserted `n` nodes and
/// `e` edges: unchanged when nothing was inserted, else the time of the last
/// insertion.
pub open spec fn generated_latest(old_latest: Option<i64>, n: int, e: int) -> Option<i64> {
    if n + e == 0 {
        old_latest
    } else {
        Some((latest_or_zero(old_latest) + n + e) as i64)
    }
}

/// The most insertions one generation call can make: one per new node, and
/// one per ordered pair of distinct nodes.
pub open spec fn max_insertions(old_count: int, n: int) -> int {
    n + (old_count + n) * (old_count + n - 1)
}

/// The largest id in a sequence, or zero for an empty one: the point the
/// allocation of new ids starts after.
pub open spec fn seq_max(ids: Seq<u64>) -> u64
    decreases ids.len(),
{
    if ids.len() == 0 {
        0u64
    } else {
        let m = seq_max(ids.drop_last());
        if ids.last() >= m {
            ids.last()
        } else {
            m
        }
    }
}

/// Every id of a sequence is at most its maximum.
pub proof fn lemma_seq_max_bounds(ids: Seq<u64>)
    ensures
        forall|k: int| 0 <= k < ids.len() ==> #[trigger] ids[k] <= seq_max(ids),
    decreases ids.len(),
{
    if ids.len() > 0 {
        lemma_seq_max_bounds(ids.drop_last());
        assert forall|k: int| 0 <= k < ids.len() implies #[trigger] ids[k] <= seq_max(ids) by {
            if k < ids.len() - 1 {
                assert(ids.drop_last()[k] == ids[k]);
                assert(ids.drop_last()[k] <= seq_max(ids.drop_last()));
            } else {
                assert(ids[k] == ids.last());
            }
        }
    }
}

/// Closed form of the draws one full or partial row makes: one per inner
/// position, less the one skipped at the row's own position.
pub proof fn lemma_draws_in_row_closed(i: int, j: int)
    requires
        0 <= i,
        0 <= j,
    ensures
        draws_in_row(i, j) == if i < j {
            j - 1
        } else {
            j
        },
    decreases j,
{
    if j > 0 {
        lemma_draws_in_row_closed(i, j - 1);
    }
}

/// Closed form of the draws the rows before row `i` make: `n - 1` apiece.
pub proof fn lemma_draws_before_row_closed(n: int, i: int)
    requires
        0 <= i <= n,
    ensures
        draws_before_row(n, i) == i * (n - 1),
    decreases i,
{
    if i > 0 {
        lemma_draws_before_row_closed(n, i - 1);
        lemma_draws_in_row_closed(i - 1, n);
        assert((i - 1) * (n - 1) + (n - 1) == i * (n - 1)) by (nonlinear_arith);
    } else {
        assert(i * (n - 1) == 0) by (nonlinear_arith)
            requires
                i == 0,
        ;
    }
}

/// A row adds at most one edge per draw it makes.
pub proof fn lemma_row_edges_len(ids: Seq<u64>, seed: Seq<u8>, units: u64, t_row: int, i: int, j: int)
    requires
        0 <= j,
    ensures
        row_edges(ids, seed, units, t_row, i, j).len() <= draws_in_row(i, j),
        0 <= draws_in_row(i, j),
    decreases j,
{
    if j > 0 {
        lemma_row_edges_len(ids, seed, units, t_row, i, j - 1);
    }
}

/// The sampling pass adds at most one edge per draw it makes.
pub proof fn lemma_rows_edges_len(ids: Seq<u64>, seed: Seq<u8>, units: u64, t0: int, i: int)
    requires
        0 <= i,
    ensures
        rows_edges(ids, seed, units, t0, i).len() <= draws_before_row(ids.len() as int, i),
        0 <= draws_before_row(ids.len() as int, i),
    decreases i,
{
    if i > 0 {
        lemma_rows_edges_len(ids, seed, units, t0, i - 1);
        let pre = rows_edges(ids, seed, units, t0, i - 1);
        lemma_row_edges_len(ids, seed, units, t0 + pre.len(), i - 1, ids.len() as int);
    }
}

/// A pair the loop actually draws for leaves the draw count within the total
/// of `n * (n - 1)` trials.
pub proof fn lemma_active_pair_draw(n: int, i: int, j: int)
    requires
        0 <= i < n,
        0 <= j < n,
        i != j,
    ensures
        0 <= pair_draw(n, i, j),
        pair_draw(n, i, j) + 1 <= n * (n - 1),
{
    lemma_draws_before_row_closed(n, i);
    lemma_draws_in_row_closed(i, j);
    if i < j {
        assert(i * (n - 1) + j <= n * (n - 1)) by (nonlinear_arith)
            requires
                0 <= i < n,
                j < n,
        ;
    } else {
        assert(i * (n - 1) + j + 1 <= n * (n - 1)) by (nonlinear_arith)
            requires
                0 <= j < i < n,
        ;
    }
    assert(i * (n - 1) >= 0) by (nonlinear_arith)
        requires
            0 <= i,
            1 <= n,
    ;
}

/// The successor rule of the id space: the id after `prev`, or the base of
/// the id space when there is no previous id.
pub fn next_id(prev: Option<u64>) -> (r: u64)
    requires
        prev matches Some(m) ==> m < u64::MAX,
    ensures
        r == match prev {
            Some(m) => m + 1,
            None => 0int,
        },
{
    match prev {
        Some(m) => m + 1,
        None => 0,
    }
}

/// The largest id of a vector, or zero for an empty one.
pub fn max_id(ids: &Vec<u64>) -> (r: u64)
    ensures
        r == seq_max(ids@),
{
    let mut m: u64 = 0;
    let mut k: usize = 0;
    while k < ids.len()
        invariant
            k <= ids@.len(),
            m == seq_max(ids@.subrange(0, k as int)),
        decreases ids@.len() - k,
    {
        proof {
            assert(ids@.subrange(0, k + 1).drop_last() =~= ids@.subrange(0, k as int));
            assert(ids@.subrange(0, k + 1).last() == ids@[k as int]);
        }
        if ids[k] >= m {
            m = ids[k];
        }
        k = k + 1;
    }
    proof {
        assert(ids@.subrange(0, ids@.len() as int) =~= ids@);
    }
    m
}

/// Populates `graph` from an explicit random source: inserts `n_nodes` new
/// nodes after the current maximum id, then draws one trial per ordered pair
/// of distinct node ids — pre-existing and new alike — and inserts a directed
/// edge for each draw below `p`. Timestamps share one counter, advancing by
/// one per insertion. With this storage neither phase can fail, so the call
/// always returns `Ok`; an edge-insertion error would abort generation and
/// surface here.
#[verifier::loop_isolation(false)]
#[verifier::rlimit(100)]
pub fn generate_with_source(
    graph: &mut Graph,
    n_nodes: usize,
    p: Probability,
    src: RandomSource,
) -> (r: Result<(), GraphError>)
    requires
        old(graph).wf(),
        src.draws() == 0,
        seq_max(old(graph).node_ids@) + n_nodes <= u64::MAX,
        latest_or_zero(old(graph).latest) + max_insertions(
            old(graph).node_ids@.len() as int,
            n_nodes as int,
        ) <= i64::MAX,
    ensures
        r is Ok,
        final(graph).wf(),
        final(graph).node_ids@ == old(graph).node_ids@ + fresh_ids(
            seq_max(old(graph).node_ids@),
            n_nodes as int,
        ),
        final(graph).node_times@ == old(graph).node_times@ + fresh_times(
            latest_or_zero(old(graph).latest),
            n_nodes as int,
        ),
        final(graph).edge_list@ == old(graph).edge_list@ + sampled_edges(
            old(graph).node_ids@ + fresh_ids(seq_max(old(graph).node_ids@), n_nodes as int),
            src.stream_seed(),
            p.units,
            latest_or_zero(old(graph).latest) + n_nodes,
        ),
        final(graph).latest == generated_latest(
            old(graph).latest,
            n_nodes as int,
            final(graph).edge_list@.len() - old(graph).edge_list@.len(),
        ),
{
    let mut src = src;
    let t_start: i64 = match graph.latest_time() {
        Some(t) => t,
        None => 0,
    };
    let ids = graph.all_node_ids();
    let base: u64 = max_id(&ids);
    let ghost g0 = *graph;
    let ghost total = g0.node_ids@.len() + n_nodes as int;
    proof {
        lemma_seq_max_bounds(g0.node_ids@);
        assert(total * (total - 1) >= 0) by (nonlinear_arith)
            requires
                total >= 0,
        ;
    }
    let mut time: i64 = t_start;
    let mut next: u64 = base;
    let mut k: usize = 0;
    while k < n_nodes
        invariant
            k <= n_nodes,
            next == base + k,
            time == t_start + k,
            graph.wf(),
            graph.node_ids@ == g0.node_ids@ + fresh_ids(base, k as int),
            graph.node_times@ == g0.node_times@ + fresh_times(t_start as int, k as int),
            graph.edge_list@ == g0.edge_list@,
            graph.latest == generated_latest(g0.latest, k as int, 0),
        decreases n_nodes - k,
    {
        next = next_id(Some(next));
        time = time + 1;
        proof {
            assert forall|m: int|
                0 <= m < graph.node_ids@.len() implies #[trigger] graph.node_ids@[m] != next by {
                if m < g0.node_ids@.len() {
                    assert(graph.node_ids@[m] == g0.node_ids@[m]);
                    assert(g0.node_ids@[m] <= base);
                } else {
                    assert(graph.node_ids@[m] == fresh_ids(base, k as int)[m
                        - g0.node_ids@.len()]);
                }
            }
            assert(!graph.node_ids@.contains(next));
        }
        let res = graph.add_node(time, next);
        match res {
            Ok(()) => {},
            Err(_) => {
                // cannot arise: the id is fresh; the policy for a node
                // collision would be to skip it and go on.
            },
        }
        k = k + 1;
        proof {
            assert(graph.node_ids@ =~= g0.node_ids@ + fresh_ids(base, k as int));
            assert(graph.node_times@ =~= g0.node_times@ + fresh_times(t_start as int, k as int));
        }
    }
    let all_ids = graph.all_node_ids();
    let n_total = all_ids.len();
    let ghost g1 = *graph;
    let ghost s = src.stream_seed();
    let ghost u = p.units;
    let ghost t1 = time as int;
    let ghost nt = n_total as int;
    proof {
        assert(nt == total);
    }
    let mut i: usize = 0;
    while i < n_total
        invariant
            i <= n_total,
            graph.wf(),
            graph.node_ids@ == g1.node_ids@,
            graph.node_times@ == g1.node_times@,
            graph.edge_list@ == g1.edge_list@ + rows_edges(all_ids@, s, u, t1, i as int),
            src.stream_seed() == s,
            src.draws() == draws_before_row(nt, i as int),
            time == t1 + rows_edges(all_ids@, s, u, t1, i as int).len(),
            graph.latest == generated_latest(
                g0.latest,
                n_nodes as int,
                rows_edges(all_ids@, s, u, t1, i as int).len() as int,
            ),
            rows_edges(all_ids@, s, u, t1, i as int).len() <= draws_before_row(nt, i as int),
            draws_before_row(nt, i as int) <= nt * (nt - 1),
        decreases n_total - i,
    {
        let ghost done = rows_edges(all_ids@, s, u, t1, i as int);
        let ghost t_row = t1 + done.len();
        let mut j: usize = 0;
        while j < n_total
            invariant
                j <= n_total,
                graph.wf(),
                graph.node_ids@ == g1.node_ids@,
                graph.node_times@ == g1.node_times@,
                graph.edge_list@ == g1.edge_list@ + done + row_edges(
                    all_ids@,
                    s,
                    u,
                    t_row,
                    i as int,
                    j as int,
                ),
                src.stream_seed() == s,
                src.draws() == pair_draw(nt, i as int, j as int),
                time == t_row + row_edges(all_ids@, s, u, t_row, i as int, j as int).len(),
                graph.latest == generated_latest(
                    g0.latest,
                    n_nodes as int,
                    done.len() + row_edges(all_ids@, s, u, t_row, i as int, j as int).len() as int,
                ),
                row_edges(all_ids@, s, u, t_row, i as int, j as int).len() <= draws_in_row(
                    i as int,
                    j as int,
                ),
            decreases n_total - j,
        {
            let ghost row_pre = row_edges(all_ids@, s, u, t_row, i as int, j as int);
            if all_ids[i] != all_ids[j] {
                proof {
                    lemma_active_pair_draw(nt, i as int, j as int);
                }
                let d = src.next_u64();
                let m = d >> 11;
                if m < p.units {
                    time = time + 1;
                    proof {
                        assert(all_ids@.contains(all_ids@[i as int]));
                        assert(all_ids@.contains(all_ids@[j as int]));
                    }
                    let res = graph.add_edge(time, all_ids[i], all_ids[j]);
                    match res {
                        Ok(()) => {},
                        Err(e) => {
                            // cannot arise: both endpoints were just read from
                            // the graph. An edge-insertion failure is fatal
                            // and aborts generation.
                            return Err(e);
                        },
                    }
                }
            } else {
                proof {
                    if i as int != j as int {
                        if i < j {
                            assert(all_ids@[i as int] != all_ids@[j as int]);
                        } else {
                            assert(all_ids@[j as int] != all_ids@[i as int]);
                        }
                    }
                }
            }
            j = j + 1;
            proof {
                assert(row_edges(all_ids@, s, u, t_row, i as int, j as int) == if pair_taken(
                    nt,
                    s,
                    u,
                    i as int,
                    j - 1,
                ) {
                    row_pre.push(
                        Edge {
                            src: all_ids@[i as int],
                            dst: all_ids@[j - 1],
                            time: (t_row + row_pre.len() + 1) as i64,
                        },
                    )
                } else {
                    row_pre
                });
                assert(graph.edge_list@ =~= g1.edge_list@ + done + row_edges(
                    all_ids@,
                    s,
                    u,
                    t_row,
                    i as int,
                    j as int,
                ));
            }
        }
        i = i + 1;
        proof {
            assert(rows_edges(all_ids@, s, u, t1, i as int) == done + row_edges(
                all_ids@,
                s,
                u,
                t_row,
                i - 1,
                nt,
            ));
            assert(graph.edge_list@ =~= g1.edge_list@ + rows_edges(all_ids@, s, u, t1, i as int));
            lemma_rows_edges_len(all_ids@, s, u, t1, i as int);
            lemma_draws_before_row_closed(nt, i as int);
            assert((i as int) * (nt - 1) <= nt * (nt - 1)) by (nonlinear_arith)
                requires
                    0 <= i as int <= nt,
            ;
        }
    }
    proof {
        assert(rows_edges(all_ids@, s, u, t1, nt) == sampled_edges(all_ids@, s, u, t1));
    }
    Ok(())
}

/// Generates an Erdos-Renyi random graph in the provided `graph`: adds
/// `n_nodes` nodes, then a directed edge between each ordered pair of
/// distinct nodes with probability `p`. With a seed the source is
/// reproducible: the resulting edges are a function of the starting state,
/// the arguments and the seed. Without one the source is seeded from system
/// entropy: the result is the sampling outcome of some unknown seed.
pub fn erdos_renyl(
    graph: &mut Graph,
    n_nodes: usize,
    p: Probability,
    seed: Option<[u8; 32]>,
) -> (r: Result<(), GraphError>)
    requires
        old(graph).wf(),
        seq_max(old(graph).node_ids@) + n_nodes <= u64::MAX,
        latest_or_zero(old(graph).latest) + max_insertions(
            old(graph).node_ids@.len() as int,
            n_nodes as int,
        ) <= i64::MAX,
    ensures
        r is Ok,
        final(graph).wf(),
        final(graph).node_ids@ == old(graph).node_ids@ + fresh_ids(
            seq_max(old(graph).node_ids@),
            n_nodes as int,
        ),
        final(graph).node_times@ == old(graph).node_times@ + fresh_times(
            latest_or_zero(old(graph).latest),
            n_nodes as int,
        ),
        seed matches Some(sd) ==> final(graph).edge_list@ == old(graph).edge_list@
            + sampled_edges(
            old(graph).node_ids@ + fresh_ids(seq_max(old(graph).node_ids@), n_nodes as int),
            sd@,
            p.units,
            latest_or_zero(old(graph).latest) + n_nodes,
        ),
        seed is None ==> exists|s: Seq<u8>|
            final(graph).edge_list@ == old(graph).edge_list@ + #[trigger] sampled_edges(
                old(graph).node_ids@ + fresh_ids(seq_max(old(graph).node_ids@), n_nodes as int),
                s,
                p.units,
                latest_or_zero(old(graph).latest) + n_nodes,
            ),
        final(graph).latest == generated_latest(
            old(graph).latest,
            n_nodes as int,
            final(graph).edge_list@.len() - old(graph).edge_list@.len(),
        ),
{
    match seed {
        Some(sd) => generate_with_source(graph, n_nodes, p, RandomSource::from_seed(sd)),
        None => {
            let src = RandomSource::from_entropy();
            let ghost s = src.stream_seed();
            let r = generate_with_source(graph, n_nodes, p, src);
            proof {
                assert(graph.edge_list@ == old(graph).edge_list@ + sampled_edges(
                    old(graph).node_ids@ + fresh_ids(
                        seq_max(old(graph).node_ids@),
                        n_nodes as int,
                    ),
                    s,
                    p.units,
                    latest_or_zero(old(graph).latest) + n_nodes,
                ));
            }
            r
        },
    }
}

/// Every 53-bit sample is below `PROB_ONE`.
pub proof fn lemma_sample53_bound(seed: Seq<u8>, k: int)
    ensures
        sample53(seed, k) < PROB_ONE,
{
    let x = std_rng_u64(seed, k);
    assert(x >> 11 < (1u64 << 53)) by (bit_vector);
}

proof fn lemma_row_edges_zero(ids: Seq<u64>, seed: Seq<u8>, t_row: int, i: int, j: int)
    requires
        0 <= j,
    ensures
        row_edges(ids, seed, 0u64, t_row, i, j).len() == 0,
    decreases j,
{
    if j > 0 {
        lemma_row_edges_zero(ids, seed, t_row, i, j - 1);
    }
}

proof fn lemma_rows_edges_zero(ids: Seq<u64>, seed: Seq<u8>, t0: int, i: int)
    requires
        0 <= i,
    ensures
        rows_edges(ids, seed, 0u64, t0, i).len() == 0,
    decreases i,
{
    if i > 0 {
        lemma_rows_edges_zero(ids, seed, t0, i - 1);
        lemma_row_edges_zero(
            ids,
            seed,
            t0 + rows_edges(ids, seed, 0u64, t0, i - 1).len(),
            i - 1,
            ids.len() as int,
        );
    }
}

/// Law: with a probability of zero the sampling pass adds no edge, whatever
/// the seed and the node set.
pub proof fn lemma_zero_probability_no_edges(ids: Seq<u64>, seed: Seq<u8>, t0: int)
    ensures
        sampled_edges(ids, seed, 0u64, t0).len() == 0,
{
    lemma_rows_edges_zero(ids, seed, t0, ids.len() as int);
}

proof fn lemma_row_edges_full(ids: Seq<u64>, seed: Seq<u8>, units: u64, t_row: int, i: int, j: int)
    requires
        0 <= j,
        PROB_ONE <= units,
    ensures
        row_edges(ids, seed, units, t_row, i, j).len() == draws_in_row(i, j),
    decreases j,
{
    if j > 0 {
        lemma_row_edges_full(ids, seed, units, t_row, i, j - 1);
        if j - 1 != i {
            lemma_sample53_bound(seed, pair_draw(ids.len() as int, i, j - 1));
        }
    }
}

proof fn lemma_rows_edges_full(ids: Seq<u64>, seed: Seq<u8>, units: u64, t0: int, i: int)
    requires
        0 <= i,
        PROB_ONE <= units,
    ensures
        rows_edges(ids, seed, units, t0, i).len() == draws_before_row(ids.len() as int, i),
    decreases i,
{
    if i > 0 {
        lemma_rows_edges_full(ids, seed, units, t0, i - 1);
        lemma_row_edges_full(
            ids,
            seed,
            units,
            t0 + rows_edges(ids, seed, units, t0, i - 1).len(),
            i - 1,
            ids.len() as int,
        );
    }
}

/// Law: with a probability of one — a full `PROB_ONE` units or more — every
/// ordered pair of distinct nodes gets an edge: the sampling pass adds
/// exactly `n * (n - 1)` of them, whatever the seed.
pub proof fn lemma_full_probability_all_edges(ids: Seq<u64>, seed: Seq<u8>, units: u64, t0: int)
    requires
        PROB_ONE <= units,
    ensures
        sampled_edges(ids, seed, units, t0).len() == (ids.len() as int) * (ids.len() as int - 1),
{
    lemma_rows_edges_full(ids, seed, units, t0, ids.len() as int);
    lemma_draws_before_row_closed(ids.len() as int, ids.len() as int);
}

/// Law: the sampling pass never adds more edges than there are ordered pairs
/// of distinct nodes: at most `n * (n - 1)`, whatever the probability and the
/// seed.
pub proof fn lemma_edge_count_bound(ids: Seq<u64>, seed: Seq<u8>, units: u64, t0: int)
    ensures
        sampled_edges(ids, seed, units, t0).len() <= (ids.len() as int) * (ids.len() as int - 1),
{
    lemma_rows_edges_len(ids, seed, units, t0, ids.len() as int);
    lemma_draws_before_row_closed(ids.len() as int, ids.len() as int);
}

proof fn lemma_row_edges_no_self_loops(
    ids: Seq<u64>,
    seed: Seq<u8>,
    units: u64,
    t_row: int,
    i: int,
    j: int,
)
    requires
        distinct_ids(ids),
        0 <= i < ids.len(),
        0 <= j <= ids.len(),
    ensures
        forall|k: int|
            0 <= k < row_edges(ids, seed, units, t_row, i, j).len()
                ==> #[trigger] row_edges(ids, seed, units, t_row, i, j)[k].src != row_edges(
                ids,
                seed,
                units,
                t_row,
                i,
                j,
            )[k].dst,
    decreases j,
{
    if j > 0 {
        lemma_row_edges_no_self_loops(ids, seed, units, t_row, i, j - 1);
        let pre = row_edges(ids, seed, units, t_row, i, j - 1);
        let cur = row_edges(ids, seed, units, t_row, i, j);
        if pair_taken(ids.len() as int, seed, units, i, j - 1) {
            if i < j - 1 {
                assert(ids[i] != ids[j - 1]);
            } else {
                assert(ids[j - 1] != ids[i]);
            }
            assert forall|k: int| 0 <= k < cur.len() implies cur[k].src != cur[k].dst by {
                if k < pre.len() {
                    assert(cur[k] == pre[k]);
                } else {
                    assert(cur[k].src == ids[i] && cur[k].dst == ids[j - 1]);
                }
            }
        } else {
            assert(cur == pre);
        }
    }
}

proof fn lemma_rows_edges_no_self_loops(
    ids: Seq<u64>,
    seed: Seq<u8>,
    units: u64,
    t0: int,
    i: int,
)
    requires
        distinct_ids(ids),
        0 <= i <= ids.len(),
    ensures
        forall|k: int|
            0 <= k < rows_edges(ids, seed, units, t0, i).len()
                ==> #[trigger] rows_edges(ids, seed, units, t0, i)[k].src != rows_edges(
                ids,
                seed,
                units,
                t0,
                i,
            )[k].dst,
    decreases i,
{
    if i > 0 {
        lemma_rows_edges_no_self_loops(ids, seed, units, t0, i - 1);
        let pre = rows_edges(ids, seed, units, t0, i - 1);
        lemma_row_edges_no_self_loops(ids, seed, units, t0 + pre.len(), i - 1, ids.len() as int);
    }
}

/// Law: the sampling pass adds no self-loop: over distinct node ids, every
/// edge it adds joins two different nodes.
pub proof fn lemma_no_self_loops(ids: Seq<u64>, seed: Seq<u8>, units: u64, t0: int)
    requires
        distinct_ids(ids),
    ensures
        forall|k: int|
            0 <= k < sampled_edges(ids, seed, units, t0).len()
                ==> #[trigger] sampled_edges(ids, seed, units, t0)[k].src != sampled_edges(
                ids,
                seed,
                units,
                t0,
            )[k].dst,
{
    lemma_rows_edges_no_self_loops(ids, seed, units, t0, ids.len() as int);
}

/// Law: generation leaves exactly `n` more nodes than the graph had, whatever
/// the probability and the seed — starting from an empty graph, exactly `n`.
pub proof fn lemma_node_count(ids: Seq<u64>, n: int)
    requires
        0 <= n,
    ensures
        (ids + fresh_ids(seq_max(ids), n)).len() == ids.len() + n,
{
}

/// Law: the ids allocated for new nodes are strictly greater than every
/// pre-existing id, and mutually distinct.
pub proof fn lemma_fresh_ids_fresh(ids: Seq<u64>, n: int)
    requires
        0 <= n,
        seq_max(ids) + n <= u64::MAX,
    ensures
        fresh_ids(seq_max(ids), n).len() == n,
        forall|k: int, m: int|
            0 <= k < n && 0 <= m < ids.len() ==> #[trigger] fresh_ids(seq_max(ids), n)[k]
                > #[trigger] ids[m],
        distinct_ids(fresh_ids(seq_max(ids), n)),
{
    lemma_seq_max_bounds(ids);
}

/// Law: generation is deterministic under a fixed seed. From equal starting
/// graph states, with equal node counts, probabilities and seeds, the node
/// ids, node timestamps and edges that `erdos_renyl` is specified to leave
/// behind coincide.
pub proof fn lemma_seeded_generation_deterministic(
    a: Graph,
    b: Graph,
    n: int,
    units: u64,
    seed: Seq<u8>,
)
    requires
        a.node_ids@ == b.node_ids@,
        a.node_times@ == b.node_times@,
        a.edge_list@ == b.edge_list@,
        a.latest == b.latest,
    ensures
        a.node_ids@ + fresh_ids(seq_max(a.node_ids@), n) == b.node_ids@ + fresh_ids(
            seq_max(b.node_ids@),
            n,
        ),
        a.node_times@ + fresh_times(latest_or_zero(a.latest), n) == b.node_times@ + fresh_times(
            latest_or_zero(b.latest),
            n,
        ),
        a.edge_list@ + sampled_edges(
            a.node_ids@ + fresh_ids(seq_max(a.node_ids@), n),
            seed,
            units,
            latest_or_zero(a.latest) + n,
        ) == b.edge_list@ + sampled_edges(
            b.node_ids@ + fresh_ids(seq_max(b.node_ids@), n),
            seed,
            units,
            latest_or_zero(b.latest) + n,
        ),
{
}

} // verus!
