//! A directed graph with a dense adjacency matrix and PageRank scores.
//!
//! Vertices are `0 .. n`.  The adjacency matrix cell `(u, v)` records the
//! edge `u -> v`.  Each vertex carries one PageRank score, a fixed-point
//! number counting units of `1 / SCORE_SCALE`; a freshly built graph holds
//! all-zero scores.
//!
//! The PageRank sweep updates the scores in place in ascending vertex order
//! (a Gauss-Seidel-style sweep): when vertex `v` is updated, the vertices
//! below `v` already hold this sweep's values.  Self-loops never count: a
//! vertex is not its own in-neighbor, and an edge `v -> v` does not add to
//! `v`'s out-degree.

use vstd::prelude::*;

use crate::error::Error;
use crate::matrix::Matrix;

verus! {

/// Scores count units of `1 / SCORE_SCALE`; a score of `SCORE_SCALE` is 1.0.
pub const SCORE_SCALE: u64 = 1_000_000;

/// The baseline `1 - d` with damping factor `d = 0.85`, in score units.
pub const BASE_SCORE: u64 = 150_000;

/// The damping factor is the exact ratio 85 / 100.
pub const DAMPING_NUMERATOR: u64 = 85;

/// See `DAMPING_NUMERATOR`.
pub const DAMPING_DENOMINATOR: u64 = 100;

/// Whether the edge `u -> v` stands in the flattened `n` x `n` adjacency.
pub open spec fn edge(adj: Seq<bool>, n: nat, u: int, v: int) -> bool {
    adj[u * n + v]
}

/// Whether `u` is an in-neighbor of `v`: a vertex other than `v` with an
/// edge `u -> v`.
pub open spec fn is_in_neighbor(adj: Seq<bool>, n: nat, u: int, v: int) -> bool {
    0 <= u < n && u != v && edge(adj, n, u, v)
}

/// The in-neighbors of `v` among vertices `0 .. k`, in ascending order.
pub open spec fn in_neighbors_below(adj: Seq<bool>, n: nat, v: int, k: nat) -> Seq<usize>
    decreases k,
{
    if k == 0 {
        Seq::empty()
    } else {
        let rest = in_neighbors_below(adj, n, v, (k - 1) as nat);
        if is_in_neighbor(adj, n, k - 1, v) {
            rest.push((k - 1) as usize)
        } else {
            rest
        }
    }
}

/// The in-neighbors of `v`, in ascending order.
pub open spec fn in_neighbors(adj: Seq<bool>, n: nat, v: int) -> Seq<usize> {
    in_neighbors_below(adj, n, v, n)
}

/// How many of the vertices `0 .. k` other than `v` the edge set reaches
/// from `v`.
pub open spec fn out_degree_below(adj: Seq<bool>, n: nat, v: int, k: nat) -> nat
    decreases k,
{
    if k == 0 {
        0
    } else {
        out_degree_below(adj, n, v, (k - 1) as nat) + if k - 1 != v && edge(adj, n, v, k - 1) {
            1nat
        } else {
            0nat
        }
    }
}

/// The out-degree of `v`: its outgoing edges, self-loops not counted.
pub open spec fn out_degree(adj: Seq<bool>, n: nat, v: int) -> nat {
    out_degree_below(adj, n, v, n)
}

/// The first `k` in-neighbor contributions to `v`, added up left to right,
/// or `None` as soon as a partial sum leaves `u64`.  Each in-neighbor `u`
/// contributes its score divided by its out-degree, rounded down.
pub open spec fn contrib_sum_prefix(
    adj: Seq<bool>,
    n: nat,
    sc: Seq<u64>,
    nbrs: Seq<usize>,
    k: nat,
) -> Option<int>
    decreases k,
{
    if k == 0 {
        Some(0)
    } else {
        match contrib_sum_prefix(adj, n, sc, nbrs, (k - 1) as nat) {
            None => None,
            Some(s) => {
                let u = nbrs[k - 1] as int;
                let c = sc[u] as int / out_degree(adj, n, u) as int;
                if s + c <= u64::MAX {
                    Some(s + c)
                } else {
                    None
                }
            },
        }
    }
}

/// The inbound contribution to `v`: the sum over `v`'s in-neighbors `u`, in
/// ascending order, of `sc[u] / out_degree(u)`, or `None` on overflow.
pub open spec fn contribution_sum(adj: Seq<bool>, n: nat, sc: Seq<u64>, v: int) -> Option<int> {
    let nbrs = in_neighbors(adj, n, v);
    contrib_sum_prefix(adj, n, sc, nbrs, nbrs.len())
}

/// The new score of `v` given the scores `sc`:
/// `BASE_SCORE + (85 * contribution_sum) / 100` in fixed-point units, or
/// `None` when the computation leaves `u64`.
pub open spec fn updated_score(adj: Seq<bool>, n: nat, sc: Seq<u64>, v: int) -> Option<u64> {
    match contribution_sum(adj, n, sc, v) {
        None => None,
        Some(s) => {
            let p = DAMPING_NUMERATOR as int * s;
            if p <= u64::MAX {
                let x = BASE_SCORE as int + p / (DAMPING_DENOMINATOR as int);
                if x <= u64::MAX {
                    Some(x as u64)
                } else {
                    None
                }
            } else {
                None
            }
        },
    }
}

/// One in-place sweep from vertex `v` up: each vertex in `v .. n`, in
/// ascending order, is replaced by its updated score, so vertices below the
/// one being updated already hold this sweep's values.
pub open spec fn sweep_from(adj: Seq<bool>, n: nat, sc: Seq<u64>, v: nat) -> Option<Seq<u64>>
    decreases n - v,
{
    if v >= n {
        Some(sc)
    } else {
        match updated_score(adj, n, sc, v as int) {
            None => None,
            Some(x) => sweep_from(adj, n, sc.update(v as int, x), (v + 1) as nat),
        }
    }
}

/// The scores after `iters` full sweeps starting from `sc`, or `None` when
/// some sweep leaves `u64`.
pub open spec fn pagerank_scores(adj: Seq<bool>, n: nat, sc: Seq<u64>, iters: nat) -> Option<
    Seq<u64>,
>
    decreases iters,
{
    if iters == 0 {
        Some(sc)
    } else {
        match sweep_from(adj, n, sc, 0) {
            None => None,
            Some(sc1) => pagerank_scores(adj, n, sc1, (iters - 1) as nat),
        }
    }
}

/// Every entry of `in_neighbors_below(.., v, k)` is an in-neighbor of `v`
/// below `k`.
pub proof fn lemma_in_neighbors_elements(adj: Seq<bool>, n: nat, v: int, k: nat)
    requires
        n <= usize::MAX,
    ensures
        forall|j: int|
            0 <= j < in_neighbors_below(adj, n, v, k).len() ==> {
                let u = #[trigger] in_neighbors_below(adj, n, v, k)[j];
                is_in_neighbor(adj, n, u as int, v) && u < k
            },
    decreases k,
{
    if k > 0 {
        lemma_in_neighbors_elements(adj, n, v, (k - 1) as nat);
        let rest = in_neighbors_below(adj, n, v, (k - 1) as nat);
        let cur = in_neighbors_below(adj, n, v, k);
        assert forall|j: int| 0 <= j < cur.len() implies ({
            let u = #[trigger] cur[j];
            is_in_neighbor(adj, n, u as int, v) && u < k
        }) by {
            if j < rest.len() {
                assert(cur[j] == rest[j]);
            } else {
                assert(is_in_neighbor(adj, n, k - 1, v));
                assert(cur[j] == (k - 1) as usize);
            }
        }
    }
}

/// Counting out-edges over a longer prefix of candidates never lowers the
/// count.
pub proof fn lemma_out_degree_below_monotonic(adj: Seq<bool>, n: nat, v: int, k1: nat, k2: nat)
    requires
        k1 <= k2,
    ensures
        out_degree_below(adj, n, v, k1) <= out_degree_below(adj, n, v, k2),
    decreases k2,
{
    if k1 < k2 {
        lemma_out_degree_below_monotonic(adj, n, v, k1, (k2 - 1) as nat);
    }
}

/// An in-neighbor of some vertex has at least one outgoing edge, so its
/// out-degree is never zero.
pub proof fn lemma_in_neighbor_out_degree(adj: Seq<bool>, n: nat, u: int, v: int)
    requires
        is_in_neighbor(adj, n, u, v),
        0 <= v < n,
    ensures
        out_degree(adj, n, u) >= 1,
{
    assert(out_degree_below(adj, n, u, (v + 1) as nat) >= 1);
    lemma_out_degree_below_monotonic(adj, n, u, (v + 1) as nat, n);
}

/// Once a contribution prefix has overflowed, every longer prefix has too.
pub proof fn lemma_contrib_prefix_none(
    adj: Seq<bool>,
    n: nat,
    sc: Seq<u64>,
    nbrs: Seq<usize>,
    k1: nat,
    k2: nat,
)
    requires
        k1 <= k2,
        contrib_sum_prefix(adj, n, sc, nbrs, k1) is None,
    ensures
        contrib_sum_prefix(adj, n, sc, nbrs, k2) is None,
    decreases k2,
{
    if k1 < k2 {
        lemma_contrib_prefix_none(adj, n, sc, nbrs, k1, (k2 - 1) as nat);
    }
}

/// Peeling a sweep off the back: `iters + 1` sweeps are `iters` sweeps
/// followed by one more.
pub proof fn lemma_pagerank_scores_step(adj: Seq<bool>, n: nat, sc: Seq<u64>, iters: nat)
    ensures
        pagerank_scores(adj, n, sc, (iters + 1) as nat) == match pagerank_scores(
            adj,
            n,
            sc,
            iters,
        ) {
            None => None::<Seq<u64>>,
            Some(s) => sweep_from(adj, n, s, 0),
        },
    decreases iters,
{
    match sweep_from(adj, n, sc, 0) {
        None => {
            assert(pagerank_scores(adj, n, sc, (iters + 1) as nat) is None);
        },
        Some(sc1) => {
            assert(pagerank_scores(adj, n, sc, (iters + 1) as nat) == pagerank_scores(
                adj,
                n,
                sc1,
                iters,
            ));
            if iters == 0 {
                assert(pagerank_scores(adj, n, sc1, 0) == Some(sc1));
                assert(pagerank_scores(adj, n, sc, 0) == Some(sc));
            } else {
                lemma_pagerank_scores_step(adj, n, sc1, (iters - 1) as nat);
                assert(pagerank_scores(adj, n, sc, iters) == pagerank_scores(
                    adj,
                    n,
                    sc1,
                    (iters - 1) as nat,
                ));
            }
        },
    }
}

/// Once some sweep has overflowed, running more sweeps still overflows.
pub proof fn lemma_pagerank_scores_none(adj: Seq<bool>, n: nat, sc: Seq<u64>, k1: nat, k2: nat)
    requires
        k1 <= k2,
        pagerank_scores(adj, n, sc, k1) is None,
    ensures
        pagerank_scores(adj, n, sc, k2) is None,
    decreases k1,
{
    if k1 > 0 {
        match sweep_from(adj, n, sc, 0) {
            None => {},
            Some(sc1) => {
                lemma_pagerank_scores_none(adj, n, sc1, (k1 - 1) as nat, (k2 - 1) as nat);
            },
        }
    }
}

/// Every in-neighbor of `v` below `k` appears in
/// `in_neighbors_below(.., v, k)`.
pub proof fn lemma_in_neighbors_complete(adj: Seq<bool>, n: nat, v: int, u: int, k: nat)
    requires
        n <= usize::MAX,
        is_in_neighbor(adj, n, u, v),
        u < k,
    ensures
        in_neighbors_below(adj, n, v, k).contains(u as usize),
    decreases k,
{
    let rest = in_neighbors_below(adj, n, v, (k - 1) as nat);
    let cur = in_neighbors_below(adj, n, v, k);
    if u == k - 1 {
        assert(cur[cur.len() - 1] == u as usize);
    } else {
        lemma_in_neighbors_complete(adj, n, v, u, (k - 1) as nat);
        let j = choose|j: int| 0 <= j < rest.len() && rest[j] == u as usize;
        assert(cur[j] == u as usize);
    }
}

/// A sweep never changes how many scores there are.
pub proof fn lemma_sweep_from_len(adj: Seq<bool>, n: nat, sc: Seq<u64>, w: nat, r: Seq<u64>)
    requires
        sc.len() == n,
        sweep_from(adj, n, sc, w) == Some(r),
    ensures
        r.len() == sc.len(),
    decreases n - w,
{
    if w < n {
        match updated_score(adj, n, sc, w as int) {
            None => {},
            Some(x) => {
                assert(sweep_from(adj, n, sc, w) == sweep_from(
                    adj,
                    n,
                    sc.update(w as int, x),
                    (w + 1) as nat,
                ));
                lemma_sweep_from_len(adj, n, sc.update(w as int, x), (w + 1) as nat, r);
            },
        }
    }
}

/// A vertex with no in-neighbors has an empty in-neighbor list.
pub proof fn lemma_no_in_neighbors_empty(adj: Seq<bool>, n: nat, v: int, k: nat)
    requires
        forall|u: int| !is_in_neighbor(adj, n, u, v),
    ensures
        in_neighbors_below(adj, n, v, k).len() == 0,
    decreases k,
{
    if k > 0 {
        lemma_no_in_neighbors_empty(adj, n, v, (k - 1) as nat);
    }
}

/// A vertex with no in-neighbors is always updated to exactly `BASE_SCORE`:
/// its inbound sum is 0, so its new score is `BASE_SCORE + (85 * 0) / 100`.
pub proof fn lemma_no_in_neighbors_update(adj: Seq<bool>, n: nat, sc: Seq<u64>, v: int)
    requires
        forall|u: int| !is_in_neighbor(adj, n, u, v),
    ensures
        updated_score(adj, n, sc, v) == Some(BASE_SCORE),
{
    lemma_no_in_neighbors_empty(adj, n, v, n);
    assert(contribution_sum(adj, n, sc, v) == Some(0int));
}

/// Within one sweep starting at `w`, a vertex `v` with no in-neighbors ends
/// at exactly `BASE_SCORE` if the sweep reaches it, and keeps its score if
/// the sweep starts beyond it.
pub proof fn lemma_sweep_no_in_neighbors(
    adj: Seq<bool>,
    n: nat,
    sc: Seq<u64>,
    w: nat,
    v: int,
    r: Seq<u64>,
)
    requires
        0 <= v < n,
        sc.len() == n,
        forall|u: int| !is_in_neighbor(adj, n, u, v),
        sweep_from(adj, n, sc, w) == Some(r),
    ensures
        w <= v ==> r[v] == BASE_SCORE,
        v < w ==> r[v] == sc[v],
    decreases n - w,
{
    if w < n {
        match updated_score(adj, n, sc, w as int) {
            None => {},
            Some(x) => {
                let sc1 = sc.update(w as int, x);
                lemma_sweep_no_in_neighbors(adj, n, sc1, (w + 1) as nat, v, r);
                if w == v {
                    lemma_no_in_neighbors_update(adj, n, sc, v);
                }
            },
        }
    }
}

/// `BASE_SCORE` renders exactly `1 - d`: it is `(100 - 85) / 100` of one
/// whole unit of `SCORE_SCALE`, that is 0.15.
pub proof fn lemma_base_score_is_one_minus_damping()
    ensures
        BASE_SCORE * DAMPING_DENOMINATOR == (DAMPING_DENOMINATOR - DAMPING_NUMERATOR)
            * SCORE_SCALE,
{
}

/// Running zero sweeps leaves every score at its prior value.
pub proof fn lemma_pagerank_zero_iterations(adj: Seq<bool>, n: nat, sc: Seq<u64>)
    ensures
        pagerank_scores(adj, n, sc, 0) == Some(sc),
{
}

/// After one or more sweeps, a vertex with no in-neighbors scores exactly
/// `BASE_SCORE` — the fixed-point rendering of `1 - d = 0.15`.
pub proof fn lemma_no_in_neighbors_score(
    adj: Seq<bool>,
    n: nat,
    sc: Seq<u64>,
    iters: nat,
    v: int,
    r: Seq<u64>,
)
    requires
        0 <= v < n,
        sc.len() == n,
        iters >= 1,
        forall|u: int| !is_in_neighbor(adj, n, u, v),
        pagerank_scores(adj, n, sc, iters) == Some(r),
    ensures
        r[v] == BASE_SCORE,
    decreases iters,
{
    match sweep_from(adj, n, sc, 0) {
        None => {},
        Some(sc1) => {
            lemma_sweep_from_len(adj, n, sc, 0, sc1);
            lemma_sweep_no_in_neighbors(adj, n, sc, 0, v, sc1);
            if iters == 1 {
                assert(pagerank_scores(adj, n, sc1, 0) == Some(sc1));
            } else {
                lemma_no_in_neighbors_score(adj, n, sc1, (iters - 1) as nat, v, r);
            }
        },
    }
}

/// With no edges at all, every vertex has out-degree 0.
pub proof fn lemma_no_edges_out_degree(adj: Seq<bool>, n: nat, v: int)
    requires
        adj.len() == n * n,
        forall|i: int| 0 <= i < adj.len() ==> !(#[trigger] adj[i]),
        0 <= v < n,
    ensures
        out_degree(adj, n, v) == 0,
{
    lemma_no_edges_out_degree_below(adj, n, v, n);
}

proof fn lemma_no_edges_out_degree_below(adj: Seq<bool>, n: nat, v: int, k: nat)
    requires
        adj.len() == n * n,
        forall|i: int| 0 <= i < adj.len() ==> !(#[trigger] adj[i]),
        0 <= v < n,
        k <= n,
    ensures
        out_degree_below(adj, n, v, k) == 0,
    decreases k,
{
    if k > 0 {
        lemma_no_edges_out_degree_below(adj, n, v, (k - 1) as nat);
        crate::matrix::lemma_flat_index(v, k - 1, n as int, n as int);
    }
}

/// Recording a fresh edge `v -> w` between distinct vertices raises `v`'s
/// out-degree by exactly one.
pub proof fn lemma_connect_increments_out_degree(adj: Seq<bool>, n: nat, v: int, w: int)
    requires
        adj.len() == n * n,
        0 <= v < n,
        0 <= w < n,
        v != w,
        !edge(adj, n, v, w),
    ensures
        out_degree(adj.update(v * n + w, true), n, v) == out_degree(adj, n, v) + 1,
{
    lemma_connect_out_degree_below(adj, n, v, w, n);
}

proof fn lemma_connect_out_degree_below(adj: Seq<bool>, n: nat, v: int, w: int, k: nat)
    requires
        adj.len() == n * n,
        0 <= v < n,
        0 <= w < n,
        v != w,
        !edge(adj, n, v, w),
        k <= n,
    ensures
        out_degree_below(adj.update(v * n + w, true), n, v, k) == out_degree_below(adj, n, v, k)
            + if w < k {
            1int
        } else {
            0int
        },
    decreases k,
{
    crate::matrix::lemma_flat_index(v, w, n as int, n as int);
    if k > 0 {
        lemma_connect_out_degree_below(adj, n, v, w, (k - 1) as nat);
        crate::matrix::lemma_flat_index(v, k - 1, n as int, n as int);
    }
}

/// Recording the edge `v -> w` between distinct vertices makes `v` an
/// in-neighbor of `w`, and `v` then appears in `w`'s in-neighbor list.
pub proof fn lemma_connect_adds_in_neighbor(adj: Seq<bool>, n: nat, v: int, w: int)
    requires
        adj.len() == n * n,
        n <= usize::MAX,
        0 <= v < n,
        0 <= w < n,
        v != w,
    ensures
        is_in_neighbor(adj.update(v * n + w, true), n, v, w),
        in_neighbors(adj.update(v * n + w, true), n, w).contains(v as usize),
{
    crate::matrix::lemma_flat_index(v, w, n as int, n as int);
    lemma_in_neighbors_complete(adj.update(v * n + w, true), n, w, v, n);
}

/// A directed graph over vertices `0 .. n`, with one fixed-point PageRank
/// score per vertex.
pub struct Graph {
    adjacency: Matrix<bool>,
    scores: Vec<u64>,
}

impl Graph {
    /// The number of vertices.
    pub closed spec fn vertex_count(self) -> nat {
        self.scores@.len()
    }

    /// The adjacency cells in row-major order: the edge `u -> v` is at
    /// `u * vertex_count + v`.
    pub closed spec fn adj(self) -> Seq<bool> {
        self.adjacency.entries()
    }

    /// The fixed-point scores, one per vertex.
    pub closed spec fn scores_seq(self) -> Seq<u64> {
        self.scores@
    }

    /// The adjacency matrix is square with one row and column per vertex.
    pub closed spec fn well_formed(self) -> bool {
        &&& self.adjacency.well_formed()
        &&& self.adjacency.row_count() == self.vertex_count()
        &&& self.adjacency.col_count() == self.vertex_count()
    }

    /// Builds a graph of `vertex` vertices with no edges and all scores 0.
    pub fn new(vertex: usize) -> (g: Graph)
        requires
            vertex * vertex <= usize::MAX,
        ensures
            g.well_formed(),
            g.vertex_count() == vertex,
            forall|i: int| 0 <= i < vertex * vertex ==> !(#[trigger] g.adj()[i]),
            g.scores_seq() == Seq::new(vertex as nat, |i: int| 0u64),
    {
        let adjacency: Matrix<bool> = Matrix::new(vertex, vertex);
        let mut scores: Vec<u64> = Vec::new();
        let mut filled: usize = 0;
        while filled < vertex
            invariant
                filled <= vertex,
                scores@.len() == filled,
                forall|i: int| 0 <= i < filled ==> #[trigger] scores@[i] == 0u64,
            decreases vertex - filled,
        {
            scores.push(0);
            filled = filled + 1;
        }
        proof {
            assert(scores@ =~= Seq::new(vertex as nat, |i: int| 0u64));
            assert forall|i: int| 0 <= i < vertex * vertex implies !(#[trigger] adjacency.entries()[i]) by {
                assert(call_ensures(<bool as Default>::default, (), adjacency.entries()[i]));
            }
        }
        Graph { adjacency, scores }
    }

    /// Records the directed edge `src -> dst`; reports
    /// `Error::IndexOutOfRange` exactly when either endpoint is not a
    /// vertex, leaving the graph unchanged.  Recording an edge twice has no
    /// further effect.
    pub fn connect(&mut self, src: usize, dst: usize) -> (r: Result<(), Error>)
        requires
            old(self).well_formed(),
        ensures
            final(self).well_formed(),
            final(self).vertex_count() == old(self).vertex_count(),
            final(self).scores_seq() == old(self).scores_seq(),
            src < old(self).vertex_count() && dst < old(self).vertex_count() ==> r == Ok::<
                (),
                Error,
            >(()) && final(self).adj() == old(self).adj().update(
                src * old(self).vertex_count() + dst,
                true,
            ),
            !(src < old(self).vertex_count() && dst < old(self).vertex_count()) ==> r == Err::<
                (),
                Error,
            >(Error::IndexOutOfRange) && *final(self) == *old(self),
    {
        self.adjacency.set(src, dst, true)
    }

    /// The in-neighbors of `vertex`, scanned in ascending index order.
    pub fn contributed_vertexes(&self, vertex: usize) -> (r: Vec<usize>)
        requires
            self.well_formed(),
            vertex < self.vertex_count(),
        ensures
            r@ == in_neighbors(self.adj(), self.vertex_count(), vertex as int),
    {
        let n: usize = self.scores.len();
        let mut result: Vec<usize> = Vec::new();
        let mut dst: usize = 0;
        while dst < n
            invariant
                self.well_formed(),
                vertex < n,
                n == self.vertex_count(),
                dst <= n,
                result@ == in_neighbors_below(self.adj(), n as nat, vertex as int, dst as nat),
            decreases n - dst,
        {
            if dst != vertex {
                let cell: &bool = self.adjacency.get(dst, vertex).unwrap();
                if *cell {
                    result.push(dst);
                }
            }
            dst = dst + 1;
        }
        result
    }

    /// The out-degree of `vertex`: how many vertices other than `vertex`
    /// its outgoing edges reach.
    pub fn outgoing_links_count(&self, vertex: usize) -> (r: usize)
        requires
            self.well_formed(),
            vertex < self.vertex_count(),
        ensures
            r == out_degree(self.adj(), self.vertex_count(), vertex as int),
    {
        let n: usize = self.scores.len();
        let mut count: usize = 0;
        let mut dst: usize = 0;
        while dst < n
            invariant
                self.well_formed(),
                vertex < n,
                n == self.vertex_count(),
                dst <= n,
                count <= dst,
                count == out_degree_below(self.adj(), n as nat, vertex as int, dst as nat),
            decreases n - dst,
        {
            if dst != vertex {
                let cell: &bool = self.adjacency.get(vertex, dst).unwrap();
                if *cell {
                    count = count + 1;
                }
            }
            dst = dst + 1;
        }
        count
    }

    /// Runs one in-place sweep over `work`, which holds the current scores:
    /// replaces each vertex's score, in ascending order, by
    /// `BASE_SCORE + (85 * inbound) / 100`, where `inbound` adds up
    /// `score / out_degree` over the vertex's in-neighbors.  Reports
    /// `Error::ScoreOverflow` exactly when the sweep leaves `u64`.
    fn sweep_once(&self, work: &mut Vec<u64>) -> (r: Result<(), Error>)
        requires
            self.well_formed(),
            old(work)@.len() == self.vertex_count(),
        ensures
            final(work)@.len() == old(work)@.len(),
            match r {
                Ok(()) => sweep_from(self.adj(), self.vertex_count(), old(work)@, 0) == Some(
                    final(work)@,
                ),
                Err(e) => e == Error::ScoreOverflow && sweep_from(
                    self.adj(),
                    self.vertex_count(),
                    old(work)@,
                    0,
                ) is None,
            },
    {
        let n: usize = work.len();
        let ghost w0 = work@;
        let mut vertex: usize = 0;
        while vertex < n
            invariant
                self.well_formed(),
                n == self.vertex_count(),
                vertex <= n,
                work@.len() == n,
                w0 == old(work)@,
                w0.len() == n,
                sweep_from(self.adj(), n as nat, w0, 0) == sweep_from(
                    self.adj(),
                    n as nat,
                    work@,
                    vertex as nat,
                ),
            decreases n - vertex,
        {
            let ghost w_entry = work@;
            let contributed: Vec<usize> = self.contributed_vertexes(vertex);
            let ghost nb = in_neighbors(self.adj(), n as nat, vertex as int);
            proof {
                lemma_in_neighbors_elements(self.adj(), n as nat, vertex as int, n as nat);
            }
            let neighbor_count: usize = contributed.len();
            let mut sum: u64 = 0;
            let mut j: usize = 0;
            while j < neighbor_count
                invariant
                    self.well_formed(),
                    n == self.vertex_count(),
                    n <= usize::MAX,
                    vertex < n,
                    work@.len() == n,
                    work@ == w_entry,
                    w0 == old(work)@,
                    w0.len() == n,
                    sweep_from(self.adj(), n as nat, w0, 0) == sweep_from(
                        self.adj(),
                        n as nat,
                        work@,
                        vertex as nat,
                    ),
                    contributed@ == nb,
                    nb == in_neighbors(self.adj(), n as nat, vertex as int),
                    neighbor_count == nb.len(),
                    j <= neighbor_count,
                    forall|t: int|
                        0 <= t < nb.len() ==> {
                            let u = #[trigger] nb[t];
                            is_in_neighbor(self.adj(), n as nat, u as int, vertex as int) && u
                                < n
                        },
                    contrib_sum_prefix(self.adj(), n as nat, work@, nb, j as nat) == Some(
                        sum as int,
                    ),
                decreases neighbor_count - j,
            {
                let contributed_vertex: usize = contributed[j];
                proof {
                    lemma_in_neighbor_out_degree(
                        self.adj(),
                        n as nat,
                        contributed_vertex as int,
                        vertex as int,
                    );
                }
                let outgoing: usize = self.outgoing_links_count(contributed_vertex);
                let contribution: u64 = work[contributed_vertex] / (outgoing as u64);
                match sum.checked_add(contribution) {
                    Some(s) => {
                        sum = s;
                    },
                    None => {
                        proof {
                            assert(contrib_sum_prefix(
                                self.adj(),
                                n as nat,
                                work@,
                                nb,
                                (j + 1) as nat,
                            ) is None);
                            lemma_contrib_prefix_none(
                                self.adj(),
                                n as nat,
                                work@,
                                nb,
                                (j + 1) as nat,
                                nb.len(),
                            );
                            assert(updated_score(self.adj(), n as nat, work@, vertex as int)
                                is None);
                            assert(sweep_from(self.adj(), n as nat, work@, vertex as nat)
                                is None);
                        }
                        return Err(Error::ScoreOverflow);
                    },
                }
                j = j + 1;
            }
            assert(contribution_sum(self.adj(), n as nat, work@, vertex as int) == Some(
                sum as int,
            ));
            match sum.checked_mul(DAMPING_NUMERATOR) {
                None => {
                    proof {
                        assert(updated_score(self.adj(), n as nat, work@, vertex as int) is None);
                        assert(sweep_from(self.adj(), n as nat, work@, vertex as nat) is None);
                    }
                    return Err(Error::ScoreOverflow);
                },
                Some(product) => {
                    let quotient: u64 = product / DAMPING_DENOMINATOR;
                    proof {
                        vstd::arithmetic::div_mod::lemma_div_is_ordered(
                            product as int,
                            u64::MAX as int,
                            DAMPING_DENOMINATOR as int,
                        );
                    }
                    let new_score: u64 = BASE_SCORE + quotient;
                    assert(updated_score(self.adj(), n as nat, work@, vertex as int) == Some(
                        new_score,
                    ));
                    work.set(vertex, new_score);
                },
            }
            vertex = vertex + 1;
        }
        Ok(())
    }

    /// Runs `iter_num` full PageRank sweeps over the current scores and
    /// stores the outcome; each call continues from the scores the previous
    /// call left behind.  On `Error::ScoreOverflow` — reported exactly when
    /// some sweep leaves `u64` — the graph is left unchanged.
    pub fn pagerank(&mut self, iter_num: usize) -> (r: Result<(), Error>)
        requires
            old(self).well_formed(),
        ensures
            final(self).well_formed(),
            final(self).vertex_count() == old(self).vertex_count(),
            final(self).adj() == old(self).adj(),
            match r {
                Ok(()) => Some(final(self).scores_seq()) == pagerank_scores(
                    old(self).adj(),
                    old(self).vertex_count(),
                    old(self).scores_seq(),
                    iter_num as nat,
                ),
                Err(e) => e == Error::ScoreOverflow && pagerank_scores(
                    old(self).adj(),
                    old(self).vertex_count(),
                    old(self).scores_seq(),
                    iter_num as nat,
                ) is None && *final(self) == *old(self),
            },
    {
        let n: usize = self.scores.len();
        let ghost adj0 = self.adj();
        let ghost sc0 = self.scores@;
        let mut work: Vec<u64> = Vec::new();
        let mut filled: usize = 0;
        while filled < n
            invariant
                filled <= n,
                n == self.scores@.len(),
                work@.len() == filled,
                forall|i: int| 0 <= i < filled ==> #[trigger] work@[i] == self.scores@[i],
            decreases n - filled,
        {
            work.push(self.scores[filled]);
            filled = filled + 1;
        }
        assert(work@ =~= sc0);
        let mut it: usize = 0;
        while it < iter_num
            invariant
                self.well_formed(),
                n == self.vertex_count(),
                self.adj() == adj0,
                self.scores@ == sc0,
                it <= iter_num,
                work@.len() == n,
                pagerank_scores(adj0, n as nat, sc0, it as nat) == Some(work@),
            decreases iter_num - it,
        {
            match self.sweep_once(&mut work) {
                Ok(()) => {
                    proof {
                        lemma_pagerank_scores_step(adj0, n as nat, sc0, it as nat);
                    }
                },
                Err(_) => {
                    proof {
                        lemma_pagerank_scores_step(adj0, n as nat, sc0, it as nat);
                        assert(pagerank_scores(adj0, n as nat, sc0, (it + 1) as nat) is None);
                        lemma_pagerank_scores_none(
                            adj0,
                            n as nat,
                            sc0,
                            (it + 1) as nat,
                            iter_num as nat,
                        );
                    }
                    return Err(Error::ScoreOverflow);
                },
            }
            it = it + 1;
        }
        self.scores = work;
        Ok(())
    }

    /// The current scores, one per vertex, in fixed-point units of
    /// `1 / SCORE_SCALE`.
    pub fn scores(&self) -> (r: &Vec<u64>)
        ensures
            r@ == self.scores_seq(),
    {
        &self.scores
    }

    /// The adjacency matrix, e.g. for rendering it.
    pub fn adjacency(&self) -> (r: &Matrix<bool>)
        ensures
            r.entries() == self.adj(),
            self.well_formed() ==> r.well_formed() && r.row_count() == self.vertex_count()
                && r.col_count() == self.vertex_count(),
    {
        &self.adjacency
    }
}

/// A well-formed graph's adjacency holds one cell per ordered vertex pair.
pub proof fn lemma_well_formed_adj_len(g: Graph)
    requires
        g.well_formed(),
    ensures
        g.adj().len() == g.vertex_count() * g.vertex_count(),
{
}

} // verus!
