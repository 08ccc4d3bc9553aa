//! The parallel batch dispatcher: element-wise engine transforms over flat
//! arrays.
//!
//! Every operation applies a single-cell engine function to each element of
//! an index-aligned input array and writes the result into that index's
//! private output slot, so the output is a function of the inputs alone —
//! the worker count sizes the pool and nothing else. A worker count of one
//! runs the verified sequential loop; any other count fans out through the
//! engine's pool with the same contract.
//!
//! Fixed-width multi-slot outputs (neighbour and corner lookups) encode an
//! absent cell as the sentinel `-1`; every other slot value is a valid cell
//! index at the output depth.

use vstd::prelude::*;

use crate::engine::{
    ext_corner_of, ext_edge_of, external_edge_one, from_ring_one, neighbours_of, neighbours_one,
    nested_of, opt_lt, par_map, ring_of, to_ring_one,
};
use crate::pix::{
    lemma_n_hash_max, lemma_pow4_increases, pow2, spec_n_hash, MAX_DEPTH,
};

verus! {

/// Every entry is a valid cell index at `depth`.
pub open spec fn valid_hashes(s: Seq<u64>, depth: u8) -> bool {
    forall|i: int| 0 <= i < s.len() ==> ((#[trigger] s[i]) as nat) < spec_n_hash(depth as nat)
}

/// Signed encoding of an optional cell index: the index itself, or the
/// sentinel `-1` where the cell is absent.
pub open spec fn encode_opt(o: Option<u64>) -> i64 {
    match o {
        Some(v) => v as i64,
        None => -1i64,
    }
}

/// What the ring-index batch returns: the ring index of every input cell.
pub open spec fn ring_batch_spec(depth: u8, s: Seq<u64>) -> Seq<u64> {
    s.map_values(|h: u64| ring_of(depth, h))
}

/// What the nested-index batch returns: the nested index of every input
/// ring cell.
pub open spec fn nested_batch_spec(depth: u8, s: Seq<u64>) -> Seq<u64> {
    s.map_values(|h: u64| nested_of(depth, h))
}

/// Slot `j` of a cell's nine-slot neighbour row: the compass order
/// S, SE, E, SW, C, NE, W, NW, N, with the cell itself in the centre slot
/// and `-1` where a neighbour is absent.
pub open spec fn nb_slot(depth: u8, h: u64, j: int) -> i64 {
    if j == 4 {
        h as i64
    } else if j < 4 {
        encode_opt(neighbours_of(depth, h)[j])
    } else {
        encode_opt(neighbours_of(depth, h)[j - 1])
    }
}

/// What the neighbour batch returns: nine row-major slots per input cell.
pub open spec fn neighbours_batch_spec(depth: u8, s: Seq<u64>) -> Seq<i64> {
    Seq::new(9 * s.len(), |k: int| nb_slot(depth, s[k / 9], k % 9))
}

/// Slot `j` of a cell's four-slot external-corner row, in the order
/// S, E, N, W, with `-1` where the corner has no neighbour.
pub open spec fn corner_slot(depth: u8, delta_depth: u8, h: u64, j: int) -> i64 {
    encode_opt(ext_corner_of(depth, delta_depth, h, j))
}

/// What the external-corner half of the batch returns: four row-major slots
/// per input cell.
pub open spec fn corners_batch_spec(depth: u8, delta_depth: u8, s: Seq<u64>) -> Seq<i64> {
    Seq::new(4 * s.len(), |k: int| corner_slot(depth, delta_depth, s[k / 4], k % 4))
}

/// A cell's external-edge row: the four edge runs laid out in the order
/// SE, NE, NW, SW (the engine numbers them SE = 0, SW = 1, NE = 2, NW = 3).
pub open spec fn edge_row(depth: u8, delta_depth: u8, h: u64) -> Seq<u64> {
    ext_edge_of(depth, delta_depth, h, 0) + ext_edge_of(depth, delta_depth, h, 2) + ext_edge_of(
        depth,
        delta_depth,
        h,
        3,
    ) + ext_edge_of(depth, delta_depth, h, 1)
}

/// What the external-edge half of the batch returns: the edge rows of all
/// input cells, concatenated in input order.
pub open spec fn edges_batch_spec(depth: u8, delta_depth: u8, s: Seq<u64>) -> Seq<u64>
    decreases s.len(),
{
    if s.len() == 0 {
        Seq::empty()
    } else {
        edge_row(depth, delta_depth, s[0]) + edges_batch_spec(depth, delta_depth, s.drop_first())
    }
}

/// Appending an input appends its edge row.
proof fn lemma_edges_batch_push(depth: u8, delta_depth: u8, s: Seq<u64>, h: u64)
    ensures
        edges_batch_spec(depth, delta_depth, s.push(h)) == edges_batch_spec(depth, delta_depth, s)
            + edge_row(depth, delta_depth, h),
    decreases s.len(),
{
    if s.len() == 0 {
        assert(s.push(h).drop_first() =~= Seq::<u64>::empty());
        assert(s.push(h)[0] == h);
        assert(edges_batch_spec(depth, delta_depth, s.push(h)) == edge_row(depth, delta_depth, h)
            + edges_batch_spec(depth, delta_depth, Seq::<u64>::empty()));
        assert(edges_batch_spec(depth, delta_depth, s.push(h)) =~= edge_row(
            depth,
            delta_depth,
            h,
        ));
        assert(edges_batch_spec(depth, delta_depth, s) + edge_row(depth, delta_depth, h)
            =~= edge_row(depth, delta_depth, h));
    } else {
        assert(s.push(h).drop_first() =~= s.drop_first().push(h));
        lemma_edges_batch_push(depth, delta_depth, s.drop_first(), h);
        assert(edges_batch_spec(depth, delta_depth, s.push(h)) =~= edges_batch_spec(
            depth,
            delta_depth,
            s,
        ) + edge_row(depth, delta_depth, h));
    }
}

/// Every cell count in range fits a signed 64-bit slot.
proof fn lemma_n_hash_fits_i64(d: nat)
    requires
        d <= MAX_DEPTH as nat,
    ensures
        spec_n_hash(d) < 0x8000000000000000,
{
    lemma_pow4_increases(d, MAX_DEPTH as nat);
    lemma_n_hash_max();
}

/// Signed encoding of one optional neighbour slot.
fn opt_to_slot(o: Option<u64>) -> (r: i64)
    requires
        opt_lt(o, 0x8000000000000000),
    ensures
        r == encode_opt(o),
        r == -1 || r >= 0,
{
    match o {
        Some(v) => v as i64,
        None => -1,
    }
}

/// Ring-scheme index of every input cell.
///
/// The output is a function of `depth` and `ipix` alone; `n_threads` only
/// sizes the worker pool.
pub fn to_ring(depth: u8, ipix: &Vec<u64>, n_threads: u16) -> (r: Vec<u64>)
    requires
        depth <= MAX_DEPTH,
        valid_hashes(ipix@, depth),
    ensures
        r@ == ring_batch_spec(depth, ipix@),
{
    if n_threads == 1 {
        let n = ipix.len();
        let mut out: Vec<u64> = Vec::new();
        let mut i: usize = 0;
        while i < n
            invariant
                depth <= MAX_DEPTH,
                valid_hashes(ipix@, depth),
                n == ipix@.len(),
                i <= n,
                out@.len() == i,
                forall|k: int| 0 <= k < i ==> out@[k] == ring_of(depth, ipix@[k]),
            decreases n - i,
        {
            out.push(to_ring_one(depth, ipix[i]));
            i = i + 1;
        }
        proof {
            assert(out@ =~= ring_batch_spec(depth, ipix@));
        }
        out
    } else {
        let f = |h: u64| -> (y: u64)
            requires
                depth <= MAX_DEPTH,
                (h as nat) < spec_n_hash(depth as nat),
            ensures
                y == ring_of(depth, h),
            { to_ring_one(depth, h) };
        let out = par_map(n_threads, ipix, f);
        proof {
            assert(out@ =~= ring_batch_spec(depth, ipix@));
        }
        out
    }
}

/// Nested-scheme index of every input ring cell.
///
/// The output is a function of `depth` and `ipix_ring` alone; `n_threads`
/// only sizes the worker pool.
pub fn from_ring(depth: u8, ipix_ring: &Vec<u64>, n_threads: u16) -> (r: Vec<u64>)
    requires
        depth <= MAX_DEPTH,
        valid_hashes(ipix_ring@, depth),
    ensures
        r@ == nested_batch_spec(depth, ipix_ring@),
{
    if n_threads == 1 {
        let n = ipix_ring.len();
        let mut out: Vec<u64> = Vec::new();
        let mut i: usize = 0;
        while i < n
            invariant
                depth <= MAX_DEPTH,
                valid_hashes(ipix_ring@, depth),
                n == ipix_ring@.len(),
                i <= n,
                out@.len() == i,
                forall|k: int| 0 <= k < i ==> out@[k] == nested_of(depth, ipix_ring@[k]),
            decreases n - i,
        {
            out.push(from_ring_one(depth, ipix_ring[i]));
            i = i + 1;
        }
        proof {
            assert(out@ =~= nested_batch_spec(depth, ipix_ring@));
        }
        out
    } else {
        let f = |h: u64| -> (y: u64)
            requires
                depth <= MAX_DEPTH,
                (h as nat) < spec_n_hash(depth as nat),
            ensures
                y == nested_of(depth, h),
            { from_ring_one(depth, h) };
        let out = par_map(n_threads, ipix_ring, f);
        proof {
            assert(out@ =~= nested_batch_spec(depth, ipix_ring@));
        }
        out
    }
}

/// The nine-slot neighbour row of one cell: S, SE, E, SW, C, NE, W, NW, N,
/// the cell itself in the centre, `-1` in absent slots, every other slot a
/// valid index at `depth`.
pub fn neighbours_row(depth: u8, hash: u64) -> (r: Vec<i64>)
    requires
        depth <= MAX_DEPTH,
        (hash as nat) < spec_n_hash(depth as nat),
    ensures
        r@.len() == 9,
        forall|j: int| 0 <= j < 9 ==> r@[j] == nb_slot(depth, hash, j),
        forall|j: int|
            0 <= j < 9 ==> (#[trigger] r@[j]) == -1 || (0 <= r@[j] && (r@[j] as nat) < spec_n_hash(
                depth as nat,
            )),
{
    let nb = neighbours_one(depth, hash);
    proof {
        lemma_n_hash_fits_i64(depth as nat);
    }
    let mut r: Vec<i64> = Vec::new();
    r.push(opt_to_slot(nb[0]));
    r.push(opt_to_slot(nb[1]));
    r.push(opt_to_slot(nb[2]));
    r.push(opt_to_slot(nb[3]));
    r.push(hash as i64);
    r.push(opt_to_slot(nb[4]));
    r.push(opt_to_slot(nb[5]));
    r.push(opt_to_slot(nb[6]));
    r.push(opt_to_slot(nb[7]));
    r
}

/// Neighbour rows of every input cell, row-major: nine slots per cell in
/// the compass order S, SE, E, SW, C, NE, W, NW, N.
///
/// Sentinel invariant: every slot is either `-1` or a valid cell index at
/// `depth`. The output is a function of `depth` and `ipix` alone;
/// `n_threads` only sizes the worker pool.
pub fn neighbours(depth: u8, ipix: &Vec<u64>, n_threads: u16) -> (r: Vec<i64>)
    requires
        depth <= MAX_DEPTH,
        valid_hashes(ipix@, depth),
    ensures
        r@ == neighbours_batch_spec(depth, ipix@),
        forall|k: int|
            0 <= k < r@.len() ==> (#[trigger] r@[k]) == -1 || (0 <= r@[k] && (r@[k] as nat)
                < spec_n_hash(depth as nat)),
{
    let rows: Vec<Vec<i64>> = if n_threads == 1 {
        let n = ipix.len();
        let mut rows: Vec<Vec<i64>> = Vec::new();
        let mut i: usize = 0;
        while i < n
            invariant
                depth <= MAX_DEPTH,
                valid_hashes(ipix@, depth),
                n == ipix@.len(),
                i <= n,
                rows@.len() == i,
                forall|k: int, j: int|
                    0 <= k < i && 0 <= j < 9 ==> (#[trigger] rows@[k]@[j]) == nb_slot(
                        depth,
                        ipix@[k],
                        j,
                    ),
                forall|k: int| 0 <= k < i ==> (#[trigger] rows@[k])@.len() == 9,
                forall|k: int, j: int|
                    0 <= k < i && 0 <= j < 9 ==> (#[trigger] rows@[k]@[j]) == -1 || (0
                        <= rows@[k]@[j] && (rows@[k]@[j] as nat) < spec_n_hash(depth as nat)),
            decreases n - i,
        {
            rows.push(neighbours_row(depth, ipix[i]));
            i = i + 1;
        }
        rows
    } else {
        let f = |h: u64| -> (row: Vec<i64>)
            requires
                depth <= MAX_DEPTH,
                (h as nat) < spec_n_hash(depth as nat),
            ensures
                row@.len() == 9,
                forall|j: int| 0 <= j < 9 ==> row@[j] == nb_slot(depth, h, j),
                forall|j: int|
                    0 <= j < 9 ==> (#[trigger] row@[j]) == -1 || (0 <= row@[j] && (row@[j] as nat)
                        < spec_n_hash(depth as nat)),
            { neighbours_row(depth, h) };
        par_map(n_threads, ipix, f)
    };
    let n = ipix.len();
    let mut out: Vec<i64> = Vec::new();
    let mut i: usize = 0;
    while i < n
        invariant
            n == ipix@.len(),
            rows@.len() == n,
            i <= n,
            out@.len() == 9 * i,
            forall|k: int| 0 <= k < n ==> (#[trigger] rows@[k])@.len() == 9,
            forall|k: int, j: int|
                0 <= k < n && 0 <= j < 9 ==> (#[trigger] rows@[k]@[j]) == nb_slot(
                    depth,
                    ipix@[k],
                    j,
                ),
            forall|k: int, j: int|
                0 <= k < n && 0 <= j < 9 ==> (#[trigger] rows@[k]@[j]) == -1 || (0 <= rows@[k]@[j]
                    && (rows@[k]@[j] as nat) < spec_n_hash(depth as nat)),
            forall|k: int| 0 <= k < 9 * i ==> out@[k] == nb_slot(depth, ipix@[k / 9], k % 9),
            forall|k: int|
                0 <= k < 9 * i ==> (#[trigger] out@[k]) == -1 || (0 <= out@[k] && (out@[k] as nat)
                    < spec_n_hash(depth as nat)),
        decreases n - i,
    {
        let row = &rows[i];
        let mut j: usize = 0;
        while j < 9
            invariant
                n == ipix@.len(),
                rows@.len() == n,
                0 <= i < n,
                j <= 9,
                row == rows@[i as int],
                row@.len() == 9,
                out@.len() == 9 * i + j,
                forall|k: int| 0 <= k < n ==> (#[trigger] rows@[k])@.len() == 9,
                forall|k: int, j2: int|
                    0 <= k < n && 0 <= j2 < 9 ==> (#[trigger] rows@[k]@[j2]) == nb_slot(
                        depth,
                        ipix@[k],
                        j2,
                    ),
                forall|k: int, j2: int|
                    0 <= k < n && 0 <= j2 < 9 ==> (#[trigger] rows@[k]@[j2]) == -1 || (0
                        <= rows@[k]@[j2] && (rows@[k]@[j2] as nat) < spec_n_hash(depth as nat)),
                forall|k: int|
                    0 <= k < out@.len() ==> out@[k] == nb_slot(depth, ipix@[k / 9], k % 9),
                forall|k: int|
                    0 <= k < out@.len() ==> (#[trigger] out@[k]) == -1 || (0 <= out@[k] && (
                    out@[k] as nat) < spec_n_hash(depth as nat)),
            decreases 9 - j,
        {
            out.push(row[j]);
            proof {
                let k = out@.len() - 1;
                assert(k == 9 * i + j);
                assert(k / 9 == i && k % 9 == j) by (nonlinear_arith)
                    requires k == 9 * i + j, 0 <= j < 9, 0 <= i;
            }
            j = j + 1;
        }
        i = i + 1;
    }
    proof {
        assert(out@ =~= neighbours_batch_spec(depth, ipix@));
    }
    out
}

/// The external corners and edges of one cell at depth
/// `depth + delta_depth`: four corner slots in the order S, E, N, W (`-1`
/// where absent) and the edge cells in the order SE, NE, NW, SW, each run
/// `2^delta_depth` long.
pub fn external_neighbour_row(depth: u8, delta_depth: u8, hash: u64) -> (r: (Vec<i64>, Vec<u64>))
    requires
        depth + delta_depth <= MAX_DEPTH,
        (hash as nat) < spec_n_hash(depth as nat),
    ensures
        r.0@.len() == 4,
        forall|j: int| 0 <= j < 4 ==> r.0@[j] == corner_slot(depth, delta_depth, hash, j),
        forall|j: int|
            0 <= j < 4 ==> (#[trigger] r.0@[j]) == -1 || (0 <= r.0@[j] && (r.0@[j] as nat)
                < spec_n_hash((depth + delta_depth) as nat)),
        r.1@ == edge_row(depth, delta_depth, hash),
        r.1@.len() == 4 * pow2(delta_depth as nat),
        forall|k: int|
            0 <= k < r.1@.len() ==> ((#[trigger] r.1@[k]) as nat) < spec_n_hash(
                (depth + delta_depth) as nat,
            ),
{
    let (corners, edges) = external_edge_one(depth, delta_depth, hash);
    proof {
        lemma_n_hash_fits_i64((depth + delta_depth) as nat);
    }
    let mut cs: Vec<i64> = Vec::new();
    cs.push(opt_to_slot(corners[0]));
    cs.push(opt_to_slot(corners[1]));
    cs.push(opt_to_slot(corners[2]));
    cs.push(opt_to_slot(corners[3]));
    let mut es: Vec<u64> = Vec::new();
    append_edge(&mut es, &edges[0]);
    append_edge(&mut es, &edges[2]);
    append_edge(&mut es, &edges[3]);
    append_edge(&mut es, &edges[1]);
    (cs, es)
}

/// Copies one edge run onto the end of the output row.
fn append_edge(out: &mut Vec<u64>, edge: &Vec<u64>)
    ensures
        final(out)@ == old(out)@ + edge@,
{
    let n = edge.len();
    let mut k: usize = 0;
    while k < n
        invariant
            n == edge@.len(),
            k <= n,
            out@ == old(out)@ + edge@.take(k as int),
        decreases n - k,
    {
        out.push(edge[k]);
        proof {
            assert(old(out)@ + edge@.take(k + 1) =~= (old(out)@ + edge@.take(k as int)).push(
                edge@[k as int],
            ));
        }
        k = k + 1;
    }
    proof {
        assert(edge@.take(n as int) =~= edge@);
    }
}

/// External corners and edges of every input cell, row-major: per cell,
/// four corner slots (S, E, N, W) in the first array and `4 * 2^delta_depth`
/// edge cells (SE, NE, NW, SW runs) in the second.
///
/// Sentinel invariant: every corner slot is either `-1` or a valid cell
/// index at depth `depth + delta_depth`; every edge cell is a valid index
/// at that depth. The output is a function of the depths and `ipix` alone;
/// `n_threads` only sizes the worker pool.
pub fn external_neighbours(depth: u8, delta_depth: u8, ipix: &Vec<u64>, n_threads: u16) -> (r: (
    Vec<i64>,
    Vec<u64>,
))
    requires
        depth + delta_depth <= MAX_DEPTH,
        valid_hashes(ipix@, depth),
    ensures
        r.0@ == corners_batch_spec(depth, delta_depth, ipix@),
        forall|k: int|
            0 <= k < r.0@.len() ==> (#[trigger] r.0@[k]) == -1 || (0 <= r.0@[k] && (
            r.0@[k] as nat) < spec_n_hash((depth + delta_depth) as nat)),
        r.1@ == edges_batch_spec(depth, delta_depth, ipix@),
        r.1@.len() == 4 * pow2(delta_depth as nat) * ipix@.len(),
        forall|k: int|
            0 <= k < r.1@.len() ==> ((#[trigger] r.1@[k]) as nat) < spec_n_hash(
                (depth + delta_depth) as nat,
            ),
{
    let rows: Vec<(Vec<i64>, Vec<u64>)> = if n_threads == 1 {
        let n = ipix.len();
        let mut rows: Vec<(Vec<i64>, Vec<u64>)> = Vec::new();
        let mut i: usize = 0;
        while i < n
            invariant
                depth + delta_depth <= MAX_DEPTH,
                valid_hashes(ipix@, depth),
                n == ipix@.len(),
                i <= n,
                rows@.len() == i,
                forall|k: int| 0 <= k < i ==> row_ok(depth, delta_depth, ipix@[k], #[trigger] rows@[k]),
            decreases n - i,
        {
            rows.push(external_neighbour_row(depth, delta_depth, ipix[i]));
            i = i + 1;
        }
        rows
    } else {
        let f = |h: u64| -> (row: (Vec<i64>, Vec<u64>))
            requires
                depth + delta_depth <= MAX_DEPTH,
                (h as nat) < spec_n_hash(depth as nat),
            ensures
                row_ok(depth, delta_depth, h, row),
            { external_neighbour_row(depth, delta_depth, h) };
        par_map(n_threads, ipix, f)
    };
    let n = ipix.len();
    let mut corners: Vec<i64> = Vec::new();
    let mut edges: Vec<u64> = Vec::new();
    let mut i: usize = 0;
    while i < n
        invariant
            depth + delta_depth <= MAX_DEPTH,
            n == ipix@.len(),
            rows@.len() == n,
            i <= n,
            forall|k: int| 0 <= k < n ==> row_ok(depth, delta_depth, ipix@[k], #[trigger] rows@[k]),
            corners@.len() == 4 * i,
            forall|k: int|
                0 <= k < 4 * i ==> corners@[k] == corner_slot(depth, delta_depth, ipix@[k / 4], k % 4),
            forall|k: int|
                0 <= k < 4 * i ==> (#[trigger] corners@[k]) == -1 || (0 <= corners@[k] && (
                corners@[k] as nat) < spec_n_hash((depth + delta_depth) as nat)),
            edges@ == edges_batch_spec(depth, delta_depth, ipix@.take(i as int)),
            edges@.len() == 4 * pow2(delta_depth as nat) * i,
            forall|k: int|
                0 <= k < edges@.len() ==> ((#[trigger] edges@[k]) as nat) < spec_n_hash(
                    (depth + delta_depth) as nat,
                ),
        decreases n - i,
    {
        let row = &rows[i];
        let cr = &row.0;
        corners.push(cr[0]);
        corners.push(cr[1]);
        corners.push(cr[2]);
        corners.push(cr[3]);
        proof {
            assert forall|k: int| 0 <= k < 4 * (i + 1) implies #[trigger] corners@[k]
                == corner_slot(depth, delta_depth, ipix@[k / 4], k % 4) by {
                if k >= 4 * i {
                    assert(k / 4 == i && k % 4 == k - 4 * i) by (nonlinear_arith)
                        requires 4 * i <= k < 4 * (i + 1), 0 <= i;
                }
            }
        }
        append_edge(&mut edges, &row.1);
        proof {
            lemma_edges_batch_push(depth, delta_depth, ipix@.take(i as int), ipix@[i as int]);
            assert(ipix@.take(i as int).push(ipix@[i as int]) =~= ipix@.take(i + 1));
            let w = pow2(delta_depth as nat);
            assert(4 * w * i + 4 * w == 4 * w * (i + 1)) by (nonlinear_arith);
        }
        i = i + 1;
    }
    proof {
        assert(ipix@.take(n as int) =~= ipix@);
        assert(corners@ =~= corners_batch_spec(depth, delta_depth, ipix@));
    }
    (corners, edges)
}

/// One cell's corner and edge rows are as specified and within range.
pub open spec fn row_ok(depth: u8, delta_depth: u8, h: u64, row: (Vec<i64>, Vec<u64>)) -> bool {
    &&& row.0@.len() == 4
    &&& forall|j: int| 0 <= j < 4 ==> row.0@[j] == corner_slot(depth, delta_depth, h, j)
    &&& forall|j: int|
        0 <= j < 4 ==> (#[trigger] row.0@[j]) == -1 || (0 <= row.0@[j] && (row.0@[j] as nat)
            < spec_n_hash((depth + delta_depth) as nat))
    &&& row.1@ == edge_row(depth, delta_depth, h)
    &&& row.1@.len() == 4 * pow2(delta_depth as nat)
    &&& forall|k: int|
        0 <= k < row.1@.len() ==> ((#[trigger] row.1@[k]) as nat) < spec_n_hash(
            (depth + delta_depth) as nat,
        )
}

/// Law: a batch transform's output is pinned by its scalar parameters and
/// inputs alone, so two runs agree whatever their worker counts or
/// scheduling.
pub proof fn lemma_to_ring_deterministic(depth: u8, ipix: Seq<u64>, r1: Seq<u64>, r2: Seq<u64>)
    requires
        r1 == ring_batch_spec(depth, ipix),
        r2 == ring_batch_spec(depth, ipix),
    ensures
        r1 == r2,
{
}

/// Law: the ring-to-nested batch is deterministic in the same way.
pub proof fn lemma_from_ring_deterministic(depth: u8, ipix: Seq<u64>, r1: Seq<u64>, r2: Seq<u64>)
    requires
        r1 == nested_batch_spec(depth, ipix),
        r2 == nested_batch_spec(depth, ipix),
    ensures
        r1 == r2,
{
}

/// Law: the neighbour batch is deterministic in the same way.
pub proof fn lemma_neighbours_deterministic(depth: u8, ipix: Seq<u64>, r1: Seq<i64>, r2: Seq<i64>)
    requires
        r1 == neighbours_batch_spec(depth, ipix),
        r2 == neighbours_batch_spec(depth, ipix),
    ensures
        r1 == r2,
{
}

/// Law: the external-neighbour batch is deterministic in the same way.
pub proof fn lemma_external_neighbours_deterministic(
    depth: u8,
    delta_depth: u8,
    ipix: Seq<u64>,
    c1: Seq<i64>,
    e1: Seq<u64>,
    c2: Seq<i64>,
    e2: Seq<u64>,
)
    requires
        c1 == corners_batch_spec(depth, delta_depth, ipix),
        e1 == edges_batch_spec(depth, delta_depth, ipix),
        c2 == corners_batch_spec(depth, delta_depth, ipix),
        e2 == edges_batch_spec(depth, delta_depth, ipix),
    ensures
        c1 == c2,
        e1 == e2,
{
}

} // verus!
