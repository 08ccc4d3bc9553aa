//! Trusted declarations of the external pixelization engine's calls.
//!
//! Everything the crate believes about the engine is collected here: one
//! wrapper per engine function, each with the contract the engine's own
//! source and documentation support, plus named results for the values whose
//! definitions live in the engine's geometry and are functions of the
//! arguments alone. Nothing else in the crate is trusted.

use vstd::prelude::*;

use cdshealpix::compass_point::{Cardinal, MainWind, Ordinal};
use cdshealpix::nested::bmoc::BMOC;
use rayon::iter::{IntoParallelRefIterator, ParallelIterator};

use crate::pix::{pow2, spec_n_hash, MAX_DEPTH};

verus! {

#[verifier::external_type_specification]
#[verifier::external_body]
pub struct ExBmoc(BMOC);

/// `o` is absent or holds a value below `bound`.
pub open spec fn opt_lt(o: Option<u64>, bound: nat) -> bool {
    match o {
        Some(v) => (v as nat) < bound,
        None => true,
    }
}

/// The maximum depth a coverage result was built for.
pub uninterp spec fn bmoc_depth_of(b: BMOC) -> u8;

/// The packed entries of a coverage result, in stored order.
pub uninterp spec fn bmoc_entry_seq(b: BMOC) -> Seq<u64>;

/// Ring-scheme index of a nested-scheme cell.
pub uninterp spec fn ring_of(depth: u8, hash: u64) -> u64;

/// Nested-scheme index of a ring-scheme cell.
pub uninterp spec fn nested_of(depth: u8, ring_hash: u64) -> u64;

/// The at-most-eight neighbouring cells of a cell, in the wind order
/// S, SE, E, SW, NE, W, NW, N; a slot is `None` where no such neighbour
/// exists.
pub uninterp spec fn neighbours_of(depth: u8, hash: u64) -> Seq<Option<u64>>;

/// The cell touching the given corner of a cell from outside, at depth
/// `depth + delta_depth`; corners are numbered in the engine's cardinal
/// order 0 = S, 1 = E, 2 = N, 3 = W. `None` where the corner has no
/// neighbour.
pub uninterp spec fn ext_corner_of(depth: u8, delta_depth: u8, hash: u64, corner: int) -> Option<
    u64,
>;

/// The cells lining the given edge of a cell from outside, at depth
/// `depth + delta_depth`; edges are numbered in the engine's ordinal order
/// 0 = SE, 1 = SW, 2 = NE, 3 = NW.
pub uninterp spec fn ext_edge_of(depth: u8, delta_depth: u8, hash: u64, edge: int) -> Seq<u64>;

/// Relies on `BMOC::get_depth_max`: the depth the coverage result was built
/// for.
#[verifier::external_body]
pub(crate) fn bmoc_depth_max(b: &BMOC) -> (d: u8)
    ensures
        d == bmoc_depth_of(*b),
{
    b.get_depth_max()
}

/// Relies on the public `entries` field of `BMOC`: the packed cells of the
/// result, copied in stored order.
#[verifier::external_body]
pub(crate) fn bmoc_entries(b: &BMOC) -> (r: Vec<u64>)
    ensures
        r@ == bmoc_entry_seq(*b),
{
    b.entries.to_vec()
}

/// Relies on `Layer::to_ring`: the ring-scheme index of a valid
/// nested-scheme cell.
#[verifier::external_body]
pub(crate) fn to_ring_one(depth: u8, hash: u64) -> (r: u64)
    requires
        depth <= MAX_DEPTH,
        (hash as nat) < spec_n_hash(depth as nat),
    ensures
        r == ring_of(depth, hash),
{
    cdshealpix::nested::get(depth).to_ring(hash)
}

/// Relies on `Layer::from_ring`: the nested-scheme index of a valid
/// ring-scheme cell.
#[verifier::external_body]
pub(crate) fn from_ring_one(depth: u8, ring_hash: u64) -> (r: u64)
    requires
        depth <= MAX_DEPTH,
        (ring_hash as nat) < spec_n_hash(depth as nat),
    ensures
        r == nested_of(depth, ring_hash),
{
    cdshealpix::nested::get(depth).from_ring(ring_hash)
}

/// Relies on `Layer::neighbours`: the neighbouring cells of a valid cell,
/// one optional entry per wind, each a valid cell index at the same depth.
#[verifier::external_body]
pub(crate) fn neighbours_one(depth: u8, hash: u64) -> (r: Vec<Option<u64>>)
    requires
        depth <= MAX_DEPTH,
        (hash as nat) < spec_n_hash(depth as nat),
    ensures
        r@ == neighbours_of(depth, hash),
        r@.len() == 8,
        forall|j: int| 0 <= j < 8 ==> opt_lt(#[trigger] r@[j], spec_n_hash(depth as nat)),
{
    let m = cdshealpix::nested::neighbours(depth, hash, false);
    Vec::from([
        m.get(MainWind::S).copied(),
        m.get(MainWind::SE).copied(),
        m.get(MainWind::E).copied(),
        m.get(MainWind::SW).copied(),
        m.get(MainWind::NE).copied(),
        m.get(MainWind::W).copied(),
        m.get(MainWind::NW).copied(),
        m.get(MainWind::N).copied(),
    ])
}

/// Relies on `Layer::external_edge_struct`: the cells surrounding a valid
/// cell at depth `depth + delta_depth`, split into the four optional corner
/// cells (in the engine's cardinal order S, E, N, W) and the four edge runs
/// of `2^delta_depth` cells each (in the engine's ordinal order SE, SW, NE,
/// NW), all of them valid indices at depth `depth + delta_depth`.
#[verifier::external_body]
pub(crate) fn external_edge_one(depth: u8, delta_depth: u8, hash: u64) -> (r: (
    Vec<Option<u64>>,
    Vec<Vec<u64>>,
))
    requires
        depth + delta_depth <= MAX_DEPTH,
        (hash as nat) < spec_n_hash(depth as nat),
    ensures
        r.0@.len() == 4,
        r.1@.len() == 4,
        forall|j: int| 0 <= j < 4 ==> r.0@[j] == ext_corner_of(depth, delta_depth, hash, j),
        forall|j: int| 0 <= j < 4 ==> (#[trigger] r.1@[j])@ == ext_edge_of(
            depth,
            delta_depth,
            hash,
            j,
        ),
        forall|j: int| 0 <= j < 4 ==> (#[trigger] r.1@[j])@.len() == pow2(delta_depth as nat),
        forall|j: int| 0 <= j < 4 ==> opt_lt(
            #[trigger] r.0@[j],
            spec_n_hash((depth + delta_depth) as nat),
        ),
        forall|j: int, k: int|
            0 <= j < 4 && 0 <= k < r.1@[j]@.len() ==> ((#[trigger] r.1@[j]@[k]) as nat)
                < spec_n_hash((depth + delta_depth) as nat),
{
    let ee = cdshealpix::nested::get(depth).external_edge_struct(hash, delta_depth);
    let corners = Vec::from([
        ee.get_corner(&Cardinal::S),
        ee.get_corner(&Cardinal::E),
        ee.get_corner(&Cardinal::N),
        ee.get_corner(&Cardinal::W),
    ]);
    let edges = Vec::from([
        ee.get_edge(&Ordinal::SE).to_vec(),
        ee.get_edge(&Ordinal::SW).to_vec(),
        ee.get_edge(&Ordinal::NE).to_vec(),
        ee.get_edge(&Ordinal::NW).to_vec(),
    ]);
    (corners, edges)
}

/// Relies on rayon's thread pool and ordered parallel map: a pool of
/// `n_threads` workers (the library's default sizing when 0) applies `f` to
/// every element and collects the results in input order; if no pool can be
/// built the map runs on the calling thread, with the same result.
#[verifier::external_body]
pub(crate) fn par_map<T: Send, F: Fn(u64) -> T + Send + Sync>(
    n_threads: u16,
    xs: &Vec<u64>,
    f: F,
) -> (r: Vec<T>)
    requires
        forall|i: int| 0 <= i < xs@.len() ==> call_requires(f, (xs@[i],)),
    ensures
        r@.len() == xs@.len(),
        forall|i: int| 0 <= i < xs@.len() ==> call_ensures(f, (xs@[i],), #[trigger] r@[i]),
{
    match rayon::ThreadPoolBuilder::new().num_threads(n_threads as usize).build() {
        Ok(pool) => pool.install(|| xs.par_iter().map(|x| f(*x)).collect()),
        Err(_) => xs.iter().map(|x| f(*x)).collect(),
    }
}

} // verus!
