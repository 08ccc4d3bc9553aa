//! Pixel-index arithmetic for the hierarchical pixelization.
//!
//! A sphere at `depth` is divided into `12 * 4^depth` cells, indexed by a
//! `hash` in `0 .. 12 * 4^depth`. Depths beyond [`MAX_DEPTH`] would overflow
//! a 64-bit cell index and are invalid everywhere in this crate.

use vstd::prelude::*;

verus! {

/// Deepest valid pixelization level: `12 * 4^MAX_DEPTH` still fits in `u64`.
pub const MAX_DEPTH: u8 = 29;

/// `4^e`, the number of descendants a cell has `e` levels below itself.
pub open spec fn pow4(e: nat) -> nat
    decreases e,
{
    if e == 0 {
        1
    } else {
        4 * pow4((e - 1) as nat)
    }
}

/// `2^e`, the number of cells along one edge `e` levels below.
pub open spec fn pow2(e: nat) -> nat
    decreases e,
{
    if e == 0 {
        1
    } else {
        2 * pow2((e - 1) as nat)
    }
}

/// Number of cells the whole sphere holds at `depth`.
pub open spec fn spec_n_hash(depth: nat) -> nat {
    12 * pow4(depth)
}

pub proof fn lemma_pow4_adds(a: nat, b: nat)
    ensures
        pow4(a + b) == pow4(a) * pow4(b),
    decreases a,
{
    if a == 0 {
    } else {
        let a1 = (a - 1) as nat;
        lemma_pow4_adds(a1, b);
        assert((a + b - 1) as nat == a1 + b);
        assert(pow4(a + b) == 4 * pow4(a1 + b));
        let p = pow4(a1);
        let q = pow4(b);
        assert(4 * (p * q) == (4 * p) * q) by (nonlinear_arith);
    }
}

pub proof fn lemma_pow4_pos(e: nat)
    ensures
        pow4(e) >= 1,
    decreases e,
{
    if e > 0 {
        lemma_pow4_pos((e - 1) as nat);
    }
}

pub proof fn lemma_pow4_increases(a: nat, b: nat)
    requires
        a <= b,
    ensures
        pow4(a) <= pow4(b),
    decreases b,
{
    if a < b {
        lemma_pow4_increases(a, (b - 1) as nat);
    }
}

pub proof fn lemma_pow4_strictly_increases(a: nat, b: nat)
    requires
        a < b,
    ensures
        pow4(a) < pow4(b),
    decreases b,
{
    lemma_pow4_increases(a, (b - 1) as nat);
    lemma_pow4_pos(a);
}

pub proof fn lemma_pow2_increases(a: nat, b: nat)
    requires
        a <= b,
    ensures
        pow2(a) <= pow2(b),
    decreases b,
{
    if a < b {
        lemma_pow2_increases(a, (b - 1) as nat);
    }
}

/// The largest cell count this crate deals in: `12 * 4^29`.
pub proof fn lemma_n_hash_max()
    ensures
        spec_n_hash(MAX_DEPTH as nat) == 3458764513820540928,
        pow4(MAX_DEPTH as nat) == 288230376151711744,
{
    reveal_with_fuel(pow4, 30);
}

/// `2^29` bounds every per-edge cell count this crate deals in.
pub proof fn lemma_pow2_max()
    ensures
        pow2(MAX_DEPTH as nat) == 536870912,
{
    reveal_with_fuel(pow2, 30);
}

/// `4^e` as a machine integer.
pub fn pow4_u64(e: u8) -> (r: u64)
    requires
        e <= MAX_DEPTH,
    ensures
        r == pow4(e as nat),
{
    let mut r: u64 = 1;
    let mut i: u8 = 0;
    while i < e
        invariant
            i <= e <= MAX_DEPTH,
            r == pow4(i as nat),
        decreases e - i,
    {
        proof {
            lemma_pow4_increases((i + 1) as nat, MAX_DEPTH as nat);
            lemma_n_hash_max();
        }
        r = r * 4;
        i = i + 1;
    }
    r
}

/// `2^e` as a machine integer.
pub fn pow2_u64(e: u8) -> (r: u64)
    requires
        e <= MAX_DEPTH,
    ensures
        r == pow2(e as nat),
{
    let mut r: u64 = 1;
    let mut i: u8 = 0;
    while i < e
        invariant
            i <= e <= MAX_DEPTH,
            r == pow2(i as nat),
        decreases e - i,
    {
        proof {
            lemma_pow2_increases((i + 1) as nat, MAX_DEPTH as nat);
            lemma_pow2_max();
        }
        r = r * 2;
        i = i + 1;
    }
    r
}

/// Number of cells the whole sphere holds at `depth`, as a machine integer.
pub fn n_hash(depth: u8) -> (r: u64)
    requires
        depth <= MAX_DEPTH,
    ensures
        r == spec_n_hash(depth as nat),
{
    proof {
        lemma_pow4_increases(depth as nat, MAX_DEPTH as nat);
        lemma_n_hash_max();
    }
    12 * pow4_u64(depth)
}

/// Recovers `depth` from a cell count of the shape `12 * 4^depth`.
///
/// Returns `None` when no valid depth matches, in particular for counts that
/// are not of that shape at all.
pub fn depth_from_n_hash(n: u64) -> (r: Option<u8>)
    ensures
        match r {
            Some(d) => d <= MAX_DEPTH && spec_n_hash(d as nat) == n,
            None => forall|d: nat| d <= MAX_DEPTH ==> spec_n_hash(d) != n,
        },
{
    let mut d: u8 = 0;
    loop
        invariant
            d <= MAX_DEPTH + 1,
            forall|d2: nat| d2 < d ==> spec_n_hash(d2) != n,
        decreases MAX_DEPTH + 1 - d,
    {
        if d > MAX_DEPTH {
            return None;
        }
        if n_hash(d) == n {
            return Some(d);
        }
        d = d + 1;
    }
}

/// A cell count of the shape `12 * 4^depth` determines its depth uniquely.
pub proof fn lemma_depth_unique(a: nat, b: nat)
    requires
        spec_n_hash(a) == spec_n_hash(b),
    ensures
        a == b,
{
    if a < b {
        lemma_pow4_strictly_increases(a, b);
    } else if b < a {
        lemma_pow4_strictly_increases(b, a);
    }
}

} // verus!
