//! Coverage results: sorted, non-overlapping cell sets and their two
//! materializations.
//!
//! A region query answers with a set of cells, each covering a region at
//! some depth up to the query's `depth_max`, flagged fully or partially
//! covered. The set is sorted by the depth-first traversal order of the
//! hierarchy, so on the line of depth-`depth_max` leaf indices the cells
//! occupy disjoint, strictly increasing ranges. This module validates that
//! shape and turns a valid set into either its native hierarchical form or
//! its uniform-depth flattened form.

use vstd::prelude::*;

use cdshealpix::nested::bmoc::BMOC;

use crate::engine::{bmoc_depth_of, bmoc_depth_max, bmoc_entries, bmoc_entry_seq};
use crate::pix::{
    lemma_n_hash_max, lemma_pow4_adds, lemma_pow4_increases, lemma_pow4_pos, pow4, pow4_u64,
    spec_n_hash, n_hash, MAX_DEPTH,
};

verus! {

/// One cell of a coverage result: a region at `depth`, entirely inside the
/// queried region when `full` holds, partially overlapping it otherwise.
#[derive(Clone, Copy, PartialEq, Eq, Structural, Debug)]
pub struct Cell {
    pub depth: u8,
    pub hash: u64,
    pub full: bool,
}

/// Why a cell list was rejected as a coverage result.
#[derive(Clone, Copy, PartialEq, Eq, Structural, Debug)]
pub enum CoverageError {
    /// The maximum depth exceeds [`MAX_DEPTH`].
    DepthTooDeep,
    /// Some cell is deeper than the maximum depth or its index is out of
    /// range for its depth.
    InvalidCell,
    /// Some adjacent pair of cells is out of order or overlaps.
    OutOfOrder,
    /// Some packed entry of an engine result does not decode to a cell at
    /// the result's maximum depth.
    MalformedEntry,
}

/// `c` fits a result of maximum depth `depth_max`: it is no deeper, and its
/// index is valid at its own depth.
pub open spec fn cell_valid(c: Cell, depth_max: nat) -> bool {
    c.depth <= depth_max && (c.hash as nat) < spec_n_hash(c.depth as nat)
}

/// Number of depth-`depth_max` leaves `c` covers.
pub open spec fn cell_width(c: Cell, depth_max: nat) -> nat {
    pow4((depth_max - c.depth) as nat)
}

/// First depth-`depth_max` leaf covered by `c`.
pub open spec fn cell_start(c: Cell, depth_max: nat) -> nat {
    (c.hash as nat) * cell_width(c, depth_max)
}

/// One past the last depth-`depth_max` leaf covered by `c`.
pub open spec fn cell_end(c: Cell, depth_max: nat) -> nat {
    cell_start(c, depth_max) + cell_width(c, depth_max)
}

/// Every cell is valid.
pub open spec fn cells_valid(cells: Seq<Cell>, depth_max: nat) -> bool {
    forall|i: int| 0 <= i < cells.len() ==> cell_valid(#[trigger] cells[i], depth_max)
}

/// Adjacent cells occupy disjoint, strictly increasing leaf ranges.
pub open spec fn cells_sorted(cells: Seq<Cell>, depth_max: nat) -> bool {
    forall|i: int|
        0 <= i < cells.len() - 1 ==> cell_end(#[trigger] cells[i], depth_max) <= cell_start(
            cells[i + 1],
            depth_max,
        )
}

/// A well-formed coverage result at maximum depth `depth_max`.
pub open spec fn cells_wf(cells: Seq<Cell>, depth_max: nat) -> bool {
    &&& depth_max <= MAX_DEPTH as nat
    &&& cells_valid(cells, depth_max)
    &&& cells_sorted(cells, depth_max)
}

/// The expansion of one cell to depth `depth_max`: its descendants at that
/// depth, in index order, all carrying the cell's flag.
pub open spec fn expand_cell(c: Cell, depth_max: nat) -> Seq<Cell> {
    Seq::new(
        cell_width(c, depth_max),
        |j: int|
            Cell {
                depth: depth_max as u8,
                hash: (cell_start(c, depth_max) + j) as u64,
                full: c.full,
            },
    )
}

/// The flattened form: every cell expanded to depth `depth_max`, in order.
pub open spec fn flatten_cells(cells: Seq<Cell>, depth_max: nat) -> Seq<Cell>
    decreases cells.len(),
{
    if cells.len() == 0 {
        Seq::empty()
    } else {
        expand_cell(cells[0], depth_max) + flatten_cells(cells.drop_first(), depth_max)
    }
}

/// Total number of depth-`depth_max` leaves the cells cover.
pub open spec fn deep_size(cells: Seq<Cell>, depth_max: nat) -> nat
    decreases cells.len(),
{
    if cells.len() == 0 {
        0
    } else {
        cell_width(cells[0], depth_max) + deep_size(cells.drop_first(), depth_max)
    }
}

/// A valid cell's leaf range stays within the sphere's leaf count.
pub proof fn lemma_cell_end_bound(c: Cell, depth_max: nat)
    requires
        depth_max <= MAX_DEPTH as nat,
        cell_valid(c, depth_max),
    ensures
        cell_end(c, depth_max) <= spec_n_hash(depth_max),
        cell_end(c, depth_max) <= 3458764513820540928,
{
    let w = cell_width(c, depth_max);
    let h = c.hash as nat;
    let d = c.depth as nat;
    assert(h + 1 <= spec_n_hash(d));
    assert((h + 1) * w <= spec_n_hash(d) * w) by (nonlinear_arith)
        requires h + 1 <= spec_n_hash(d), w >= 0;
    assert(h * w + w == (h + 1) * w) by (nonlinear_arith);
    assert(spec_n_hash(d) * w == 12 * (pow4(d) * w)) by (nonlinear_arith)
        requires spec_n_hash(d) == 12 * pow4(d);
    lemma_pow4_adds(d, (depth_max - c.depth) as nat);
    assert(pow4(d) * w == pow4(depth_max));
    lemma_pow4_increases(depth_max, MAX_DEPTH as nat);
    lemma_n_hash_max();
}

/// Appending a cell appends its expansion to the flattened form.
pub proof fn lemma_flatten_push(cells: Seq<Cell>, c: Cell, depth_max: nat)
    ensures
        flatten_cells(cells.push(c), depth_max) == flatten_cells(cells, depth_max) + expand_cell(
            c,
            depth_max,
        ),
    decreases cells.len(),
{
    if cells.len() == 0 {
        assert(cells.push(c).drop_first() =~= Seq::<Cell>::empty());
        assert(cells.push(c)[0] == c);
        assert(flatten_cells(cells.push(c), depth_max) == expand_cell(c, depth_max)
            + flatten_cells(Seq::<Cell>::empty(), depth_max));
        assert(flatten_cells(cells.push(c), depth_max) =~= expand_cell(c, depth_max));
        assert(flatten_cells(cells, depth_max) + expand_cell(c, depth_max) =~= expand_cell(
            c,
            depth_max,
        ));
    } else {
        assert(cells.push(c).drop_first() =~= cells.drop_first().push(c));
        lemma_flatten_push(cells.drop_first(), c, depth_max);
        assert(flatten_cells(cells.push(c), depth_max) =~= flatten_cells(cells, depth_max)
            + expand_cell(c, depth_max));
    }
}

/// Appending a cell adds its width to the deep size.
pub proof fn lemma_deep_size_push(cells: Seq<Cell>, c: Cell, depth_max: nat)
    ensures
        deep_size(cells.push(c), depth_max) == deep_size(cells, depth_max) + cell_width(
            c,
            depth_max,
        ),
    decreases cells.len(),
{
    if cells.len() == 0 {
        assert(cells.push(c).drop_first() =~= Seq::<Cell>::empty());
        assert(cells.push(c)[0] == c);
        assert(deep_size(cells.push(c), depth_max) == cell_width(c, depth_max) + deep_size(
            Seq::<Cell>::empty(),
            depth_max,
        ));
    } else {
        assert(cells.push(c).drop_first() =~= cells.drop_first().push(c));
        lemma_deep_size_push(cells.drop_first(), c, depth_max);
    }
}

/// Flattening preserves area: the flattened form holds exactly one
/// depth-`depth_max` leaf for each leaf a hierarchical cell covers, so its
/// length is the sum of `4^(depth_max - depth)` over the cells.
pub proof fn lemma_flatten_preserves_area(cells: Seq<Cell>, depth_max: nat)
    ensures
        flatten_cells(cells, depth_max).len() == deep_size(cells, depth_max),
    decreases cells.len(),
{
    if cells.len() > 0 {
        lemma_flatten_preserves_area(cells.drop_first(), depth_max);
    }
}

/// Dropping the first cell keeps a result well-formed.
proof fn lemma_wf_drop_first(cells: Seq<Cell>, depth_max: nat)
    requires
        cells_wf(cells, depth_max),
        cells.len() > 0,
    ensures
        cells_wf(cells.drop_first(), depth_max),
{
    let rest = cells.drop_first();
    assert forall|i: int| 0 <= i < rest.len() implies cell_valid(#[trigger] rest[i], depth_max) by {
        assert(rest[i] == cells[i + 1]);
    }
    assert forall|i: int|
        0 <= i < rest.len() - 1 implies cell_end(#[trigger] rest[i], depth_max) <= cell_start(
        rest[i + 1],
        depth_max,
    ) by {
        assert(rest[i] == cells[i + 1]);
        assert(rest[i + 1] == cells[i + 2]);
        assert(cell_end(cells[i + 1], depth_max) <= cell_start(cells[i + 2], depth_max));
    }
}

/// In a well-formed result every flattened leaf index lies at or beyond
/// the first cell's range start.
proof fn lemma_flatten_lower_bound(cells: Seq<Cell>, depth_max: nat)
    requires
        cells_wf(cells, depth_max),
        cells.len() > 0,
    ensures
        forall|k: int|
            0 <= k < flatten_cells(cells, depth_max).len() ==> ((#[trigger] flatten_cells(
                cells,
                depth_max,
            )[k]).hash as nat) >= cell_start(cells[0], depth_max),
    decreases cells.len(),
{
    let f = flatten_cells(cells, depth_max);
    let e = expand_cell(cells[0], depth_max);
    let rest = cells.drop_first();
    lemma_cell_end_bound(cells[0], depth_max);
    if rest.len() > 0 {
        lemma_wf_drop_first(cells, depth_max);
        lemma_flatten_lower_bound(rest, depth_max);
    }
    assert forall|k: int|
        0 <= k < f.len() implies ((#[trigger] f[k]).hash as nat) >= cell_start(
        cells[0],
        depth_max,
    ) by {
        if k < e.len() {
            assert(f[k] == e[k]);
            assert(cell_start(cells[0], depth_max) + k < cell_end(cells[0], depth_max));
            assert((f[k].hash as nat) == cell_start(cells[0], depth_max) + k);
        } else {
            assert(f[k] == flatten_cells(rest, depth_max)[k - e.len()]);
            assert(rest.len() > 0);
            assert(rest[0] == cells[1]);
            assert(cell_end(cells[0], depth_max) <= cell_start(cells[1], depth_max));
            assert((f[k].hash as nat) >= cell_start(rest[0], depth_max));
            assert(cell_start(cells[0], depth_max) <= cell_end(cells[0], depth_max));
        }
    }
}

/// Flattening preserves the result's order: the flattened form lists its
/// leaves with strictly increasing indices, so each covered leaf appears
/// exactly once.
pub proof fn lemma_flatten_sorted(cells: Seq<Cell>, depth_max: nat)
    requires
        cells_wf(cells, depth_max),
    ensures
        forall|i: int, j: int|
            0 <= i < j < flatten_cells(cells, depth_max).len() ==> ((#[trigger] flatten_cells(
                cells,
                depth_max,
            )[i]).hash as nat) < ((#[trigger] flatten_cells(cells, depth_max)[j]).hash as nat),
    decreases cells.len(),
{
    if cells.len() == 0 {
    } else {
        let f = flatten_cells(cells, depth_max);
        let e = expand_cell(cells[0], depth_max);
        let rest = cells.drop_first();
        lemma_cell_end_bound(cells[0], depth_max);
        lemma_wf_drop_first(cells, depth_max);
        lemma_flatten_sorted(rest, depth_max);
        if rest.len() > 0 {
            lemma_flatten_lower_bound(rest, depth_max);
        }
        assert forall|i: int, j: int|
            0 <= i < j < f.len() implies ((#[trigger] f[i]).hash as nat) < ((#[trigger] f[j]).hash
            as nat) by {
            let start = cell_start(cells[0], depth_max);
            if j < e.len() {
                assert(f[i] == e[i] && f[j] == e[j]);
                assert((f[i].hash as nat) == start + i);
                assert((f[j].hash as nat) == start + j);
            } else if i < e.len() {
                assert(f[i] == e[i]);
                assert((f[i].hash as nat) == start + i);
                assert(start + i < cell_end(cells[0], depth_max));
                assert(f[j] == flatten_cells(rest, depth_max)[j - e.len()]);
                assert(rest.len() > 0);
                assert(rest[0] == cells[1]);
                assert(cell_end(cells[0], depth_max) <= cell_start(cells[1], depth_max));
                assert((f[j].hash as nat) >= cell_start(rest[0], depth_max));
            } else {
                assert(f[i] == flatten_cells(rest, depth_max)[i - e.len()]);
                assert(f[j] == flatten_cells(rest, depth_max)[j - e.len()]);
            }
        }
    }
}

/// In a well-formed result the leaf ranges pack between the first cell's
/// start and the last cell's end.
proof fn lemma_deep_size_le_last_end(cells: Seq<Cell>, depth_max: nat)
    requires
        cells.len() > 0,
        cells_sorted(cells, depth_max),
    ensures
        cell_start(cells[0], depth_max) + deep_size(cells, depth_max) <= cell_end(
            cells.last(),
            depth_max,
        ),
    decreases cells.len(),
{
    let rest = cells.drop_first();
    if cells.len() == 1 {
        assert(deep_size(cells, depth_max) == cell_width(cells[0], depth_max) + deep_size(
            rest,
            depth_max,
        ));
        assert(cells.last() == cells[0]);
    } else {
        assert(cells_sorted(rest, depth_max)) by {
            assert forall|i: int|
                0 <= i < rest.len() - 1 implies cell_end(#[trigger] rest[i], depth_max)
                <= cell_start(rest[i + 1], depth_max) by {
                assert(rest[i] == cells[i + 1]);
                assert(rest[i + 1] == cells[i + 2]);
                assert(cell_end(cells[i + 1], depth_max) <= cell_start(cells[i + 2], depth_max));
            }
        }
        lemma_deep_size_le_last_end(rest, depth_max);
        assert(deep_size(cells, depth_max) == cell_width(cells[0], depth_max) + deep_size(
            rest,
            depth_max,
        ));
        assert(cell_end(cells[0], depth_max) <= cell_start(cells[1], depth_max));
        assert(rest[0] == cells[1]);
        assert(cell_start(cells[0], depth_max) + cell_width(cells[0], depth_max) == cell_end(
            cells[0],
            depth_max,
        ));
        assert(rest.last() == cells.last());
    }
}

/// The deep size of a well-formed result never exceeds the sphere's leaf
/// count at `depth_max`.
pub proof fn lemma_deep_size_bound(cells: Seq<Cell>, depth_max: nat)
    requires
        cells_wf(cells, depth_max),
    ensures
        deep_size(cells, depth_max) <= spec_n_hash(depth_max),
        deep_size(cells, depth_max) <= 3458764513820540928,
{
    lemma_pow4_increases(depth_max, MAX_DEPTH as nat);
    lemma_n_hash_max();
    if cells.len() > 0 {
        lemma_deep_size_le_last_end(cells, depth_max);
        lemma_cell_end_bound(cells.last(), depth_max);
    }
}

/// A coverage result: a maximum depth and a well-formed cell list, as
/// produced by [`Coverage::new`].
#[derive(Debug)]
pub struct Coverage {
    pub depth_max: u8,
    pub cells: Vec<Cell>,
}

impl Coverage {
    /// The cell list is well-formed for the stored maximum depth.
    pub open spec fn wf(self) -> bool {
        cells_wf(self.cells@, self.depth_max as nat)
    }

    /// Validates a cell list as a coverage result of maximum depth
    /// `depth_max`.
    ///
    /// Succeeds exactly on well-formed input; each error names the first
    /// condition violated, checked in the order depth bound, cell validity,
    /// cell order.
    pub fn new(depth_max: u8, cells: Vec<Cell>) -> (r: Result<Coverage, CoverageError>)
        ensures
            match r {
                Ok(c) => {
                    &&& c.depth_max == depth_max
                    &&& c.cells@ == cells@
                    &&& c.wf()
                },
                Err(CoverageError::DepthTooDeep) => depth_max > MAX_DEPTH,
                Err(CoverageError::InvalidCell) => depth_max <= MAX_DEPTH && !cells_valid(
                    cells@,
                    depth_max as nat,
                ),
                Err(CoverageError::OutOfOrder) => {
                    &&& depth_max <= MAX_DEPTH
                    &&& cells_valid(cells@, depth_max as nat)
                    &&& !cells_sorted(cells@, depth_max as nat)
                },
                Err(CoverageError::MalformedEntry) => false,
            },
            r is Ok <==> cells_wf(cells@, depth_max as nat),
    {
        if depth_max > MAX_DEPTH {
            return Err(CoverageError::DepthTooDeep);
        }
        let n = cells.len();
        let mut i: usize = 0;
        while i < n
            invariant
                depth_max <= MAX_DEPTH,
                n == cells@.len(),
                forall|k: int| 0 <= k < i ==> cell_valid(#[trigger] cells@[k], depth_max as nat),
            decreases n - i,
        {
            let c = cells[i];
            if c.depth > depth_max || c.hash >= n_hash(c.depth) {
                return Err(CoverageError::InvalidCell);
            }
            i = i + 1;
        }
        let mut i: usize = 0;
        while n > 0 && i < n - 1
            invariant
                depth_max <= MAX_DEPTH,
                n == cells@.len(),
                cells_valid(cells@, depth_max as nat),
                forall|k: int|
                    0 <= k < i ==> cell_end(#[trigger] cells@[k], depth_max as nat) <= cell_start(
                        cells@[k + 1],
                        depth_max as nat,
                    ),
            decreases n - i,
        {
            let (_, end) = cell_range(&cells[i], depth_max);
            let (start, _) = cell_range(&cells[i + 1], depth_max);
            if end > start {
                return Err(CoverageError::OutOfOrder);
            }
            i = i + 1;
        }
        Ok(Coverage { depth_max, cells })
    }

    /// Number of cells in the hierarchical form.
    pub fn len(&self) -> (r: usize)
        ensures
            r == self.cells@.len(),
    {
        self.cells.len()
    }

    /// Number of cells the flattened form will hold.
    pub fn deep_size(&self) -> (r: u64)
        requires
            self.wf(),
        ensures
            r == deep_size(self.cells@, self.depth_max as nat),
    {
        let n = self.cells.len();
        let mut sum: u64 = 0;
        let mut i: usize = 0;
        proof {
            lemma_deep_size_bound(self.cells@, self.depth_max as nat);
        }
        while i < n
            invariant
                self.wf(),
                n == self.cells@.len(),
                i <= n,
                sum == deep_size(self.cells@.take(i as int), self.depth_max as nat),
                deep_size(self.cells@, self.depth_max as nat) <= 3458764513820540928,
            decreases n - i,
        {
            let c = self.cells[i];
            let w = pow4_u64(self.depth_max - c.depth);
            proof {
                lemma_deep_size_push(
                    self.cells@.take(i as int),
                    self.cells@[i as int],
                    self.depth_max as nat,
                );
                assert(self.cells@.take(i as int).push(self.cells@[i as int]) =~= self.cells@.take(
                    i + 1,
                ));
                lemma_deep_size_take_le(self.cells@, i + 1, self.depth_max as nat);
            }
            sum = sum + w;
            i = i + 1;
        }
        proof {
            assert(self.cells@.take(n as int) =~= self.cells@);
        }
        sum
    }

    /// The hierarchical materialization: three index-aligned arrays listing
    /// each cell's index, depth and flag, in the result's order.
    pub fn materialize_hier(&self) -> (r: (Vec<u64>, Vec<u8>, Vec<bool>))
        ensures
            r.0@ == self.cells@.map_values(|c: Cell| c.hash),
            r.1@ == self.cells@.map_values(|c: Cell| c.depth),
            r.2@ == self.cells@.map_values(|c: Cell| c.full),
    {
        split_arrays(&self.cells)
    }

    /// The flattened materialization: the same three arrays for the
    /// flattened form at the result's maximum depth.
    pub fn materialize_flat(&self) -> (r: (Vec<u64>, Vec<u8>, Vec<bool>))
        requires
            self.wf(),
        ensures
            ({
                let f = flatten_cells(self.cells@, self.depth_max as nat);
                &&& r.0@ == f.map_values(|c: Cell| c.hash)
                &&& r.1@ == f.map_values(|c: Cell| c.depth)
                &&& r.2@ == f.map_values(|c: Cell| c.full)
            }),
    {
        let flat = self.flat_cells();
        split_arrays(&flat)
    }

    /// The flattened form itself: every cell expanded to the maximum depth.
    pub fn flat_cells(&self) -> (r: Vec<Cell>)
        requires
            self.wf(),
        ensures
            r@ == flatten_cells(self.cells@, self.depth_max as nat),
    {
        let d_max = self.depth_max;
        let n = self.cells.len();
        let mut out: Vec<Cell> = Vec::new();
        let mut i: usize = 0;
        while i < n
            invariant
                self.wf(),
                d_max == self.depth_max,
                n == self.cells@.len(),
                i <= n,
                out@ == flatten_cells(self.cells@.take(i as int), d_max as nat),
            decreases n - i,
        {
            let c = self.cells[i];
            let (start, end) = cell_range(&c, d_max);
            proof {
                lemma_cell_end_bound(self.cells@[i as int], d_max as nat);
            }
            let ghost done = out@;
            let mut h = start;
            while h < end
                invariant
                    start <= h <= end,
                    end == cell_end(self.cells@[i as int], d_max as nat),
                    start == cell_start(self.cells@[i as int], d_max as nat),
                    end <= 3458764513820540928,
                    c == self.cells@[i as int],
                    0 <= i < self.cells@.len(),
                    d_max <= MAX_DEPTH,
                    cell_valid(self.cells@[i as int], d_max as nat),
                    out@ == done + expand_cell(self.cells@[i as int], d_max as nat).take(
                        h - start,
                    ),
                decreases end - h,
            {
                out.push(Cell { depth: d_max, hash: h, full: c.full });
                proof {
                    let e = expand_cell(self.cells@[i as int], d_max as nat);
                    assert(e.take(h + 1 - start) =~= e.take(h - start).push(e[h - start]));
                }
                h = h + 1;
            }
            proof {
                let e = expand_cell(self.cells@[i as int], d_max as nat);
                assert(e.take(end - start) =~= e);
                lemma_flatten_push(
                    self.cells@.take(i as int),
                    self.cells@[i as int],
                    d_max as nat,
                );
                assert(self.cells@.take(i as int).push(self.cells@[i as int]) =~= self.cells@.take(
                    i + 1,
                ));
            }
            i = i + 1;
        }
        proof {
            assert(self.cells@.take(n as int) =~= self.cells@);
        }
        out
    }
}

/// A prefix never covers more leaves than the whole list.
proof fn lemma_deep_size_take_le(cells: Seq<Cell>, i: int, depth_max: nat)
    requires
        0 <= i <= cells.len(),
    ensures
        deep_size(cells.take(i), depth_max) <= deep_size(cells, depth_max),
    decreases cells.len(),
{
    if i > 0 && cells.len() > 0 {
        assert(cells.take(i).drop_first() =~= cells.drop_first().take(i - 1));
        lemma_deep_size_take_le(cells.drop_first(), i - 1, depth_max);
    }
}

/// The leaf range a cell covers at depth `depth_max`, as machine integers.
fn cell_range(c: &Cell, depth_max: u8) -> (r: (u64, u64))
    requires
        depth_max <= MAX_DEPTH,
        cell_valid(*c, depth_max as nat),
    ensures
        r.0 == cell_start(*c, depth_max as nat),
        r.1 == cell_end(*c, depth_max as nat),
{
    let w = pow4_u64(depth_max - c.depth);
    proof {
        lemma_cell_end_bound(*c, depth_max as nat);
        lemma_pow4_pos((depth_max - c.depth) as nat);
    }
    let start = c.hash * w;
    (start, start + w)
}

/// Decodes a packed engine entry with the sentinel bit removed.
///
/// The engine packs a cell `delta` levels above the result's maximum depth
/// as `(2 * hash + 1) * 4^delta`, the odd factor acting as the sentinel
/// that codes the depth. Returns the `(delta, hash)` pair, or `None` for a
/// value not of that shape.
pub open spec fn split_raw(v: nat) -> Option<(nat, nat)>
    decreases v,
{
    if v == 0 {
        None
    } else if v % 2 == 1 {
        Some(((0 as nat), v / 2))
    } else if v % 4 == 0 {
        match split_raw(v / 4) {
            Some(p) => Some((((p.0 + 1) as nat), p.1)),
            None => None,
        }
    } else {
        None
    }
}

/// The cell a packed engine entry codes in a result of maximum depth
/// `depth_max`: the lowest bit is the full/partial flag, the rest codes
/// depth and index as [`split_raw`] describes. `None` for an entry that is
/// malformed or deeper than `depth_max`.
pub open spec fn cell_of_raw(raw: u64, depth_max: nat) -> Option<Cell> {
    match split_raw((raw / 2) as nat) {
        Some(p) => if p.0 <= depth_max {
            Some(
                Cell {
                    depth: (depth_max - p.0) as u8,
                    hash: p.1 as u64,
                    full: raw % 2 == 1,
                },
            )
        } else {
            None
        },
        None => None,
    }
}

/// Every entry decodes.
pub open spec fn all_entries_decode(raws: Seq<u64>, depth_max: nat) -> bool {
    forall|i: int| 0 <= i < raws.len() ==> cell_of_raw(#[trigger] raws[i], depth_max) is Some
}

/// The cell list a packed entry list codes, in order.
pub open spec fn decoded_cells(raws: Seq<u64>, depth_max: nat) -> Seq<Cell> {
    Seq::new(raws.len(), |i: int| cell_of_raw(raws[i], depth_max).unwrap())
}

/// Decodes one packed engine entry.
fn unpack_one(raw: u64, depth_max: u8) -> (r: Option<Cell>)
    requires
        depth_max <= MAX_DEPTH,
    ensures
        r == cell_of_raw(raw, depth_max as nat),
{
    let full = raw % 2 == 1;
    let mut v: u64 = raw / 2;
    let mut delta: u8 = 0;
    if v == 0 {
        return None;
    }
    loop
        invariant
            v >= 1,
            delta <= depth_max <= MAX_DEPTH,
            full == (raw % 2 == 1),
            match split_raw(v as nat) {
                Some(p) => split_raw((raw / 2) as nat) == Some((((p.0 + delta) as nat), p.1)),
                None => split_raw((raw / 2) as nat) is None,
            },
        decreases v,
    {
        if v % 2 == 1 {
            return Some(Cell { depth: depth_max - delta, hash: v / 2, full });
        }
        if v % 4 != 0 {
            return None;
        }
        if delta == depth_max {
            return None;
        }
        v = v / 4;
        delta = delta + 1;
    }
}

/// Decodes a packed entry list, in order; fails iff some entry does not
/// decode.
pub fn unpack_cells(entries: &Vec<u64>, depth_max: u8) -> (r: Result<Vec<Cell>, CoverageError>)
    requires
        depth_max <= MAX_DEPTH,
    ensures
        match r {
            Ok(cs) => all_entries_decode(entries@, depth_max as nat) && cs@ == decoded_cells(
                entries@,
                depth_max as nat,
            ),
            Err(e) => e == CoverageError::MalformedEntry && !all_entries_decode(
                entries@,
                depth_max as nat,
            ),
        },
{
    let n = entries.len();
    let mut out: Vec<Cell> = Vec::new();
    let mut i: usize = 0;
    while i < n
        invariant
            depth_max <= MAX_DEPTH,
            n == entries@.len(),
            i <= n,
            out@.len() == i,
            forall|k: int|
                0 <= k < i ==> cell_of_raw(#[trigger] entries@[k], depth_max as nat) is Some,
            forall|k: int|
                0 <= k < i ==> out@[k] == cell_of_raw(entries@[k], depth_max as nat).unwrap(),
        decreases n - i,
    {
        match unpack_one(entries[i], depth_max) {
            Some(c) => out.push(c),
            None => {
                return Err(CoverageError::MalformedEntry);
            },
        }
        i = i + 1;
    }
    proof {
        assert(out@ =~= decoded_cells(entries@, depth_max as nat));
    }
    Ok(out)
}

/// The cell list an engine result codes.
pub open spec fn spec_bmoc_cells(b: BMOC) -> Seq<Cell> {
    decoded_cells(bmoc_entry_seq(b), bmoc_depth_of(b) as nat)
}

/// Whether an engine result is accepted, or the first reason it is
/// rejected: depth bound, entry decoding, cell validity, cell order, in
/// that order.
pub open spec fn spec_bmoc_check(b: BMOC) -> Result<(), CoverageError> {
    let dm = bmoc_depth_of(b);
    let raws = bmoc_entry_seq(b);
    if dm > MAX_DEPTH {
        Err(CoverageError::DepthTooDeep)
    } else if !all_entries_decode(raws, dm as nat) {
        Err(CoverageError::MalformedEntry)
    } else if !cells_valid(spec_bmoc_cells(b), dm as nat) {
        Err(CoverageError::InvalidCell)
    } else if !cells_sorted(spec_bmoc_cells(b), dm as nat) {
        Err(CoverageError::OutOfOrder)
    } else {
        Ok(())
    }
}

/// Builds a validated coverage result from an engine result.
///
/// Succeeds exactly when [`spec_bmoc_check`] accepts the result, with the
/// decoded cells in stored order; fails with the error it names otherwise.
pub fn coverage_from_bmoc(b: &BMOC) -> (r: Result<Coverage, CoverageError>)
    ensures
        match r {
            Ok(c) => {
                &&& spec_bmoc_check(*b) == Ok::<(), CoverageError>(())
                &&& c.depth_max == bmoc_depth_of(*b)
                &&& c.cells@ == spec_bmoc_cells(*b)
                &&& c.wf()
            },
            Err(e) => spec_bmoc_check(*b) == Err::<(), CoverageError>(e),
        },
{
    let dm = bmoc_depth_max(b);
    if dm > MAX_DEPTH {
        return Err(CoverageError::DepthTooDeep);
    }
    let raws = bmoc_entries(b);
    let cells = match unpack_cells(&raws, dm) {
        Ok(cs) => cs,
        Err(e) => {
            return Err(e);
        },
    };
    Coverage::new(dm, cells)
}

/// The hierarchical materialization of an engine result: three
/// index-aligned arrays listing each cell's index, depth and flag, in the
/// result's order. Fails exactly where [`coverage_from_bmoc`] does.
pub fn get_cells(b: &BMOC) -> (r: Result<(Vec<u64>, Vec<u8>, Vec<bool>), CoverageError>)
    ensures
        match r {
            Ok(a) => {
                &&& spec_bmoc_check(*b) == Ok::<(), CoverageError>(())
                &&& a.0@ == spec_bmoc_cells(*b).map_values(|c: Cell| c.hash)
                &&& a.1@ == spec_bmoc_cells(*b).map_values(|c: Cell| c.depth)
                &&& a.2@ == spec_bmoc_cells(*b).map_values(|c: Cell| c.full)
            },
            Err(e) => spec_bmoc_check(*b) == Err::<(), CoverageError>(e),
        },
{
    match coverage_from_bmoc(b) {
        Ok(c) => Ok(c.materialize_hier()),
        Err(e) => Err(e),
    }
}

/// The flattened materialization of an engine result: the same three
/// arrays for every cell expanded to the result's maximum depth. Fails
/// exactly where [`coverage_from_bmoc`] does.
pub fn get_flat_cells(b: &BMOC) -> (r: Result<(Vec<u64>, Vec<u8>, Vec<bool>), CoverageError>)
    ensures
        match r {
            Ok(a) => {
                let f = flatten_cells(spec_bmoc_cells(*b), bmoc_depth_of(*b) as nat);
                &&& spec_bmoc_check(*b) == Ok::<(), CoverageError>(())
                &&& a.0@ == f.map_values(|c: Cell| c.hash)
                &&& a.1@ == f.map_values(|c: Cell| c.depth)
                &&& a.2@ == f.map_values(|c: Cell| c.full)
            },
            Err(e) => spec_bmoc_check(*b) == Err::<(), CoverageError>(e),
        },
{
    match coverage_from_bmoc(b) {
        Ok(c) => Ok(c.materialize_flat()),
        Err(e) => Err(e),
    }
}

/// Splits a cell list into its three index-aligned arrays.
fn split_arrays(cells: &Vec<Cell>) -> (r: (Vec<u64>, Vec<u8>, Vec<bool>))
    ensures
        r.0@ == cells@.map_values(|c: Cell| c.hash),
        r.1@ == cells@.map_values(|c: Cell| c.depth),
        r.2@ == cells@.map_values(|c: Cell| c.full),
{
    let n = cells.len();
    let mut hashes: Vec<u64> = Vec::new();
    let mut depths: Vec<u8> = Vec::new();
    let mut flags: Vec<bool> = Vec::new();
    let mut i: usize = 0;
    while i < n
        invariant
            n == cells@.len(),
            i <= n,
            hashes@ == cells@.take(i as int).map_values(|c: Cell| c.hash),
            depths@ == cells@.take(i as int).map_values(|c: Cell| c.depth),
            flags@ == cells@.take(i as int).map_values(|c: Cell| c.full),
        decreases n - i,
    {
        let c = cells[i];
        hashes.push(c.hash);
        depths.push(c.depth);
        flags.push(c.full);
        proof {
            assert(cells@.take(i + 1) =~= cells@.take(i as int).push(cells@[i as int]));
            assert(cells@.take(i + 1).map_values(|c: Cell| c.hash) =~= cells@.take(
                i as int,
            ).map_values(|c: Cell| c.hash).push(cells@[i as int].hash));
            assert(cells@.take(i + 1).map_values(|c: Cell| c.depth) =~= cells@.take(
                i as int,
            ).map_values(|c: Cell| c.depth).push(cells@[i as int].depth));
            assert(cells@.take(i + 1).map_values(|c: Cell| c.full) =~= cells@.take(
                i as int,
            ).map_values(|c: Cell| c.full).push(cells@[i as int].full));
        }
        i = i + 1;
    }
    proof {
        assert(cells@.take(n as int) =~= cells@);
    }
    (hashes, depths, flags)
}

} // verus!
