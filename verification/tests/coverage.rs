use healpix_batch::cover::{
    coverage_from_bmoc, get_cells, get_flat_cells, Cell, Coverage, CoverageError,
};

fn cell(depth: u8, hash: u64, full: bool) -> Cell {
    Cell { depth, hash, full }
}

#[test]
fn hierarchical_materialization_lists_cells_in_order() {
    let cells = vec![cell(0, 0, true), cell(1, 5, false), cell(2, 24, true)];
    let cov = Coverage::new(2, cells).unwrap();
    let (hashes, depths, flags) = cov.materialize_hier();
    assert_eq!(hashes, vec![0, 5, 24]);
    assert_eq!(depths, vec![0, 1, 2]);
    assert_eq!(flags, vec![true, false, true]);
}

#[test]
fn flattening_expands_to_uniform_depth() {
    // At depth_max 2: the depth-0 cell covers leaves 0..16, the depth-1
    // cell leaves 20..24, the depth-2 cell leaf 24.
    let cells = vec![cell(0, 0, true), cell(1, 5, false), cell(2, 24, true)];
    let cov = Coverage::new(2, cells).unwrap();
    assert_eq!(cov.deep_size(), 16 + 4 + 1);
    let (hashes, depths, flags) = cov.materialize_flat();
    assert_eq!(hashes.len(), 21);
    assert_eq!(depths.len(), 21);
    assert_eq!(flags.len(), 21);
    let expected_hashes: Vec<u64> = (0..16).chain(20..24).chain(24..25).collect();
    assert_eq!(hashes, expected_hashes);
    assert!(depths.iter().all(|&d| d == 2));
    let expected_flags: Vec<bool> =
        (0..16).map(|_| true).chain((0..4).map(|_| false)).chain([true]).collect();
    assert_eq!(flags, expected_flags);
}

#[test]
fn flat_count_is_sum_of_expansions() {
    // Three cells at depths 1, 2, 3 under depth_max 3 expand to
    // 4^2 + 4^1 + 4^0 leaves.
    let cells = vec![cell(1, 0, true), cell(2, 17, false), cell(3, 73, true)];
    let cov = Coverage::new(3, cells).unwrap();
    assert_eq!(cov.deep_size(), 16 + 4 + 1);
    let (hashes, _, _) = cov.materialize_flat();
    assert_eq!(hashes.len() as u64, cov.deep_size());
}

#[test]
fn empty_coverage_materializes_empty() {
    let cov = Coverage::new(5, vec![]).unwrap();
    assert_eq!(cov.deep_size(), 0);
    let (h, d, f) = cov.materialize_hier();
    assert!(h.is_empty() && d.is_empty() && f.is_empty());
    let (h, d, f) = cov.materialize_flat();
    assert!(h.is_empty() && d.is_empty() && f.is_empty());
}

#[test]
fn validation_rejects_deep_result() {
    assert_eq!(Coverage::new(30, vec![]).unwrap_err(), CoverageError::DepthTooDeep);
}

#[test]
fn validation_rejects_invalid_cell() {
    // hash 48 is out of range at depth 1 (only 48 cells, 0..48).
    assert_eq!(
        Coverage::new(2, vec![cell(1, 48, true)]).unwrap_err(),
        CoverageError::InvalidCell
    );
    // deeper than the maximum depth
    assert_eq!(
        Coverage::new(1, vec![cell(2, 0, true)]).unwrap_err(),
        CoverageError::InvalidCell
    );
}

#[test]
fn validation_rejects_out_of_order_cells() {
    let cells = vec![cell(1, 5, false), cell(0, 0, true)];
    assert_eq!(Coverage::new(2, cells).unwrap_err(), CoverageError::OutOfOrder);
}

#[test]
fn validation_rejects_overlapping_cells() {
    // the depth-1 cell 0 lies inside the depth-0 cell 0
    let cells = vec![cell(0, 0, true), cell(1, 0, false)];
    assert_eq!(Coverage::new(2, cells).unwrap_err(), CoverageError::OutOfOrder);
}

#[test]
fn engine_cone_coverage_matches_engine_iteration() {
    let lon = 13.158329f64.to_radians();
    let lat = -72.80028f64.to_radians();
    let radius = 5.64323f64.to_radians();
    let bmoc = cdshealpix::nested::cone_coverage_approx_custom(3, 2, lon, lat, radius);

    let (hashes, depths, flags) = get_cells(&bmoc).unwrap();
    let expected: Vec<(u64, u8, bool)> =
        bmoc.into_iter().map(|c| (c.hash, c.depth, c.is_full)).collect();
    assert_eq!(hashes.len(), expected.len());
    for (i, &(h, d, f)) in expected.iter().enumerate() {
        assert_eq!((hashes[i], depths[i], flags[i]), (h, d, f));
    }

    let (fh, fd, ff) = get_flat_cells(&bmoc).unwrap();
    let expected_flat: Vec<(u64, u8, bool)> =
        bmoc.flat_iter_cell().map(|c| (c.hash, c.depth, c.is_full)).collect();
    assert_eq!(fh.len(), bmoc.deep_size());
    assert_eq!(fh.len(), expected_flat.len());
    for (i, &(h, d, f)) in expected_flat.iter().enumerate() {
        assert_eq!((fh[i], fd[i], ff[i]), (h, d, f));
    }
}

#[test]
fn engine_cone_coverage_deep_size_matches() {
    let bmoc = cdshealpix::nested::cone_coverage_approx_custom(4, 1, 0.7, -0.3, 0.05);
    let cov = coverage_from_bmoc(&bmoc).unwrap();
    assert_eq!(cov.deep_size() as usize, bmoc.deep_size());
}

#[test]
fn empty_engine_result_materializes_empty() {
    // A query with no overlapping cells yields a zero-length result in
    // both forms, not an error.
    let bmoc = cdshealpix::nested::bmoc::BMOC::new_empty(2);
    let (h, d, f) = get_cells(&bmoc).unwrap();
    assert_eq!(h.len(), 0);
    assert_eq!(d.len(), 0);
    assert_eq!(f.len(), 0);
    let (fh, _, _) = get_flat_cells(&bmoc).unwrap();
    assert_eq!(fh.len(), 0);
}

#[test]
fn zero_radius_cone_is_the_centre_cell() {
    // The engine answers a radius-zero cone with the single cell holding
    // the centre, not with an empty result; both materializations follow.
    let bmoc = cdshealpix::nested::cone_coverage_approx_custom(2, 1, 0.5, 0.5, 0.0);
    let (h, d, f) = get_cells(&bmoc).unwrap();
    assert_eq!(h.len(), 1);
    assert_eq!(d, vec![2]);
    assert_eq!(f.len(), 1);
    assert_eq!(h[0], cdshealpix::nested::hash(2, 0.5, 0.5));
    let (fh, _, _) = get_flat_cells(&bmoc).unwrap();
    assert_eq!(fh, h);
}

#[test]
fn malformed_engine_entry_is_rejected() {
    // A raw entry without the sentinel bit (0) does not decode.
    let bmoc = cdshealpix::nested::bmoc::BMOC::create_unsafe(1, vec![0u64].into_boxed_slice());
    assert_eq!(get_cells(&bmoc).unwrap_err(), CoverageError::MalformedEntry);
    // Neither does one whose sentinel run is broken (flag 0, then 0b10).
    let bmoc = cdshealpix::nested::bmoc::BMOC::create_unsafe(1, vec![4u64].into_boxed_slice());
    assert_eq!(get_flat_cells(&bmoc).unwrap_err(), CoverageError::MalformedEntry);
}

#[test]
fn out_of_order_engine_entries_are_rejected() {
    // Depth-1 cells pack as (2*hash + 1) << 1 | flag: hash 5 then hash 0.
    let entries = vec![22u64, 2u64].into_boxed_slice();
    let bmoc = cdshealpix::nested::bmoc::BMOC::create_unsafe(1, entries);
    assert_eq!(get_cells(&bmoc).unwrap_err(), CoverageError::OutOfOrder);
}

#[test]
fn too_deep_engine_result_is_rejected() {
    let bmoc = cdshealpix::nested::bmoc::BMOC::create_unsafe(30, vec![].into_boxed_slice());
    assert_eq!(get_cells(&bmoc).unwrap_err(), CoverageError::DepthTooDeep);
}

#[test]
fn oversized_cone_truncates_to_the_full_sphere() {
    // A region larger than the whole sphere comes back as the twelve
    // root-level cells.
    let bmoc = cdshealpix::nested::cone_coverage_approx_custom(1, 1, 0.0, 0.0, 4.0);
    let (hashes, depths, _) = get_cells(&bmoc).unwrap();
    assert_eq!(hashes, (0..12).collect::<Vec<u64>>());
    assert!(depths.iter().all(|&d| d == 0));
}

#[test]
fn allsky_coverage_is_the_twelve_root_cells() {
    let bmoc = cdshealpix::nested::bmoc::BMOC::new_allsky(2);
    let (hashes, depths, flags) = get_cells(&bmoc).unwrap();
    assert_eq!(hashes, (0..12).collect::<Vec<u64>>());
    assert!(depths.iter().all(|&d| d == 0));
    assert!(flags.iter().all(|&f| f));
    let (fh, _, _) = get_flat_cells(&bmoc).unwrap();
    assert_eq!(fh.len(), 192);
}
