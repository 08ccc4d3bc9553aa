use cdshealpix::compass_point::{Cardinal, MainWind, Ordinal};
use healpix_batch::batch::{external_neighbours, from_ring, neighbours, to_ring};

#[test]
fn to_ring_known_values() {
    // Nested-to-ring pairs at depth 1 from the engine's documentation.
    let ipix: Vec<u64> = vec![9, 10, 11, 12, 13, 14, 15, 16, 17];
    let out = to_ring(1, &ipix, 1);
    assert_eq!(out, vec![9, 8, 2, 19, 11, 10, 3, 28, 20]);
}

#[test]
fn to_ring_deterministic_across_worker_counts() {
    let ipix: Vec<u64> = (0..48).collect();
    let r1 = to_ring(1, &ipix, 1);
    let r2 = to_ring(1, &ipix, 2);
    let r8 = to_ring(1, &ipix, 8);
    assert_eq!(r1, r2);
    assert_eq!(r1, r8);
}

#[test]
fn from_ring_inverts_to_ring() {
    let ipix: Vec<u64> = (0..192).collect();
    let rings = to_ring(2, &ipix, 2);
    let back = from_ring(2, &rings, 2);
    assert_eq!(back, ipix);
}

#[test]
fn from_ring_deterministic_across_worker_counts() {
    let ipix: Vec<u64> = (0..48).collect();
    let r1 = from_ring(1, &ipix, 1);
    let r2 = from_ring(1, &ipix, 2);
    let r8 = from_ring(1, &ipix, 8);
    assert_eq!(r1, r2);
    assert_eq!(r1, r8);
}

#[test]
fn neighbours_known_value() {
    // At depth 0 the east neighbour of cell 4 is cell 5, per the engine's
    // documentation; the centre slot holds the cell itself.
    let out = neighbours(0, &vec![4], 1);
    assert_eq!(out.len(), 9);
    assert_eq!(out[2], 5); // E slot
    assert_eq!(out[4], 4); // C slot
}

#[test]
fn neighbours_rows_match_engine_map() {
    let depth = 2u8;
    let ipix: Vec<u64> = (0..192).collect();
    let out = neighbours(depth, &ipix, 1);
    assert_eq!(out.len(), 9 * 192);
    let wind_of = |j: usize| match j {
        0 => MainWind::S,
        1 => MainWind::SE,
        2 => MainWind::E,
        3 => MainWind::SW,
        4 => MainWind::C,
        5 => MainWind::NE,
        6 => MainWind::W,
        7 => MainWind::NW,
        _ => MainWind::N,
    };
    for (i, &p) in ipix.iter().enumerate() {
        let map = cdshealpix::nested::neighbours(depth, p, true);
        for j in 0..9 {
            let expected = match map.get(wind_of(j)) {
                Some(&v) => v as i64,
                None => -1,
            };
            assert_eq!(out[9 * i + j], expected, "cell {} slot {}", p, j);
        }
    }
}

#[test]
fn neighbours_deterministic_across_worker_counts() {
    let ipix: Vec<u64> = (0..192).collect();
    let r1 = neighbours(2, &ipix, 1);
    let r2 = neighbours(2, &ipix, 2);
    let r8 = neighbours(2, &ipix, 8);
    assert_eq!(r1, r2);
    assert_eq!(r1, r8);
}

#[test]
fn neighbour_slots_are_valid_or_sentinel() {
    let depth = 1u8;
    let n_hash = 48i64;
    let ipix: Vec<u64> = (0..48).collect();
    let out = neighbours(depth, &ipix, 1);
    for &slot in &out {
        assert!(slot == -1 || (0 <= slot && slot < n_hash), "slot {}", slot);
    }
}

#[test]
fn neighbour_symmetry_north_south() {
    // If B is the north neighbour of A, A is the south neighbour of B —
    // except across the polar base-cell seams (at depth 2, the north
    // neighbour of 5 is 27, whose south neighbour is 24). Within one base
    // cell the symmetry is exact, and everywhere A stays among B's
    // neighbours.
    let depth = 2u8;
    let n = 192u64;
    let per_base = 16u64; // cells per base cell at depth 2
    let ipix: Vec<u64> = (0..n).collect();
    let out = neighbours(depth, &ipix, 1);
    let mut checked: usize = 0;
    for a in 0..n as usize {
        let b = out[9 * a + 8]; // N slot of A
        if b >= 0 {
            let b = b as usize;
            let row = &out[9 * b..9 * b + 9];
            assert!(
                row.contains(&(a as i64)),
                "{} not among the neighbours of {}",
                a,
                b
            );
            if (a as u64) / per_base == (b as u64) / per_base {
                assert_eq!(row[0], a as i64, "south of {} is not {}", b, a);
                checked += 1;
            }
        }
    }
    assert!(checked > 100, "only {} symmetric pairs", checked);
}

#[test]
fn external_neighbours_matches_engine_sorted_edge() {
    // The engine documents the sorted external edge of cell 10 at depth 1,
    // delta 2: the union of our four corner slots and sixteen edge cells.
    let (corners, edges) = external_neighbours(1, 2, &vec![10], 1);
    assert_eq!(corners.len(), 4);
    assert_eq!(edges.len(), 16);
    let mut all: Vec<u64> = edges.clone();
    for &c in &corners {
        if c >= 0 {
            all.push(c as u64);
        }
    }
    all.sort();
    let expected: Vec<u64> = vec![
        85, 87, 93, 95, 117, 138, 139, 142, 143, 154, 176, 178, 184, 186, 415, 437, 439, 445, 447,
    ];
    assert_eq!(all, expected);
}

#[test]
fn external_neighbours_layout_matches_engine_struct() {
    let depth = 1u8;
    let delta = 1u8;
    let ipix: Vec<u64> = (0..48).collect();
    let (corners, edges) = external_neighbours(depth, delta, &ipix, 1);
    let run = 2usize; // 2^delta cells per edge
    for (i, &p) in ipix.iter().enumerate() {
        let ee = cdshealpix::nested::get(depth).external_edge_struct(p, delta);
        let cs = [Cardinal::S, Cardinal::E, Cardinal::N, Cardinal::W];
        for (j, c) in cs.iter().enumerate() {
            let expected = ee.get_corner(c).map(|v| v as i64).unwrap_or(-1);
            assert_eq!(corners[4 * i + j], expected);
        }
        let os = [Ordinal::SE, Ordinal::NE, Ordinal::NW, Ordinal::SW];
        for (j, o) in os.iter().enumerate() {
            let seg = ee.get_edge(o);
            assert_eq!(seg.len(), run);
            for k in 0..run {
                assert_eq!(edges[4 * run * i + run * j + k], seg[k]);
            }
        }
    }
}

#[test]
fn external_neighbours_deterministic_across_worker_counts() {
    let ipix: Vec<u64> = (0..48).collect();
    let r1 = external_neighbours(1, 2, &ipix, 1);
    let r2 = external_neighbours(1, 2, &ipix, 2);
    let r8 = external_neighbours(1, 2, &ipix, 8);
    assert_eq!(r1, r2);
    assert_eq!(r1, r8);
}

#[test]
fn corner_slots_are_valid_or_sentinel() {
    let ipix: Vec<u64> = (0..12).collect();
    let (corners, edges) = external_neighbours(0, 1, &ipix, 1);
    let n_out = 48i64; // cells at depth 0 + 1
    let mut sentinels: usize = 0;
    for &c in &corners {
        assert!(c == -1 || (0 <= c && c < n_out), "corner {}", c);
        if c == -1 {
            sentinels += 1;
        }
    }
    // polar base cells have absent corners
    assert!(sentinels > 0);
    for &e in &edges {
        assert!(e < 48);
    }
}
