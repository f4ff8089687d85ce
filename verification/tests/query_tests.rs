use japan_geoid::gsi::ascii::parse_ascii;
use japan_geoid::gsi::grid::{GridInfo, MemoryGrid};
use japan_geoid::gsi::query::{Grid, GridCoord, FRAC_ONE};

/// One whole fractional step, as the scaled result unit squares it.
const UNIT: i128 = FRAC_ONE as i128;

/// Converts a degree coordinate to a continuous grid coordinate, the way an
/// application shell around the library does it: floating-point at the very
/// edge, plain integers inside.
fn coord(value: f64, origin_bits: u32, denom: u16) -> GridCoord {
    let g = (value - f32::from_bits(origin_bits) as f64) * denom as f64;
    let idx = g.floor();
    let frac = ((g - idx) * (FRAC_ONE as f64)).round() as u64;
    if frac >= FRAC_ONE {
        GridCoord { index: idx as i64 + 1, frac: 0 }
    } else {
        GridCoord { index: idx as i64, frac: frac as u32 }
    }
}

/// The height in meters a scaled query result stands for.
fn meters(h: i128) -> f64 {
    (h as f64) / (10000.0 * (UNIT as f64) * (UNIT as f64))
}

fn sample_grid() -> MemoryGrid {
    // 3 x 2 nodes; the raw integers are heights in units of 1/10000 m.
    // Row 0 (y = 0): 10.0000  20.0000  30.0000
    // Row 1 (y = 1): 40.0000  50.0000  no-data
    let info = GridInfo {
        x_num: 3,
        y_num: 2,
        x_denom: 40,
        y_denom: 60,
        x_min_bits: 120.0f32.to_bits(),
        y_min_bits: 20.0f32.to_bits(),
        ikind: 1,
        version: b"ver2.2".to_vec(),
    };
    MemoryGrid::new(info, vec![100000, 200000, 300000, 400000, 500000, 9990000])
}

fn node(i: i64, j: i64) -> (GridCoord, GridCoord) {
    (GridCoord { index: i, frac: 0 }, GridCoord { index: j, frac: 0 })
}

#[test]
fn exact_node_values() {
    let g = sample_grid();
    // A node query returns that node's sample, scaled by 2^64.
    let (x, y) = node(0, 0);
    assert_eq!(g.get_interpolated_value(x, y), Some(100000 * UNIT * UNIT));
    let (x, y) = node(1, 1);
    assert_eq!(g.get_interpolated_value(x, y), Some(500000 * UNIT * UNIT));
    // The last column of the first row: neighbors past the edge are absent,
    // but an exact node query must not mind.
    let (x, y) = node(2, 0);
    assert_eq!(g.get_interpolated_value(x, y), Some(300000 * UNIT * UNIT));
    // The sentinel node reads as no data.
    let (x, y) = node(2, 1);
    assert_eq!(g.get_interpolated_value(x, y), None);
}

#[test]
fn domain_boundary() {
    let g = sample_grid();
    // Below the origin on either axis.
    let (x, y) = node(-1, 0);
    assert_eq!(g.get_interpolated_value(x, y), None);
    let (x, y) = node(0, -1);
    assert_eq!(g.get_interpolated_value(x, y), None);
    // At or beyond the node count on either axis.
    let (x, y) = node(3, 0);
    assert_eq!(g.get_interpolated_value(x, y), None);
    let (x, y) = node(0, 2);
    assert_eq!(g.get_interpolated_value(x, y), None);
}

#[test]
fn interior_interpolation_formula() {
    let g = sample_grid();
    // rx = 1/2, ry = 1/4 inside the cell whose corners are
    // v00 = 100000, v01 = 200000, v10 = 400000, v11 = 500000.
    let rx: i128 = (FRAC_ONE / 2) as i128;
    let ry: i128 = (FRAC_ONE / 4) as i128;
    let x = GridCoord { index: 0, frac: (FRAC_ONE / 2) as u32 };
    let y = GridCoord { index: 0, frac: (FRAC_ONE / 4) as u32 };
    let expected = 100000 * (UNIT - rx) * (UNIT - ry) + 200000 * rx * (UNIT - ry)
        + 400000 * (UNIT - rx) * ry + 500000 * rx * ry;
    assert_eq!(g.get_interpolated_value(x, y), Some(expected));
    // The same weighted sum in meters: 10*(3/8) + 20*(3/8) + 40*(1/8) + 50*(1/8).
    let h = meters(expected);
    assert!((h - 22.5).abs() < 1e-9);
}

#[test]
fn grid_line_interpolation() {
    let g = sample_grid();
    // On a vertical grid line (rx = 0): only the two y-neighbors count.
    let x = GridCoord { index: 1, frac: 0 };
    let y = GridCoord { index: 0, frac: (FRAC_ONE / 2) as u32 };
    let ry: i128 = (FRAC_ONE / 2) as i128;
    let expected = (200000 * (UNIT - ry) + 500000 * ry) * UNIT;
    assert_eq!(g.get_interpolated_value(x, y), Some(expected));
    assert!((meters(expected) - 35.0).abs() < 1e-9);

    // Interpolating toward a missing corner yields no height.
    let x = GridCoord { index: 2, frac: 0 };
    assert_eq!(g.get_interpolated_value(x, y), None);
    // Past the last column with a nonzero x-fraction, the right neighbor is
    // structurally absent.
    let x = GridCoord { index: 2, frac: 1 };
    let y = GridCoord { index: 0, frac: 0 };
    assert_eq!(g.get_interpolated_value(x, y), None);
}

#[test]
fn batch_matches_scalar() {
    let g = sample_grid();
    let xs = vec![
        GridCoord { index: 0, frac: 0 },
        GridCoord { index: 0, frac: (FRAC_ONE / 2) as u32 },
        GridCoord { index: -2, frac: 7 },
        GridCoord { index: 2, frac: 0 },
        GridCoord { index: 1, frac: 12345 },
    ];
    let ys = vec![
        GridCoord { index: 0, frac: 0 },
        GridCoord { index: 0, frac: (FRAC_ONE / 4) as u32 },
        GridCoord { index: 1, frac: 0 },
        GridCoord { index: 1, frac: 0 },
        GridCoord { index: 0, frac: 54321 },
    ];
    let batch = g.get_heights(&xs, &ys);
    assert_eq!(batch.len(), xs.len());
    for i in 0..xs.len() {
        assert_eq!(batch[i], g.get_interpolated_value(xs[i], ys[i]));
    }
}

#[test]
fn end_to_end_text_grid() {
    // A miniature end-to-end run: text in, binary round trip, heights out.
    let content = "20.00000 120.00000 0.016667 0.025000 2 3 1 ver2.2\n10.0000 20.0000 30.0000\n40.0000 50.0000 999.0000\n";
    let parsed = parse_ascii(content.as_bytes()).unwrap();
    let x_min: f32 = std::str::from_utf8(&parsed.x_min_token).unwrap().parse().unwrap();
    let y_min: f32 = std::str::from_utf8(&parsed.y_min_token).unwrap().parse().unwrap();
    let grid = parsed.into_grid(x_min.to_bits(), y_min.to_bits());

    let bytes = grid.to_binary().unwrap();
    let grid2 = MemoryGrid::from_binary(&bytes).unwrap();

    let info = grid.grid_info();
    let queries = [
        (120.0, 20.0),
        (120.0125, 20.0083333),
        (120.025, 20.0),
        (10.0, 10.0),
        (200.0, 50.0),
    ];
    for (lng, lat) in queries {
        let x = coord(lng, info.x_min_bits, info.x_denom);
        let y = coord(lat, info.y_min_bits, info.y_denom);
        assert_eq!(grid.get_interpolated_value(x, y), grid2.get_interpolated_value(x, y));
    }

    // Far outside any supported region: no height.
    let x = coord(10.0, info.x_min_bits, info.x_denom);
    let y = coord(10.0, info.y_min_bits, info.y_denom);
    assert_eq!(grid.get_interpolated_value(x, y), None);

    // On the origin node: the first sample, exactly 10.0 m.
    let x = coord(120.0, info.x_min_bits, info.x_denom);
    let y = coord(20.0, info.y_min_bits, info.y_denom);
    let h = grid.get_interpolated_value(x, y).unwrap();
    assert!((meters(h) - 10.0).abs() < 1e-9);

    // Halfway along x between the first two nodes of the first row.
    let x = coord(120.0125, info.x_min_bits, info.x_denom);
    let y = coord(20.0, info.y_min_bits, info.y_denom);
    let h = grid.get_interpolated_value(x, y).unwrap();
    assert!((meters(h) - 15.0).abs() < 1e-6);
}
