//! Bilinear interpolation queries over a grid model.
//!
//! A query point is given as a continuous grid coordinate: an integer node
//! index plus a fractional offset in units of `1 / 2^32`. Out-of-domain
//! queries and queries that would interpolate across a missing sample do not
//! fail: they answer `None`, the integer counterpart of a quiet NaN.
//! Heights are returned as exact scaled integers: a result `h` stands for
//! `h / (10000 * 2^64)` meters.

use vstd::prelude::*;

use crate::gsi::grid::{grid_wf, GridInfo, GridModel, MemoryGrid, spec_lookup};

verus! {

/// One fractional step: fractional offsets are numerators over this.
pub const FRAC_ONE: u64 = 0x1_0000_0000;

/// A continuous coordinate along one grid axis: `index + frac / 2^32` grid
/// intervals from the grid origin.
#[derive(Debug, Clone, Copy, PartialEq, Eq, Structural)]
pub struct GridCoord {
    /// The node index below the coordinate; negative when the coordinate
    /// lies below the grid origin.
    pub index: i64,
    /// Fractional offset above the node, as a numerator over `2^32`.
    pub frac: u32,
}

/// The four-corner weighted sum, over scaled integers. `None` stands for a
/// missing operand and propagates into every term that carries a nonzero
/// weight; corners with weight zero are ignored entirely, which is what lets
/// a query on the last row or column succeed although neighbors past the
/// edge are structurally absent. The result unit is `1 / (10000 * 2^64)`
/// meters.
pub open spec fn spec_bilinear(
    rx: int,
    ry: int,
    v00: Option<i32>,
    v01: Option<i32>,
    v10: Option<i32>,
    v11: Option<i32>,
) -> Option<int> {
    let den = FRAC_ONE as int;
    if rx == 0 && ry == 0 {
        match v00 {
            None => None,
            Some(v) => Some(v * den * den),
        }
    } else if rx == 0 {
        if v00 is Some && v10 is Some {
            Some((v00->Some_0 * (den - ry) + v10->Some_0 * ry) * den)
        } else {
            None
        }
    } else if ry == 0 {
        if v00 is Some && v01 is Some {
            Some((v00->Some_0 * (den - rx) + v01->Some_0 * rx) * den)
        } else {
            None
        }
    } else {
        if v00 is Some && v01 is Some && v10 is Some && v11 is Some {
            Some(
                v00->Some_0 * (den - rx) * (den - ry) + v01->Some_0 * rx * (den - ry)
                    + v10->Some_0 * (den - rx) * ry + v11->Some_0 * rx * ry,
            )
        } else {
            None
        }
    }
}

/// A corner sample, `None` when it lies past the last row or column.
pub open spec fn spec_corner(g: GridModel, ix: int, iy: int, avail: bool) -> Option<i32> {
    if avail {
        spec_lookup(g, ix, iy)
    } else {
        None
    }
}

/// The interpolated height at a continuous grid coordinate: `None` below
/// the origin on either axis, `None` at or beyond the last node index, and
/// otherwise the bilinear combination of the up-to-four surrounding corner
/// samples.
pub open spec fn spec_interpolated(g: GridModel, x: GridCoord, y: GridCoord) -> Option<int> {
    if x.index < 0 || y.index < 0 {
        None
    } else if x.index >= g.info.x_num || y.index >= g.info.y_num {
        None
    } else {
        let ix = x.index as int;
        let iy = y.index as int;
        let xn = g.info.x_num as int;
        let yn = g.info.y_num as int;
        spec_bilinear(
            x.frac as int,
            y.frac as int,
            spec_lookup(g, ix, iy),
            spec_corner(g, ix + 1, iy, ix < xn - 1),
            spec_corner(g, ix, iy + 1, iy < yn - 1),
            spec_corner(g, ix + 1, iy + 1, ix < xn - 1 && iy < yn - 1),
        )
    }
}

/// Bilinear interpolation over scaled integers.
fn bilinear(
    rx: u32,
    ry: u32,
    v00: Option<i32>,
    v01: Option<i32>,
    v10: Option<i32>,
    v11: Option<i32>,
) -> (r: Option<i128>)
    ensures
        r is Some <==> spec_bilinear(rx as int, ry as int, v00, v01, v10, v11) is Some,
        r is Some ==> r->Some_0 == spec_bilinear(rx as int, ry as int, v00, v01, v10, v11)->Some_0,
{
    proof {
        lemma_term_bounds();
    }
    let den: i128 = FRAC_ONE as i128;
    let fx: i128 = rx as i128;
    let fy: i128 = ry as i128;
    if rx == 0 && ry == 0 {
        match v00 {
            None => None,
            Some(v) => Some((v as i128) * den * den),
        }
    } else if rx == 0 {
        match (v00, v10) {
            (Some(a), Some(b)) => Some(edge_blend(a, b, ry)),
            _ => None,
        }
    } else if ry == 0 {
        match (v00, v01) {
            (Some(a), Some(b)) => Some(edge_blend(a, b, rx)),
            _ => None,
        }
    } else {
        match (v00, v01, v10, v11) {
            (Some(a), Some(b), Some(c), Some(d)) => Some(
                (a as i128) * (den - fx) * (den - fy) + (b as i128) * fx * (den - fy)
                    + (c as i128) * (den - fx) * fy + (d as i128) * fx * fy,
            ),
            _ => None,
        }
    }
}

/// The two-corner blend used when the query sits exactly on a grid line:
/// `(a * (2^32 - r) + b * r) * 2^32` in the common result unit.
fn edge_blend(a: i32, b: i32, r: u32) -> (out: i128)
    ensures
        out == (a * ((FRAC_ONE as int) - r) + b * r) * (FRAC_ONE as int),
{
    proof {
        lemma_term_bounds();
    }
    let den: i128 = FRAC_ONE as i128;
    let f: i128 = r as i128;
    let ta: i128 = (a as i128) * (den - f);
    let tb: i128 = (b as i128) * f;
    let s: i128 = ta + tb;
    proof {
        assert(-0x2_00000000_00000000_00000000 <= (s as int) * 0x1_0000_0000
            <= 0x2_00000000_00000000_00000000) by (nonlinear_arith)
            requires
                -0x1_00000000_00000000 <= s as int <= 0x1_00000000_00000000;
    }
    s * den
}

/// Every weighted term of the four-corner sum stays far inside the 128-bit
/// range.
proof fn lemma_term_bounds()
    ensures
        forall|v: int, w: int|
            -0x8000_0000 <= v <= 0x8000_0000 && 0 <= w <= 0x1_0000_0000
                ==> -0x80000000_00000000 <= #[trigger] (v * w) <= 0x80000000_00000000,
        forall|v: int, w: int|
            -0x1_00000000_00000000 <= v <= 0x1_00000000_00000000 && 0 <= w <= 0x1_0000_0000
                ==> -0x1_00000000_00000000_00000000 <= #[trigger] (v * w)
                <= 0x1_00000000_00000000_00000000,
{
    assert forall|v: int, w: int|
        -0x8000_0000 <= v <= 0x8000_0000 && 0 <= w
            <= 0x1_0000_0000 implies -0x80000000_00000000 <= #[trigger] (v * w)
        <= 0x80000000_00000000 by {
        assert(-0x80000000_00000000 <= v * w <= 0x80000000_00000000) by (nonlinear_arith)
            requires
                -0x8000_0000 <= v <= 0x8000_0000,
                0 <= w <= 0x1_0000_0000;
    }
    assert forall|v: int, w: int|
        -0x1_00000000_00000000 <= v <= 0x1_00000000_00000000 && 0 <= w
            <= 0x1_0000_0000 implies -0x1_00000000_00000000_00000000 <= #[trigger] (v * w)
        <= 0x1_00000000_00000000_00000000 by {
        assert(-0x1_00000000_00000000_00000000 <= v * w <= 0x1_00000000_00000000_00000000)
            by (nonlinear_arith)
            requires
                -0x1_00000000_00000000 <= v <= 0x1_00000000_00000000,
                0 <= w <= 0x1_0000_0000;
    }
}

/// Grid access: the capability of being read as a lattice of samples with
/// metadata. The interpolation algorithm is written once, against this
/// interface alone.
pub trait Grid {
    /// The mathematical grid this value stands for.
    spec fn model(&self) -> GridModel;

    /// Grid metadata.
    fn grid_info(&self) -> (r: &GridInfo)
        ensures
            r@ == self.model().info,
    ;

    /// The raw value of the grid point at `(ix, iy)`, or `None` where the
    /// stored integer is the no-data sentinel. The caller keeps the indices
    /// inside the grid. A raw value `v` stands for a height of `v / 10000`
    /// meters.
    fn lookup_grid_points(&self, ix: u16, iy: u16) -> (r: Option<i32>)
        requires
            grid_wf(self.model()),
            ix < self.model().info.x_num,
            iy < self.model().info.y_num,
        ensures
            r == spec_lookup(self.model(), ix as int, iy as int),
    ;

    /// The interpolated height at the continuous grid coordinate `(x, y)`:
    /// `None` out of domain or across missing data, otherwise the exact
    /// scaled height, `result / (10000 * 2^64)` meters.
    fn get_interpolated_value(&self, x: GridCoord, y: GridCoord) -> (r: Option<i128>)
        requires
            grid_wf(self.model()),
        ensures
            r is Some <==> spec_interpolated(self.model(), x, y) is Some,
            r is Some ==> r->Some_0 == spec_interpolated(self.model(), x, y)->Some_0,
    {
        if x.index < 0 || y.index < 0 {
            return None;
        }
        let xn = self.grid_info().x_num;
        let yn = self.grid_info().y_num;
        if x.index >= xn as i64 || y.index >= yn as i64 {
            return None;
        }
        let ix = x.index as u16;
        let iy = y.index as u16;
        let v00 = self.lookup_grid_points(ix, iy);
        let v01 = if ix < xn - 1 {
            self.lookup_grid_points(ix + 1, iy)
        } else {
            None
        };
        let v10 = if iy < yn - 1 {
            self.lookup_grid_points(ix, iy + 1)
        } else {
            None
        };
        let v11 = if ix < xn - 1 && iy < yn - 1 {
            self.lookup_grid_points(ix + 1, iy + 1)
        } else {
            None
        };
        bilinear(x.frac, y.frac, v00, v01, v10, v11)
    }
}

impl MemoryGrid {
    /// The heights at a batch of query points: exactly the elementwise
    /// application of the single-point query to parallel coordinate arrays
    /// of equal length.
    pub fn get_heights(&self, xs: &Vec<GridCoord>, ys: &Vec<GridCoord>) -> (r: Vec<Option<i128>>)
        requires
            self.wf(),
            xs@.len() == ys@.len(),
        ensures
            r@.len() == xs@.len(),
            forall|i: int|
                0 <= i < r@.len() ==> {
                    &&& (#[trigger] r@[i]) is Some <==> spec_interpolated(self@, xs@[i], ys@[i]) is Some
                    &&& r@[i] is Some ==> r@[i]->Some_0 == spec_interpolated(self@, xs@[i], ys@[i])->Some_0
                },
    {
        let mut out: Vec<Option<i128>> = Vec::new();
        let n = xs.len();
        let mut i: usize = 0;
        while i < n
            invariant
                self.wf(),
                n == xs@.len(),
                xs@.len() == ys@.len(),
                0 <= i <= n,
                out@.len() == i,
                forall|j: int|
                    0 <= j < i ==> {
                        &&& (#[trigger] out@[j]) is Some <==> spec_interpolated(self@, xs@[j], ys@[j]) is Some
                        &&& out@[j] is Some ==> out@[j]->Some_0 == spec_interpolated(self@, xs@[j], ys@[j])->Some_0
                    },
            decreases n - i,
        {
            let h = self.get_interpolated_value(xs[i], ys[i]);
            out.push(h);
            i += 1;
        }
        out
    }
}

/// A grid coordinate stands for the scaled value `index * 2^32 + frac`.
/// Testing the node index alone draws the domain boundary exactly: the
/// coordinate is below the origin precisely when the index is negative, and
/// at or beyond `count` grid intervals precisely when the index reaches
/// `count`.
pub proof fn lemma_coordinate_domain(c: GridCoord, count: u16)
    ensures
        (c.index * (FRAC_ONE as int) + c.frac < 0) <==> c.index < 0,
        (c.index * (FRAC_ONE as int) + c.frac >= count * (FRAC_ONE as int)) <==> c.index >= count,
{
    if c.index < 0 {
        assert(c.index * (FRAC_ONE as int) <= -1 * (FRAC_ONE as int)) by (nonlinear_arith)
            requires
                c.index <= -1;
    } else {
        assert(c.index * (FRAC_ONE as int) >= 0) by (nonlinear_arith)
            requires
                c.index >= 0;
    }
    if c.index >= count {
        assert(c.index * (FRAC_ONE as int) >= count * (FRAC_ONE as int)) by (nonlinear_arith)
            requires
                c.index >= count;
    } else {
        assert(c.index * (FRAC_ONE as int) <= (count - 1) * (FRAC_ONE as int)) by (nonlinear_arith)
            requires
                c.index <= count - 1;
    }
}

/// A query below the grid origin on either axis, or at or beyond the last
/// node index on either axis, answers no height.
pub proof fn lemma_domain_boundary(g: GridModel, x: GridCoord, y: GridCoord)
    requires
        x.index < 0 || y.index < 0 || x.index >= g.info.x_num || y.index >= g.info.y_num,
    ensures
        spec_interpolated(g, x, y) is None,
{
}

/// A query exactly on a grid node answers that node's sample — scaled by
/// the result unit, with the sentinel carried to `None` — even on the last
/// row or column, where some neighbors are structurally absent.
pub proof fn lemma_exact_node(g: GridModel, x: GridCoord, y: GridCoord)
    requires
        0 <= x.index < g.info.x_num,
        0 <= y.index < g.info.y_num,
        x.frac == 0,
        y.frac == 0,
    ensures
        spec_interpolated(g, x, y) == match spec_lookup(g, x.index as int, y.index as int) {
            None => None::<int>,
            Some(v) => Some(v * (FRAC_ONE as int) * (FRAC_ONE as int)),
        },
{
}

/// Strictly inside a cell with all four corner samples present, the answer
/// is exactly the bilinear weighted sum of the corners.
pub proof fn lemma_interior_formula(g: GridModel, x: GridCoord, y: GridCoord)
    requires
        0 <= x.index < g.info.x_num - 1,
        0 <= y.index < g.info.y_num - 1,
        0 < x.frac,
        0 < y.frac,
        spec_lookup(g, x.index as int, y.index as int) is Some,
        spec_lookup(g, x.index + 1, y.index as int) is Some,
        spec_lookup(g, x.index as int, y.index + 1) is Some,
        spec_lookup(g, x.index + 1, y.index + 1) is Some,
    ensures
        spec_interpolated(g, x, y) == Some(
            {
                let den = FRAC_ONE as int;
                let rx = x.frac as int;
                let ry = y.frac as int;
                let v00 = spec_lookup(g, x.index as int, y.index as int)->Some_0;
                let v01 = spec_lookup(g, x.index + 1, y.index as int)->Some_0;
                let v10 = spec_lookup(g, x.index as int, y.index + 1)->Some_0;
                let v11 = spec_lookup(g, x.index + 1, y.index + 1)->Some_0;
                v00 * (den - rx) * (den - ry) + v01 * rx * (den - ry) + v10 * (den - rx) * ry
                    + v11 * rx * ry
            },
        ),
{
}

/// Text to binary to memory: a grid parsed from text, completed with its
/// origin bit patterns, then encoded and decoded again, answers every
/// height query exactly as the originally parsed grid does.
pub proof fn lemma_text_binary_roundtrip(
    content: Seq<u8>,
    x_min_bits: u32,
    y_min_bits: u32,
    x: GridCoord,
    y: GridCoord,
)
    requires
        crate::gsi::ascii::spec_parse_ascii(content) is Ok,
        crate::gsi::ascii::spec_parse_ascii(content)->Ok_0.version.len() <= 10,
    ensures
        ({
            let a = crate::gsi::ascii::spec_parse_ascii(content)->Ok_0;
            let g = GridModel {
                info: crate::gsi::grid::InfoModel {
                    x_num: a.x_num,
                    y_num: a.y_num,
                    x_denom: 40,
                    y_denom: 60,
                    x_min_bits,
                    y_min_bits,
                    ikind: a.ikind,
                    version: a.version,
                },
                points: a.points,
            };
            &&& crate::gsi::codec::spec_encode(g) is Some
            &&& crate::gsi::codec::spec_decode(crate::gsi::codec::spec_encode(g)->Some_0) is Some
            &&& spec_interpolated(
                crate::gsi::codec::spec_decode(
                    crate::gsi::codec::spec_encode(g)->Some_0,
                )->Some_0,
                x,
                y,
            ) == spec_interpolated(g, x, y)
        }),
{
    let a = crate::gsi::ascii::spec_parse_ascii(content)->Ok_0;
    let g = GridModel {
        info: crate::gsi::grid::InfoModel {
            x_num: a.x_num,
            y_num: a.y_num,
            x_denom: 40,
            y_denom: 60,
            x_min_bits,
            y_min_bits,
            ikind: a.ikind,
            version: a.version,
        },
        points: a.points,
    };
    assert(a.points.len() == a.x_num * a.y_num);
    assert(grid_wf(g));
    lemma_requery_after_roundtrip(g, x, y);
}

/// Interpolation never reads the version tag: models that differ only there
/// answer every query alike. With the binary round-trip this shows that a
/// grid, once encoded and decoded again, yields the same height as the
/// original at every coordinate.
pub proof fn lemma_requery_after_roundtrip(g: GridModel, x: GridCoord, y: GridCoord)
    requires
        grid_wf(g),
        g.info.version.len() <= 10,
    ensures
        crate::gsi::codec::spec_encode(g) is Some,
        ({
            let enc = crate::gsi::codec::spec_encode(g)->Some_0;
            &&& crate::gsi::codec::spec_decode(enc) is Some
            &&& spec_interpolated(crate::gsi::codec::spec_decode(enc)->Some_0, x, y)
                == spec_interpolated(g, x, y)
        }),
{
    crate::gsi::codec::lemma_binary_roundtrip(g);
}

} // verus!

