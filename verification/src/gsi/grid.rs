//! In-memory geoid grid model: metadata and the row-major sample array.

use vstd::prelude::*;

verus! {

/// Raw sample integer that marks "no data" at a grid node.
pub const NO_DATA: i32 = 9990000;

/// Grid metadata, an immutable value object.
///
/// Samples are spaced `1 / x_denom` degrees apart along the x axis (and
/// likewise for y). The grid origin is carried as the raw bit pattern of a
/// single-precision float, exactly as the binary header stores it; the codec
/// and parser treat it as opaque payload.
#[derive(Debug)]
pub struct GridInfo {
    /// Number of grid points along the X-axis.
    pub x_num: u16,
    /// Number of grid points along the Y-axis.
    pub y_num: u16,
    /// Denominator of the grid interval along the X-axis.
    pub x_denom: u16,
    /// Denominator of the grid interval along the Y-axis.
    pub y_denom: u16,
    /// Bit pattern of the minimum X coordinate (single-precision, degrees).
    pub x_min_bits: u32,
    /// Bit pattern of the minimum Y coordinate (single-precision, degrees).
    pub y_min_bits: u32,
    /// Discriminant carried through verbatim for format fidelity; unused.
    pub ikind: u16,
    /// Version tag; at most 10 bytes when serialized.
    pub version: Vec<u8>,
}

/// Mathematical view of [`GridInfo`].
pub ghost struct InfoModel {
    pub x_num: u16,
    pub y_num: u16,
    pub x_denom: u16,
    pub y_denom: u16,
    pub x_min_bits: u32,
    pub y_min_bits: u32,
    pub ikind: u16,
    pub version: Seq<u8>,
}

impl View for GridInfo {
    type V = InfoModel;

    open spec fn view(&self) -> InfoModel {
        InfoModel {
            x_num: self.x_num,
            y_num: self.y_num,
            x_denom: self.x_denom,
            y_denom: self.y_denom,
            x_min_bits: self.x_min_bits,
            y_min_bits: self.y_min_bits,
            ikind: self.ikind,
            version: self.version@,
        }
    }
}

/// Mathematical view of a whole grid model.
pub ghost struct GridModel {
    pub info: InfoModel,
    pub points: Seq<i32>,
}

/// The sample array holds exactly one raw value per grid node.
pub open spec fn grid_wf(g: GridModel) -> bool {
    g.points.len() == g.info.x_num * g.info.y_num
}

/// The raw sample at integer grid coordinate `(ix, iy)`, decoded to `None`
/// when it is the no-data sentinel.
pub open spec fn spec_lookup(g: GridModel, ix: int, iy: int) -> Option<i32> {
    let raw = g.points[iy * g.info.x_num + ix];
    if raw == NO_DATA {
        None
    } else {
        Some(raw)
    }
}

/// An immutable in-memory grid: metadata plus the row-major sample array
/// (y is the outer index, x the inner one).
#[derive(Debug)]
pub struct MemoryGrid {
    info: GridInfo,
    points: Vec<i32>,
}

impl View for MemoryGrid {
    type V = GridModel;

    closed spec fn view(&self) -> GridModel {
        GridModel { info: self.info@, points: self.points@ }
    }
}

impl MemoryGrid {
    pub open spec fn wf(&self) -> bool {
        grid_wf(self@)
    }

    /// Builds a grid from its parts. The sample count must match the node
    /// count; nothing else is constrained here (an over-long version tag is
    /// only rejected when the grid is serialized).
    pub fn new(info: GridInfo, points: Vec<i32>) -> (r: Self)
        requires
            points@.len() == info@.x_num * info@.y_num,
        ensures
            r@ == (GridModel { info: info@, points: points@ }),
            r.wf(),
    {
        MemoryGrid { info, points }
    }

    /// Read-only access to the raw row-major sample array.
    pub fn samples(&self) -> (r: &Vec<i32>)
        ensures
            r@ == self@.points,
    {
        &self.points
    }
}

impl crate::gsi::query::Grid for MemoryGrid {
    open spec fn model(&self) -> GridModel {
        self@
    }

    fn grid_info(&self) -> (r: &GridInfo) {
        &self.info
    }

    fn lookup_grid_points(&self, ix: u16, iy: u16) -> (r: Option<i32>) {
        proof {
            assert((iy as int) * (self@.info.x_num as int) + (ix as int)
                < (self@.info.x_num as int) * (self@.info.y_num as int)) by (nonlinear_arith)
                requires
                    (ix as int) < (self@.info.x_num as int),
                    (iy as int) < (self@.info.y_num as int),
                    0 <= ix as int,
                    0 <= iy as int;
            assert((self@.info.x_num as int) * (self@.info.y_num as int) <= 0xffff * 0xffff)
                by (nonlinear_arith)
                requires
                    self@.info.x_num <= 0xffff,
                    self@.info.y_num <= 0xffff;
        }
        let pos: usize = (iy as usize) * (self.info.x_num as usize) + (ix as usize);
        let raw = self.points[pos];
        if raw == NO_DATA {
            None
        } else {
            Some(raw)
        }
    }
}

} // verus!
