//! Compact binary codec for grid models.
//!
//! The byte stream is a fixed 28-byte little-endian header followed by one
//! signed 32-bit delta per sample, in row-major order. Each delta is the
//! wrapping difference between the true sample and a spatial linear
//! prediction from already-coded neighbors, so that a smooth surface yields
//! small magnitudes for a downstream general-purpose compressor. The codec
//! itself neither compresses nor changes the per-sample wire size.

use vstd::prelude::*;

use crate::gsi::grid::{grid_wf, GridInfo, GridModel, InfoModel, MemoryGrid, NO_DATA};
use crate::gsi::query::Grid;
use crate::gsi::num::{
    lemma_i32_le_bytes_roundtrip, spec_i32_from_le_bytes, spec_i32_to_le_bytes, i32_from_le_bytes,
    i32_to_le_bytes,
};

verus! {

/// Why a byte stream failed to decode.
#[derive(Debug, PartialEq, Eq, Structural)]
pub enum DecodeError {
    /// The data ends before the header or the sample deltas do.
    Truncated,
    /// The surrounding compression envelope could not be unpacked.
    Compression,
}

/// Why a grid model failed to encode.
#[derive(Debug, PartialEq, Eq, Structural)]
pub enum EncodeError {
    /// The version tag exceeds the 10 bytes the header reserves for it.
    VersionTooLong,
}

/// The sample most recently coded before `pos` in row-major order, or the
/// sentinel at the very start of the stream.
pub open spec fn prev_left(points: Seq<i32>, pos: int) -> i32 {
    if pos == 0 {
        NO_DATA
    } else {
        points[pos - 1]
    }
}

/// The sample one row above `pos`, or the sentinel when no prior row exists.
pub open spec fn prev_above(points: Seq<i32>, pos: int, xn: int) -> i32 {
    if pos < xn {
        NO_DATA
    } else {
        points[pos - xn]
    }
}

/// The "above" value as it stood one step earlier: the rolling diagonal
/// state of the coder, sentinel at the start of the stream.
pub open spec fn prev_diag(points: Seq<i32>, pos: int, xn: int) -> i32 {
    if pos == 0 {
        NO_DATA
    } else {
        prev_above(points, pos - 1, xn)
    }
}

/// Plane extrapolation from the left and upper neighbors and their shared
/// corner, in wrapping 32-bit arithmetic.
pub open spec fn predicted(points: Seq<i32>, pos: int, xn: int) -> i32 {
    prev_left(points, pos).wrapping_add(prev_above(points, pos, xn)).wrapping_sub(
        prev_diag(points, pos, xn),
    )
}

/// The stored delta for position `pos`: true value minus prediction,
/// wrapping.
pub open spec fn delta_at(points: Seq<i32>, pos: int, xn: int) -> i32 {
    points[pos].wrapping_sub(predicted(points, pos, xn))
}

/// Little-endian bytes of the first `k` deltas.
pub open spec fn delta_bytes(points: Seq<i32>, xn: int, k: int) -> Seq<u8>
    decreases k,
{
    if k <= 0 {
        Seq::empty()
    } else {
        delta_bytes(points, xn, k - 1) + spec_i32_to_le_bytes(delta_at(points, k - 1, xn))
    }
}

/// The version tag right-padded with zero bytes to the 10 bytes the header
/// reserves for it. Meaningful for tags of at most 10 bytes.
pub open spec fn padded_version(v: Seq<u8>) -> Seq<u8> {
    v + Seq::new((10 - v.len()) as nat, |i: int| 0u8)
}

/// The fixed 28-byte little-endian header.
pub open spec fn header_bytes(info: InfoModel) -> Seq<u8> {
    vstd::bytes::spec_u16_to_le_bytes(info.x_num) + vstd::bytes::spec_u16_to_le_bytes(info.y_num)
        + vstd::bytes::spec_u16_to_le_bytes(info.x_denom)
        + vstd::bytes::spec_u16_to_le_bytes(info.y_denom)
        + vstd::bytes::spec_u32_to_le_bytes(info.x_min_bits)
        + vstd::bytes::spec_u32_to_le_bytes(info.y_min_bits)
        + vstd::bytes::spec_u16_to_le_bytes(info.ikind) + padded_version(info.version)
}

/// The whole encoded stream, or `None` when the version tag does not fit
/// its 10-byte field.
pub open spec fn spec_encode(g: GridModel) -> Option<Seq<u8>> {
    if g.info.version.len() > 10 {
        None
    } else {
        Some(header_bytes(g.info) + delta_bytes(g.points, g.info.x_num as int, g.points.len() as int))
    }
}

/// The first `n` samples reconstructed from the delta payload by replaying
/// the prediction recurrence over the already-decoded prefix.
pub open spec fn decode_points(data: Seq<u8>, n: int, xn: int) -> Seq<i32>
    decreases n,
{
    if n <= 0 {
        Seq::empty()
    } else {
        let prev = decode_points(data, n - 1, xn);
        prev.push(
            predicted(prev, n - 1, xn).wrapping_add(
                spec_i32_from_le_bytes(data.subrange(4 * (n - 1), 4 * n)),
            ),
        )
    }
}

pub proof fn lemma_decode_points_len(data: Seq<u8>, n: int, xn: int)
    ensures
        decode_points(data, n, xn).len() == if n <= 0 { 0int } else { n },
    decreases n,
{
    if n > 0 {
        lemma_decode_points_len(data, n - 1, xn);
    }
}

/// The grid model a byte stream decodes to, or `None` when the stream is
/// too short for its own header or sample count.
pub open spec fn spec_decode(data: Seq<u8>) -> Option<GridModel> {
    if data.len() < 28 {
        None
    } else {
        let xn = vstd::bytes::spec_u16_from_le_bytes(data.subrange(0, 2));
        let yn = vstd::bytes::spec_u16_from_le_bytes(data.subrange(2, 4));
        let n = xn * yn;
        if data.len() < 28 + 4 * n {
            None
        } else {
            Some(
                GridModel {
                    info: InfoModel {
                        x_num: xn,
                        y_num: yn,
                        x_denom: vstd::bytes::spec_u16_from_le_bytes(data.subrange(4, 6)),
                        y_denom: vstd::bytes::spec_u16_from_le_bytes(data.subrange(6, 8)),
                        x_min_bits: vstd::bytes::spec_u32_from_le_bytes(data.subrange(8, 12)),
                        y_min_bits: vstd::bytes::spec_u32_from_le_bytes(data.subrange(12, 16)),
                        ikind: vstd::bytes::spec_u16_from_le_bytes(data.subrange(16, 18)),
                        version: data.subrange(18, 28),
                    },
                    points: decode_points(data.subrange(28, 28 + 4 * n), n as int, xn as int),
                },
            )
        }
    }
}

impl MemoryGrid {
    /// Restores a grid model from its binary form. Bytes beyond the encoded
    /// length are ignored, as a streaming reader would leave them unread.
    pub fn from_binary(data: &[u8]) -> (r: Result<MemoryGrid, DecodeError>)
        ensures
            match r {
                Ok(m) => spec_decode(data@) == Some(m@) && m.wf(),
                Err(e) => spec_decode(data@) is None && e == DecodeError::Truncated,
            },
    {
        if data.len() < 28 {
            return Err(DecodeError::Truncated);
        }
        proof {
            vstd::bytes::lemma_auto_spec_u16_to_from_le_bytes();
            vstd::bytes::lemma_auto_spec_u32_to_from_le_bytes();
        }
        let xn = vstd::bytes::u16_from_le_bytes(vstd::slice::slice_subrange(data, 0, 2));
        let yn = vstd::bytes::u16_from_le_bytes(vstd::slice::slice_subrange(data, 2, 4));
        let x_denom = vstd::bytes::u16_from_le_bytes(vstd::slice::slice_subrange(data, 4, 6));
        let y_denom = vstd::bytes::u16_from_le_bytes(vstd::slice::slice_subrange(data, 6, 8));
        let x_min_bits = vstd::bytes::u32_from_le_bytes(vstd::slice::slice_subrange(data, 8, 12));
        let y_min_bits = vstd::bytes::u32_from_le_bytes(vstd::slice::slice_subrange(data, 12, 16));
        let ikind = vstd::bytes::u16_from_le_bytes(vstd::slice::slice_subrange(data, 16, 18));
        let version = vstd::slice::slice_to_vec(vstd::slice::slice_subrange(data, 18, 28));

        proof {
            assert((xn as int) * (yn as int) <= 0xffff * 0xffff) by (nonlinear_arith)
                requires
                    xn <= 0xffff,
                    yn <= 0xffff;
            assert(xn == 0 ==> (xn as int) * (yn as int) == 0) by (nonlinear_arith);
        }
        let n64: u64 = (xn as u64) * (yn as u64);
        if (data.len() as u64) < 28 + 4 * n64 {
            return Err(DecodeError::Truncated);
        }
        let n: usize = (xn as usize) * (yn as usize);
        let ghost payload = data@.subrange(28, 28 + 4 * (n as int));

        let mut points: Vec<i32> = Vec::new();
        let mut pos: usize = 0;
        while pos < n
            invariant
                n == xn as int * yn as int,
                xn == 0 ==> n == 0,
                data@.len() >= 28 + 4 * (n as int),
                data@.len() <= usize::MAX,
                payload == data@.subrange(28, 28 + 4 * (n as int)),
                0 <= pos <= n,
                points@.len() == pos,
                points@ == decode_points(payload, pos as int, xn as int),
            decreases n - pos,
        {
            let left: i32 = if pos == 0 { NO_DATA } else { points[pos - 1] };
            let above: i32 = if pos < xn as usize { NO_DATA } else { points[pos - xn as usize] };
            let diag: i32 = if pos == 0 {
                NO_DATA
            } else if pos - 1 < xn as usize {
                NO_DATA
            } else {
                points[pos - 1 - xn as usize]
            };
            let pred = left.wrapping_add(above).wrapping_sub(diag);
            assert(pred == predicted(points@, pos as int, xn as int));

            let off: usize = 28 + 4 * pos;
            let delta = i32_from_le_bytes(vstd::slice::slice_subrange(data, off, off + 4));
            proof {
                assert(payload.subrange(4 * (pos as int), 4 * (pos as int) + 4)
                    =~= data@.subrange(off as int, off as int + 4));
            }
            let curr = pred.wrapping_add(delta);
            points.push(curr);
            proof {
                lemma_decode_points_len(payload, pos as int + 1, xn as int);
            }
            pos += 1;
        }

        let info = GridInfo { x_num: xn, y_num: yn, x_denom, y_denom, x_min_bits, y_min_bits, ikind, version };
        Ok(MemoryGrid::new(info, points))
    }

    /// Serializes the grid model. Fails, producing no bytes at all, when the
    /// version tag exceeds the 10 bytes the header reserves for it.
    pub fn to_binary(&self) -> (r: Result<Vec<u8>, EncodeError>)
        requires
            self.wf(),
        ensures
            match r {
                Ok(out) => spec_encode(self@) == Some(out@),
                Err(e) => spec_encode(self@) is None && e == EncodeError::VersionTooLong,
            },
    {
        let info = self.grid_info();
        if info.version.len() > 10 {
            return Err(EncodeError::VersionTooLong);
        }
        proof {
            vstd::bytes::lemma_auto_spec_u16_to_from_le_bytes();
            vstd::bytes::lemma_auto_spec_u32_to_from_le_bytes();
        }
        let mut out: Vec<u8> = Vec::new();
        let mut piece = vstd::bytes::u16_to_le_bytes(info.x_num);
        out.append(&mut piece);
        let mut piece = vstd::bytes::u16_to_le_bytes(info.y_num);
        out.append(&mut piece);
        let mut piece = vstd::bytes::u16_to_le_bytes(info.x_denom);
        out.append(&mut piece);
        let mut piece = vstd::bytes::u16_to_le_bytes(info.y_denom);
        out.append(&mut piece);
        let mut piece = vstd::bytes::u32_to_le_bytes(info.x_min_bits);
        out.append(&mut piece);
        let mut piece = vstd::bytes::u32_to_le_bytes(info.y_min_bits);
        out.append(&mut piece);
        let mut piece = vstd::bytes::u16_to_le_bytes(info.ikind);
        out.append(&mut piece);
        let ghost head18 = out@;

        let mut i: usize = 0;
        while i < info.version.len()
            invariant
                0 <= i <= info.version@.len(),
                info@ == self@.info,
                out@ == head18 + info.version@.subrange(0, i as int),
            decreases info.version@.len() - i,
        {
            out.push(info.version[i]);
            proof {
                assert(info.version@.subrange(0, i + 1)
                    =~= info.version@.subrange(0, i as int).push(info.version@[i as int]));
            }
            i += 1;
        }
        proof {
            assert(info.version@.subrange(0, info.version@.len() as int) =~= info.version@);
        }
        let pad: usize = 10 - info.version.len();
        let mut i: usize = 0;
        while i < pad
            invariant
                0 <= i <= pad,
                info@ == self@.info,
                out@ == head18 + info.version@ + Seq::new(i as nat, |j: int| 0u8),
            decreases pad - i,
        {
            out.push(0);
            proof {
                assert(Seq::new(i as nat + 1, |j: int| 0u8)
                    =~= Seq::new(i as nat, |j: int| 0u8).push(0u8));
            }
            i += 1;
        }
        proof {
            assert(out@ =~= header_bytes(self@.info));
        }
        let ghost head = out@;

        let xn = info.x_num;
        proof {
            assert((xn as int) * (info.y_num as int) <= 0xffff * 0xffff) by (nonlinear_arith)
                requires
                    xn <= 0xffff,
                    info.y_num <= 0xffff;
            assert(xn == 0 ==> (xn as int) * (info.y_num as int) == 0) by (nonlinear_arith);
        }
        let n: usize = (xn as usize) * (info.y_num as usize);
        proof {
            assert(self@.points.len() == n);
        }
        let mut pos: usize = 0;
        while pos < n
            invariant
                n == self@.points.len(),
                self.wf(),
                xn == self@.info.x_num,
                head == header_bytes(self@.info),
                0 <= pos <= n,
                out@ == head + delta_bytes(self@.points, xn as int, pos as int),
            decreases n - pos,
        {
            let points = self.samples();
            let left: i32 = if pos == 0 { NO_DATA } else { points[pos - 1] };
            let above: i32 = if pos < xn as usize { NO_DATA } else { points[pos - xn as usize] };
            let diag: i32 = if pos == 0 {
                NO_DATA
            } else if pos - 1 < xn as usize {
                NO_DATA
            } else {
                points[pos - 1 - xn as usize]
            };
            let pred = left.wrapping_add(above).wrapping_sub(diag);
            assert(pred == predicted(self@.points, pos as int, xn as int));
            let curr = points[pos];
            let d = curr.wrapping_sub(pred);
            let mut db = i32_to_le_bytes(d);
            out.append(&mut db);
            pos += 1;
        }
        Ok(out)
    }
}

pub proof fn lemma_delta_bytes_len(points: Seq<i32>, xn: int, k: int)
    requires
        0 <= k,
    ensures
        delta_bytes(points, xn, k).len() == 4 * k,
    decreases k,
{
    if k > 0 {
        lemma_delta_bytes_len(points, xn, k - 1);
        lemma_i32_le_bytes_roundtrip(delta_at(points, k - 1, xn));
    }
}

/// The byte stream of the first `m` deltas starts with that of the first `k`.
pub proof fn lemma_delta_bytes_prefix(points: Seq<i32>, xn: int, k: int, m: int)
    requires
        0 <= k <= m,
    ensures
        delta_bytes(points, xn, m).subrange(0, 4 * k) == delta_bytes(points, xn, k),
    decreases m - k,
{
    lemma_delta_bytes_len(points, xn, k);
    lemma_delta_bytes_len(points, xn, m);
    if k == m {
        assert(delta_bytes(points, xn, m).subrange(0, 4 * k) =~= delta_bytes(points, xn, m));
    } else {
        lemma_delta_bytes_prefix(points, xn, k, m - 1);
        lemma_delta_bytes_len(points, xn, m - 1);
        assert(delta_bytes(points, xn, m).subrange(0, 4 * k)
            =~= delta_bytes(points, xn, m - 1).subrange(0, 4 * k));
    }
}

/// The bytes of delta `k` sit at offset `4 * k` of the delta stream.
pub proof fn lemma_delta_bytes_at(points: Seq<i32>, xn: int, m: int, k: int)
    requires
        0 <= k < m,
    ensures
        delta_bytes(points, xn, m).subrange(4 * k, 4 * k + 4)
            == spec_i32_to_le_bytes(delta_at(points, k, xn)),
    decreases m,
{
    lemma_delta_bytes_prefix(points, xn, k + 1, m);
    lemma_delta_bytes_len(points, xn, k);
    lemma_delta_bytes_len(points, xn, k + 1);
    lemma_delta_bytes_len(points, xn, m);
    lemma_i32_le_bytes_roundtrip(delta_at(points, k, xn));
    assert(delta_bytes(points, xn, m).subrange(4 * k, 4 * k + 4)
        =~= delta_bytes(points, xn, k + 1).subrange(4 * k, 4 * k + 4));
    assert(delta_bytes(points, xn, k + 1).subrange(4 * k, 4 * k + 4)
        =~= spec_i32_to_le_bytes(delta_at(points, k, xn)));
}

/// Replaying the recurrence over the stored deltas rebuilds every sample
/// prefix exactly.
pub proof fn lemma_decode_of_deltas(points: Seq<i32>, xn: int, k: int)
    requires
        0 <= k <= points.len(),
        points.len() > 0 ==> xn >= 1,
    ensures
        decode_points(delta_bytes(points, xn, points.len() as int), k, xn)
            == points.subrange(0, k),
    decreases k,
{
    let whole = delta_bytes(points, xn, points.len() as int);
    if k == 0 {
        assert(decode_points(whole, 0, xn) =~= points.subrange(0, 0));
    } else {
        lemma_decode_of_deltas(points, xn, k - 1);
        let prev = decode_points(whole, k - 1, xn);
        assert(prev == points.subrange(0, k - 1));
        lemma_delta_bytes_at(points, xn, points.len() as int, k - 1);
        let d = spec_i32_from_le_bytes(whole.subrange(4 * (k - 1), 4 * k));
        lemma_i32_le_bytes_roundtrip(delta_at(points, k - 1, xn));
        assert(d == delta_at(points, k - 1, xn));
        assert(predicted(prev, k - 1, xn) == predicted(points, k - 1, xn));
        crate::gsi::num::lemma_wrap_roundtrip(points[k - 1], predicted(points, k - 1, xn));
        assert(decode_points(whole, k, xn) =~= points.subrange(0, k));
    }
}

/// The 28-byte header decomposes into its fields at their fixed offsets.
pub proof fn lemma_header_fields(info: InfoModel)
    requires
        info.version.len() <= 10,
    ensures
        header_bytes(info).len() == 28,
        header_bytes(info).subrange(0, 2) == vstd::bytes::spec_u16_to_le_bytes(info.x_num),
        header_bytes(info).subrange(2, 4) == vstd::bytes::spec_u16_to_le_bytes(info.y_num),
        header_bytes(info).subrange(4, 6) == vstd::bytes::spec_u16_to_le_bytes(info.x_denom),
        header_bytes(info).subrange(6, 8) == vstd::bytes::spec_u16_to_le_bytes(info.y_denom),
        header_bytes(info).subrange(8, 12) == vstd::bytes::spec_u32_to_le_bytes(info.x_min_bits),
        header_bytes(info).subrange(12, 16) == vstd::bytes::spec_u32_to_le_bytes(info.y_min_bits),
        header_bytes(info).subrange(16, 18) == vstd::bytes::spec_u16_to_le_bytes(info.ikind),
        header_bytes(info).subrange(18, 28) == padded_version(info.version),
{
    vstd::bytes::lemma_auto_spec_u16_to_from_le_bytes();
    vstd::bytes::lemma_auto_spec_u32_to_from_le_bytes();
    let h = header_bytes(info);
    assert(padded_version(info.version).len() == 10);
    assert(h.subrange(0, 2) =~= vstd::bytes::spec_u16_to_le_bytes(info.x_num));
    assert(h.subrange(2, 4) =~= vstd::bytes::spec_u16_to_le_bytes(info.y_num));
    assert(h.subrange(4, 6) =~= vstd::bytes::spec_u16_to_le_bytes(info.x_denom));
    assert(h.subrange(6, 8) =~= vstd::bytes::spec_u16_to_le_bytes(info.y_denom));
    assert(h.subrange(8, 12) =~= vstd::bytes::spec_u32_to_le_bytes(info.x_min_bits));
    assert(h.subrange(12, 16) =~= vstd::bytes::spec_u32_to_le_bytes(info.y_min_bits));
    assert(h.subrange(16, 18) =~= vstd::bytes::spec_u16_to_le_bytes(info.ikind));
    assert(h.subrange(18, 28) =~= padded_version(info.version));
}

/// Binary round-trip: decoding an encoded model reproduces the sample array
/// bit-exactly — for arbitrary samples, sentinel values and negative deltas
/// included — and the metadata with the version tag read back as the fixed
/// 10-byte zero-padded field the header stores.
pub proof fn lemma_binary_roundtrip(g: GridModel)
    requires
        grid_wf(g),
        g.info.version.len() <= 10,
    ensures
        spec_encode(g) is Some,
        spec_decode(spec_encode(g)->Some_0) == Some(
            GridModel {
                info: InfoModel { version: padded_version(g.info.version), ..g.info },
                points: g.points,
            },
        ),
{
    vstd::bytes::lemma_auto_spec_u16_to_from_le_bytes();
    vstd::bytes::lemma_auto_spec_u32_to_from_le_bytes();
    let info = g.info;
    let xn = info.x_num as int;
    let n = g.points.len() as int;
    let h = header_bytes(info);
    let dd = delta_bytes(g.points, xn, n);
    let data = h + dd;
    lemma_header_fields(info);
    lemma_delta_bytes_len(g.points, xn, n);
    assert(data.len() == 28 + 4 * n);

    assert(data.subrange(0, 2) =~= h.subrange(0, 2));
    assert(data.subrange(2, 4) =~= h.subrange(2, 4));
    assert(data.subrange(4, 6) =~= h.subrange(4, 6));
    assert(data.subrange(6, 8) =~= h.subrange(6, 8));
    assert(data.subrange(8, 12) =~= h.subrange(8, 12));
    assert(data.subrange(12, 16) =~= h.subrange(12, 16));
    assert(data.subrange(16, 18) =~= h.subrange(16, 18));
    assert(data.subrange(18, 28) =~= h.subrange(18, 28));
    assert(vstd::bytes::spec_u16_from_le_bytes(data.subrange(0, 2)) == info.x_num);
    assert(vstd::bytes::spec_u16_from_le_bytes(data.subrange(2, 4)) == info.y_num);
    assert(n == info.x_num * info.y_num);

    assert(data.subrange(28, 28 + 4 * n) =~= dd);
    if n > 0 {
        assert(info.x_num as int * info.y_num as int > 0);
        assert(xn >= 1) by (nonlinear_arith)
            requires
                xn * (info.y_num as int) > 0,
                0 <= xn,
                0 <= info.y_num as int;
    }
    lemma_decode_of_deltas(g.points, xn, n);
    assert(g.points.subrange(0, n) =~= g.points);
    assert(spec_decode(data) == Some(
        GridModel {
            info: InfoModel { version: padded_version(g.info.version), ..g.info },
            points: g.points,
        },
    ));
}

/// Binary round-trip, exact form: when the version tag already fills its
/// 10-byte field, decode-of-encode is the identity.
pub proof fn lemma_binary_roundtrip_exact(g: GridModel)
    requires
        grid_wf(g),
        g.info.version.len() == 10,
    ensures
        spec_encode(g) is Some,
        spec_decode(spec_encode(g)->Some_0) == Some(g),
{
    lemma_binary_roundtrip(g);
    assert(padded_version(g.info.version) =~= g.info.version);
}

/// Name for what `lz4_flex::decompress_size_prepended` returns: the block
/// format is deterministic, so the outcome depends on the bytes alone.
pub uninterp spec fn lz4_unpacked(data: Seq<u8>) -> Option<Seq<u8>>;

/// Relies on `lz4_flex::decompress_size_prepended`: unpacks a block whose
/// uncompressed size is prepended, a pure function of the input bytes.
#[verifier::external_body]
fn lz4_decompress(data: &[u8]) -> (r: Option<Vec<u8>>)
    ensures
        match r {
            Some(v) => lz4_unpacked(data@) == Some(v@),
            None => lz4_unpacked(data@) is None,
        },
{
    lz4_flex::decompress_size_prepended(data).ok()
}

impl MemoryGrid {
    /// Restores a grid model from an lz4-compressed binary stream, the form
    /// in which model assets are shipped.
    pub fn from_compressed_binary(data: &[u8]) -> (r: Result<MemoryGrid, DecodeError>)
        ensures
            match lz4_unpacked(data@) {
                None => r == Err::<MemoryGrid, DecodeError>(DecodeError::Compression),
                Some(raw) => match r {
                    Ok(m) => spec_decode(raw) == Some(m@) && m.wf(),
                    Err(e) => spec_decode(raw) is None && e == DecodeError::Truncated,
                },
            },
    {
        match lz4_decompress(data) {
            None => Err(DecodeError::Compression),
            Some(raw) => MemoryGrid::from_binary(raw.as_slice()),
        }
    }
}

} // verus!
