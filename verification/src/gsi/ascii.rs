//! Parser for the plain-text survey-agency grid exchange format.
//!
//! The first line holds 8 whitespace-separated header fields:
//! `y_origin x_origin lat_interval lon_interval y_count x_count kind version`.
//! The two interval fields are fixed-format literals, because the supported
//! model family always uses the same spacing; the corresponding denominators
//! are hard-coded to 60 and 40. Every following line holds decimal sample
//! tokens; a token is parsed by removing its decimal points and reading the
//! remaining digits as a base-10 integer, matching the fixed-point scale of
//! the sample array.
//!
//! The origin fields are single-precision decimals. Their syntax is
//! validated here, but the conversion of decimal text to float bits is
//! floating-point work that this library leaves to its caller: parsing
//! yields the origin tokens, and the caller completes the grid by supplying
//! the two bit patterns.

use vstd::prelude::*;

use crate::gsi::grid::{GridInfo, GridModel, InfoModel, MemoryGrid};
use crate::gsi::num::{is_digit, spec_parse_i32, spec_parse_u16, parse_i32, parse_u16};

verus! {

/// Whitespace for token splitting. The header line is split at every ASCII
/// whitespace byte including vertical tab; data lines exclude vertical tab.
pub open spec fn is_ws(b: u8, hdr: bool) -> bool {
    b == 32 || b == 9 || b == 10 || b == 12 || b == 13 || (hdr && b == 11)
}

/// Length of the run of non-whitespace bytes starting at `i`.
pub open spec fn token_run(s: Seq<u8>, i: int, hdr: bool) -> nat
    decreases s.len() - i,
{
    if i < 0 || i >= s.len() || is_ws(s[i], hdr) {
        0
    } else {
        1 + token_run(s, i + 1, hdr)
    }
}

pub proof fn lemma_token_run_le(s: Seq<u8>, i: int, hdr: bool)
    requires
        0 <= i <= s.len(),
    ensures
        i + token_run(s, i, hdr) <= s.len(),
    decreases s.len() - i,
{
    if i < s.len() && !is_ws(s[i], hdr) {
        lemma_token_run_le(s, i + 1, hdr);
    }
}

/// The whitespace-separated tokens of `s` from position `i` on.
pub open spec fn spec_tokens_from(s: Seq<u8>, i: int, hdr: bool) -> Seq<Seq<u8>>
    decreases s.len() - i,
    via spec_tokens_from_decreases
{
    if i < 0 || i >= s.len() {
        Seq::empty()
    } else if is_ws(s[i], hdr) {
        spec_tokens_from(s, i + 1, hdr)
    } else {
        let k = token_run(s, i, hdr) as int;
        seq![s.subrange(i, i + k)] + spec_tokens_from(s, i + k, hdr)
    }
}

#[via_fn]
proof fn spec_tokens_from_decreases(s: Seq<u8>, i: int, hdr: bool) {
    if 0 <= i < s.len() && !is_ws(s[i], hdr) {
        assert(token_run(s, i, hdr) == 1 + token_run(s, i + 1, hdr));
        lemma_token_run_le(s, i, hdr);
    }
}

/// A scan that stopped at the end or at whitespace, over non-whitespace
/// bytes only, has measured the token run exactly.
proof fn lemma_token_run_scan(s: Seq<u8>, i: int, j: int, hdr: bool)
    requires
        0 <= i <= j <= s.len(),
        forall|k: int| i <= k < j ==> !is_ws(#[trigger] s[k], hdr),
        j == s.len() || is_ws(s[j], hdr),
    ensures
        token_run(s, i, hdr) == j - i,
    decreases j - i,
{
    if i < j {
        lemma_token_run_scan(s, i + 1, j, hdr);
    }
}

fn is_ws_byte(b: u8, hdr: bool) -> (r: bool)
    ensures
        r == is_ws(b, hdr),
{
    b == 32 || b == 9 || b == 10 || b == 12 || b == 13 || (hdr && b == 11)
}

/// Splits a byte string into its whitespace-separated tokens.
pub fn tokenize(s: &[u8], hdr: bool) -> (toks: Vec<Vec<u8>>)
    ensures
        toks.deep_view() == spec_tokens_from(s@, 0, hdr),
{
    let n = s.len();
    let mut toks: Vec<Vec<u8>> = Vec::new();
    let mut i: usize = 0;
    while i < n
        invariant
            0 <= i <= n,
            n == s@.len(),
            toks.deep_view() + spec_tokens_from(s@, i as int, hdr) == spec_tokens_from(s@, 0, hdr),
        decreases n - i,
    {
        if is_ws_byte(s[i], hdr) {
            i += 1;
        } else {
            let start = i;
            let mut j = i;
            while j < n
                invariant_except_break
                    start <= j <= n,
                    n == s@.len(),
                    forall|k: int| start <= k < j ==> !is_ws(#[trigger] s@[k], hdr),
                ensures
                    start <= j <= n,
                    n == s@.len(),
                    forall|k: int| start <= k < j ==> !is_ws(#[trigger] s@[k], hdr),
                    j == n || is_ws(s@[j as int], hdr),
                decreases n - j,
            {
                if is_ws_byte(s[j], hdr) {
                    break;
                }
                j += 1;
            }
            proof {
                lemma_token_run_scan(s@, start as int, j as int, hdr);
            }
            let tok = vstd::slice::slice_to_vec(vstd::slice::slice_subrange(s, start, j));
            let ghost old_dv = toks.deep_view();
            toks.push(tok);
            proof {
                assert(toks.deep_view() =~~= old_dv.push(tok@));
                assert(old_dv.push(tok@) + spec_tokens_from(s@, j as int, hdr)
                    =~~= old_dv + (seq![tok@] + spec_tokens_from(s@, j as int, hdr)));
                assert(seq![tok@] + spec_tokens_from(s@, j as int, hdr)
                    =~~= spec_tokens_from(s@, start as int, hdr));
            }
            i = j;
        }
    }
    proof {
        assert(toks.deep_view() + spec_tokens_from(s@, n as int, hdr) =~~= toks.deep_view());
    }
    toks
}

/// Length of the first line: the number of bytes before the first line
/// feed, or all of them when there is none.
pub open spec fn line_run(s: Seq<u8>, i: int) -> nat
    decreases s.len() - i,
{
    if i < 0 || i >= s.len() || s[i] == 10 {
        0
    } else {
        1 + line_run(s, i + 1)
    }
}

proof fn lemma_line_run_scan(s: Seq<u8>, i: int, j: int)
    requires
        0 <= i <= j <= s.len(),
        forall|k: int| i <= k < j ==> #[trigger] s[k] != 10,
        j == s.len() || s[j] == 10,
    ensures
        line_run(s, i) == j - i,
    decreases j - i,
{
    if i < j {
        lemma_line_run_scan(s, i + 1, j);
    }
}

/// Finds the end of the first line.
fn find_line_end(s: &[u8]) -> (j: usize)
    ensures
        j == line_run(s@, 0),
        j <= s@.len(),
{
    let n = s.len();
    let mut j: usize = 0;
    while j < n
        invariant_except_break
            0 <= j <= n,
            n == s@.len(),
            forall|k: int| 0 <= k < j ==> #[trigger] s@[k] != 10,
        ensures
            0 <= j <= n,
            n == s@.len(),
            forall|k: int| 0 <= k < j ==> #[trigger] s@[k] != 10,
            j == n || s@[j as int] == 10,
        decreases n - j,
    {
        if s[j] == 10 {
            break;
        }
        j += 1;
    }
    proof {
        lemma_line_run_scan(s@, 0, j as int);
    }
    j
}

/// A data token with every decimal point removed, as the format's
/// fixed-point convention reads it.
pub open spec fn spec_strip_dots(s: Seq<u8>) -> Seq<u8>
    decreases s.len(),
{
    if s.len() == 0 {
        Seq::empty()
    } else if s.last() == 46 {
        spec_strip_dots(s.drop_last())
    } else {
        spec_strip_dots(s.drop_last()).push(s.last())
    }
}

fn strip_dots(s: &[u8]) -> (out: Vec<u8>)
    ensures
        out@ == spec_strip_dots(s@),
{
    let n = s.len();
    let mut out: Vec<u8> = Vec::new();
    let mut i: usize = 0;
    while i < n
        invariant
            0 <= i <= n,
            n == s@.len(),
            out@ == spec_strip_dots(s@.subrange(0, i as int)),
        decreases n - i,
    {
        proof {
            assert(s@.subrange(0, i + 1).drop_last() =~= s@.subrange(0, i as int));
        }
        if s[i] != 46 {
            out.push(s[i]);
        }
        i += 1;
    }
    proof {
        assert(s@.subrange(0, n as int) =~= s@);
    }
    out
}

/// The sample integer a data token stands for: its digits with the decimal
/// points removed, read in base 10, or nothing when that is not a valid
/// 32-bit decimal.
pub open spec fn spec_parse_data_token(s: Seq<u8>) -> Option<i32> {
    spec_parse_i32(spec_strip_dots(s))
}

fn parse_data_token(s: &[u8]) -> (r: Option<i32>)
    ensures
        r == spec_parse_data_token(s@),
{
    let stripped = strip_dots(s);
    parse_i32(stripped.as_slice())
}

/// Length of the run of decimal digits starting at `i`.
pub open spec fn digits_run(s: Seq<u8>, i: int) -> nat
    decreases s.len() - i,
{
    if i < 0 || i >= s.len() || !is_digit(s[i]) {
        0
    } else {
        1 + digits_run(s, i + 1)
    }
}

proof fn lemma_digits_run_le(s: Seq<u8>, i: int)
    requires
        0 <= i <= s.len(),
    ensures
        i + digits_run(s, i) <= s.len(),
    decreases s.len() - i,
{
    if i < s.len() && is_digit(s[i]) {
        lemma_digits_run_le(s, i + 1);
    }
}

proof fn lemma_digits_run_scan(s: Seq<u8>, i: int, j: int)
    requires
        0 <= i <= j <= s.len(),
        forall|k: int| i <= k < j ==> is_digit(#[trigger] s[k]),
        j == s.len() || !is_digit(s[j]),
    ensures
        digits_run(s, i) == j - i,
    decreases j - i,
{
    if i < j {
        lemma_digits_run_scan(s, i + 1, j);
    }
}

/// Scans past the digits starting at `i`.
fn scan_digits(s: &[u8], i: usize) -> (j: usize)
    requires
        i <= s@.len(),
    ensures
        j == i + digits_run(s@, i as int),
        i <= j <= s@.len(),
{
    let n = s.len();
    let mut j = i;
    while j < n
        invariant_except_break
            i <= j <= n,
            n == s@.len(),
            forall|k: int| i <= k < j ==> is_digit(#[trigger] s@[k]),
        ensures
            i <= j <= n,
            n == s@.len(),
            forall|k: int| i <= k < j ==> is_digit(#[trigger] s@[k]),
            j == n || !is_digit(s@[j as int]),
        decreases n - j,
    {
        let b = s[j];
        if b < 48 || b > 57 {
            break;
        }
        j += 1;
    }
    proof {
        lemma_digits_run_scan(s@, i as int, j as int);
    }
    j
}

/// ASCII letters folded to lower case; other bytes unchanged.
pub open spec fn ascii_lower(b: u8) -> u8 {
    if 65 <= b <= 90 {
        (b + 32) as u8
    } else {
        b
    }
}

pub open spec fn lower_seq(s: Seq<u8>) -> Seq<u8> {
    Seq::new(s.len(), |i: int| ascii_lower(s[i]))
}

/// The special float words `inf`, `infinity` and `nan`, case-insensitive.
pub open spec fn is_special_float_word(s: Seq<u8>) -> bool {
    // "inf", "infinity", "nan" in bytes
    ||| lower_seq(s) == seq![105u8, 110, 102]
    ||| lower_seq(s) == seq![105u8, 110, 102, 105, 110, 105, 116, 121]
    ||| lower_seq(s) == seq![110u8, 97, 110]
}

fn lower_byte(b: u8) -> (r: u8)
    ensures
        r == ascii_lower(b),
{
    if 65 <= b && b <= 90 {
        b + 32
    } else {
        b
    }
}

fn matches_word(s: &[u8], w: &[u8]) -> (r: bool)
    ensures
        r == (lower_seq(s@) == w@),
{
    let n = s.len();
    if n != w.len() {
        proof {
            assert(lower_seq(s@).len() != w@.len());
        }
        return false;
    }
    let mut i: usize = 0;
    while i < n
        invariant
            0 <= i <= n,
            n == s@.len(),
            n == w@.len(),
            forall|k: int| 0 <= k < i ==> lower_seq(s@)[k] == w@[k],
        decreases n - i,
    {
        if lower_byte(s[i]) != w[i] {
            assert(lower_seq(s@)[i as int] != w@[i as int]);
            return false;
        }
        i += 1;
    }
    proof {
        assert(lower_seq(s@) =~= w@);
    }
    true
}

fn is_special_float(s: &[u8]) -> (r: bool)
    ensures
        r == is_special_float_word(s@),
{
    let inf: [u8; 3] = [105, 110, 102];
    let infinity: [u8; 8] = [105, 110, 102, 105, 110, 105, 116, 121];
    let nan: [u8; 3] = [110, 97, 110];
    let r = matches_word(s, inf.as_slice()) || matches_word(s, infinity.as_slice())
        || matches_word(s, nan.as_slice());
    proof {
        assert(inf@ =~= seq![105u8, 110, 102]);
        assert(infinity@ =~= seq![105u8, 110, 102, 105, 110, 105, 116, 121]);
        assert(nan@ =~= seq![110u8, 97, 110]);
    }
    r
}

/// The mantissa-and-exponent shape of a float literal: digits, an optional
/// point with more digits — at least one digit in all —, then an optional
/// exponent of `e` or `E`, an optional sign and at least one digit.
pub open spec fn is_float_number(s: Seq<u8>) -> bool {
    let n = s.len() as int;
    let d1 = digits_run(s, 0) as int;
    let p = if d1 < n && s[d1] == 46 {
        d1 + 1
    } else {
        d1
    };
    let q = p + digits_run(s, p) as int;
    let has_mantissa = d1 > 0 || q > p;
    if !has_mantissa {
        false
    } else if q == n {
        true
    } else if s[q] == 101 || s[q] == 69 {
        let r = if q + 1 < n && (s[q + 1] == 43 || s[q + 1] == 45) {
            q + 2
        } else {
            q + 1
        };
        let d3 = digits_run(s, r) as int;
        d3 > 0 && r + d3 == n
    } else {
        false
    }
}

/// What `str::parse::<f32>` accepts: an optional sign, then a special word
/// or a decimal mantissa with an optional exponent.
pub open spec fn is_float_token(s: Seq<u8>) -> bool {
    let body = if s.len() > 0 && (s[0] == 43 || s[0] == 45) {
        s.subrange(1, s.len() as int)
    } else {
        s
    };
    body.len() > 0 && (is_special_float_word(body) || is_float_number(body))
}

/// Checks a token against the float-literal grammar.
pub fn check_float_token(s: &[u8]) -> (r: bool)
    ensures
        r == is_float_token(s@),
{
    let n = s.len();
    let start: usize = if n > 0 && (s[0] == 43 || s[0] == 45) { 1 } else { 0 };
    let body = vstd::slice::slice_subrange(s, start, n);
    proof {
        assert(body@ =~= if s@.len() > 0 && (s@[0] == 43 || s@[0] == 45) {
            s@.subrange(1, s@.len() as int)
        } else {
            s@
        });
    }
    let m = body.len();
    if m == 0 {
        return false;
    }
    if is_special_float(body) {
        return true;
    }
    let d1 = scan_digits(body, 0);
    let p: usize = if d1 < m && body[d1] == 46 { d1 + 1 } else { d1 };
    proof {
        lemma_digits_run_le(body@, p as int);
    }
    let q = scan_digits(body, p);
    let has_mantissa = d1 > 0 || q > p;
    if !has_mantissa {
        return false;
    }
    if q == m {
        return true;
    }
    let c = body[q];
    if c != 101 && c != 69 {
        return false;
    }
    let r0: usize = if q + 1 < m && (body[q + 1] == 43 || body[q + 1] == 45) { q + 2 } else { q + 1 };
    let d3 = scan_digits(body, r0);
    d3 > r0 && d3 == m
}

/// Why a text grid failed to parse.
#[derive(Debug, PartialEq, Eq, Structural)]
pub enum ParseError {
    /// The header line does not split into exactly 8 fields.
    HeaderFieldCount,
    /// The latitude interval field is not the required literal `0.016667`.
    LatInterval,
    /// The longitude interval field is not the required literal `0.025000`.
    LonInterval,
    /// A numeric header field does not parse as its target type.
    HeaderNumber,
    /// A data token is not a decimal sample value.
    DataNumber,
    /// The data tokens do not number exactly `x_count * y_count`.
    SampleCount,
}

/// `0.016667` — the only latitude interval the format admits.
pub open spec fn lat_interval_token() -> Seq<u8> {
    seq![48u8, 46, 48, 49, 54, 54, 54, 55]
}

/// `0.025000` — the only longitude interval the format admits.
pub open spec fn lon_interval_token() -> Seq<u8> {
    seq![48u8, 46, 48, 50, 53, 48, 48, 48]
}

/// Mathematical view of a parsed text grid.
pub ghost struct AsciiModel {
    pub x_num: u16,
    pub y_num: u16,
    pub ikind: u16,
    pub x_min_token: Seq<u8>,
    pub y_min_token: Seq<u8>,
    pub version: Seq<u8>,
    pub points: Seq<i32>,
}

/// The sample values of a run of data tokens, all or nothing.
pub open spec fn spec_parse_points(toks: Seq<Seq<u8>>) -> Option<Seq<i32>> {
    if forall|i: int| 0 <= i < toks.len() ==> spec_parse_data_token(#[trigger] toks[i]) is Some {
        Some(Seq::new(toks.len(), |i: int| spec_parse_data_token(toks[i])->Some_0))
    } else {
        None
    }
}

/// What a whole text grid parses to.
///
/// The header is the first line, split into exactly 8 fields:
/// `y_origin x_origin lat_interval lon_interval y_count x_count kind version`.
/// All remaining lines are data tokens in row-major file order. Errors
/// mirror the checks in order: field count, the two interval literals, the
/// numeric fields, the data tokens; finally the token count must equal the
/// node count, so that a short or long data section is rejected rather than
/// left to fail at query time.
pub open spec fn spec_parse_ascii(content: Seq<u8>) -> Result<AsciiModel, ParseError> {
    let hl = line_run(content, 0) as int;
    let header = content.subrange(0, hl);
    let rest = if hl < content.len() {
        content.subrange(hl + 1, content.len() as int)
    } else {
        Seq::<u8>::empty()
    };
    let t = spec_tokens_from(header, 0, true);
    if t.len() != 8 {
        Err(ParseError::HeaderFieldCount)
    } else if t[2] != lat_interval_token() {
        Err(ParseError::LatInterval)
    } else if t[3] != lon_interval_token() {
        Err(ParseError::LonInterval)
    } else if spec_parse_u16(t[5]) is None || spec_parse_u16(t[4]) is None || !is_float_token(t[1])
        || !is_float_token(t[0]) || spec_parse_u16(t[6]) is None {
        Err(ParseError::HeaderNumber)
    } else {
        match spec_parse_points(spec_tokens_from(rest, 0, false)) {
            None => Err(ParseError::DataNumber),
            Some(points) => {
                if points.len() != spec_parse_u16(t[5])->Some_0 * spec_parse_u16(t[4])->Some_0 {
                    Err(ParseError::SampleCount)
                } else {
                    Ok(
                        AsciiModel {
                            x_num: spec_parse_u16(t[5])->Some_0,
                            y_num: spec_parse_u16(t[4])->Some_0,
                            ikind: spec_parse_u16(t[6])->Some_0,
                            x_min_token: t[1],
                            y_min_token: t[0],
                            version: t[7],
                            points,
                        },
                    )
                }
            },
        }
    }
}

/// A text grid as parsed: everything a grid model needs except the origin
/// coordinates, which remain the raw decimal tokens. Their syntax has been
/// validated; turning them into float bit patterns is left to the caller,
/// who completes the grid with [`AsciiGrid::into_grid`].
#[derive(Debug)]
pub struct AsciiGrid {
    pub x_num: u16,
    pub y_num: u16,
    pub ikind: u16,
    pub x_min_token: Vec<u8>,
    pub y_min_token: Vec<u8>,
    pub version: Vec<u8>,
    pub points: Vec<i32>,
}

impl View for AsciiGrid {
    type V = AsciiModel;

    open spec fn view(&self) -> AsciiModel {
        AsciiModel {
            x_num: self.x_num,
            y_num: self.y_num,
            ikind: self.ikind,
            x_min_token: self.x_min_token@,
            y_min_token: self.y_min_token@,
            version: self.version@,
            points: self.points@,
        }
    }
}

impl AsciiGrid {
    pub open spec fn wf(&self) -> bool {
        self@.points.len() == self@.x_num * self@.y_num
    }

    /// Completes the parsed grid with the origin bit patterns its two
    /// decimal tokens stand for. The denominators are the fixed spacing of
    /// the supported format.
    pub fn into_grid(self, x_min_bits: u32, y_min_bits: u32) -> (r: MemoryGrid)
        requires
            self.wf(),
        ensures
            r@ == (GridModel {
                info: InfoModel {
                    x_num: self@.x_num,
                    y_num: self@.y_num,
                    x_denom: 40,
                    y_denom: 60,
                    x_min_bits,
                    y_min_bits,
                    ikind: self@.ikind,
                    version: self@.version,
                },
                points: self@.points,
            }),
            r.wf(),
    {
        let info = GridInfo {
            x_num: self.x_num,
            y_num: self.y_num,
            x_denom: 40,
            y_denom: 60,
            x_min_bits,
            y_min_bits,
            ikind: self.ikind,
            version: self.version,
        };
        MemoryGrid::new(info, self.points)
    }
}

fn bytes_eq(a: &[u8], b: &[u8]) -> (r: bool)
    ensures
        r == (a@ == b@),
{
    let n = a.len();
    if n != b.len() {
        proof {
            assert(a@.len() != b@.len());
        }
        return false;
    }
    let mut i: usize = 0;
    while i < n
        invariant
            0 <= i <= n,
            n == a@.len(),
            n == b@.len(),
            forall|k: int| 0 <= k < i ==> a@[k] == b@[k],
        decreases n - i,
    {
        if a[i] != b[i] {
            assert(a@[i as int] != b@[i as int]);
            return false;
        }
        i += 1;
    }
    proof {
        assert(a@ =~= b@);
    }
    true
}

/// Parses a whole text grid from raw bytes.
pub fn parse_ascii(content: &[u8]) -> (r: Result<AsciiGrid, ParseError>)
    ensures
        match r {
            Ok(a) => spec_parse_ascii(content@) == Ok::<AsciiModel, ParseError>(a@) && a.wf(),
            Err(e) => spec_parse_ascii(content@) == Err::<AsciiModel, ParseError>(e),
        },
{
    let n = content.len();
    let hl = find_line_end(content);
    let header = vstd::slice::slice_subrange(content, 0, hl);
    let toks = tokenize(header, true);
    let ghost t = spec_tokens_from(header@, 0, true);
    if toks.len() != 8 {
        return Err(ParseError::HeaderFieldCount);
    }
    proof {
        assert forall|k: int| 0 <= k < 8 implies toks@[k]@ == t[k] by {
            assert(toks.deep_view()[k] == toks@[k].deep_view());
            assert(toks@[k].deep_view() =~= toks@[k]@);
        }
    }
    let lat_lit: [u8; 8] = [48, 46, 48, 49, 54, 54, 54, 55];
    let lon_lit: [u8; 8] = [48, 46, 48, 50, 53, 48, 48, 48];
    proof {
        assert(lat_lit@ =~= lat_interval_token());
        assert(lon_lit@ =~= lon_interval_token());
    }
    if !bytes_eq(toks[2].as_slice(), lat_lit.as_slice()) {
        return Err(ParseError::LatInterval);
    }
    if !bytes_eq(toks[3].as_slice(), lon_lit.as_slice()) {
        return Err(ParseError::LonInterval);
    }
    let x_num_opt = parse_u16(toks[5].as_slice());
    let y_num_opt = parse_u16(toks[4].as_slice());
    let ikind_opt = parse_u16(toks[6].as_slice());
    let x_min_ok = check_float_token(toks[1].as_slice());
    let y_min_ok = check_float_token(toks[0].as_slice());
    let (x_num, y_num, ikind) = match (x_num_opt, y_num_opt, ikind_opt) {
        (Some(a), Some(b), Some(c)) => {
            if !x_min_ok || !y_min_ok {
                return Err(ParseError::HeaderNumber);
            }
            (a, b, c)
        },
        _ => {
            return Err(ParseError::HeaderNumber);
        },
    };

    let rest_start: usize = if hl < n { hl + 1 } else { n };
    let rest = vstd::slice::slice_subrange(content, rest_start, n);
    proof {
        if hl < n {
            assert(rest@ =~= content@.subrange(hl + 1, n as int));
        } else {
            assert(rest@ =~= Seq::<u8>::empty());
        }
    }
    let dtoks = tokenize(rest, false);
    let ghost dt = spec_tokens_from(rest@, 0, false);
    let mut points: Vec<i32> = Vec::new();
    let m = dtoks.len();
    let mut i: usize = 0;
    while i < m
        invariant
            0 <= i <= m,
            m == dtoks@.len(),
            dtoks.deep_view() == dt,
            points@.len() == i,
            forall|j: int|
                0 <= j < i ==> spec_parse_data_token(#[trigger] dt[j]) == Some(points@[j]),
            spec_parse_points(dt) is None ==> spec_parse_ascii(content@) == Err::<
                AsciiModel,
                ParseError,
            >(ParseError::DataNumber),
        decreases m - i,
    {
        proof {
            assert(dtoks.deep_view()[i as int] == dtoks@[i as int].deep_view());
            assert(dtoks@[i as int].deep_view() =~= dtoks@[i as int]@);
        }
        match parse_data_token(dtoks[i].as_slice()) {
            None => {
                proof {
                    assert(spec_parse_data_token(dt[i as int]) is None);
                }
                return Err(ParseError::DataNumber);
            },
            Some(v) => {
                points.push(v);
            },
        }
        i += 1;
    }
    proof {
        assert(spec_parse_points(dt) == Some(points@)) by {
            assert(forall|j: int|
                0 <= j < dt.len() ==> spec_parse_data_token(#[trigger] dt[j]) is Some);
            assert(points@ =~= Seq::new(dt.len(), |j: int| spec_parse_data_token(dt[j])->Some_0));
        }
        assert((x_num as int) * (y_num as int) <= 0xffff * 0xffff) by (nonlinear_arith)
            requires
                x_num <= 0xffff,
                y_num <= 0xffff;
    }
    let want: u64 = (x_num as u64) * (y_num as u64);
    if (points.len() as u64) != want {
        return Err(ParseError::SampleCount);
    }
    let x_min_token = vstd::slice::slice_to_vec(toks[1].as_slice());
    let y_min_token = vstd::slice::slice_to_vec(toks[0].as_slice());
    let version = vstd::slice::slice_to_vec(toks[7].as_slice());
    Ok(AsciiGrid { x_num, y_num, ikind, x_min_token, y_min_token, version, points })
}

} // verus!
