//! Parser for the line-oriented textual voxel format.
//!
//! Per non-blank line: `x <ws> z <ws> y <ws> rrggbb`, where the integers are
//! signed decimal and the color is six hex digits. Comment lines (`#` to end
//! of line) and trailing inline comments are skipped, blank lines are
//! tolerated, and any line that does not match the grammar fails the whole
//! parse. The emitted position applies the format's axis remap: a line whose
//! fields read `(x, z, y)` yields the grid position `[x, -y, z]`.
//!
//! The grammar is specified over the input's UTF-8 bytes ([`str::as_bytes`])
//! by the `spec_*` functions below; each executable function is proved to
//! follow its spec function exactly.

use vstd::prelude::*;
use vstd::string::StringSliceAdditionalSpecFns;

use crate::voxel_data::VoxelError;

verus! {

/// An RGB color triple as read from a data line.
#[derive(Clone, Copy, Debug, PartialEq, Eq, Structural)]
pub struct Rgb {
    pub r: u8,
    pub g: u8,
    pub b: u8,
}

impl Rgb {
    /// A color from its three channels.
    pub fn new(r: u8, g: u8, b: u8) -> (c: Rgb)
        ensures
            c == (Rgb { r, g, b }),
    {
        Rgb { r, g, b }
    }
}

/// A signed 3D integer position.
#[derive(Clone, Copy, Debug, PartialEq, Eq, Structural)]
pub struct Coord {
    pub x: i64,
    pub y: i64,
    pub z: i64,
}

impl Coord {
    /// A position from its three components.
    pub fn new(x: i64, y: i64, z: i64) -> (p: Coord)
        ensures
            p == (Coord { x, y, z }),
    {
        Coord { x, y, z }
    }
}

/// A space or tab: the whitespace allowed between the tokens of one line.
pub open spec fn is_space_b(b: u8) -> bool {
    b == 32 || b == 9
}

/// Any whitespace byte, newlines included.
pub open spec fn is_line_ws(b: u8) -> bool {
    is_space_b(b) || b == 10 || b == 13
}

/// An ASCII decimal digit.
pub open spec fn is_digit_b(b: u8) -> bool {
    48 <= b <= 57
}

/// An ASCII hex digit, either case.
pub open spec fn is_hex_b(b: u8) -> bool {
    is_digit_b(b) || (97 <= b <= 102) || (65 <= b <= 70)
}

/// The numeric value of a hex digit byte.
pub open spec fn hex_val_b(b: u8) -> int {
    if is_digit_b(b) {
        b - 48
    } else if 97 <= b <= 102 {
        b - 87
    } else {
        b - 55
    }
}

/// Whether `c` is a hexadecimal digit (either case).
pub open spec fn is_hex_char(c: char) -> bool {
    ('0' <= c && c <= '9') || ('a' <= c && c <= 'f') || ('A' <= c && c <= 'F')
}

/// Whether `c` is a hexadecimal digit.
pub fn is_hex_digit(c: char) -> (r: bool)
    ensures
        r == is_hex_char(c),
{
    ('0' <= c && c <= '9') || ('a' <= c && c <= 'f') || ('A' <= c && c <= 'F')
}

/// First position at or after `i` that does not hold a space or tab.
pub open spec fn spec_skip_space(s: Seq<u8>, i: int) -> int
    decreases s.len() - i,
    when 0 <= i <= s.len()
{
    if i < s.len() && is_space_b(s[i]) {
        spec_skip_space(s, i + 1)
    } else {
        i
    }
}

/// First position at or after `i` that starts a data token: skips whitespace
/// of every kind and `#` comments, which run to the end of their line.
pub open spec fn spec_skip_blank(s: Seq<u8>, i: int, in_comment: bool) -> int
    decreases s.len() - i,
    when 0 <= i <= s.len()
{
    if i >= s.len() {
        i
    } else if in_comment {
        spec_skip_blank(s, i + 1, s[i] != 10)
    } else if is_line_ws(s[i]) {
        spec_skip_blank(s, i + 1, false)
    } else if s[i] == 35 {
        spec_skip_blank(s, i + 1, true)
    } else {
        i
    }
}

/// End of the run of decimal digits starting at `i`.
pub open spec fn spec_digits_end(s: Seq<u8>, i: int) -> int
    decreases s.len() - i,
    when 0 <= i <= s.len()
{
    if i < s.len() && is_digit_b(s[i]) {
        spec_digits_end(s, i + 1)
    } else {
        i
    }
}

/// Value of the decimal digit run `s[i..j]`, most significant digit first.
pub open spec fn spec_digits_val(s: Seq<u8>, i: int, j: int) -> int
    decreases j - i,
    when i <= j
{
    if i < j {
        spec_digits_val(s, i, j - 1) * 10 + (s[j - 1] - 48)
    } else {
        0
    }
}

/// A signed decimal integer at `i`: an optional `-`, then one or more digits.
/// Yields the value and the position after the last digit, or `None` if there
/// is no digit or the value does not fit an `i64`.
pub open spec fn spec_number(s: Seq<u8>, i: int) -> Option<(int, int)> {
    let neg = i < s.len() && s[i] == 45;
    let d0 = if neg {
        i + 1
    } else {
        i
    };
    let dend = spec_digits_end(s, d0);
    if dend == d0 {
        None
    } else {
        let mag = spec_digits_val(s, d0, dend);
        let v = if neg {
            -mag
        } else {
            mag
        };
        if v < i64::MIN || v > i64::MAX {
            None
        } else {
            Some((v, dend))
        }
    }
}

/// Two hex digits at `i`, as one byte value.
pub open spec fn spec_hex2(s: Seq<u8>, i: int) -> Option<int> {
    if i + 2 <= s.len() && is_hex_b(s[i]) && is_hex_b(s[i + 1]) {
        Some(hex_val_b(s[i]) * 16 + hex_val_b(s[i + 1]))
    } else {
        None
    }
}

/// Six hex digits at `i`: three consecutive byte pairs `(red, green, blue)`.
pub open spec fn spec_hex_color(s: Seq<u8>, i: int) -> Option<(int, int, int)> {
    match (spec_hex2(s, i), spec_hex2(s, i + 2), spec_hex2(s, i + 4)) {
        (Some(r), Some(g), Some(b)) => Some((r, g, b)),
        _ => None,
    }
}

/// One data line at `i` (which must already point at its first token):
/// `x <ws> z <ws> y <ws> rrggbb`, then optional spaces and either the end of
/// input, a line break, or a trailing `#` comment. Yields the record with the
/// axis remap applied — the emitted position is `[x, -y, z]` — and the
/// position of the line's terminator.
pub open spec fn spec_line(s: Seq<u8>, i: int) -> Option<((Rgb, Coord), int)> {
    match spec_number(s, i) {
        None => None,
        Some((x, i1)) => {
            if !(i1 < s.len() && is_space_b(s[i1])) {
                None
            } else {
                match spec_number(s, spec_skip_space(s, i1)) {
                    None => None,
                    Some((z, i2)) => {
                        if !(i2 < s.len() && is_space_b(s[i2])) {
                            None
                        } else {
                            match spec_number(s, spec_skip_space(s, i2)) {
                                None => None,
                                Some((y, i3)) => {
                                    if !(i3 < s.len() && is_space_b(s[i3])) {
                                        None
                                    } else {
                                        spec_line_tail(s, x, z, y, spec_skip_space(s, i3))
                                    }
                                },
                            }
                        }
                    },
                }
            }
        },
    }
}

/// The color and terminator of a data line whose three integers have been
/// read; `i` points at the first hex digit.
pub open spec fn spec_line_tail(s: Seq<u8>, x: int, z: int, y: int, i: int) -> Option<
    ((Rgb, Coord), int),
> {
    match spec_hex_color(s, i) {
        None => None,
        Some((r, g, b)) => {
            let e = spec_skip_space(s, i + 6);
            if e < s.len() && !(s[e] == 10 || s[e] == 13 || s[e] == 35) {
                None
            } else if -y < i64::MIN || -y > i64::MAX {
                None
            } else {
                Some(
                    (
                        (
                            Rgb { r: r as u8, g: g as u8, b: b as u8 },
                            Coord { x: x as i64, y: (-y) as i64, z: z as i64 },
                        ),
                        e,
                    ),
                )
            }
        },
    }
}

/// The whole input from position `i`: the records of every data line, or
/// `None` as soon as one line fails the grammar.
pub open spec fn spec_import(s: Seq<u8>, i: int) -> Option<Seq<(Rgb, Coord)>>
    decreases s.len() - i,
    when 0 <= i <= s.len()
{
    let j = spec_skip_blank(s, i, false);
    if j >= s.len() {
        Some(Seq::empty())
    } else {
        match spec_line(s, j) {
            None => None,
            Some((rec, j2)) => {
                if j2 <= i || j2 > s.len() {
                    None  // unreachable: a parsed line always advances
                } else {
                    match spec_import(s, j2) {
                        None => None,
                        Some(rest) => Some(seq![rec] + rest),
                    }
                }
            },
        }
    }
}

/// Advance past spaces and tabs, following [`spec_skip_space`].
pub fn skip_space(s: &[u8], i: usize) -> (r: usize)
    requires
        i <= s@.len(),
    ensures
        r as int == spec_skip_space(s@, i as int),
        i <= r <= s@.len(),
{
    let mut j: usize = i;
    while j < s.len() && (s[j] == 32 || s[j] == 9)
        invariant
            i <= j <= s@.len(),
            spec_skip_space(s@, i as int) == spec_skip_space(s@, j as int),
        decreases s@.len() - j,
    {
        j += 1;
    }
    j
}

/// Advance past whitespace and `#` comments, following [`spec_skip_blank`].
pub fn skip_blank(s: &[u8], i: usize) -> (r: usize)
    requires
        i <= s@.len(),
    ensures
        r as int == spec_skip_blank(s@, i as int, false),
        i <= r <= s@.len(),
{
    let mut j: usize = i;
    let mut in_comment = false;
    while j < s.len() && (in_comment || s[j] == 32 || s[j] == 9 || s[j] == 10 || s[j] == 13 || s[j]
        == 35)
        invariant
            i <= j <= s@.len(),
            spec_skip_blank(s@, i as int, false) == spec_skip_blank(s@, j as int, in_comment),
        decreases s@.len() - j,
    {
        if in_comment {
            in_comment = s[j] != 10;
        } else if s[j] == 35 {
            in_comment = true;
        }
        j += 1;
    }
    j
}

/// Parse a signed decimal integer, following [`spec_number`].
pub fn number(s: &[u8], i: usize) -> (r: Option<(i64, usize)>)
    requires
        i <= s@.len(),
    ensures
        match r {
            Some((v, e)) => spec_number(s@, i as int) == Some((v as int, e as int)) && i < e
                <= s@.len(),
            None => spec_number(s@, i as int) is None,
        },
{
    let neg = i < s.len() && s[i] == 45;
    let d0: usize = if neg {
        i + 1
    } else {
        i
    };
    let mut j: usize = d0;
    let mut mag: u64 = 0;
    let mut over = false;
    while j < s.len() && 48 <= s[j] && s[j] <= 57
        invariant
            d0 <= j <= s@.len(),
            spec_digits_end(s@, d0 as int) == spec_digits_end(s@, j as int),
            !over ==> mag == spec_digits_val(s@, d0 as int, j as int) && mag
                <= 0x8000_0000_0000_0000u64,
            over ==> spec_digits_val(s@, d0 as int, j as int) > 0x8000_0000_0000_0000u64,
        decreases s@.len() - j,
    {
        let d: u64 = (s[j] - 48) as u64;
        if !over {
            if mag > (0x8000_0000_0000_0000u64 - d) / 10 {
                proof {
                    assert(mag * 10 + d > 0x8000_0000_0000_0000u64) by (nonlinear_arith)
                        requires
                            d <= 9,
                            mag > (0x8000_0000_0000_0000u64 - d) / 10,
                    ;
                }
                over = true;
            } else {
                proof {
                    assert(mag * 10 + d <= 0x8000_0000_0000_0000u64) by (nonlinear_arith)
                        requires
                            d <= 9,
                            mag <= (0x8000_0000_0000_0000u64 - d) / 10,
                    ;
                }
                mag = mag * 10 + d;
            }
        }
        j += 1;
    }
    if j == d0 {
        return None;
    }
    if over {
        return None;
    }
    if neg {
        if mag == 0x8000_0000_0000_0000u64 {
            Some((i64::MIN, j))
        } else {
            Some((-(mag as i64), j))
        }
    } else {
        if mag > 0x7FFF_FFFF_FFFF_FFFFu64 {
            None
        } else {
            Some((mag as i64, j))
        }
    }
}

/// The numeric value of a hex digit byte.
pub fn hex_val(b: u8) -> (r: u8)
    requires
        is_hex_b(b),
    ensures
        r as int == hex_val_b(b),
        r <= 15,
{
    if 48 <= b && b <= 57 {
        b - 48
    } else if 97 <= b {
        b - 87
    } else {
        b - 55
    }
}

/// Parse one two-digit hex byte, following [`spec_hex2`].
pub fn hex_tuple(s: &[u8], i: usize) -> (r: Option<u8>)
    requires
        i <= s@.len(),
    ensures
        match r {
            Some(v) => spec_hex2(s@, i as int) == Some(v as int),
            None => spec_hex2(s@, i as int) is None,
        },
{
    if i < s.len() && i + 1 < s.len() {
        let b0 = s[i];
        let b1 = s[i + 1];
        let hex0 = (48 <= b0 && b0 <= 57) || (97 <= b0 && b0 <= 102) || (65 <= b0 && b0 <= 70);
        let hex1 = (48 <= b1 && b1 <= 57) || (97 <= b1 && b1 <= 102) || (65 <= b1 && b1 <= 70);
        if hex0 && hex1 {
            Some(hex_val(b0) * 16 + hex_val(b1))
        } else {
            None
        }
    } else {
        None
    }
}

/// Parse a six-hex-digit color, following [`spec_hex_color`].
pub fn hex_color(s: &[u8], i: usize) -> (r: Option<Rgb>)
    requires
        i <= s@.len(),
    ensures
        match r {
            Some(c) => spec_hex_color(s@, i as int) == Some((c.r as int, c.g as int, c.b as int))
                && i + 6 <= s@.len(),
            None => spec_hex_color(s@, i as int) is None,
        },
{
    if s.len() >= 6 && i <= s.len() - 6 {
        match (hex_tuple(s, i), hex_tuple(s, i + 2), hex_tuple(s, i + 4)) {
            (Some(r), Some(g), Some(b)) => Some(Rgb { r, g, b }),
            _ => None,
        }
    } else {
        None
    }
}

/// Parse one data line, following [`spec_line`].
pub fn line(s: &[u8], i: usize) -> (r: Option<((Rgb, Coord), usize)>)
    requires
        i <= s@.len(),
    ensures
        match r {
            Some((rec, e)) => spec_line(s@, i as int) == Some((rec, e as int)) && i < e
                <= s@.len(),
            None => spec_line(s@, i as int) is None,
        },
{
    let (x, i1) = match number(s, i) {
        None => { return None },
        Some(p) => p,
    };
    if !(i1 < s.len() && (s[i1] == 32 || s[i1] == 9)) {
        return None;
    }
    let i1s = skip_space(s, i1);
    let (z, i2) = match number(s, i1s) {
        None => { return None },
        Some(p) => p,
    };
    if !(i2 < s.len() && (s[i2] == 32 || s[i2] == 9)) {
        return None;
    }
    let i2s = skip_space(s, i2);
    let (y, i3) = match number(s, i2s) {
        None => { return None },
        Some(p) => p,
    };
    if !(i3 < s.len() && (s[i3] == 32 || s[i3] == 9)) {
        return None;
    }
    let i3s = skip_space(s, i3);
    let col = match hex_color(s, i3s) {
        None => { return None },
        Some(c) => c,
    };
    let e = skip_space(s, i3s + 6);
    if e < s.len() {
        let b = s[e];
        if !(b == 10 || b == 13 || b == 35) {
            return None;
        }
    }
    if y == i64::MIN {
        return None;
    }
    Some(((col, Coord { x, y: -y, z }), e))
}

/// Parse a whole voxel description, following [`spec_import`] from position 0:
/// the records of every data line in order, or a parse error as soon as one
/// line fails the grammar.
pub fn import_txt(input: &str) -> (r: Result<Vec<(Rgb, Coord)>, VoxelError>)
    ensures
        match r {
            Ok(v) => spec_import(input.spec_bytes(), 0) == Some(v@),
            Err(e) => e == VoxelError::Parse && spec_import(input.spec_bytes(), 0) is None,
        },
{
    let s: &[u8] = input.as_bytes();
    let mut out: Vec<(Rgb, Coord)> = Vec::new();
    let mut i: usize = 0;
    loop
        invariant
            i <= s@.len(),
            s@ == input.spec_bytes(),
            spec_import(s@, 0) == (match spec_import(s@, i as int) {
                None => None::<Seq<(Rgb, Coord)>>,
                Some(rest) => Some(out@ + rest),
            }),
        decreases s@.len() - i,
    {
        let j = skip_blank(s, i);
        if j >= s.len() {
            proof {
                assert(spec_import(s@, i as int) == Some(Seq::<(Rgb, Coord)>::empty()));
                assert(out@ + Seq::<(Rgb, Coord)>::empty() =~= out@);
            }
            return Ok(out);
        }
        match line(s, j) {
            None => {
                proof {
                    assert(spec_import(s@, i as int) is None);
                }
                return Err(VoxelError::Parse);
            },
            Some((rec, j2)) => {
                proof {
                    assert(j2 > i);
                    let rest_i = spec_import(s@, i as int);
                    let rest_j2 = spec_import(s@, j2 as int);
                    match rest_j2 {
                        None => {
                            assert(rest_i is None);
                        },
                        Some(rr) => {
                            assert(rest_i == Some(seq![rec] + rr));
                            assert(out@ + (seq![rec] + rr) =~= (out@ + seq![rec]) + rr);
                        },
                    }
                }
                let ghost old_out = out@;
                out.push(rec);
                proof {
                    assert(out@ =~= old_out + seq![rec]);
                }
                i = j2;
            },
        }
    }
}

/// Parse a string of hex digits as one byte value, as the color field parser
/// reads each channel: fails on an empty string, a non-hex character, or a
/// value over 255.
pub open spec fn spec_from_hex(s: Seq<u8>) -> Option<int> {
    if s.len() == 0 {
        None
    } else if !(forall|k: int| 0 <= k < s.len() ==> is_hex_b(s[k])) {
        None
    } else {
        let v = spec_hex_fold(s, s.len() as int);
        if v > 255 {
            None
        } else {
            Some(v)
        }
    }
}

/// Value of the hex digit run `s[0..j]`, most significant digit first.
pub open spec fn spec_hex_fold(s: Seq<u8>, j: int) -> int
    decreases j,
    when j >= 0
{
    if j > 0 {
        spec_hex_fold(s, j - 1) * 16 + hex_val_b(s[j - 1])
    } else {
        0
    }
}

/// Parse a whole string as a base-16 byte value, following [`spec_from_hex`].
pub fn from_hex(input: &str) -> (r: Result<u8, VoxelError>)
    ensures
        match r {
            Ok(v) => spec_from_hex(input.spec_bytes()) == Some(v as int),
            Err(e) => e == VoxelError::Parse && spec_from_hex(input.spec_bytes()) is None,
        },
{
    let s: &[u8] = input.as_bytes();
    if s.len() == 0 {
        return Err(VoxelError::Parse);
    }
    let mut acc: u32 = 0;
    let mut too_big = false;
    let mut k: usize = 0;
    while k < s.len()
        invariant
            s@ == input.spec_bytes(),
            0 <= k <= s@.len(),
            forall|m: int| 0 <= m < k ==> is_hex_b(s@[m]),
            !too_big ==> acc == spec_hex_fold(s@, k as int) && acc <= 255,
            too_big ==> spec_hex_fold(s@, k as int) > 255,
        decreases s@.len() - k,
    {
        let b = s[k];
        let hex = (48 <= b && b <= 57) || (97 <= b && b <= 102) || (65 <= b && b <= 70);
        if !hex {
            proof {
                assert(!is_hex_b(s@[k as int]));
                assert(!(forall|m: int| 0 <= m < s@.len() ==> is_hex_b(s@[m])));
            }
            return Err(VoxelError::Parse);
        }
        let d = hex_val(b);
        if !too_big {
            let tmp: u32 = acc * 16 + (d as u32);
            if tmp > 255 {
                too_big = true;
            } else {
                acc = tmp;
            }
        }
        k += 1;
    }
    if too_big {
        Err(VoxelError::Parse)
    } else {
        Ok(acc as u8)
    }
}

/// Parse a whole string as a signed decimal integer: [`spec_number`] at
/// position 0, consuming the entire string.
pub open spec fn spec_from_dec(s: Seq<u8>) -> Option<int> {
    match spec_number(s, 0) {
        None => None,
        Some((v, e)) => {
            if e == s.len() {
                Some(v)
            } else {
                None
            }
        },
    }
}

/// Parse a whole string as a signed decimal integer, following
/// [`spec_from_dec`].
pub fn from_dec(input: &str) -> (r: Result<i64, VoxelError>)
    ensures
        match r {
            Ok(v) => spec_from_dec(input.spec_bytes()) == Some(v as int),
            Err(e) => e == VoxelError::Parse && spec_from_dec(input.spec_bytes()) is None,
        },
{
    let s: &[u8] = input.as_bytes();
    match number(s, 0) {
        Some((v, e)) => {
            if e == s.len() {
                Ok(v)
            } else {
                Err(VoxelError::Parse)
            }
        },
        None => Err(VoxelError::Parse),
    }
}

} // verus!
