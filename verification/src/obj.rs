//! The Wavefront-OBJ loader: face-reference parsing, index resolution,
//! fan triangulation, the line-directive dispatcher and the centering and
//! deduplicating post-pass that produces the final vertex and index
//! buffers.
//!
//! Coordinates are decimal fixed-point scalars ([`crate::scalar::Scalar`]):
//! a numeric field is a plain decimal (optional sign, digits, optional
//! point and fraction digits), truncated toward zero at the fourth decimal
//! and limited to a magnitude of `100000`; anything else is rejected as an
//! invalid parameter.

use vstd::prelude::*;

verus! {

use crate::scalar::{sc, scaled_div, scaled_mul, Scalar, INPUT_LIMIT, SCALE};
use crate::vector::Vector3;

/// The typed cause of a parse failure.
#[derive(Debug, Clone, PartialEq, Eq)]
pub enum ErrorType {
    /// A read failure in the surrounding I/O layer; the parser itself
    /// never produces it.
    IOError,
    /// A recognized directive with no implementation.
    Unsupported(String),
    /// An unrecognized directive, or a malformed sub-argument.
    InvalidEntry(String),
    /// A face reference that resolves outside the known attribute tables.
    IndexOutOfBound(isize),
    /// The whitespace-separated field with this position failed to parse
    /// or failed a shape check.
    InvalidParameter(usize),
    /// A wrong number of fields for the directive.
    InvalidParameterNumber,
    /// No directive/argument separator in the line.
    InvalidLine,
}

/// A parse failure, with the offending line's text (when one is at fault)
/// and its 0-based number.
#[derive(Debug, Clone, PartialEq, Eq)]
pub struct ParseError {
    pub line: Option<String>,
    pub line_no: usize,
    pub err_type: ErrorType,
}

/// The spec-level image of an [`ErrorType`], with text as character
/// sequences.
pub enum ErrSpec {
    Unsupported(Seq<char>),
    InvalidEntry(Seq<char>),
    IndexOutOfBound(int),
    InvalidParameter(int),
    InvalidParameterNumber,
    InvalidLine,
}

/// The executable error carries exactly the spec-level cause.
pub open spec fn err_matches(e: ErrorType, s: ErrSpec) -> bool {
    match e {
        ErrorType::IOError => false,
        ErrorType::Unsupported(t) => s matches ErrSpec::Unsupported(p) && t@ == p,
        ErrorType::InvalidEntry(t) => s matches ErrSpec::InvalidEntry(p) && t@ == p,
        ErrorType::IndexOutOfBound(i) => s matches ErrSpec::IndexOutOfBound(p) && i as int == p,
        ErrorType::InvalidParameter(i) => s matches ErrSpec::InvalidParameter(p) && i as int
            == p,
        ErrorType::InvalidParameterNumber => s matches ErrSpec::InvalidParameterNumber,
        ErrorType::InvalidLine => s matches ErrSpec::InvalidLine,
    }
}

/// One corner of a face before resolution: 1-based or negative-from-end
/// indices as written in the file.
#[derive(Debug, Clone, Copy, PartialEq, Eq)]
pub struct FaceInfoRaw {
    pub vertex: isize,
    pub texture: Option<isize>,
    pub normal: Option<isize>,
}

/// One corner of a face after resolution: 0-based, validated indices.
/// Equality is structural, so two corners are the same output vertex
/// exactly when all three indices match.
#[derive(Debug, Clone, Copy, PartialEq, Eq, Hash)]
pub struct FaceInfo {
    pub vertex: u32,
    pub texture: Option<u32>,
    pub normal: Option<u32>,
}

/// The 0-based index a 1-based or negative-from-end OBJ index resolves to
/// against a table of `len` entries; `None` when it is out of range, when
/// it is zero, or when the table itself does not fit the unsigned index
/// width.
pub open spec fn spec_get_index(len: int, index: int) -> Option<int> {
    if len > u32::MAX {
        None
    } else if index > 0 {
        if index <= len {
            Some(index - 1)
        } else {
            None
        }
    } else if index < 0 {
        if -index <= len {
            Some(len + index)
        } else {
            None
        }
    } else {
        None
    }
}

/// Resolves a 1-based or negative-from-end index against a table of
/// `array_len` entries, exactly as [`spec_get_index`] says: `i-1` for
/// `1 <= i <= len`, `len - |i|` for `1 <= |i| <= len` with `i < 0`, and
/// `IndexOutOfBound(i)` otherwise.
pub fn get_index(array_len: usize, index: isize) -> (r: Result<u32, ErrorType>)
    ensures
        match r {
            Ok(k) => spec_get_index(array_len as int, index as int) == Some(k as int),
            Err(e) => spec_get_index(array_len as int, index as int) is None && e
                == ErrorType::IndexOutOfBound(index),
        },
{
    if array_len as u64 > u32::MAX as u64 {
        return Err(ErrorType::IndexOutOfBound(index));
    }
    if index > 0 {
        let iu = index as usize;
        if iu > array_len {
            Err(ErrorType::IndexOutOfBound(index))
        } else {
            Ok((iu - 1) as u32)
        }
    } else if index < 0 {
        let fe1 = (-(index + 1)) as usize;
        if fe1 >= array_len {
            Err(ErrorType::IndexOutOfBound(index))
        } else {
            Ok((array_len - fe1 - 1) as u32)
        }
    } else {
        Err(ErrorType::IndexOutOfBound(index))
    }
}

/// The triangle-fan expansion of a polygon's corner list: the triangles
/// `(r[0], r[t+1], r[t+2])` for `t` up to `len - 3`, flattened.
pub open spec fn spec_fan(refs: Seq<FaceInfo>) -> Seq<FaceInfo>
    recommends
        refs.len() >= 3,
{
    Seq::new(
        (3 * (refs.len() - 2)) as nat,
        |i: int|
            if i % 3 == 0 {
                refs[0]
            } else if i % 3 == 1 {
                refs[i / 3 + 1]
            } else {
                refs[i / 3 + 2]
            },
    )
}

/// Fan triangulation: fast and exact for convex polygons; a concave
/// polygon may yield self-intersecting triangles, which is an accepted
/// limitation of the format.
pub fn fan_triangulation(indices: Vec<FaceInfo>) -> (r: Vec<FaceInfo>)
    requires
        indices@.len() >= 3,
    ensures
        r@ == spec_fan(indices@),
        forall|i: int| 0 <= i < r@.len() ==> indices@.contains(#[trigger] r@[i]),
{
    let mut ret: Vec<FaceInfo> = Vec::new();
    let first = indices[0];
    let n = indices.len();
    let mut t: usize = 0;
    while t + 2 < n
        invariant
            n == indices@.len(),
            3 <= n,
            t + 2 <= n,
            first == indices@[0],
            ret@.len() == 3 * t,
            forall|i: int| 0 <= i < ret@.len() ==> ret@[i] == spec_fan(indices@)[i],
            forall|i: int| 0 <= i < ret@.len() ==> indices@.contains(#[trigger] ret@[i]),
        decreases n - t,
    {
        ret.push(first);
        ret.push(indices[t + 1]);
        ret.push(indices[t + 2]);
        proof {
            assert(indices@.contains(indices@[0]));
            assert(indices@.contains(indices@[t + 1]));
            assert(indices@.contains(indices@[t + 2]));
        }
        t = t + 1;
    }
    proof {
        assert(ret@ =~= spec_fan(indices@));
    }
    ret
}

/// A decimal digit.
pub open spec fn is_digit(c: char) -> bool {
    48 <= c as u32 <= 57
}

/// Every character of the sequence is a decimal digit.
pub open spec fn all_digits(s: Seq<char>) -> bool {
    forall|i: int| 0 <= i < s.len() ==> is_digit(#[trigger] s[i])
}

/// The value of a digit sequence read in base ten.
pub open spec fn digits_val(s: Seq<char>) -> int
    decreases s.len(),
{
    if s.len() == 0 {
        0
    } else {
        digits_val(s.drop_last()) * 10 + (s.last() as u32 - 48)
    }
}

/// The value of an all-digit sequence is nonnegative.
pub proof fn lemma_digits_val_nonneg(s: Seq<char>)
    requires
        all_digits(s),
    ensures
        digits_val(s) >= 0,
    decreases s.len(),
{
    if s.len() > 0 {
        assert(all_digits(s.drop_last()));
        lemma_digits_val_nonneg(s.drop_last());
    }
}

/// Reading more digits never shrinks the value: the whole sequence is
/// worth at least any of its prefixes.
pub proof fn lemma_digits_val_prefix(s: Seq<char>, k: int)
    requires
        all_digits(s),
        0 <= k <= s.len(),
    ensures
        digits_val(s) >= digits_val(s.subrange(0, k)),
    decreases s.len() - k,
{
    if k < s.len() {
        lemma_digits_val_prefix(s, k + 1);
        let a = s.subrange(0, k);
        let b = s.subrange(0, k + 1);
        assert(b.drop_last() =~= a);
        assert(all_digits(a));
        lemma_digits_val_nonneg(a);
    } else {
        assert(s.subrange(0, k) =~= s);
    }
}

/// First index at or after `i` whose character is `c`, or the length.
pub open spec fn find_char(s: Seq<char>, c: char, i: int) -> int
    decreases s.len() - i,
{
    if i < 0 || i >= s.len() {
        s.len() as int
    } else if s[i] == c {
        i
    } else {
        find_char(s, c, i + 1)
    }
}

/// [`find_char`] finds the first occurrence: everything before it (from
/// `i` on) differs from `c`, and it points at `c` unless it is the length.
pub proof fn lemma_find_char(s: Seq<char>, c: char, i: int)
    requires
        0 <= i <= s.len(),
    ensures
        i <= find_char(s, c, i) <= s.len(),
        find_char(s, c, i) < s.len() ==> s[find_char(s, c, i)] == c,
        forall|k: int| i <= k < find_char(s, c, i) ==> s[k] != c,
    decreases s.len() - i,
{
    if i < s.len() && s[i] != c {
        lemma_find_char(s, c, i + 1);
    }
}

/// Exec search for a character, equal to [`find_char`].
fn find_char_at(s: &str, c: char, i: usize) -> (r: usize)
    requires
        i <= s@.len(),
    ensures
        r == find_char(s@, c, i as int),
    decreases s@.len() - i,
{
    let n = s.unicode_len();
    if i >= n {
        n
    } else if s.get_char(i) == c {
        i
    } else {
        find_char_at(s, c, i + 1)
    }
}

/// Reads the digit run `s[from..to]` into an accumulator, refusing values
/// beyond `limit`; `None` when a non-digit appears or the value grows past
/// `limit`.
fn parse_digits(s: &str, from: usize, to: usize, limit: u64) -> (r: Option<u64>)
    requires
        from <= to <= s@.len(),
        limit <= 9_223_372_036_854_775_807,
    ensures
        ({
            let d = s@.subrange(from as int, to as int);
            match r {
                Some(v) => all_digits(d) && digits_val(d) == v as int && v <= limit,
                None => !all_digits(d) || digits_val(d) > limit,
            }
        }),
{
    let ghost d = s@.subrange(from as int, to as int);
    let mut acc: u64 = 0;
    let mut j = from;
    while j < to
        invariant
            from <= j <= to <= s@.len(),
            limit <= 9_223_372_036_854_775_807,
            all_digits(s@.subrange(from as int, j as int)),
            acc as int == digits_val(s@.subrange(from as int, j as int)),
            acc <= limit,
            d == s@.subrange(from as int, to as int),
        decreases to - j,
    {
        let c = s.get_char(j);
        let u = c as u32;
        if u < 48 || u > 57 {
            proof {
                assert(d[j - from] == s@[j as int]);
                assert(!all_digits(d));
            }
            return None;
        }
        let dv = (u - 48) as u64;
        proof {
            assert(s@.subrange(from as int, j as int + 1).drop_last() =~= s@.subrange(
                from as int,
                j as int,
            ));
        }
        if acc > limit / 10 || (acc == limit / 10 && dv > limit % 10) {
            proof {
                vstd::arithmetic::div_mod::lemma_fundamental_div_mod(limit as int, 10);
                vstd::arithmetic::div_mod::lemma_mod_bound(limit as int, 10);
                let p = s@.subrange(from as int, j as int + 1);
                assert(digits_val(p) == acc * 10 + dv);
                if all_digits(d) {
                    assert(p =~= d.subrange(0, j - from + 1));
                    lemma_digits_val_prefix(d, j - from + 1);
                }
            }
            return None;
        }
        proof {
            vstd::arithmetic::div_mod::lemma_fundamental_div_mod(limit as int, 10);
            vstd::arithmetic::div_mod::lemma_mod_bound(limit as int, 10);
        }
        acc = acc * 10 + dv;
        j = j + 1;
    }
    proof {
        assert(s@.subrange(from as int, j as int) =~= d);
    }
    Some(acc)
}

/// The parsed value of a signed-integer token: optional `+` or `-`, then
/// one or more digits; `None` for anything else or for a value outside
/// the symmetric machine range.
pub open spec fn spec_parse_int(s: Seq<char>) -> Option<int> {
    let neg = s.len() > 0 && s[0] == '-';
    let d = if s.len() > 0 && (s[0] == '+' || s[0] == '-') {
        s.subrange(1, s.len() as int)
    } else {
        s
    };
    if d.len() == 0 || !all_digits(d) {
        None
    } else {
        let v = if neg {
            -digits_val(d)
        } else {
            digits_val(d)
        };
        if -(isize::MAX as int) <= v <= isize::MAX as int {
            Some(v)
        } else {
            None
        }
    }
}

/// Parses a signed-integer token exactly as [`spec_parse_int`] says.
pub fn parse_int(s: &str) -> (r: Option<isize>)
    ensures
        match r {
            Some(v) => spec_parse_int(s@) == Some(v as int),
            None => spec_parse_int(s@) is None,
        },
{
    let n = s.unicode_len();
    let mut start: usize = 0;
    let mut neg = false;
    if n > 0 {
        let c0 = s.get_char(0);
        if c0 == '+' {
            start = 1;
        } else if c0 == '-' {
            neg = true;
            start = 1;
        }
    }
    if start >= n {
        return None;
    }
    proof {
        if start == 1 {
            assert(s@.subrange(1, s@.len() as int) =~= s@.subrange(
                start as int,
                n as int,
            ));
        } else {
            assert(s@ =~= s@.subrange(start as int, n as int));
        }
    }
    match parse_digits(s, start, n, isize::MAX as u64) {
        None => None,
        Some(v) => {
            if neg {
                Some(-(v as isize))
            } else {
                Some(v as isize)
            }
        },
    }
}

/// Ten to the power `k` (for the small fraction paddings).
pub open spec fn pow10(k: int) -> int
    decreases k,
{
    if k <= 0 {
        1
    } else {
        10 * pow10(k - 1)
    }
}

/// The small powers of ten, spelled out (the recursive definition
/// unfolds one step at a time).
proof fn lemma_pow10_vals()
    ensures
        pow10(0) == 1,
        pow10(1) == 10,
        pow10(2) == 100,
        pow10(3) == 1000,
        pow10(4) == 10000,
{
    assert(pow10(0) == 1);
    assert(pow10(1) == 10);
    assert(pow10(2) == 100);
    assert(pow10(3) == 1000);
    assert(pow10(4) == 10000);
}

/// Raw fixed-point value of a fraction-digit run: the first four digits,
/// padded with zeros to the fourth place; digits past the fourth are
/// read but do not contribute.
pub open spec fn frac_raw(f: Seq<char>) -> int {
    let t = if f.len() >= 4 {
        f.subrange(0, 4)
    } else {
        f
    };
    digits_val(t) * pow10(4 - t.len())
}

/// The parsed value of a numeric field: optional sign, integer digits,
/// optional point and fraction digits, with at least one digit in all;
/// the value is truncated toward zero at the fourth decimal and its
/// magnitude is limited to `100000`.
pub open spec fn spec_parse_scalar(s: Seq<char>) -> Option<Scalar> {
    let neg = s.len() > 0 && s[0] == '-';
    let d = if s.len() > 0 && (s[0] == '+' || s[0] == '-') {
        s.subrange(1, s.len() as int)
    } else {
        s
    };
    let dot = find_char(d, '.', 0);
    let ip = d.subrange(0, dot);
    let fp = if dot < d.len() {
        d.subrange(dot + 1, d.len() as int)
    } else {
        Seq::empty()
    };
    if ip.len() == 0 && fp.len() == 0 {
        None
    } else if !all_digits(ip) || !all_digits(fp) {
        None
    } else {
        let mag = digits_val(ip) * (SCALE as int) + frac_raw(fp);
        if mag > INPUT_LIMIT as int {
            None
        } else {
            Some(sc(if neg {
                -mag
            } else {
                mag
            }))
        }
    }
}

/// The value of at most four fraction digits, padded, stays under one
/// whole unit.
proof fn lemma_frac_raw_bound(f: Seq<char>)
    requires
        all_digits(f),
    ensures
        0 <= frac_raw(f) < SCALE as int,
{
    let t = if f.len() >= 4 {
        f.subrange(0, 4)
    } else {
        f
    };
    assert(all_digits(t));
    lemma_digits_val_nonneg(t);
    lemma_digits_val_small(t);
    lemma_pow10_vals();
    if t.len() == 0 {
        assert(frac_raw(f) == 0);
    } else if t.len() == 1 {
        assert(frac_raw(f) == digits_val(t) * 1000);
    } else if t.len() == 2 {
        assert(frac_raw(f) == digits_val(t) * 100);
    } else if t.len() == 3 {
        assert(frac_raw(f) == digits_val(t) * 10);
    } else {
        assert(frac_raw(f) == digits_val(t) * 1);
    }
}

/// A run of at most four digits is worth less than ten thousand.
proof fn lemma_digits_val_small(t: Seq<char>)
    requires
        all_digits(t),
        t.len() <= 4,
    ensures
        digits_val(t) < pow10(t.len() as int),
    decreases t.len(),
{
    if t.len() > 0 {
        assert(all_digits(t.drop_last()));
        lemma_digits_val_small(t.drop_last());
    }
}

/// Parses a numeric field exactly as [`spec_parse_scalar`] says.
#[verifier::loop_isolation(false)]
#[verifier::rlimit(60)]
pub fn parse_scalar(s: &str) -> (r: Option<Scalar>)
    ensures
        match r {
            Some(v) => spec_parse_scalar(s@) == Some(v) && -INPUT_LIMIT <= v.raw
                <= INPUT_LIMIT,
            None => spec_parse_scalar(s@) is None,
        },
{
    let n = s.unicode_len();
    let mut start: usize = 0;
    let mut neg = false;
    if n > 0 {
        let c0 = s.get_char(0);
        if c0 == '+' {
            start = 1;
        } else if c0 == '-' {
            neg = true;
            start = 1;
        }
    }
    let ghost d = if start == 1 {
        s@.subrange(1, s@.len() as int)
    } else {
        s@
    };
    proof {
        assert(d =~= s@.subrange(start as int, n as int));
    }
    let dot = find_char_at(s, '.', start);
    proof {
        lemma_find_char_offset_one(s@, '.', start as int, start as int, n as int);
        lemma_find_char(d, '.', 0);
    }
    let ghost dotd = find_char(d, '.', 0);
    proof {
        assert(dotd == dot - start);
        assert(s@.subrange(start as int, dot as int) =~= d.subrange(0, dotd));
    }
    let ghost ip = d.subrange(0, dotd);
    let ghost fp = if dotd < d.len() {
        d.subrange(dotd + 1, d.len() as int)
    } else {
        Seq::<char>::empty()
    };
    let ip_some = parse_digits(s, start, dot, 100_000);
    let ip_val = match ip_some {
        None => {
            proof {
                if all_digits(ip) && all_digits(fp) {
                    lemma_frac_raw_bound(fp);
                    lemma_digits_val_nonneg(ip);
                }
            }
            return None;
        },
        Some(v) => v,
    };
    if dot >= n {
        // no fraction part
        if dot == start {
            // no digits at all
            proof {
                assert(ip.len() == 0 && fp.len() == 0);
            }
            return None;
        }
        proof {
            lemma_digits_val_nonneg(ip);
        }
        let mag = ip_val as i64 * SCALE;
        if mag > INPUT_LIMIT {
            return None;
        }
        proof {
            assert(all_digits(ip));
            assert(fp =~= Seq::<char>::empty());
            assert(all_digits(fp));
            assert(digits_val(ip) == ip_val as int);
            lemma_pow10_vals();
            assert(digits_val(fp) == 0);
            assert(frac_raw(fp) == 0);
            assert(dotd == dot - start);
            assert(dot > start);
            assert(ip.len() > 0);
            assert(spec_parse_scalar(s@) == Some(sc(if neg { -(mag as int) } else { mag as int })));
        }
        return Some(Scalar { raw: if neg { -mag } else { mag } });
    }
    // fraction digits follow the point
    let fstart = dot + 1;
    let fend = if n - fstart >= 4 {
        fstart + 4
    } else {
        n
    };
    proof {
        assert(s@.subrange(fstart as int, n as int) =~= fp);
        assert(s@.subrange(fstart as int, fend as int) =~= (if fp.len() >= 4 {
            fp.subrange(0, 4)
        } else {
            fp
        }));
    }
    let fv = match parse_digits(s, fstart, fend, 10_000) {
        None => {
            proof {
                let t = if fp.len() >= 4 {
                    fp.subrange(0, 4)
                } else {
                    fp
                };
                lemma_pow10_vals();
                if all_digits(fp) {
                    assert(all_digits(t));
                    lemma_digits_val_small(t);
                }
            }
            return None;
        },
        Some(v) => v,
    };
    // the remaining fraction digits are read for validity only
    proof {
        assert forall|i: int| fstart <= i < fend implies is_digit(#[trigger] s@[i]) by {
            assert(s@.subrange(fstart as int, fend as int)[i - fstart] == s@[i]);
        }
    }
    let mut k = fend;
    while k < n
        invariant
            fend <= k <= n,
            n == s@.len(),
            fstart <= fend <= n,
            fp == s@.subrange(fstart as int, n as int),
            forall|i: int| fstart <= i < k ==> is_digit(#[trigger] s@[i]),
        decreases n - k,
    {
        let c = s.get_char(k);
        let u = c as u32;
        if u < 48 || u > 57 {
            proof {
                assert(fp[k - fstart] == s@[k as int]);
                assert(!all_digits(fp));
            }
            return None;
        }
        k = k + 1;
    }
    proof {
        assert forall|i: int| 0 <= i < fp.len() implies is_digit(#[trigger] fp[i]) by {
            assert(fp[i] == s@[fstart + i]);
        }
        assert(all_digits(fp));
        assert(all_digits(ip));
    }
    if dot == start && fend == fstart {
        // a bare point with nothing around it
        proof {
            assert(ip.len() == 0 && fp.len() == 0);
        }
        return None;
    }
    let scalepow = if fend - fstart == 0 {
        10_000
    } else if fend - fstart == 1 {
        1_000
    } else if fend - fstart == 2 {
        100
    } else if fend - fstart == 3 {
        10
    } else {
        1
    };
    let frac = fv as i64 * scalepow;
    proof {
        let t = if fp.len() >= 4 {
            fp.subrange(0, 4)
        } else {
            fp
        };
        assert(t =~= s@.subrange(fstart as int, fend as int));
        lemma_pow10_vals();
        assert(frac as int == frac_raw(fp));
        lemma_frac_raw_bound(fp);
        lemma_digits_val_nonneg(ip);
    }
    let mag = ip_val as i64 * SCALE + frac;
    if mag > INPUT_LIMIT {
        return None;
    }
    Some(Scalar { raw: if neg { -mag } else { mag } })
}

/// Searching from an offset into the string searches the corresponding
/// suffix sequence: the find on the suffix is the find on the whole,
/// shifted.
proof fn lemma_find_char_offset_one(s: Seq<char>, c: char, start: int, i: int, n: int)
    requires
        0 <= start <= i <= n,
        n == s.len(),
    ensures
        find_char(s.subrange(start, n), c, i - start) == find_char(s, c, i) - start,
    decreases n - i,
{
    let d = s.subrange(start, n);
    if i >= n {
    } else if s[i] == c {
        assert(d[i - start] == s[i]);
    } else {
        assert(d[i - start] == s[i]);
        lemma_find_char_offset_one(s, c, start, i + 1, n);
    }
}

/// A field separator: a space or a tab.
pub open spec fn is_ws(c: char) -> bool {
    c == ' ' || c == '\t'
}

/// First separator index at or after `i`, or the length.
pub open spec fn token_end(s: Seq<char>, i: int) -> int
    decreases s.len() - i,
{
    if i < 0 || i >= s.len() {
        s.len() as int
    } else if is_ws(s[i]) {
        i
    } else {
        token_end(s, i + 1)
    }
}

/// [`token_end`] never moves backward, and moves forward over a
/// non-separator.
pub proof fn lemma_token_end(s: Seq<char>, i: int)
    requires
        0 <= i <= s.len(),
    ensures
        i <= token_end(s, i) <= s.len(),
        i < s.len() && !is_ws(s[i]) ==> token_end(s, i) > i,
    decreases s.len() - i,
{
    if i < s.len() && !is_ws(s[i]) {
        lemma_token_end(s, i + 1);
    }
}

/// The whitespace-separated tokens of `s[i..]`, in order, without empty
/// tokens.
pub open spec fn spec_tokens(s: Seq<char>, i: int) -> Seq<Seq<char>>
    decreases s.len() - i,
    when 0 <= i <= s.len()
    via spec_tokens_decreases
{
    if i >= s.len() {
        Seq::empty()
    } else if is_ws(s[i]) {
        spec_tokens(s, i + 1)
    } else {
        seq![s.subrange(i, token_end(s, i))] + spec_tokens(s, token_end(s, i))
    }
}

#[via_fn]
proof fn spec_tokens_decreases(s: Seq<char>, i: int) {
    if 0 <= i <= s.len() && i < s.len() && !is_ws(s[i]) {
        lemma_token_end(s, i);
    }
}

/// There are never more tokens than characters.
pub proof fn lemma_tokens_count(s: Seq<char>, i: int)
    requires
        0 <= i <= s.len(),
    ensures
        spec_tokens(s, i).len() <= s.len() - i,
    decreases s.len() - i,
{
    if i < s.len() {
        if is_ws(s[i]) {
            lemma_tokens_count(s, i + 1);
        } else {
            lemma_token_end(s, i);
            lemma_tokens_count(s, token_end(s, i));
        }
    }
}

/// Exec search for the end of the token starting at `i`.
fn token_end_at(s: &str, i: usize) -> (r: usize)
    requires
        i <= s@.len(),
    ensures
        r == token_end(s@, i as int),
    decreases s@.len() - i,
{
    let n = s.unicode_len();
    if i >= n {
        n
    } else {
        let c = s.get_char(i);
        if c == ' ' || c == '\t' {
            i
        } else {
            token_end_at(s, i + 1)
        }
    }
}

/// Splits `s[i..]` into its whitespace-separated tokens, exactly as
/// [`spec_tokens`] says.
fn tokens_from<'a>(s: &'a str, i: usize) -> (r: Vec<&'a str>)
    requires
        i <= s@.len(),
    ensures
        r@.map_values(|t: &'a str| t@) == spec_tokens(s@, i as int),
    decreases s@.len() - i,
{
    let n = s.unicode_len();
    if i >= n {
        let r: Vec<&'a str> = Vec::new();
        proof {
            assert(r@.map_values(|t: &'a str| t@) =~= spec_tokens(s@, i as int));
        }
        r
    } else {
        let c = s.get_char(i);
        if c == ' ' || c == '\t' {
            tokens_from(s, i + 1)
        } else {
            let j = token_end_at(s, i);
            proof {
                lemma_token_end(s@, i as int);
            }
            let tok = s.substring_char(i, j);
            let mut rest = tokens_from(s, j);
            let mut r: Vec<&'a str> = Vec::new();
            r.push(tok);
            r.append(&mut rest);
            proof {
                assert(r@.map_values(|t: &'a str| t@) =~= spec_tokens(s@, i as int));
            }
            r
        }
    }
}

/// The slash-separated fields of `s[i..]`: every run between slashes,
/// empty runs included, so there is always at least one field.
pub open spec fn spec_fields(s: Seq<char>, i: int) -> Seq<Seq<char>>
    decreases s.len() - i,
    when 0 <= i <= s.len()
    via spec_fields_decreases
{
    let j = find_char(s, '/', i);
    if j < s.len() {
        seq![s.subrange(i, j)] + spec_fields(s, j + 1)
    } else {
        seq![s.subrange(i, s.len() as int)]
    }
}

#[via_fn]
proof fn spec_fields_decreases(s: Seq<char>, i: int) {
    if 0 <= i <= s.len() {
        lemma_find_char(s, '/', i);
    }
}

/// Splits `s[i..]` at slashes, exactly as [`spec_fields`] says.
fn fields_from<'a>(s: &'a str, i: usize) -> (r: Vec<&'a str>)
    requires
        i <= s@.len(),
    ensures
        r@.map_values(|t: &'a str| t@) == spec_fields(s@, i as int),
        r@.len() >= 1,
    decreases s@.len() - i,
{
    let n = s.unicode_len();
    let j = find_char_at(s, '/', i);
    proof {
        lemma_find_char(s@, '/', i as int);
    }
    if j < n {
        let fld = s.substring_char(i, j);
        let mut rest = fields_from(s, j + 1);
        let mut r: Vec<&'a str> = Vec::new();
        r.push(fld);
        r.append(&mut rest);
        proof {
            assert(r@.map_values(|t: &'a str| t@) =~= spec_fields(s@, i as int));
        }
        r
    } else {
        let fld = s.substring_char(i, n);
        let mut r: Vec<&'a str> = Vec::new();
        r.push(fld);
        proof {
            assert(r@.map_values(|t: &'a str| t@) =~= spec_fields(s@, i as int));
        }
        r
    }
}

/// The optional index field with position `k` of a face token: absent
/// when there is no such field or it is empty, otherwise a signed
/// integer; the outer `None` reports a malformed field.
pub open spec fn spec_opt_field(fs: Seq<Seq<char>>, k: int) -> Option<Option<int>> {
    if fs.len() <= k {
        Some(Option::None)
    } else if fs[k].len() == 0 {
        Some(Option::None)
    } else {
        match spec_parse_int(fs[k]) {
            None => None,
            Some(v) => Some(Some(v)),
        }
    }
}

/// The parsed form of one face token `v`, `v/vt`, `v//vn` or `v/vt/vn`:
/// the first field is the required vertex index, the second and third the
/// optional texture and normal indices; fields past the third are
/// ignored.
pub open spec fn spec_parse_face(s: Seq<char>) -> Option<FaceInfoRaw> {
    let fs = spec_fields(s, 0);
    match spec_parse_int(fs[0]) {
        None => None,
        Some(v) => match spec_opt_field(fs, 1) {
            None => None,
            Some(t) => match spec_opt_field(fs, 2) {
                None => None,
                Some(nr) => Some(
                    FaceInfoRaw {
                        vertex: v as isize,
                        texture: match t {
                            Option::None => None,
                            Option::Some(tv) => Some(tv as isize),
                        },
                        normal: match nr {
                            Option::None => None,
                            Option::Some(nv) => Some(nv as isize),
                        },
                    },
                ),
            },
        },
    }
}

/// One corner of a face, resolved against the current table sizes; the
/// error carries the raw index that fell outside its table.
pub open spec fn spec_get_indices(f: FaceInfoRaw, nv: int, nt: int, nn: int) -> Result<
    FaceInfo,
    int,
> {
    match spec_get_index(nv, f.vertex as int) {
        None => Err(f.vertex as int),
        Some(v) => {
            let t = match f.texture {
                Option::None => Ok(Option::<int>::None),
                Option::Some(ti) => match spec_get_index(nt, ti as int) {
                    None => Err(ti as int),
                    Some(tv) => Ok(Some(tv)),
                },
            };
            match t {
                Err(e) => Err(e),
                Ok(tv) => {
                    let nrm = match f.normal {
                        Option::None => Ok(Option::<int>::None),
                        Option::Some(ni) => match spec_get_index(nn, ni as int) {
                            None => Err(ni as int),
                            Some(nv2) => Ok(Some(nv2)),
                        },
                    };
                    match nrm {
                        Err(e) => Err(e),
                        Ok(nv2) => Ok(
                            FaceInfo {
                                vertex: v as u32,
                                texture: match tv {
                                    Option::None => None,
                                    Option::Some(x) => Some(x as u32),
                                },
                                normal: match nv2 {
                                    Option::None => None,
                                    Option::Some(x) => Some(x as u32),
                                },
                            },
                        ),
                    }
                },
            }
        },
    }
}

impl FaceInfoRaw {
    /// Two raw corners have the same shape when the presence of their
    /// texture and normal references agrees.
    pub fn same_shape(&self, other: &Self) -> (r: bool)
        ensures
            r == ((self.texture is Some <==> other.texture is Some) && (self.normal is Some
                <==> other.normal is Some)),
    {
        (self.texture.is_some() == other.texture.is_some()) && (self.normal.is_some()
            == other.normal.is_some())
    }

    /// Parses one face token exactly as [`spec_parse_face`] says.
    pub fn parse(s: &str) -> (r: Option<Self>)
        ensures
            r == spec_parse_face(s@),
    {
        let fs = fields_from(s, 0);
        proof {
            assert(fs@.map_values(|t: &str| t@)[0] == fs@[0]@);
        }
        let vertex = match parse_int(fs[0]) {
            None => {
                return None;
            },
            Some(v) => v,
        };
        let ghost gfs = spec_fields(s@, 0);
        let texture: Option<isize> = if fs.len() <= 1 {
            None
        } else {
            proof {
                assert(fs@.map_values(|t: &str| t@)[1] == fs@[1]@);
            }
            if fs[1].is_empty() {
                None
            } else {
                match parse_int(fs[1]) {
                    None => {
                        return None;
                    },
                    Some(t) => Some(t),
                }
            }
        };
        let normal: Option<isize> = if fs.len() <= 2 {
            None
        } else {
            proof {
                assert(fs@.map_values(|t: &str| t@)[2] == fs@[2]@);
            }
            if fs[2].is_empty() {
                None
            } else {
                match parse_int(fs[2]) {
                    None => {
                        return None;
                    },
                    Some(t) => Some(t),
                }
            }
        };
        Some(FaceInfoRaw { vertex, texture, normal })
    }

    /// Resolves the corner against the three current table sizes, exactly
    /// as [`spec_get_indices`] says; an out-of-range reference yields
    /// `IndexOutOfBound` with the raw index.
    pub fn get_indices(
        self,
        vertices_len: usize,
        textures_size: usize,
        normals_size: usize,
    ) -> (r: Result<FaceInfo, ErrorType>)
        ensures
            ({
                let sp = spec_get_indices(
                    self,
                    vertices_len as int,
                    textures_size as int,
                    normals_size as int,
                );
                match r {
                    Ok(f) => sp == Ok::<FaceInfo, int>(f),
                    Err(e) => (sp matches Err(i) && e == ErrorType::IndexOutOfBound(
                        i as isize,
                    )),
                }
            }),
    {
        let vertex = match get_index(vertices_len, self.vertex) {
            Err(e) => {
                return Err(e);
            },
            Ok(v) => v,
        };
        let texture: Option<u32> = match self.texture {
            None => None,
            Some(ti) => match get_index(textures_size, ti) {
                Err(e) => {
                    return Err(e);
                },
                Ok(t) => Some(t),
            },
        };
        let normal: Option<u32> = match self.normal {
            None => None,
            Some(ni) => match get_index(normals_size, ni) {
                Err(e) => {
                    return Err(e);
                },
                Ok(t) => Some(t),
            },
        };
        Ok(FaceInfo { vertex, texture, normal })
    }
}

/// A non-fatal diagnostic raised while parsing.
#[derive(Debug, Clone, PartialEq, Eq)]
pub enum WarningKind {
    /// A `v` line carried a fourth (`w`) field, which is ignored.
    WComponentIgnored,
    /// A recognized directive (`g`, `o`, `mtllib`, `usemtl`) that is not
    /// implemented and has no effect.
    NotImplemented(String),
}

/// A diagnostic with the 0-based number of the line that raised it.
#[derive(Debug, Clone, PartialEq, Eq)]
pub struct Warning {
    pub line_no: usize,
    pub kind: WarningKind,
}

/// The spec-level image of a [`WarningKind`].
pub enum WarnV {
    WComponent,
    NotImplemented(Seq<char>),
}

impl View for WarningKind {
    type V = WarnV;

    open spec fn view(&self) -> WarnV {
        match self {
            WarningKind::WComponentIgnored => WarnV::WComponent,
            WarningKind::NotImplemented(d) => WarnV::NotImplemented(d@),
        }
    }
}

impl View for Warning {
    type V = (int, WarnV);

    open spec fn view(&self) -> (int, WarnV) {
        (self.line_no as int, self.kind@)
    }
}

/// One parsed `v` line: a position, and a color exactly when the line had
/// six fields.
#[derive(Debug, Clone, Copy, PartialEq)]
pub struct VertexData {
    pub position: Vector3,
    pub color: Option<Vector3>,
}

/// The accumulated state of one parse: the attribute tables in file
/// order, the resolved face corners in face order, and the diagnostics.
pub struct ObjData {
    pub positions: Vec<VertexData>,
    pub texcoords: Vec<(Scalar, Scalar)>,
    pub normals: Vec<Vector3>,
    pub refs: Vec<FaceInfo>,
    pub warnings: Vec<Warning>,
}

/// The spec-level image of an [`ObjData`].
#[verifier::ext_equal]
pub struct DataV {
    pub positions: Seq<VertexData>,
    pub texcoords: Seq<(Scalar, Scalar)>,
    pub normals: Seq<Vector3>,
    pub refs: Seq<FaceInfo>,
    pub warnings: Seq<(int, WarnV)>,
}

impl View for ObjData {
    type V = DataV;

    open spec fn view(&self) -> DataV {
        DataV {
            positions: self.positions@,
            texcoords: self.texcoords@,
            normals: self.normals@,
            refs: self.refs@,
            warnings: self.warnings@.map_values(|w: Warning| w@),
        }
    }
}

impl ObjData {
    /// The empty state, before any line.
    pub fn new() -> (r: Self)
        ensures
            r@.positions.len() == 0,
            r@.texcoords.len() == 0,
            r@.normals.len() == 0,
            r@.refs.len() == 0,
            r@.warnings.len() == 0,
    {
        let r = ObjData {
            positions: Vec::new(),
            texcoords: Vec::new(),
            normals: Vec::new(),
            refs: Vec::new(),
            warnings: Vec::new(),
        };
        proof {
            assert(r@.warnings =~= Seq::<(int, WarnV)>::empty());
        }
        r
    }
}

/// The fields of the token list parsed as numbers, or the position of the
/// first field that fails.
pub open spec fn spec_parse_floats(ts: Seq<Seq<char>>, k: int) -> Result<Seq<Scalar>, int>
    decreases ts.len() - k,
    when 0 <= k <= ts.len()
{
    if k >= ts.len() {
        Ok(Seq::empty())
    } else {
        match spec_parse_scalar(ts[k]) {
            None => Err(k),
            Some(v) => match spec_parse_floats(ts, k + 1) {
                Err(e) => Err(e),
                Ok(rest) => Ok(seq![v] + rest),
            },
        }
    }
}

/// The tokens parsed as face corners, or the position of the first that
/// fails.
pub open spec fn spec_face_tokens(ts: Seq<Seq<char>>, k: int) -> Result<Seq<FaceInfoRaw>, int>
    decreases ts.len() - k,
    when 0 <= k <= ts.len()
{
    if k >= ts.len() {
        Ok(Seq::empty())
    } else {
        match spec_parse_face(ts[k]) {
            None => Err(k),
            Some(f) => match spec_face_tokens(ts, k + 1) {
                Err(e) => Err(e),
                Ok(rest) => Ok(seq![f] + rest),
            },
        }
    }
}

/// Two raw corners share the same attribute shape.
pub open spec fn shape_eq(a: FaceInfoRaw, b: FaceInfoRaw) -> bool {
    (a.texture is Some <==> b.texture is Some) && (a.normal is Some <==> b.normal is Some)
}

/// The first position at or after `k` whose corner differs in shape from
/// the first corner, if any.
pub open spec fn spec_shape_bad(raws: Seq<FaceInfoRaw>, k: int) -> Option<int>
    decreases raws.len() - k,
    when 0 <= k <= raws.len()
{
    if k >= raws.len() {
        None
    } else if !shape_eq(raws[k], raws[0]) {
        Some(k)
    } else {
        spec_shape_bad(raws, k + 1)
    }
}

/// The corners resolved against the current table sizes, or the first raw
/// index that falls outside its table.
pub open spec fn spec_resolve(
    raws: Seq<FaceInfoRaw>,
    k: int,
    nv: int,
    nt: int,
    nn: int,
) -> Result<Seq<FaceInfo>, int>
    decreases raws.len() - k,
    when 0 <= k <= raws.len()
{
    if k >= raws.len() {
        Ok(Seq::empty())
    } else {
        match spec_get_indices(raws[k], nv, nt, nn) {
            Err(i) => Err(i),
            Ok(f) => match spec_resolve(raws, k + 1, nv, nt, nn) {
                Err(e) => Err(e),
                Ok(rest) => Ok(seq![f] + rest),
            },
        }
    }
}

/// What a `v` line does to the state: three fields append a position,
/// four do the same and warn about the ignored `w`, six append a position
/// with a color; any other count is an error, as is any unparsable field.
pub open spec fn spec_v_line(d: DataV, rest: Seq<char>, line_no: int) -> Result<DataV, ErrSpec> {
    let ts = spec_tokens(rest, 0);
    match spec_parse_floats(ts, 0) {
        Err(i) => Err(ErrSpec::InvalidParameter(i)),
        Ok(vals) => if vals.len() == 3 {
            Ok(DataV {
                positions: d.positions + seq![VertexData {
                    position: Vector3 { x: vals[0], y: vals[1], z: vals[2] },
                    color: None,
                }],
                texcoords: d.texcoords,
                normals: d.normals,
                refs: d.refs,
                warnings: d.warnings,
            })
        } else if vals.len() == 4 {
            Ok(DataV {
                positions: d.positions + seq![VertexData {
                    position: Vector3 { x: vals[0], y: vals[1], z: vals[2] },
                    color: None,
                }],
                texcoords: d.texcoords,
                normals: d.normals,
                refs: d.refs,
                warnings: d.warnings + seq![(line_no, WarnV::WComponent)],
            })
        } else if vals.len() == 6 {
            Ok(DataV {
                positions: d.positions + seq![VertexData {
                    position: Vector3 { x: vals[0], y: vals[1], z: vals[2] },
                    color: Some(Vector3 { x: vals[3], y: vals[4], z: vals[5] }),
                }],
                texcoords: d.texcoords,
                normals: d.normals,
                refs: d.refs,
                warnings: d.warnings,
            })
        } else {
            Err(ErrSpec::InvalidParameterNumber)
        },
    }
}

/// What a `vt` line does to the state: exactly two numeric fields append
/// one texture coordinate pair.
pub open spec fn spec_vt_line(d: DataV, rest: Seq<char>) -> Result<DataV, ErrSpec> {
    let ts = spec_tokens(rest, 0);
    match spec_parse_floats(ts, 0) {
        Err(i) => Err(ErrSpec::InvalidParameter(i)),
        Ok(vals) => if vals.len() == 2 {
            Ok(DataV {
                positions: d.positions,
                texcoords: d.texcoords + seq![(vals[0], vals[1])],
                normals: d.normals,
                refs: d.refs,
                warnings: d.warnings,
            })
        } else {
            Err(ErrSpec::InvalidParameterNumber)
        },
    }
}

/// What a `vn` line does to the state: exactly three numeric fields
/// append one normal (not further validated for unit length).
pub open spec fn spec_vn_line(d: DataV, rest: Seq<char>) -> Result<DataV, ErrSpec> {
    let ts = spec_tokens(rest, 0);
    match spec_parse_floats(ts, 0) {
        Err(i) => Err(ErrSpec::InvalidParameter(i)),
        Ok(vals) => if vals.len() == 3 {
            Ok(DataV {
                positions: d.positions,
                texcoords: d.texcoords,
                normals: d.normals + seq![Vector3 { x: vals[0], y: vals[1], z: vals[2] }],
                refs: d.refs,
                warnings: d.warnings,
            })
        } else {
            Err(ErrSpec::InvalidParameterNumber)
        },
    }
}

/// What an `f` line does to the state: every token parsed as a corner,
/// all shapes equal to the first, every corner resolved against the
/// current tables, at least three corners, and the fan triangulation of
/// the corner list appended to the reference list.
pub open spec fn spec_f_line(d: DataV, rest: Seq<char>) -> Result<DataV, ErrSpec> {
    let ts = spec_tokens(rest, 0);
    match spec_face_tokens(ts, 0) {
        Err(i) => Err(ErrSpec::InvalidParameter(i)),
        Ok(raws) => match spec_shape_bad(raws, 0) {
            Some(i) => Err(ErrSpec::InvalidParameter(i)),
            None => match spec_resolve(
                raws,
                0,
                d.positions.len() as int,
                d.texcoords.len() as int,
                d.normals.len() as int,
            ) {
                Err(i) => Err(ErrSpec::IndexOutOfBound(i)),
                Ok(faces) => if faces.len() < 3 {
                    Err(ErrSpec::InvalidParameterNumber)
                } else {
                    Ok(DataV {
                        positions: d.positions,
                        texcoords: d.texcoords,
                        normals: d.normals,
                        refs: d.refs + spec_fan(faces),
                        warnings: d.warnings,
                    })
                },
            },
        },
    }
}

/// What an `s` line does: exactly one argument; `off` has no effect, `on`
/// is unsupported, anything else is an invalid entry carrying the whole
/// line.
pub open spec fn spec_s_line(d: DataV, rest: Seq<char>, line: Seq<char>) -> Result<
    DataV,
    ErrSpec,
> {
    let ts = spec_tokens(rest, 0);
    if ts.len() != 1 {
        Err(ErrSpec::InvalidParameterNumber)
    } else if ts[0] == seq!['o', 'f', 'f'] {
        Ok(d)
    } else if ts[0] == seq!['o', 'n'] {
        Err(ErrSpec::Unsupported(seq!['s', ' ', 'o', 'n']))
    } else {
        Err(ErrSpec::InvalidEntry(line))
    }
}

/// A recognized-but-unsupported geometry directive.
pub open spec fn is_unsupported_kw(dir: Seq<char>) -> bool {
    dir == seq!['p'] || dir == seq!['l'] || dir == seq!['c', 'u', 'r', 'v'] || dir == seq![
        'c',
        'u',
        'r',
        'v',
        '2',
        'D',
    ] || dir == seq!['s', 'u', 'r', 'f'] || dir == seq!['m', 'g'] || dir == seq![
        'p',
        'a',
        'r',
        'm',
    ] || dir == seq!['t', 'r', 'i', 'm'] || dir == seq!['h', 'o', 'l', 'e'] || dir == seq![
        's',
        'c',
        'r',
        'v',
    ] || dir == seq!['s', 'p'] || dir == seq!['e', 'n', 'd'] || dir == seq!['c', 'o', 'n']
}

/// A directive that is recognized but not implemented: it only warns.
pub open spec fn is_warn_kw(dir: Seq<char>) -> bool {
    dir == seq!['g'] || dir == seq!['o'] || dir == seq!['m', 't', 'l', 'l', 'i', 'b'] || dir
        == seq!['u', 's', 'e', 'm', 't', 'l']
}

/// What one line does to the state: comments and blank lines are skipped;
/// otherwise the word before the first space dispatches, and a line
/// without a space is invalid.
pub open spec fn spec_step(d: DataV, line: Seq<char>, line_no: int) -> Result<DataV, ErrSpec> {
    if line.len() > 0 && line[0] == '#' {
        Ok(d)
    } else if line.len() == 0 {
        Ok(d)
    } else {
        let sp = find_char(line, ' ', 0);
        if sp >= line.len() {
            Err(ErrSpec::InvalidLine)
        } else {
            let dir = line.subrange(0, sp);
            let rest = line.subrange(sp + 1, line.len() as int);
            if dir == seq!['v'] {
                spec_v_line(d, rest, line_no)
            } else if dir == seq!['v', 't'] {
                spec_vt_line(d, rest)
            } else if dir == seq!['v', 'n'] {
                spec_vn_line(d, rest)
            } else if dir == seq!['f'] {
                spec_f_line(d, rest)
            } else if is_warn_kw(dir) {
                Ok(DataV {
                    positions: d.positions,
                    texcoords: d.texcoords,
                    normals: d.normals,
                    refs: d.refs,
                    warnings: d.warnings + seq![(line_no, WarnV::NotImplemented(dir))],
                })
            } else if dir == seq!['s'] {
                spec_s_line(d, rest, line)
            } else if is_unsupported_kw(dir) {
                Err(ErrSpec::Unsupported(dir))
            } else {
                Err(ErrSpec::InvalidEntry(dir))
            }
        }
    }
}

/// Exec equality of a string with a one-character keyword.
fn is_kw1(s: &str, c0: char) -> (r: bool)
    ensures
        r == (s@ == seq![c0]),
{
    let n = s.unicode_len();
    if n != 1 {
        false
    } else {
        let r = s.get_char(0) == c0;
        proof {
            if r {
                assert(s@ =~= seq![c0]);
            }
        }
        r
    }
}

/// Exec equality of a string with a two-character keyword.
fn is_kw2(s: &str, c0: char, c1: char) -> (r: bool)
    ensures
        r == (s@ == seq![c0, c1]),
{
    let n = s.unicode_len();
    if n != 2 {
        false
    } else {
        let r = s.get_char(0) == c0 && s.get_char(1) == c1;
        proof {
            if r {
                assert(s@ =~= seq![c0, c1]);
            }
        }
        r
    }
}

/// Exec equality of a string with a three-character keyword.
fn is_kw3(s: &str, c0: char, c1: char, c2: char) -> (r: bool)
    ensures
        r == (s@ == seq![c0, c1, c2]),
{
    let n = s.unicode_len();
    if n != 3 {
        false
    } else {
        let r = s.get_char(0) == c0 && s.get_char(1) == c1 && s.get_char(2) == c2;
        proof {
            if r {
                assert(s@ =~= seq![c0, c1, c2]);
            }
        }
        r
    }
}

/// Exec equality of a string with a four-character keyword.
fn is_kw4(s: &str, c0: char, c1: char, c2: char, c3: char) -> (r: bool)
    ensures
        r == (s@ == seq![c0, c1, c2, c3]),
{
    let n = s.unicode_len();
    if n != 4 {
        false
    } else {
        let r = s.get_char(0) == c0 && s.get_char(1) == c1 && s.get_char(2) == c2
            && s.get_char(3) == c3;
        proof {
            if r {
                assert(s@ =~= seq![c0, c1, c2, c3]);
            }
        }
        r
    }
}

/// Exec equality of a string with a six-character keyword.
fn is_kw6(s: &str, c0: char, c1: char, c2: char, c3: char, c4: char, c5: char) -> (r: bool)
    ensures
        r == (s@ == seq![c0, c1, c2, c3, c4, c5]),
{
    let n = s.unicode_len();
    if n != 6 {
        false
    } else {
        let r = s.get_char(0) == c0 && s.get_char(1) == c1 && s.get_char(2) == c2
            && s.get_char(3) == c3 && s.get_char(4) == c4 && s.get_char(5) == c5;
        proof {
            if r {
                assert(s@ =~= seq![c0, c1, c2, c3, c4, c5]);
            }
        }
        r
    }
}

/// Parses every token as a number, exactly as [`spec_parse_floats`] says.
fn parse_floats_from(ts: &Vec<&str>, k: usize) -> (r: Result<Vec<Scalar>, usize>)
    requires
        k <= ts@.len(),
    ensures
        ({
            let m = ts@.map_values(|t: &str| t@);
            match r {
                Ok(vals) => spec_parse_floats(m, k as int) == Ok::<Seq<Scalar>, int>(vals@)
                    && forall|j: int|
                        0 <= j < vals@.len() ==> (#[trigger] vals@[j]).bounded(
                            INPUT_LIMIT as int,
                        ),
                Err(i) => spec_parse_floats(m, k as int) == Err::<Seq<Scalar>, int>(i as int),
            }
        }),
    decreases ts@.len() - k,
{
    let ghost m = ts@.map_values(|t: &str| t@);
    if k >= ts.len() {
        let r: Vec<Scalar> = Vec::new();
        proof {
            assert(r@ =~= Seq::<Scalar>::empty());
        }
        Ok(r)
    } else {
        proof {
            assert(m[k as int] == ts@[k as int]@);
        }
        match parse_scalar(ts[k]) {
            None => Err(k),
            Some(v) => match parse_floats_from(ts, k + 1) {
                Err(e) => Err(e),
                Ok(mut rest) => {
                    let mut out: Vec<Scalar> = Vec::new();
                    out.push(v);
                    out.append(&mut rest);
                    proof {
                        assert(out@ =~= seq![v] + spec_parse_floats(m, k as int + 1)->Ok_0);
                    }
                    Ok(out)
                },
            },
        }
    }
}

/// Parses every token as a face corner, exactly as [`spec_face_tokens`]
/// says.
fn face_tokens_from(ts: &Vec<&str>, k: usize) -> (r: Result<Vec<FaceInfoRaw>, usize>)
    requires
        k <= ts@.len(),
    ensures
        ({
            let m = ts@.map_values(|t: &str| t@);
            match r {
                Ok(raws) => spec_face_tokens(m, k as int) == Ok::<Seq<FaceInfoRaw>, int>(
                    raws@,
                ) && raws@.len() == ts@.len() - k,
                Err(i) => spec_face_tokens(m, k as int) == Err::<Seq<FaceInfoRaw>, int>(
                    i as int,
                ),
            }
        }),
    decreases ts@.len() - k,
{
    let ghost m = ts@.map_values(|t: &str| t@);
    if k >= ts.len() {
        let r: Vec<FaceInfoRaw> = Vec::new();
        proof {
            assert(r@ =~= Seq::<FaceInfoRaw>::empty());
        }
        Ok(r)
    } else {
        proof {
            assert(m[k as int] == ts@[k as int]@);
        }
        match FaceInfoRaw::parse(ts[k]) {
            None => Err(k),
            Some(f) => match face_tokens_from(ts, k + 1) {
                Err(e) => Err(e),
                Ok(mut rest) => {
                    let mut out: Vec<FaceInfoRaw> = Vec::new();
                    out.push(f);
                    out.append(&mut rest);
                    proof {
                        assert(out@ =~= seq![f] + spec_face_tokens(m, k as int + 1)->Ok_0);
                    }
                    Ok(out)
                },
            },
        }
    }
}

/// Finds the first corner whose shape differs from the first corner's,
/// exactly as [`spec_shape_bad`] says.
fn shape_bad(raws: &Vec<FaceInfoRaw>) -> (r: Option<usize>)
    requires
        raws@.len() > 0,
    ensures
        match r {
            Some(i) => spec_shape_bad(raws@, 0) == Some(i as int),
            None => spec_shape_bad(raws@, 0) is None,
        },
{
    let first = raws[0];
    let mut k: usize = 0;
    let n = raws.len();
    while k < n
        invariant
            k <= n,
            n == raws@.len(),
            n > 0,
            first == raws@[0],
            spec_shape_bad(raws@, 0) == spec_shape_bad(raws@, k as int),
        decreases n - k,
    {
        if !raws[k].same_shape(&first) {
            return Some(k);
        }
        k = k + 1;
    }
    None
}

/// Resolves every corner, exactly as [`spec_resolve`] says; the error is
/// `IndexOutOfBound` with the first raw index outside its table.
fn resolve_from(
    raws: &Vec<FaceInfoRaw>,
    k: usize,
    nv: usize,
    nt: usize,
    nn: usize,
) -> (r: Result<Vec<FaceInfo>, ErrorType>)
    requires
        k <= raws@.len(),
    ensures
        ({
            let sp = spec_resolve(raws@, k as int, nv as int, nt as int, nn as int);
            match r {
                Ok(faces) => sp == Ok::<Seq<FaceInfo>, int>(faces@) && faces@.len()
                    == raws@.len() - k && forall|j: int|
                        0 <= j < faces@.len() ==> ref_valid(
                            #[trigger] faces@[j],
                            nv as int,
                            nt as int,
                        ),
                Err(e) => (sp matches Err(i) && e == ErrorType::IndexOutOfBound(i as isize)),
            }
        }),
    decreases raws@.len() - k,
{
    if k >= raws.len() {
        let r: Vec<FaceInfo> = Vec::new();
        proof {
            assert(r@ =~= Seq::<FaceInfo>::empty());
        }
        Ok(r)
    } else {
        match raws[k].get_indices(nv, nt, nn) {
            Err(e) => Err(e),
            Ok(f) => match resolve_from(raws, k + 1, nv, nt, nn) {
                Err(e) => Err(e),
                Ok(mut rest) => {
                    let mut out: Vec<FaceInfo> = Vec::new();
                    out.push(f);
                    out.append(&mut rest);
                    proof {
                        assert(out@ =~= seq![f] + spec_resolve(
                            raws@,
                            k as int + 1,
                            nv as int,
                            nt as int,
                            nn as int,
                        )->Ok_0);
                    }
                    Ok(out)
                },
            },
        }
    }
}

/// A resolution error always carries one of the raw token indices, so it
/// fits the signed machine width it came from.
proof fn lemma_resolve_err_range(raws: Seq<FaceInfoRaw>, k: int, nv: int, nt: int, nn: int)
    requires
        0 <= k <= raws.len(),
    ensures
        spec_resolve(raws, k, nv, nt, nn) matches Err(i) ==> isize::MIN <= i <= isize::MAX,
    decreases raws.len() - k,
{
    if k < raws.len() {
        lemma_resolve_err_range(raws, k + 1, nv, nt, nn);
    }
}

/// Applies a `v` line, exactly as [`spec_v_line`] says.
fn v_line(d: ObjData, rest: &str, line_no: usize) -> (r: Result<ObjData, ErrorType>)
    ensures
        ({
            let sp = spec_v_line(d@, rest@, line_no as int);
            match r {
                Ok(nd) => sp == Ok::<DataV, ErrSpec>(nd@) && nd@.refs == d@.refs && (data_ok(
                    d@,
                ) ==> data_ok(nd@)) && nd@.texcoords == d@.texcoords,
                Err(e) => (sp matches Err(k) && err_matches(e, k)),
            }
        }),
{
    let ts = tokens_from(rest, 0);
    let vals = match parse_floats_from(&ts, 0) {
        Err(i) => {
            return Err(ErrorType::InvalidParameter(i));
        },
        Ok(v) => v,
    };
    let mut nd = d;
    if vals.len() == 3 {
        let position = Vector3::from_iterator(&vals, 0);
        nd.positions.push(VertexData { position, color: None });
        proof {
            assert(nd@ =~= spec_v_line(d@, rest@, line_no as int)->Ok_0);
        }
        Ok(nd)
    } else if vals.len() == 4 {
        let position = Vector3::from_iterator(&vals, 0);
        nd.positions.push(VertexData { position, color: None });
        nd.warnings.push(Warning { line_no, kind: WarningKind::WComponentIgnored });
        proof {
            assert(nd@.warnings =~= d@.warnings + seq![(line_no as int, WarnV::WComponent)]);
            assert(nd@ =~= spec_v_line(d@, rest@, line_no as int)->Ok_0);
        }
        Ok(nd)
    } else if vals.len() == 6 {
        let position = Vector3::from_iterator(&vals, 0);
        let color = Vector3::from_iterator(&vals, 3);
        nd.positions.push(VertexData { position, color: Some(color) });
        proof {
            assert(nd@ =~= spec_v_line(d@, rest@, line_no as int)->Ok_0);
        }
        Ok(nd)
    } else {
        Err(ErrorType::InvalidParameterNumber)
    }
}

/// Applies a `vt` line, exactly as [`spec_vt_line`] says.
fn vt_line(d: ObjData, rest: &str) -> (r: Result<ObjData, ErrorType>)
    ensures
        ({
            let sp = spec_vt_line(d@, rest@);
            match r {
                Ok(nd) => sp == Ok::<DataV, ErrSpec>(nd@) && nd@.refs == d@.refs && (data_ok(
                    d@,
                ) ==> data_ok(nd@)) && nd@.positions == d@.positions,
                Err(e) => (sp matches Err(k) && err_matches(e, k)),
            }
        }),
{
    let ts = tokens_from(rest, 0);
    let vals = match parse_floats_from(&ts, 0) {
        Err(i) => {
            return Err(ErrorType::InvalidParameter(i));
        },
        Ok(v) => v,
    };
    if vals.len() == 2 {
        let mut nd = d;
        nd.texcoords.push((vals[0], vals[1]));
        proof {
            assert(nd@ =~= spec_vt_line(d@, rest@)->Ok_0);
        }
        Ok(nd)
    } else {
        Err(ErrorType::InvalidParameterNumber)
    }
}

/// Applies a `vn` line, exactly as [`spec_vn_line`] says.
fn vn_line(d: ObjData, rest: &str) -> (r: Result<ObjData, ErrorType>)
    ensures
        ({
            let sp = spec_vn_line(d@, rest@);
            match r {
                Ok(nd) => sp == Ok::<DataV, ErrSpec>(nd@) && nd@.refs == d@.refs && (data_ok(
                    d@,
                ) ==> data_ok(nd@)) && nd@.positions == d@.positions && nd@.texcoords
                    == d@.texcoords,
                Err(e) => (sp matches Err(k) && err_matches(e, k)),
            }
        }),
{
    let ts = tokens_from(rest, 0);
    let vals = match parse_floats_from(&ts, 0) {
        Err(i) => {
            return Err(ErrorType::InvalidParameter(i));
        },
        Ok(v) => v,
    };
    if vals.len() == 3 {
        let normal = Vector3::from_iterator(&vals, 0);
        let mut nd = d;
        nd.normals.push(normal);
        proof {
            assert(nd@ =~= spec_vn_line(d@, rest@)->Ok_0);
        }
        Ok(nd)
    } else {
        Err(ErrorType::InvalidParameterNumber)
    }
}

/// Applies an `f` line, exactly as [`spec_f_line`] says.
fn f_line(d: ObjData, rest: &str) -> (r: Result<ObjData, ErrorType>)
    ensures
        ({
            let sp = spec_f_line(d@, rest@);
            match r {
                Ok(nd) => sp == Ok::<DataV, ErrSpec>(nd@) && (data_ok(d@) ==> data_ok(nd@))
                    && nd@.positions == d@.positions && nd@.texcoords == d@.texcoords
                    && nd@.refs.len() <= d@.refs.len() + 3 * rest@.len() && (nd@.refs.len()
                    - d@.refs.len()) % 3 == 0,
                Err(e) => (sp matches Err(k) && err_matches(e, k)),
            }
        }),
{
    let ts = tokens_from(rest, 0);
    let raws = match face_tokens_from(&ts, 0) {
        Err(i) => {
            return Err(ErrorType::InvalidParameter(i));
        },
        Ok(v) => v,
    };
    if raws.len() > 0 {
        match shape_bad(&raws) {
            Some(i) => {
                return Err(ErrorType::InvalidParameter(i));
            },
            None => {},
        }
    }
    let faces = match resolve_from(
        &raws,
        0,
        d.positions.len(),
        d.texcoords.len(),
        d.normals.len(),
    ) {
        Err(e) => {
            proof {
                lemma_resolve_err_range(
                    raws@,
                    0,
                    d@.positions.len() as int,
                    d@.texcoords.len() as int,
                    d@.normals.len() as int,
                );
            }
            return Err(e);
        },
        Ok(f) => f,
    };
    if faces.len() < 3 {
        return Err(ErrorType::InvalidParameterNumber);
    }
    let ghost gf = faces@;
    proof {
        lemma_tokens_count(rest@, 0);
        assert(gf.len() <= rest@.len());
        assert(spec_fan(gf).len() == 3 * (gf.len() - 2));
        assert((3 * (gf.len() - 2)) % 3 == 0) by (nonlinear_arith);
    }
    let mut nd = d;
    if faces.len() == 3 {
        proof {
            assert(spec_fan(gf) =~= gf);
        }
        let mut tail = faces;
        nd.refs.append(&mut tail);
        proof {
            assert(nd@ =~= spec_f_line(d@, rest@)->Ok_0);
            lemma_f_refs_ok(d@, nd@, gf, gf);
        }
        Ok(nd)
    } else {
        let mut tri = fan_triangulation(faces);
        let ghost gtri = tri@;
        nd.refs.append(&mut tri);
        proof {
            assert(nd@ =~= spec_f_line(d@, rest@)->Ok_0);
            lemma_f_refs_ok(d@, nd@, gf, gtri);
        }
        Ok(nd)
    }
}

/// Appending resolved (hence valid) corners keeps the state consistent.
proof fn lemma_f_refs_ok(d: DataV, nd: DataV, faces: Seq<FaceInfo>, tri: Seq<FaceInfo>)
    requires
        nd.positions == d.positions,
        nd.texcoords == d.texcoords,
        nd.refs == d.refs + tri,
        forall|j: int|
            0 <= j < faces.len() ==> ref_valid(
                #[trigger] faces[j],
                d.positions.len() as int,
                d.texcoords.len() as int,
            ),
        forall|i: int| 0 <= i < tri.len() ==> faces.contains(#[trigger] tri[i]),
    ensures
        data_ok(d) ==> data_ok(nd),
{
    if data_ok(d) {
        assert forall|i: int| 0 <= i < nd.refs.len() implies ref_valid(
            #[trigger] nd.refs[i],
            nd.positions.len() as int,
            nd.texcoords.len() as int,
        ) by {
            if i < d.refs.len() {
                assert(nd.refs[i] == d.refs[i]);
            } else {
                assert(nd.refs[i] == tri[i - d.refs.len()]);
                let j = choose|j: int| 0 <= j < faces.len() && faces[j] == tri[i
                    - d.refs.len()];
                assert(ref_valid(
                    faces[j],
                    d.positions.len() as int,
                    d.texcoords.len() as int,
                ));
            }
        }
    }
}

/// Applies an `s` line, exactly as [`spec_s_line`] says.
fn s_line(d: ObjData, rest: &str, line: &str) -> (r: Result<ObjData, ErrorType>)
    ensures
        ({
            let sp = spec_s_line(d@, rest@, line@);
            match r {
                Ok(nd) => sp == Ok::<DataV, ErrSpec>(nd@) && nd@ == d@,
                Err(e) => (sp matches Err(k) && err_matches(e, k)),
            }
        }),
{
    let ts = tokens_from(rest, 0);
    if ts.len() != 1 {
        return Err(ErrorType::InvalidParameterNumber);
    }
    proof {
        assert(ts@.map_values(|t: &str| t@)[0] == ts@[0]@);
    }
    if is_kw3(ts[0], 'o', 'f', 'f') {
        Ok(d)
    } else if is_kw2(ts[0], 'o', 'n') {
        proof {
            reveal_strlit("s on");
            assert("s on"@ =~= seq!['s', ' ', 'o', 'n']);
        }
        Err(ErrorType::Unsupported("s on".to_owned()))
    } else {
        Err(ErrorType::InvalidEntry(line.to_owned()))
    }
}

/// Applies one line to the state, exactly as [`spec_step`] says.
fn apply_line(d: ObjData, line: &str, line_no: usize) -> (r: Result<ObjData, ErrorType>)
    ensures
        ({
            let sp = spec_step(d@, line@, line_no as int);
            match r {
                Ok(nd) => sp == Ok::<DataV, ErrSpec>(nd@) && (data_ok(d@) ==> data_ok(nd@))
                    && nd@.refs.len() <= d@.refs.len() + 3 * line@.len() && (nd@.refs.len()
                    - d@.refs.len()) % 3 == 0,
                Err(e) => (sp matches Err(k) && err_matches(e, k)),
            }
        }),
{
    let n = line.unicode_len();
    if n > 0 {
        if line.get_char(0) == '#' {
            return Ok(d);
        }
    }
    if n == 0 {
        return Ok(d);
    }
    let sp = find_char_at(line, ' ', 0);
    proof {
        lemma_find_char(line@, ' ', 0);
    }
    if sp >= n {
        return Err(ErrorType::InvalidLine);
    }
    let dir = line.substring_char(0, sp);
    let rest = line.substring_char(sp + 1, n);
    if is_kw1(dir, 'v') {
        v_line(d, rest, line_no)
    } else if is_kw2(dir, 'v', 't') {
        vt_line(d, rest)
    } else if is_kw2(dir, 'v', 'n') {
        vn_line(d, rest)
    } else if is_kw1(dir, 'f') {
        f_line(d, rest)
    } else if is_kw1(dir, 'g') || is_kw1(dir, 'o') || is_kw6(dir, 'm', 't', 'l', 'l', 'i', 'b')
        || is_kw6(dir, 'u', 's', 'e', 'm', 't', 'l') {
        let mut nd = d;
        nd.warnings.push(Warning { line_no, kind: WarningKind::NotImplemented(dir.to_owned()) });
        proof {
            assert(nd@.warnings =~= d@.warnings + seq![
                (line_no as int, WarnV::NotImplemented(dir@)),
            ]);
            assert(nd@ =~= spec_step(d@, line@, line_no as int)->Ok_0);
        }
        Ok(nd)
    } else if is_kw1(dir, 's') {
        s_line(d, rest, line)
    } else if is_kw1(dir, 'p') || is_kw1(dir, 'l') || is_kw4(dir, 'c', 'u', 'r', 'v')
        || is_kw6(dir, 'c', 'u', 'r', 'v', '2', 'D') || is_kw4(dir, 's', 'u', 'r', 'f')
        || is_kw2(dir, 'm', 'g') || is_kw4(dir, 'p', 'a', 'r', 'm')
        || is_kw4(dir, 't', 'r', 'i', 'm') || is_kw4(dir, 'h', 'o', 'l', 'e')
        || is_kw4(dir, 's', 'c', 'r', 'v') || is_kw2(dir, 's', 'p')
        || is_kw3(dir, 'e', 'n', 'd') || is_kw3(dir, 'c', 'o', 'n') {
        Err(ErrorType::Unsupported(dir.to_owned()))
    } else {
        Err(ErrorType::InvalidEntry(dir.to_owned()))
    }
}

/// One output vertex: a re-centered position, a color (zero-filled when
/// the `v` line had none) and texture coordinates.
#[derive(Debug, Clone, Copy, PartialEq)]
pub struct Vertex {
    pub position: Vector3,
    pub color: Vector3,
    pub texture_coordinates: (Scalar, Scalar),
}

/// The finished mesh: a deduplicated vertex array and a flattened
/// triangle index list (every index valid, length divisible by three).
#[derive(Debug, Clone, PartialEq)]
pub struct Model {
    pub vertices: Vec<Vertex>,
    pub indices: Vec<u32>,
}

/// The smaller of two raw values, as [`Scalar::min`] picks it.
pub open spec fn min2(a: int, b: int) -> int {
    if a <= b {
        a
    } else {
        b
    }
}

/// The larger of two raw values, as [`Scalar::max`] picks it.
pub open spec fn max2(a: int, b: int) -> int {
    if a >= b {
        a
    } else {
        b
    }
}

/// Component-wise minimum of all recorded positions, folded left over the
/// table; the zero vector for an empty table.
pub open spec fn spec_min_pos(ps: Seq<VertexData>) -> (int, int, int)
    decreases ps.len(),
{
    if ps.len() == 0 {
        (0, 0, 0)
    } else if ps.len() == 1 {
        (ps[0].position.x.raw as int, ps[0].position.y.raw as int, ps[0].position.z.raw as int)
    } else {
        let rest = spec_min_pos(ps.drop_last());
        let l = ps.last().position;
        (min2(rest.0, l.x.raw as int), min2(rest.1, l.y.raw as int), min2(rest.2, l.z.raw as int))
    }
}

/// Component-wise maximum of all recorded positions, folded left.
pub open spec fn spec_max_pos(ps: Seq<VertexData>) -> (int, int, int)
    decreases ps.len(),
{
    if ps.len() == 0 {
        (0, 0, 0)
    } else if ps.len() == 1 {
        (ps[0].position.x.raw as int, ps[0].position.y.raw as int, ps[0].position.z.raw as int)
    } else {
        let rest = spec_max_pos(ps.drop_last());
        let l = ps.last().position;
        (max2(rest.0, l.x.raw as int), max2(rest.1, l.y.raw as int), max2(rest.2, l.z.raw as int))
    }
}

/// One component of the bounding-box midpoint: half the sum of the
/// extremes, at the fixed-point scale.
pub open spec fn spec_center1(mn: int, mx: int) -> int {
    scaled_div(mn + mx, 2 * (SCALE as int))
}

/// The distinct corners of the reference list, in first-seen order.
pub open spec fn spec_firsts(refs: Seq<FaceInfo>) -> Seq<FaceInfo>
    decreases refs.len(),
{
    if refs.len() == 0 {
        Seq::empty()
    } else {
        let prior = spec_firsts(refs.drop_last());
        if prior.contains(refs.last()) {
            prior
        } else {
            prior + seq![refs.last()]
        }
    }
}

/// The first index of `x` in `s` (the length when absent).
pub open spec fn spec_index_of(s: Seq<FaceInfo>, x: FaceInfo) -> int
    decreases s.len(),
{
    if s.len() == 0 {
        0
    } else if s[0] == x {
        0
    } else {
        1 + spec_index_of(s.subrange(1, s.len() as int), x)
    }
}

/// [`spec_index_of`] of a contained element points at it.
pub proof fn lemma_index_of_contained(s: Seq<FaceInfo>, x: FaceInfo)
    requires
        s.contains(x),
    ensures
        0 <= spec_index_of(s, x) < s.len(),
        s[spec_index_of(s, x)] == x,
    decreases s.len(),
{
    if s.len() > 0 && s[0] != x {
        let t = s.subrange(1, s.len() as int);
        assert(t.contains(x)) by {
            let i = choose|i: int| 0 <= i < s.len() && s[i] == x;
            assert(t[i - 1] == x);
        }
        lemma_index_of_contained(t, x);
    }
}

/// Appending on the right does not change the index of a contained
/// element.
pub proof fn lemma_index_of_append(s: Seq<FaceInfo>, t: Seq<FaceInfo>, x: FaceInfo)
    requires
        s.contains(x),
    ensures
        spec_index_of(s + t, x) == spec_index_of(s, x),
    decreases s.len(),
{
    if s.len() > 0 {
        if s[0] == x {
            assert((s + t)[0] == x);
        } else {
            let s1 = s.subrange(1, s.len() as int);
            assert(s1.contains(x)) by {
                let i = choose|i: int| 0 <= i < s.len() && s[i] == x;
                assert(s1[i - 1] == x);
            }
            lemma_index_of_append(s1, t, x);
            assert((s + t).subrange(1, (s + t).len() as int) =~= s1 + t);
            assert((s + t)[0] == s[0]);
        }
    }
}

/// The index of a fresh element appended on the right is the old length.
pub proof fn lemma_index_of_push(s: Seq<FaceInfo>, x: FaceInfo)
    requires
        !s.contains(x),
    ensures
        spec_index_of(s + seq![x], x) == s.len(),
    decreases s.len(),
{
    if s.len() == 0 {
        assert((s + seq![x])[0] == x);
    } else {
        assert(s[0] != x);
        assert((s + seq![x])[0] == s[0]);
        let s1 = s.subrange(1, s.len() as int);
        assert(!s1.contains(x)) by {
            if s1.contains(x) {
                let i = choose|i: int| 0 <= i < s1.len() && s1[i] == x;
                assert(s[i + 1] == x);
            }
        }
        lemma_index_of_push(s1, x);
        assert((s + seq![x]).subrange(1, (s + seq![x]).len() as int) =~= s1 + seq![x]);
    }
}

/// The synthesized texture coordinates of a corner without a texture
/// reference, when the file has no `vt` records at all: an angle-plus-
/// radius projection of the position to the horizontal plane.  The ratio
/// fed to the arccosine is clamped to `[-1, 1]`, and a zero planar norm
/// takes the ratio as zero; this heuristic is deterministic and is kept
/// as it is, not a correct cylindrical unwrap.
pub open spec fn spec_synth_uv(p: Vector3, cx: int, cz: int, min_y: int) -> (Scalar, Scalar) {
    let px = p.x.raw as int;
    let py = p.y.raw as int;
    let pz = p.z.raw as int;
    let dot = scaled_mul(px, 0) + scaled_mul(pz, SCALE as int);
    let nrm = crate::vector::norm_raw2(px, pz);
    let ratio: int = if nrm == 0 {
        0
    } else {
        crate::scalar::clamp_unit_raw(crate::scalar::tdiv(dot * (SCALE as int), nrm))
    };
    let angle = crate::scalar::acos_raw(ratio);
    let dist = crate::vector::norm_raw2(px - cx, pz - cz);
    (sc(angle + dist), sc(py - min_y))
}

/// The output vertex a distinct corner produces: the re-centered
/// position, the color or zero, and the texture coordinates looked up,
/// synthesized, or zero.
pub open spec fn spec_vertex_of(
    f: FaceInfo,
    positions: Seq<VertexData>,
    texcoords: Seq<(Scalar, Scalar)>,
    cx: int,
    cy: int,
    cz: int,
    min_y: int,
) -> Vertex {
    let pc = positions[f.vertex as int];
    let p = pc.position;
    Vertex {
        position: crate::vector::v3(
            p.x.raw - cx,
            p.y.raw - cy,
            p.z.raw - cz,
        ),
        color: match pc.color {
            Option::Some(c) => c,
            Option::None => crate::vector::v3(0, 0, 0),
        },
        texture_coordinates: match f.texture {
            Option::Some(t) => texcoords[t as int],
            Option::None => if texcoords.len() == 0 {
                spec_synth_uv(p, cx, cz, min_y)
            } else {
                (sc(0), sc(0))
            },
        },
    }
}

/// A corner's indices are valid against the given table sizes.
pub open spec fn ref_valid(f: FaceInfo, nv: int, nt: int) -> bool {
    (f.vertex as int) < nv && (f.texture matches Some(t) ==> (t as int) < nt)
}

/// Every recorded position is within the input magnitude limit.
pub open spec fn positions_bounded(ps: Seq<VertexData>) -> bool {
    forall|i: int|
        0 <= i < ps.len() ==> (#[trigger] ps[i]).position.bounded(INPUT_LIMIT as int)
}

/// The whole accumulated state is consistent: every face corner points
/// into the tables, and every position is bounded.
pub open spec fn data_ok(d: DataV) -> bool {
    positions_bounded(d.positions) && forall|i: int|
        0 <= i < d.refs.len() ==> ref_valid(
            #[trigger] d.refs[i],
            d.positions.len() as int,
            d.texcoords.len() as int,
        )
}

/// The bounding-box fold stays within the bounds of its inputs.
proof fn lemma_minmax_bounded(ps: Seq<VertexData>)
    requires
        positions_bounded(ps),
    ensures
        -(INPUT_LIMIT as int) <= spec_min_pos(ps).0 <= INPUT_LIMIT as int,
        -(INPUT_LIMIT as int) <= spec_min_pos(ps).1 <= INPUT_LIMIT as int,
        -(INPUT_LIMIT as int) <= spec_min_pos(ps).2 <= INPUT_LIMIT as int,
        -(INPUT_LIMIT as int) <= spec_max_pos(ps).0 <= INPUT_LIMIT as int,
        -(INPUT_LIMIT as int) <= spec_max_pos(ps).1 <= INPUT_LIMIT as int,
        -(INPUT_LIMIT as int) <= spec_max_pos(ps).2 <= INPUT_LIMIT as int,
    decreases ps.len(),
{
    if ps.len() > 1 {
        assert(positions_bounded(ps.drop_last()));
        lemma_minmax_bounded(ps.drop_last());
    }
}

/// Finds the first occurrence of a corner in the seen list.
fn find_face(seen: &Vec<FaceInfo>, f: FaceInfo) -> (r: Option<usize>)
    ensures
        match r {
            Some(i) => seen@.contains(f) && i as int == spec_index_of(seen@, f) && i
                < seen@.len(),
            None => !seen@.contains(f),
        },
{
    let n = seen.len();
    let mut k: usize = 0;
    while k < n
        invariant
            k <= n,
            n == seen@.len(),
            forall|j: int| 0 <= j < k ==> seen@[j] != f,
            spec_index_of(seen@, f) >= k || (spec_index_of(seen@, f) == spec_index_of(
                seen@,
                f,
            )),
        decreases n - k,
    {
        let c = seen[k];
        if c.vertex == f.vertex && opt_u32_eq(c.texture, f.texture) && opt_u32_eq(
            c.normal,
            f.normal,
        ) {
            proof {
                assert(seen@[k as int] == f);
                assert(seen@.contains(f));
                lemma_index_of_first(seen@, f, k as int);
            }
            return Some(k);
        }
        k = k + 1;
    }
    proof {
        if seen@.contains(f) {
            let i = choose|i: int| 0 <= i < seen@.len() && seen@[i] == f;
            assert(seen@[i] == f);
        }
    }
    None
}

/// If everything before position `k` differs and `s[k] == x`, then `k` is
/// the first index.
proof fn lemma_index_of_first(s: Seq<FaceInfo>, x: FaceInfo, k: int)
    requires
        0 <= k < s.len(),
        s[k] == x,
        forall|j: int| 0 <= j < k ==> s[j] != x,
    ensures
        spec_index_of(s, x) == k,
    decreases k,
{
    if k > 0 {
        let s1 = s.subrange(1, s.len() as int);
        assert(forall|j: int| 0 <= j < k - 1 ==> s1[j] == s[j + 1] && s1[j] != x);
        assert(s1[k - 1] == x);
        lemma_index_of_first(s1, x, k - 1);
    }
}

/// Exec equality of two optional indices.
fn opt_u32_eq(a: Option<u32>, b: Option<u32>) -> (r: bool)
    ensures
        r == (a == b),
{
    match (a, b) {
        (Option::None, Option::None) => true,
        (Option::Some(x), Option::Some(y)) => x == y,
        _ => false,
    }
}

/// Builds one output vertex, exactly as [`spec_vertex_of`] says.
fn make_vertex(
    f: FaceInfo,
    positions: &Vec<VertexData>,
    texcoords: &Vec<(Scalar, Scalar)>,
    center: Vector3,
    mn: Vector3,
) -> (r: Vertex)
    requires
        positions_bounded(positions@),
        ref_valid(f, positions@.len() as int, texcoords@.len() as int),
        center.bounded(INPUT_LIMIT as int),
        mn.bounded(INPUT_LIMIT as int),
    ensures
        r == spec_vertex_of(
            f,
            positions@,
            texcoords@,
            center.x.raw as int,
            center.y.raw as int,
            center.z.raw as int,
            mn.y.raw as int,
        ),
{
    let pc = positions[f.vertex as usize];
    proof {
        assert(positions@[f.vertex as int].position.bounded(INPUT_LIMIT as int));
    }
    let position = pc.position.sub(center);
    let color = match pc.color {
        Some(c) => c,
        None => Vector3::zero(),
    };
    let tc: (Scalar, Scalar) = match f.texture {
        Some(ti) => texcoords[ti as usize],
        None => {
            if texcoords.len() == 0 {
                let pos2d = crate::vector::Vector2 { x: pc.position.x, y: pc.position.z };
                let kvec = crate::vector::Vector2 { x: Scalar::zero(), y: Scalar::one() };
                let dot = pos2d.dot(kvec);
                let nrm = pos2d.norm();
                proof {
                    crate::scalar::lemma_tdiv_bounds(
                        pc.position.x.raw * 0,
                        SCALE as int,
                    );
                    crate::scalar::lemma_tdiv_bounds(
                        pc.position.z.raw * (SCALE as int),
                        SCALE as int,
                    );
                }
                let ratio = if nrm.raw == 0 {
                    Scalar::zero()
                } else {
                    proof {
                        crate::scalar::lemma_tdiv_bounds(
                            dot.raw * (SCALE as int),
                            nrm.raw as int,
                        );
                    }
                    dot.div(nrm).clamp_unit()
                };
                let angle = ratio.acos();
                let mid2d = crate::vector::Vector2 { x: center.x, y: center.z };
                let dist = pos2d.sub(mid2d).norm();
                proof {
                    lemma_acos_small(ratio.raw as int);
                    let dx = pc.position.x.raw - center.x.raw;
                    let dz = pc.position.z.raw - center.z.raw;
                    assert(0 <= dx * dx <= 4_410_000_000_000_000_000) by (nonlinear_arith)
                        requires -2_100_000_000 <= dx <= 2_100_000_000;
                    assert(0 <= dz * dz <= 4_410_000_000_000_000_000) by (nonlinear_arith)
                        requires -2_100_000_000 <= dz <= 2_100_000_000;
                    crate::scalar::lemma_tdiv_mag(
                        dx * dx,
                        4_410_000_000_000_000_000,
                        SCALE as int,
                    );
                    crate::scalar::lemma_tdiv_mag(
                        dz * dz,
                        4_410_000_000_000_000_000,
                        SCALE as int,
                    );
                    crate::scalar::lemma_tdiv_bounds(dx * dx, SCALE as int);
                    crate::scalar::lemma_tdiv_bounds(dz * dz, SCALE as int);
                    crate::vector::lemma_sqrt_floor_bound(
                        crate::vector::norm2_raw2(dx, dz) * (SCALE as int),
                    );
                }
                let u = angle.add(dist);
                let v = pc.position.y.sub(mn.y);
                (u, v)
            } else {
                (Scalar::zero(), Scalar::zero())
            }
        },
    };
    Vertex { position, color, texture_coordinates: tc }
}

/// The truncated arccosine of a clamped ratio is small.
proof fn lemma_acos_small(x: int)
    requires
        -(SCALE as int) <= x <= SCALE as int,
    ensures
        -100_000 <= crate::scalar::acos_raw(x) <= 100_000,
{
    assert(0 <= x * x <= 100_000_000) by (nonlinear_arith)
        requires -10_000 <= x <= 10_000;
    crate::scalar::lemma_tdiv_mag(x * x, 100_000_000, SCALE as int);
    let x2 = crate::scalar::scaled_mul(x, x);
    assert(-100_000_000 <= x2 * x <= 100_000_000) by (nonlinear_arith)
        requires 0 <= x2 <= 10_000 && -10_000 <= x <= 10_000;
    crate::scalar::lemma_tdiv_mag(x2 * x, 100_000_000, SCALE as int);
    let x3 = crate::scalar::scaled_mul(x2, x);
    crate::scalar::lemma_tdiv_mag(x3, 10_000, 6);
}

/// The finished buffers a consistent state determines: the vertex list is
/// the distinct corners in first-seen order, each mapped through
/// [`spec_vertex_of`] with the bounding-box midpoint, and each entry of
/// the index list is the position of its corner among the distinct
/// corners.
pub open spec fn model_matches(vs: Seq<Vertex>, idx: Seq<u32>, d: DataV) -> bool {
    let mn = spec_min_pos(d.positions);
    let mx = spec_max_pos(d.positions);
    let cx = spec_center1(mn.0, mx.0);
    let cy = spec_center1(mn.1, mx.1);
    let cz = spec_center1(mn.2, mx.2);
    let firsts = spec_firsts(d.refs);
    vs == firsts.map_values(
        |f: FaceInfo| spec_vertex_of(f, d.positions, d.texcoords, cx, cy, cz, mn.1),
    ) && idx.len() == d.refs.len() && (forall|i: int|
        0 <= i < d.refs.len() ==> (#[trigger] idx[i]) as int == spec_index_of(
            firsts,
            d.refs[i],
        ))
}

/// Centers the model on its bounding-box midpoint, synthesizes texture
/// coordinates where the file gave none, and merges corners that address
/// the same index triple into one output vertex each, in first-seen
/// order, exactly as [`model_matches`] says.
pub fn build_model(data: &ObjData) -> (r: Model)
    requires
        data@.refs.len() <= u32::MAX,
        data_ok(data@),
    ensures
        model_matches(r.vertices@, r.indices@, data@),
{
    let np = data.positions.len();
    let mut mn = Vector3::zero();
    let mut mx = Vector3::zero();
    if np > 0 {
        mn = data.positions[0].position;
        mx = data.positions[0].position;
        let mut i: usize = 1;
        proof {
            assert(data@.positions.subrange(0, 1) =~= seq![data@.positions[0]]);
            assert(data@.positions[0].position.bounded(INPUT_LIMIT as int));
        }
        while i < np
            invariant
                1 <= i <= np,
                np == data@.positions.len(),
                data_ok(data@),
                (mn.x.raw as int, mn.y.raw as int, mn.z.raw as int) == spec_min_pos(
                    data@.positions.subrange(0, i as int),
                ),
                (mx.x.raw as int, mx.y.raw as int, mx.z.raw as int) == spec_max_pos(
                    data@.positions.subrange(0, i as int),
                ),
                mn.bounded(INPUT_LIMIT as int),
                mx.bounded(INPUT_LIMIT as int),
            decreases np - i,
        {
            let p = data.positions[i].position;
            proof {
                assert(data@.positions[i as int].position.bounded(INPUT_LIMIT as int));
                assert(data@.positions.subrange(0, i as int + 1).drop_last()
                    =~= data@.positions.subrange(0, i as int));
                assert(data@.positions.subrange(0, i as int + 1).last()
                    == data@.positions[i as int]);
            }
            mn = Vector3 { x: mn.x.min(p.x), y: mn.y.min(p.y), z: mn.z.min(p.z) };
            mx = Vector3 { x: mx.x.max(p.x), y: mx.y.max(p.y), z: mx.z.max(p.z) };
            i = i + 1;
        }
        proof {
            assert(data@.positions.subrange(0, np as int) =~= data@.positions);
        }
    }
    let center = mn.add(mx).div(Scalar::from_int(2));
    proof {
        crate::scalar::lemma_tdiv_mag(
            (mn.x.raw + mx.x.raw) * (SCALE as int),
            2_000_000_000_000_000_000,
            2 * (SCALE as int),
        );
        crate::scalar::lemma_tdiv_mag(
            (mn.y.raw + mx.y.raw) * (SCALE as int),
            2_000_000_000_000_000_000,
            2 * (SCALE as int),
        );
        crate::scalar::lemma_tdiv_mag(
            (mn.z.raw + mx.z.raw) * (SCALE as int),
            2_000_000_000_000_000_000,
            2 * (SCALE as int),
        );
    }
    let ghost firsts = spec_firsts(data@.refs);
    let mut seen: Vec<FaceInfo> = Vec::new();
    let mut verts: Vec<Vertex> = Vec::new();
    let mut idxs: Vec<u32> = Vec::new();
    let nr = data.refs.len();
    let mut i: usize = 0;
    proof {
        assert(seen@ =~= spec_firsts(data@.refs.subrange(0, 0)));
        assert(data@.refs.subrange(0, 0) =~= Seq::<FaceInfo>::empty());
    }
    while i < nr
        invariant
            i <= nr,
            nr == data@.refs.len(),
            nr <= u32::MAX,
            data_ok(data@),
            center.bounded(INPUT_LIMIT as int),
            mn.bounded(INPUT_LIMIT as int),
            seen@ == spec_firsts(data@.refs.subrange(0, i as int)),
            seen@.len() <= i,
            verts@ == seen@.map_values(
                |f: FaceInfo| spec_vertex_of(
                    f,
                    data@.positions,
                    data@.texcoords,
                    center.x.raw as int,
                    center.y.raw as int,
                    center.z.raw as int,
                    mn.y.raw as int,
                ),
            ),
            idxs@.len() == i,
            forall|k: int|
                0 <= k < i ==> idxs@[k] as int == spec_index_of(seen@, data@.refs[k]),
            forall|k: int| 0 <= k < i ==> seen@.contains(#[trigger] data@.refs[k]),
        decreases nr - i,
    {
        let f = data.refs[i];
        proof {
            assert(data@.refs.subrange(0, i as int + 1).drop_last() =~= data@.refs.subrange(
                0,
                i as int,
            ));
            assert(data@.refs.subrange(0, i as int + 1).last() == data@.refs[i as int]);
            assert(ref_valid(
                data@.refs[i as int],
                data@.positions.len() as int,
                data@.texcoords.len() as int,
            ));
        }
        match find_face(&seen, f) {
            Some(j) => {
                idxs.push(j as u32);
                proof {
                    assert(seen@ == spec_firsts(data@.refs.subrange(0, i as int + 1)));
                }
            },
            None => {
                let newidx = verts.len() as u32;
                let vert = make_vertex(f, &data.positions, &data.texcoords, center, mn);
                let ghost old_seen = seen@;
                seen.push(f);
                verts.push(vert);
                idxs.push(newidx);
                proof {
                    assert(seen@ =~= old_seen + seq![f]);
                    assert(seen@ == spec_firsts(data@.refs.subrange(0, i as int + 1)));
                    lemma_index_of_push(old_seen, f);
                    assert(verts@ =~= seen@.map_values(
                        |g: FaceInfo| spec_vertex_of(
                            g,
                            data@.positions,
                            data@.texcoords,
                            center.x.raw as int,
                            center.y.raw as int,
                            center.z.raw as int,
                            mn.y.raw as int,
                        ),
                    ));
                    assert forall|k: int| 0 <= k < i implies idxs@[k] as int == spec_index_of(
                        seen@,
                        data@.refs[k],
                    ) by {
                        lemma_index_of_append(old_seen, seq![f], data@.refs[k]);
                    }
                    assert forall|k: int| 0 <= k < i + 1 implies seen@.contains(
                        #[trigger] data@.refs[k],
                    ) by {
                        if k < i {
                            let j = choose|j: int|
                                0 <= j < old_seen.len() && old_seen[j] == data@.refs[k];
                            assert(seen@[j] == data@.refs[k]);
                        } else {
                            assert(seen@[old_seen.len() as int] == f);
                        }
                    }
                }
            },
        }
        i = i + 1;
    }
    proof {
        assert(data@.refs.subrange(0, nr as int) =~= data@.refs);
    }
    Model { vertices: verts, indices: idxs }
}

/// Runs the dispatcher over the lines from the `k`-th on; the error case
/// carries the 0-based number of the line at fault.
pub open spec fn spec_run(d: DataV, lines: Seq<Seq<char>>, k: int) -> Result<DataV, (int, ErrSpec)>
    decreases lines.len() - k,
    when 0 <= k <= lines.len()
{
    if k >= lines.len() {
        Ok(d)
    } else {
        match spec_step(d, lines[k], k) {
            Err(e) => Err((k, e)),
            Ok(nd) => spec_run(nd, lines, k + 1),
        }
    }
}

/// The empty state, before any line.
pub open spec fn spec_empty_data() -> DataV {
    DataV {
        positions: Seq::empty(),
        texcoords: Seq::empty(),
        normals: Seq::empty(),
        refs: Seq::empty(),
        warnings: Seq::empty(),
    }
}

/// The state the whole input produces, from the empty state.
pub open spec fn spec_parse(lines: Seq<Seq<char>>) -> Result<DataV, (int, ErrSpec)> {
    spec_run(spec_empty_data(), lines, 0)
}

/// The total number of characters over all lines.
pub open spec fn spec_total_chars(ls: Seq<Seq<char>>) -> int
    decreases ls.len(),
{
    if ls.len() == 0 {
        0
    } else {
        spec_total_chars(ls.drop_last()) + ls.last().len()
    }
}

/// A character total is never negative.
proof fn lemma_total_chars_nonneg(ls: Seq<Seq<char>>)
    ensures
        spec_total_chars(ls) >= 0,
    decreases ls.len(),
{
    if ls.len() > 0 {
        lemma_total_chars_nonneg(ls.drop_last());
    }
}

/// A prefix never holds more characters than the whole.
proof fn lemma_total_chars_prefix(ls: Seq<Seq<char>>, k: int)
    requires
        0 <= k <= ls.len(),
    ensures
        0 <= spec_total_chars(ls.subrange(0, k)) <= spec_total_chars(ls),
    decreases ls.len() - k,
{
    lemma_total_chars_nonneg(ls.subrange(0, k));
    if k == ls.len() {
        assert(ls.subrange(0, k) =~= ls);
    } else {
        lemma_total_chars_prefix(ls, k + 1);
        assert(ls.subrange(0, k + 1).drop_last() =~= ls.subrange(0, k));
        assert(spec_total_chars(ls.subrange(0, k + 1)) == spec_total_chars(ls.subrange(0, k))
            + ls[k].len());
    }
}

/// Parses the whole input, line by line: on success the deduplicated,
/// centered model and the non-fatal diagnostics; on failure the first
/// error, carrying the offending line's text and 0-based number, with
/// nothing partial.  The total input size is limited so that every
/// output vertex index fits its unsigned width.
pub fn parse_obj(lines: &Vec<String>) -> (r: Result<(Model, Vec<Warning>), ParseError>)
    requires
        spec_total_chars(lines@.map_values(|l: String| l@)) <= 1_400_000_000,
    ensures
        ({
            let gl = lines@.map_values(|l: String| l@);
            match r {
                Ok(out) => (spec_parse(gl) matches Ok(d) && model_matches(
                    out.0.vertices@,
                    out.0.indices@,
                    d,
                ) && out.1@.map_values(|w: Warning| w@) == d.warnings && out.0.indices@.len()
                    % 3 == 0),
                Err(e) => (spec_parse(gl) matches Err(le) && e.line_no as int == le.0 && (
                e.line matches Some(l) && l@ == gl[le.0]) && err_matches(e.err_type, le.1)),
            }
        }),
{
    let ghost gl = lines@.map_values(|l: String| l@);
    let mut d = ObjData::new();
    let n = lines.len();
    let mut i: usize = 0;
    proof {
        assert(d@ =~= spec_empty_data());
        assert(gl.subrange(0, 0) =~= Seq::<Seq<char>>::empty());
    }
    while i < n
        invariant
            i <= n,
            n == lines@.len(),
            gl == lines@.map_values(|l: String| l@),
            spec_total_chars(gl) <= 1_400_000_000,
            data_ok(d@),
            d@.refs.len() % 3 == 0,
            d@.refs.len() <= 3 * spec_total_chars(gl.subrange(0, i as int)),
            spec_run(spec_empty_data(), gl, 0) == spec_run(d@, gl, i as int),
        decreases n - i,
    {
        let ghost gd = d@;
        proof {
            assert(gl[i as int] == lines@[i as int]@);
        }
        let line: &String = &lines[i];
        match apply_line(d, line.as_str(), i) {
            Err(e) => {
                return Err(
                    ParseError { line: Some(lines[i].clone()), line_no: i, err_type: e },
                );
            },
            Ok(nd) => {
                proof {
                    assert(gl.subrange(0, i as int + 1).drop_last() =~= gl.subrange(
                        0,
                        i as int,
                    ));
                    assert(spec_total_chars(gl.subrange(0, i as int + 1))
                        == spec_total_chars(gl.subrange(0, i as int)) + gl[i as int].len());
                    lemma_total_chars_prefix(gl, i as int + 1);
                }
                d = nd;
            },
        }
        i = i + 1;
    }
    proof {
        assert(gl.subrange(0, n as int) =~= gl);
        lemma_total_chars_prefix(gl, n as int);
    }
    let model = build_model(&d);
    Ok((model, d.warnings))
}

/// Every corner of the reference list appears among the distinct corners.
pub proof fn lemma_firsts_contains(refs: Seq<FaceInfo>, i: int)
    requires
        0 <= i < refs.len(),
    ensures
        spec_firsts(refs).contains(refs[i]),
    decreases refs.len(),
{
    let prior = spec_firsts(refs.drop_last());
    if i == refs.len() - 1 {
        if prior.contains(refs.last()) {
        } else {
            assert((prior + seq![refs.last()])[prior.len() as int] == refs.last());
        }
    } else {
        lemma_firsts_contains(refs.drop_last(), i);
        assert(refs.drop_last()[i] == refs[i]);
        let j = choose|j: int| 0 <= j < prior.len() && prior[j] == refs[i];
        if prior.contains(refs.last()) {
        } else {
            assert((prior + seq![refs.last()])[j] == refs[i]);
        }
    }
}

/// There are never more distinct corners than corners.
pub proof fn lemma_firsts_len(refs: Seq<FaceInfo>)
    ensures
        spec_firsts(refs).len() <= refs.len(),
    decreases refs.len(),
{
    if refs.len() > 0 {
        lemma_firsts_len(refs.drop_last());
    }
}

/// Law (content-addressed deduplication): two corners that address the
/// same `(vertex, texture, normal)` triple are assigned the same output
/// vertex index.
pub proof fn lemma_dedup_shares_vertex(
    vs: Seq<Vertex>,
    idx: Seq<u32>,
    d: DataV,
    i: int,
    j: int,
)
    requires
        model_matches(vs, idx, d),
        0 <= i < d.refs.len(),
        0 <= j < d.refs.len(),
        d.refs[i] == d.refs[j],
    ensures
        idx[i] == idx[j],
{
}

/// Law (well-formed output): every entry of the index list points into
/// the vertex list, there is at most one vertex per corner, and when the
/// reference list is whole triangles the index count is a multiple of
/// three.
pub proof fn lemma_model_invariants(vs: Seq<Vertex>, idx: Seq<u32>, d: DataV)
    requires
        model_matches(vs, idx, d),
        d.refs.len() % 3 == 0,
    ensures
        idx.len() % 3 == 0,
        forall|i: int| 0 <= i < idx.len() ==> ((#[trigger] idx[i]) as int) < vs.len(),
        vs.len() <= d.refs.len(),
{
    let firsts = spec_firsts(d.refs);
    lemma_firsts_len(d.refs);
    assert forall|i: int| 0 <= i < idx.len() implies ((#[trigger] idx[i]) as int) < vs.len() by {
        lemma_firsts_contains(d.refs, i);
        lemma_index_of_contained(firsts, d.refs[i]);
    }
}

/// The fields of an all-numeric token list all parse, and keep their
/// count.
proof fn lemma_parse_floats_all_ok(ts: Seq<Seq<char>>, k: int)
    requires
        0 <= k <= ts.len(),
        forall|j: int| 0 <= j < ts.len() ==> spec_parse_scalar(#[trigger] ts[j]) is Some,
    ensures
        spec_parse_floats(ts, k) matches Ok(vals) && vals.len() == ts.len() - k,
    decreases ts.len() - k,
{
    if k < ts.len() {
        lemma_parse_floats_all_ok(ts, k + 1);
    }
}

/// Law (the `v` grammar): a `v` line whose fields are all numeric
/// succeeds exactly when it has three, four or six fields; any other
/// count fails with `InvalidParameterNumber`.
pub proof fn lemma_v_line_field_count(d: DataV, rest: Seq<char>, line_no: int)
    requires
        forall|j: int|
            0 <= j < spec_tokens(rest, 0).len() ==> spec_parse_scalar(
                #[trigger] spec_tokens(rest, 0)[j],
            ) is Some,
    ensures
        ({
            let count = spec_tokens(rest, 0).len();
            if count == 3 || count == 4 || count == 6 {
                spec_v_line(d, rest, line_no) is Ok
            } else {
                spec_v_line(d, rest, line_no) == Err::<DataV, ErrSpec>(
                    ErrSpec::InvalidParameterNumber,
                )
            }
        }),
{
    lemma_parse_floats_all_ok(spec_tokens(rest, 0), 0);
}

/// Every distinct corner is one of the recorded corners.
proof fn lemma_firsts_elem(refs: Seq<FaceInfo>, j: int)
    requires
        0 <= j < spec_firsts(refs).len(),
    ensures
        refs.contains(spec_firsts(refs)[j]),
    decreases refs.len(),
{
    let prior = spec_firsts(refs.drop_last());
    if prior.contains(refs.last()) || j < prior.len() {
        lemma_firsts_elem(refs.drop_last(), j);
        let i = choose|i: int|
            0 <= i < refs.drop_last().len() && refs.drop_last()[i] == spec_firsts(
                refs.drop_last(),
            )[j];
        assert(refs[i] == spec_firsts(refs)[j]);
    } else {
        assert(refs[refs.len() - 1] == spec_firsts(refs)[j]);
    }
}

/// Law (centering): every output vertex position is its recorded
/// position with the bounding-box midpoint subtracted, exactly, with no
/// rounding beyond the midpoint's own halving.
pub proof fn lemma_centering(vs: Seq<Vertex>, idx: Seq<u32>, d: DataV, j: int)
    requires
        model_matches(vs, idx, d),
        data_ok(d),
        0 <= j < vs.len(),
    ensures
        ({
            let mn = spec_min_pos(d.positions);
            let mx = spec_max_pos(d.positions);
            let f = spec_firsts(d.refs)[j];
            let p = d.positions[f.vertex as int].position;
            vs[j].position.x.raw == p.x.raw - spec_center1(mn.0, mx.0) && vs[j].position.y.raw
                == p.y.raw - spec_center1(mn.1, mx.1) && vs[j].position.z.raw == p.z.raw
                - spec_center1(mn.2, mx.2)
        }),
{
    let firsts = spec_firsts(d.refs);
    let f = firsts[j];
    lemma_firsts_elem(d.refs, j);
    let i = choose|i: int| 0 <= i < d.refs.len() && d.refs[i] == f;
    assert(ref_valid(d.refs[i], d.positions.len() as int, d.texcoords.len() as int));
    let p = d.positions[f.vertex as int];
    assert(p.position.bounded(INPUT_LIMIT as int));
    lemma_minmax_bounded(d.positions);
    let mn = spec_min_pos(d.positions);
    let mx = spec_max_pos(d.positions);
    crate::scalar::lemma_tdiv_mag(
        (mn.0 + mx.0) * (SCALE as int),
        20_000_000_000_000,
        2 * (SCALE as int),
    );
    crate::scalar::lemma_tdiv_mag(
        (mn.1 + mx.1) * (SCALE as int),
        20_000_000_000_000,
        2 * (SCALE as int),
    );
    crate::scalar::lemma_tdiv_mag(
        (mn.2 + mx.2) * (SCALE as int),
        20_000_000_000_000,
        2 * (SCALE as int),
    );
    assert(vs[j] == spec_vertex_of(
        f,
        d.positions,
        d.texcoords,
        spec_center1(mn.0, mx.0),
        spec_center1(mn.1, mx.1),
        spec_center1(mn.2, mx.2),
        mn.1,
    ));
}

} // verus!
