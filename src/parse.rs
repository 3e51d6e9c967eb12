use vstd::prelude::*;
use crate::grid::{Grid, RasterError, MAX_MAGNITUDE, in_magnitude};

verus! {

/// Digits kept after the decimal point: `SCALE` is ten to this power.
pub const FRACTION_DIGITS: i64 = 6;

/// Largest magnitude of an exponent in a sample word.
pub const MAX_EXPONENT: usize = 1_000_000;

/// ASCII whitespace: space, tab, line feed, vertical tab, form feed,
/// carriage return.
pub open spec fn is_space(b: u8) -> bool {
    b == 32 || b == 9 || b == 10 || b == 11 || b == 12 || b == 13
}

pub open spec fn is_digit(b: u8) -> bool {
    48 <= b <= 57
}

pub open spec fn all_digits(s: Seq<u8>, a: int, b: int) -> bool {
    forall|i: int| a <= i < b ==> is_digit(#[trigger] s[i])
}

/// The number written by the decimal digits `s[a..b]`.
pub open spec fn digits_value(s: Seq<u8>, a: int, b: int) -> int
    decreases b - a,
{
    if b <= a {
        0
    } else {
        digits_value(s, a, b - 1) * 10 + (s[b - 1] - 48)
    }
}

/// Digit `j` of a mantissa whose digits before the point are `s[a..p]` and
/// after it `s[f..e]`; positions past the last digit read as 0.
pub open spec fn mantissa_digit(s: Seq<u8>, a: int, p: int, f: int, e: int, j: int) -> int {
    if j < p - a {
        s[a + j] - 48
    } else if j - (p - a) < e - f {
        s[f + j - (p - a)] - 48
    } else {
        0
    }
}

/// The first `n` digits of that mantissa read as a number; 0 when `n <= 0`.
pub open spec fn mantissa_prefix(s: Seq<u8>, a: int, p: int, f: int, e: int, n: int) -> int
    decreases n,
{
    if n <= 0 {
        0
    } else {
        mantissa_prefix(s, a, p, f, e, n - 1) * 10 + mantissa_digit(s, a, p, f, e, n - 1)
    }
}

/// Position of the first `e` or `E` in `s[a..b]`, or `b`.
pub open spec fn find_exponent(s: Seq<u8>, a: int, b: int) -> int
    decreases b - a,
{
    if a >= b {
        b
    } else if s[a] == 101 || s[a] == 69 {
        a
    } else {
        find_exponent(s, a + 1, b)
    }
}

/// The exponent written by `s[a..b]`: an optional sign and decimal digits,
/// of magnitude at most `MAX_EXPONENT`.
pub open spec fn exponent_value(s: Seq<u8>, a: int, b: int) -> Option<int> {
    let d = if a < b && (s[a] == 45 || s[a] == 43) { a + 1 } else { a };
    if d < b && all_digits(s, d, b) && digits_value(s, d, b) <= MAX_EXPONENT {
        Some(if a < b && s[a] == 45 { -digits_value(s, d, b) } else { digits_value(s, d, b) })
    } else {
        None
    }
}

/// Position of the first `.` in `s[a..b]`, or `b`.
pub open spec fn find_dot(s: Seq<u8>, a: int, b: int) -> int
    decreases b - a,
{
    if a >= b {
        b
    } else if s[a] == 46 {
        a
    } else {
        find_dot(s, a + 1, b)
    }
}

/// The magnitude, in fixed-point steps, written by `s[a..b]` as
/// `digits[.digits][(e|E)exponent]` with at least one mantissa digit. The
/// point, moved by the exponent and then `FRACTION_DIGITS` places further
/// right, marks where the digits are cut: what lies past it is dropped.
pub open spec fn magnitude_steps(s: Seq<u8>, a: int, b: int) -> Option<int> {
    let e = find_exponent(s, a, b);
    let x = if e < b { exponent_value(s, e + 1, b) } else { Some(0int) };
    let p = find_dot(s, a, e);
    let f = if p < e { p + 1 } else { e };
    match x {
        Some(x) => if all_digits(s, a, p) && all_digits(s, f, e) && (p - a) + (e - f) > 0 {
            let v = mantissa_prefix(s, a, p, f, e, (p - a) + x + FRACTION_DIGITS as int);
            if v <= MAX_MAGNITUDE {
                Some(v)
            } else {
                None
            }
        } else {
            None
        },
        None => None,
    }
}

/// The elevation, in fixed-point steps, written by the word `s[a..b]`: an
/// optional sign followed by a decimal number.
pub open spec fn elevation_value(s: Seq<u8>, a: int, b: int) -> Option<int> {
    if a < b && s[a] == 45 {
        match magnitude_steps(s, a + 1, b) {
            Some(v) => Some(-v),
            None => None,
        }
    } else if a < b && s[a] == 43 {
        magnitude_steps(s, a + 1, b)
    } else {
        magnitude_steps(s, a, b)
    }
}

/// The count written by the word `s[a..b]`: an optional `+` and decimal
/// digits, at most `usize::MAX`.
pub open spec fn count_value(s: Seq<u8>, a: int, b: int) -> Option<int> {
    let d = if a < b && s[a] == 43 { a + 1 } else { a };
    if d < b && all_digits(s, d, b) && digits_value(s, d, b) <= usize::MAX {
        Some(digits_value(s, d, b))
    } else {
        None
    }
}

/// Index of the first newline at or after `a`, or the end of `s`.
pub open spec fn line_end(s: Seq<u8>, a: int) -> int
    decreases s.len() - a,
{
    if a >= s.len() {
        s.len() as int
    } else if s[a] == 10 {
        a
    } else {
        line_end(s, a + 1)
    }
}

pub open spec fn next_line_start(s: Seq<u8>, a: int) -> int {
    if line_end(s, a) < s.len() {
        line_end(s, a) + 1
    } else {
        s.len() as int
    }
}

/// Where line `k` begins; line `k` exists when this is before the end.
pub open spec fn line_start(s: Seq<u8>, k: nat) -> int
    decreases k,
{
    if k == 0 {
        0
    } else {
        next_line_start(s, line_start(s, (k - 1) as nat))
    }
}

/// `b` with the whitespace at the end of `s[a..b]` taken off.
pub open spec fn trim_end(s: Seq<u8>, a: int, b: int) -> int
    decreases b - a,
{
    if b > a && is_space(s[b - 1]) {
        trim_end(s, a, b - 1)
    } else {
        b
    }
}

/// Start of the run of non-whitespace that ends at `b` within `s[a..b]`.
pub open spec fn word_start(s: Seq<u8>, a: int, b: int) -> int
    decreases b - a,
{
    if b > a && !is_space(s[b - 1]) {
        word_start(s, a, b - 1)
    } else {
        b
    }
}

/// The bounds of the last whitespace-separated word of the line that
/// begins at `a`.
pub open spec fn word_of_line(s: Seq<u8>, a: int) -> Option<(int, int)> {
    let e = trim_end(s, a, line_end(s, a));
    if a < s.len() && e > a {
        Some((word_start(s, a, e), e))
    } else {
        None
    }
}

/// The bounds of the last whitespace-separated word of header line `k`.
pub open spec fn header_word(s: Seq<u8>, k: nat) -> Option<(int, int)> {
    word_of_line(s, line_start(s, k))
}

pub open spec fn as_ints(v: Seq<i64>) -> Seq<int> {
    v.map_values(|x: i64| x as int)
}

pub open spec fn header_count(s: Seq<u8>, k: nat) -> Option<int> {
    match header_word(s, k) {
        Some(w) => count_value(s, w.0, w.1),
        None => None,
    }
}

/// Column count, row count and no-data value of a well-formed header: the
/// last words of lines 0, 1 and 5. Lines 2 to 4 (corner and cell size) are
/// read past and not interpreted.
pub open spec fn asc_header(s: Seq<u8>) -> Option<(int, int, int)> {
    match (header_count(s, 0), header_count(s, 1), header_word(s, 5)) {
        (Some(c), Some(r), Some(w)) => match elevation_value(s, w.0, w.1) {
            Some(nd) => if c > 0 && r > 0 {
                Some((c, r, nd))
            } else {
                None
            },
            None => None,
        },
        _ => None,
    }
}

/// A sample word's value, or `nodata` where the word is not a number.
pub open spec fn sample_value(s: Seq<u8>, a: int, b: int, nodata: int) -> int {
    match elevation_value(s, a, b) {
        Some(v) => v,
        None => nodata,
    }
}

/// Values of the whitespace-separated words of `s[pos..]`, where `cur` is
/// the start of a word begun before `pos`, or negative.
pub open spec fn samples_from(s: Seq<u8>, pos: int, cur: int, nodata: int) -> Seq<int>
    decreases s.len() - pos,
{
    if pos >= s.len() {
        if cur >= 0 {
            seq![sample_value(s, cur, s.len() as int, nodata)]
        } else {
            seq![]
        }
    } else if is_space(s[pos]) {
        if cur >= 0 {
            seq![sample_value(s, cur, pos, nodata)] + samples_from(s, pos + 1, -1, nodata)
        } else {
            samples_from(s, pos + 1, -1, nodata)
        }
    } else {
        samples_from(s, pos + 1, if cur >= 0 { cur } else { pos }, nodata)
    }
}

/// The samples that follow the six header lines.
pub open spec fn asc_samples(s: Seq<u8>, nodata: int) -> Seq<int> {
    samples_from(s, line_start(s, 6), -1, nodata)
}

/// Whether `s` is an elevation grid: a well-formed header, then exactly
/// `ncols * nrows` sample words.
pub open spec fn is_asc(s: Seq<u8>) -> bool {
    match asc_header(s) {
        Some(h) => asc_samples(s, h.2).len() == h.0 * h.1,
        None => false,
    }
}

proof fn lemma_digits_nonneg(s: Seq<u8>, a: int, b: int)
    requires
        all_digits(s, a, b),
    ensures
        digits_value(s, a, b) >= 0,
    decreases b - a,
{
    if b > a {
        lemma_digits_nonneg(s, a, b - 1);
    }
}

proof fn lemma_digits_monotone(s: Seq<u8>, a: int, i: int, b: int)
    requires
        a <= i <= b,
        all_digits(s, a, b),
    ensures
        digits_value(s, a, i) <= digits_value(s, a, b),
    decreases b - i,
{
    if i < b {
        lemma_digits_monotone(s, a, i, b - 1);
        lemma_digits_nonneg(s, a, b - 1);
        assert(is_digit(s[b - 1]));
    }
}

/// Reads `s[a..b]` as decimal digits, giving up past `limit`.
fn parse_digits(s: &[u8], a: usize, b: usize, limit: usize) -> (r: Option<usize>)
    requires
        a <= b <= s@.len(),
        limit >= 9,
    ensures
        match r {
            Some(v) => all_digits(s@, a as int, b as int) && v == digits_value(s@, a as int, b as int)
                && v <= limit,
            None => !(all_digits(s@, a as int, b as int) && digits_value(s@, a as int, b as int) <= limit),
        },
{
    let mut acc: usize = 0;
    let mut i: usize = a;
    while i < b
        invariant
            a <= i <= b,
            b <= s@.len(),
            limit >= 9,
            all_digits(s@, a as int, i as int),
            acc == digits_value(s@, a as int, i as int),
            acc <= limit,
        decreases b - i,
    {
        let c = s[i];
        if c < 48 || c > 57 {
            assert(!is_digit(s@[i as int]));
            return None;
        }
        let d = (c - 48) as usize;
        assert(digits_value(s@, a as int, i + 1) == acc * 10 + d);
        if acc > (limit - d) / 10 {
            assert(acc * 10 + d > limit) by (nonlinear_arith)
                requires
                    acc > (limit - d) / 10,
                    d <= 9,
                    limit >= 9,
            ;
            proof {
                if all_digits(s@, a as int, b as int) {
                    lemma_digits_monotone(s@, a as int, i + 1, b as int);
                }
            }
            return None;
        }
        assert(acc * 10 + d <= limit) by (nonlinear_arith)
            requires
                acc <= (limit - d) / 10,
                d <= 9,
                limit >= 9,
        ;
        acc = acc * 10 + d;
        i += 1;
    }
    Some(acc)
}

/// Position of the first newline at or after `a`, or the end.
fn find_line_end(s: &[u8], a: usize) -> (r: usize)
    requires
        a <= s@.len(),
    ensures
        r == line_end(s@, a as int),
{
    let mut i: usize = a;
    while i < s.len() && s[i] != 10
        invariant
            a <= i <= s@.len(),
            line_end(s@, i as int) == line_end(s@, a as int),
        decreases s@.len() - i,
    {
        i += 1;
    }
    i
}

proof fn lemma_line_end_bounds(s: Seq<u8>, a: int)
    requires
        0 <= a <= s.len(),
    ensures
        a <= line_end(s, a) <= s.len(),
    decreases s.len() - a,
{
    if a < s.len() && s[a] != 10 {
        lemma_line_end_bounds(s, a + 1);
    }
}

fn next_line(s: &[u8], a: usize) -> (r: usize)
    requires
        a <= s@.len(),
    ensures
        r == next_line_start(s@, a as int),
        r <= s@.len(),
{
    let e = find_line_end(s, a);
    proof {
        lemma_line_end_bounds(s@, a as int);
    }
    if e < s.len() {
        e + 1
    } else {
        s.len()
    }
}

/// Bounds of the last word of `s[a..b]`, if it holds one.
fn last_word(s: &[u8], a: usize, b: usize) -> (r: Option<(usize, usize)>)
    requires
        a <= b <= s@.len(),
    ensures
        match r {
            Some(w) => trim_end(s@, a as int, b as int) > a && w.1 == trim_end(s@, a as int, b as int)
                && w.0 == word_start(s@, a as int, w.1 as int) && a <= w.0 <= w.1 <= b,
            None => trim_end(s@, a as int, b as int) <= a,
        },
{
    let mut e: usize = b;
    while e > a && (s[e - 1] == 32 || s[e - 1] == 9 || s[e - 1] == 10 || s[e - 1] == 11
        || s[e - 1] == 12 || s[e - 1] == 13)
        invariant
            a <= e <= b,
            b <= s@.len(),
            trim_end(s@, a as int, e as int) == trim_end(s@, a as int, b as int),
        decreases e,
    {
        e -= 1;
    }
    if e == a {
        return None;
    }
    let mut w: usize = e;
    while w > a && !(s[w - 1] == 32 || s[w - 1] == 9 || s[w - 1] == 10 || s[w - 1] == 11
        || s[w - 1] == 12 || s[w - 1] == 13)
        invariant
            a <= w <= e,
            e <= s@.len(),
            word_start(s@, a as int, w as int) == word_start(s@, a as int, e as int),
        decreases w,
    {
        w -= 1;
    }
    Some((w, e))
}

/// Reads a header count from the word `s[a..b]`.
fn parse_count(s: &[u8], a: usize, b: usize) -> (r: Option<usize>)
    requires
        a <= b <= s@.len(),
    ensures
        r is None <==> count_value(s@, a as int, b as int) is None,
        r matches Some(c) ==> count_value(s@, a as int, b as int) == Some(c as int),
{
    let d = if a < b && s[a] == 43 { a + 1 } else { a };
    if d >= b {
        return None;
    }
    parse_digits(s, d, b, usize::MAX)
}

fn find_dot_in(s: &[u8], a: usize, b: usize) -> (r: usize)
    requires
        a <= b <= s@.len(),
    ensures
        r == find_dot(s@, a as int, b as int),
        a <= r <= b,
{
    let mut i: usize = a;
    while i < b && s[i] != 46
        invariant
            a <= i <= b,
            b <= s@.len(),
            find_dot(s@, i as int, b as int) == find_dot(s@, a as int, b as int),
        decreases b - i,
    {
        i += 1;
    }
    i
}

fn find_exponent_in(s: &[u8], a: usize, b: usize) -> (r: usize)
    requires
        a <= b <= s@.len(),
    ensures
        r == find_exponent(s@, a as int, b as int),
        a <= r <= b,
{
    let mut i: usize = a;
    while i < b && s[i] != 101 && s[i] != 69
        invariant
            a <= i <= b,
            b <= s@.len(),
            find_exponent(s@, i as int, b as int) == find_exponent(s@, a as int, b as int),
        decreases b - i,
    {
        i += 1;
    }
    i
}

fn parse_exponent(s: &[u8], a: usize, b: usize) -> (r: Option<i64>)
    requires
        a <= b <= s@.len(),
    ensures
        r is None <==> exponent_value(s@, a as int, b as int) is None,
        r matches Some(x) ==> exponent_value(s@, a as int, b as int) == Some(x as int),
        r matches Some(x) ==> -MAX_EXPONENT <= x <= MAX_EXPONENT,
{
    let d = if a < b && (s[a] == 45 || s[a] == 43) { a + 1 } else { a };
    if d >= b {
        return None;
    }
    match parse_digits(s, d, b, MAX_EXPONENT) {
        Some(v) => if a < b && s[a] == 45 {
            Some(-(v as i64))
        } else {
            Some(v as i64)
        },
        None => None,
    }
}

fn all_digits_in(s: &[u8], a: usize, b: usize) -> (r: bool)
    requires
        a <= b <= s@.len(),
    ensures
        r == all_digits(s@, a as int, b as int),
{
    let mut i: usize = a;
    while i < b
        invariant
            a <= i <= b,
            b <= s@.len(),
            all_digits(s@, a as int, i as int),
        decreases b - i,
    {
        if s[i] < 48 || s[i] > 57 {
            assert(!is_digit(s@[i as int]));
            return false;
        }
        i += 1;
    }
    true
}

proof fn lemma_mantissa_nonneg(s: Seq<u8>, a: int, p: int, f: int, e: int, n: int)
    requires
        a <= p <= f <= e <= s.len(),
        all_digits(s, a, p),
        all_digits(s, f, e),
    ensures
        0 <= mantissa_prefix(s, a, p, f, e, n),
    decreases n,
{
    if n > 0 {
        lemma_mantissa_nonneg(s, a, p, f, e, n - 1);
        lemma_mantissa_digit_range(s, a, p, f, e, n - 1);
    }
}

proof fn lemma_mantissa_monotone(s: Seq<u8>, a: int, p: int, f: int, e: int, m: int, n: int)
    requires
        a <= p <= f <= e <= s.len(),
        all_digits(s, a, p),
        all_digits(s, f, e),
        m <= n,
    ensures
        mantissa_prefix(s, a, p, f, e, m) <= mantissa_prefix(s, a, p, f, e, n),
    decreases n - m,
{
    if m < n {
        lemma_mantissa_monotone(s, a, p, f, e, m, n - 1);
        if n > 0 {
            lemma_mantissa_nonneg(s, a, p, f, e, n - 1);
            lemma_mantissa_digit_range(s, a, p, f, e, n - 1);
        }
    }
}

proof fn lemma_mantissa_digit_range(s: Seq<u8>, a: int, p: int, f: int, e: int, j: int)
    requires
        a <= p <= f <= e <= s.len(),
        all_digits(s, a, p),
        all_digits(s, f, e),
        j >= 0,
    ensures
        0 <= mantissa_digit(s, a, p, f, e, j) <= 9,
{
    if j < p - a {
        assert(is_digit(s[a + j]));
    } else if j - (p - a) < e - f {
        assert(is_digit(s[f + j - (p - a)]));
    }
}

/// Reads an unsigned decimal number `s[a..b]` in fixed-point steps.
fn parse_magnitude(s: &[u8], a: usize, b: usize) -> (r: Option<i64>)
    requires
        a <= b <= s@.len(),
    ensures
        match magnitude_steps(s@, a as int, b as int) {
            Some(v) => r == Some(v as i64) && 0 <= v <= MAX_MAGNITUDE,
            None => r is None,
        },
{
    let e = find_exponent_in(s, a, b);
    let x: i64 = if e < b {
        match parse_exponent(s, e + 1, b) {
            Some(x) => x,
            None => return None,
        }
    } else {
        0
    };
    let p = find_dot_in(s, a, e);
    let f = if p < e { p + 1 } else { e };
    if (p - a) + (e - f) == 0 || !all_digits_in(s, a, p) || !all_digits_in(s, f, e) {
        return None;
    }
    let whole = (p - a) as i128;
    let frac = (e - f) as i128;
    let n: i128 = whole + x as i128 + FRACTION_DIGITS as i128;
    let ghost gs = s@;
    let ghost total = mantissa_prefix(gs, a as int, p as int, f as int, e as int, n as int);
    assert(magnitude_steps(gs, a as int, b as int) == (if total <= MAX_MAGNITUDE {
        Some(total)
    } else {
        None
    }));
    let mut acc: i64 = 0;
    let mut j: i128 = 0;
    while j < n
        invariant
            a <= p <= f <= e <= b <= s@.len(),
            gs == s@,
            all_digits(gs, a as int, p as int),
            all_digits(gs, f as int, e as int),
            whole == p - a,
            frac == e - f,
            0 <= j,
            j <= n || j == 0,
            acc == mantissa_prefix(gs, a as int, p as int, f as int, e as int, j as int),
            0 <= acc <= MAX_MAGNITUDE,
            total == mantissa_prefix(gs, a as int, p as int, f as int, e as int, n as int),
            magnitude_steps(gs, a as int, b as int) == (if total <= MAX_MAGNITUDE {
                Some(total)
            } else {
                None
            }),
        decreases n - j,
    {
        proof {
            lemma_mantissa_digit_range(gs, a as int, p as int, f as int, e as int, j as int);
        }
        let d: i64 = if j < whole {
            (s[a + j as usize] - 48) as i64
        } else if j - whole < frac {
            (s[f + (j - whole) as usize] - 48) as i64
        } else {
            0
        };
        assert(d == mantissa_digit(gs, a as int, p as int, f as int, e as int, j as int));
        if acc > (MAX_MAGNITUDE - d) / 10 {
            assert(acc * 10 + d > MAX_MAGNITUDE) by (nonlinear_arith)
                requires
                    acc > (MAX_MAGNITUDE - d) / 10,
                    0 <= d <= 9,
            ;
            assert(mantissa_prefix(gs, a as int, p as int, f as int, e as int, j + 1) == acc * 10 + d);
            proof {
                lemma_mantissa_monotone(gs, a as int, p as int, f as int, e as int, j + 1, n as int);
            }
            return None;
        }
        assert(acc * 10 + d <= MAX_MAGNITUDE) by (nonlinear_arith)
            requires
                acc <= (MAX_MAGNITUDE - d) / 10,
                0 <= d <= 9,
        ;
        acc = acc * 10 + d;
        j += 1;
    }
    proof {
        if n <= 0 {
            assert(j == 0);
            assert(total == 0);
        } else {
            assert(j == n);
        }
    }
    Some(acc)
}

/// Reads the elevation written by the word `s[a..b]`, in fixed-point steps.
fn parse_elevation(s: &[u8], a: usize, b: usize) -> (r: Option<i64>)
    requires
        a <= b <= s@.len(),
    ensures
        match elevation_value(s@, a as int, b as int) {
            Some(v) => r == Some(v as i64) && in_magnitude(v),
            None => r is None,
        },
        r is None <==> elevation_value(s@, a as int, b as int) is None,
        r matches Some(v) ==> elevation_value(s@, a as int, b as int) == Some(v as int),
{
    if a < b && s[a] == 45 {
        match parse_magnitude(s, a + 1, b) {
            Some(v) => {
                assert(in_magnitude(-v));
                Some(-v)
            },
            None => None,
        }
    } else if a < b && s[a] == 43 {
        parse_magnitude(s, a + 1, b)
    } else {
        parse_magnitude(s, a, b)
    }
}

fn line_word(s: &[u8], a: usize) -> (r: Option<(usize, usize)>)
    requires
        a <= s@.len(),
    ensures
        r is None <==> word_of_line(s@, a as int) is None,
        r matches Some(w) ==> word_of_line(s@, a as int) == Some((w.0 as int, w.1 as int)) && a <= w.0
            <= w.1 <= s@.len(),
{
    if a >= s.len() {
        return None;
    }
    let e = find_line_end(s, a);
    proof {
        lemma_line_end_bounds(s@, a as int);
    }
    last_word(s, a, e)
}

fn sample_at(s: &[u8], a: usize, b: usize, nodata: i64) -> (r: i64)
    requires
        a <= b <= s@.len(),
        in_magnitude(nodata as int),
    ensures
        r == sample_value(s@, a as int, b as int, nodata as int),
        in_magnitude(r as int),
{
    match parse_elevation(s, a, b) {
        Some(v) => v,
        None => nodata,
    }
}

/// Values of the whitespace-separated words of `s[start..]`; a word that
/// is not a number stands for `nodata`.
fn read_samples(s: &[u8], start: usize, nodata: i64) -> (r: Vec<i64>)
    requires
        start <= s@.len(),
        in_magnitude(nodata as int),
    ensures
        as_ints(r@) == samples_from(s@, start as int, -1, nodata as int),
        forall|k: int| 0 <= k < r@.len() ==> in_magnitude(#[trigger] r@[k] as int),
{
    let mut out: Vec<i64> = Vec::new();
    let mut i: usize = start;
    let mut cur: usize = 0;
    let mut in_word = false;
    while i < s.len()
        invariant
            start <= i <= s@.len(),
            in_magnitude(nodata as int),
            in_word ==> cur < i,
            as_ints(out@) + samples_from(s@, i as int, if in_word { cur as int } else { -1 }, nodata as int)
                == samples_from(s@, start as int, -1, nodata as int),
            forall|k: int| 0 <= k < out@.len() ==> in_magnitude(#[trigger] out@[k] as int),
        decreases s@.len() - i,
    {
        let c = s[i];
        let ghost before = as_ints(out@);
        if c == 32 || c == 9 || c == 10 || c == 11 || c == 12 || c == 13 {
            if in_word {
                let v = sample_at(s, cur, i, nodata);
                out.push(v);
                assert(as_ints(out@) =~= before + seq![v as int]);
                in_word = false;
            }
        } else if !in_word {
            cur = i;
            in_word = true;
        }
        i += 1;
        assert(as_ints(out@) + samples_from(s@, i as int, if in_word { cur as int } else { -1 }, nodata as int)
            =~= samples_from(s@, start as int, -1, nodata as int));
    }
    if in_word {
        let ghost before = as_ints(out@);
        let v = sample_at(s, cur, s.len(), nodata);
        out.push(v);
        assert(as_ints(out@) =~= before + seq![v as int]);
    }
    assert(as_ints(out@) =~= samples_from(s@, start as int, -1, nodata as int));
    out
}

/// Parses an elevation grid: six header lines, of which the last word of
/// the first gives the column count, of the second the row count, and of
/// the sixth the no-data value, then the samples as whitespace-separated
/// words across any line breaks. A sample word that is not a number is read
/// as the no-data value. Fails with `Format` where a header line or value is
/// missing or does not parse, a dimension is zero, or the number of samples
/// is not `ncols * nrows`.
pub fn parse_asc(text: &[u8]) -> (r: Result<Grid, RasterError>)
    ensures
        r is Ok <==> is_asc(text@),
        r matches Ok(g) ==> g.wf() && asc_header(text@) == Some(
            (g.ncols as int, g.nrows as int, g.nodata as int),
        ) && as_ints(g.samples@) == asc_samples(text@, g.nodata as int),
        r matches Err(e) ==> e == RasterError::Format,
{
    let ghost s = text@;
    let a0: usize = 0;
    assert(line_start(s, 0) == a0);
    let a1 = next_line(text, a0);
    let a2 = next_line(text, a1);
    let a3 = next_line(text, a2);
    let a4 = next_line(text, a3);
    let a5 = next_line(text, a4);
    let a6 = next_line(text, a5);
    assert(line_start(s, 1) == a1);
    assert(line_start(s, 2) == a2);
    assert(line_start(s, 3) == a3);
    assert(line_start(s, 4) == a4);
    assert(line_start(s, 5) == a5);
    assert(line_start(s, 6) == a6);
    let ncols = match line_word(text, a0) {
        Some(w) => match parse_count(text, w.0, w.1) {
            Some(c) => c,
            None => return Err(RasterError::Format),
        },
        None => return Err(RasterError::Format),
    };
    let nrows = match line_word(text, a1) {
        Some(w) => match parse_count(text, w.0, w.1) {
            Some(c) => c,
            None => return Err(RasterError::Format),
        },
        None => return Err(RasterError::Format),
    };
    let nodata = match line_word(text, a5) {
        Some(w) => match parse_elevation(text, w.0, w.1) {
            Some(v) => v,
            None => return Err(RasterError::Format),
        },
        None => return Err(RasterError::Format),
    };
    if ncols == 0 || nrows == 0 {
        return Err(RasterError::Format);
    }
    assert(asc_header(s) == Some((ncols as int, nrows as int, nodata as int)));
    let samples = read_samples(text, a6, nodata);
    let len = samples.len();
    let cells = match ncols.checked_mul(nrows) {
        Some(c) => c,
        None => return Err(RasterError::Format),
    };
    if len != cells {
        return Err(RasterError::Format);
    }
    Ok(Grid { ncols, nrows, nodata, samples })
}

/// Text with fewer than six header lines is no grid: its parse fails.
pub proof fn lemma_short_header_rejected(s: Seq<u8>)
    requires
        line_start(s, 5) >= s.len(),
    ensures
        !is_asc(s),
        asc_header(s) is None,
{
}

} // verus!
