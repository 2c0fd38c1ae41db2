//! The number syntaxes Rust's `str::parse` accepts for `i64` and `f64`,
//! and the decimal text of an integer.

use vstd::prelude::*;
use crate::text::{
    all_digits, chars_eq_ignore_ascii_case, chars_of, decimal, digits_value, eq_ignore_ascii_case,
    first_index, is_ascii_digit, lemma_first_index, lemma_first_index_at, parse_digits, push_char,
    push_decimal, push_range, push_str,
};

verus! {

/// What `str::parse::<i64>` gives: an optional sign, then decimal digits
/// whose value fits in `i64`.
pub open spec fn dec_i64(t: Seq<char>) -> Option<int> {
    if t.len() > 0 && t[0] == '-' {
        let d = t.drop_first();
        if d.len() > 0 && all_digits(d) && digits_value(d) <= 9223372036854775808 {
            Some(-(digits_value(d) as int))
        } else {
            None
        }
    } else {
        let d = if t.len() > 0 && t[0] == '+' {
            t.drop_first()
        } else {
            t
        };
        if d.len() > 0 && all_digits(d) && digits_value(d) <= 9223372036854775807 {
            Some(digits_value(d) as int)
        } else {
            None
        }
    }
}

/// The decimal text of an integer, with a `-` for a negative one.
pub open spec fn int_text(n: int) -> Seq<char> {
    if n < 0 {
        seq!['-'] + decimal((-n) as nat)
    } else {
        decimal(n as nat)
    }
}

/// `s` without one leading `+` or `-`.
pub open spec fn strip_sign(s: Seq<char>) -> Seq<char> {
    if s.len() > 0 && (s[0] == '+' || s[0] == '-') {
        s.drop_first()
    } else {
        s
    }
}

/// Digits with at most one `.`, and at least one digit.
pub open spec fn is_mantissa(m: Seq<char>) -> bool {
    match first_index(m, '.') {
        None => m.len() > 0 && all_digits(m),
        Some(d) => all_digits(m.take(d)) && all_digits(m.skip(d + 1)) && (d > 0 || m.len() > d + 1),
    }
}

/// An exponent after the `e`: an optional sign and at least one digit.
pub open spec fn is_exponent(x: Seq<char>) -> bool {
    let y = strip_sign(x);
    y.len() > 0 && all_digits(y)
}

/// Whether each character is an exponent marker.
pub open spec fn exp_marks(u: Seq<char>) -> Seq<bool> {
    u.map_values(|c: char| c == 'e' || c == 'E')
}

/// The syntax `str::parse::<f64>` accepts (as Rust documents it): an
/// optional sign, then `inf`, `infinity` or `nan` in any case, or a decimal
/// number with an optional exponent.
pub open spec fn is_float_text(t: Seq<char>) -> bool {
    let u = strip_sign(t);
    ||| eq_ignore_ascii_case(u, "inf"@)
    ||| eq_ignore_ascii_case(u, "infinity"@)
    ||| eq_ignore_ascii_case(u, "nan"@)
    ||| match first_index(exp_marks(u), true) {
        None => is_mantissa(u),
        Some(e) => is_mantissa(u.take(e)) && is_exponent(u.skip(e + 1)),
    }
}

/// Whether `v[lo..hi]` is all ASCII digits.
pub fn all_digits_range(v: &Vec<char>, lo: usize, hi: usize) -> (r: bool)
    requires
        lo <= hi <= v@.len(),
    ensures
        r == all_digits(v@.subrange(lo as int, hi as int)),
{
    let mut i = lo;
    while i < hi
        invariant
            lo <= i <= hi <= v@.len(),
            forall|j: int| lo <= j < i ==> is_ascii_digit(#[trigger] v@[j]),
        decreases hi - i,
    {
        if !('0' <= v[i] && v[i] <= '9') {
            assert(!is_ascii_digit(v@.subrange(lo as int, hi as int)[i - lo]));
            return false;
        }
        i = i + 1;
    }
    assert forall|j: int| 0 <= j < hi - lo implies is_ascii_digit(
        #[trigger] v@.subrange(lo as int, hi as int)[j],
    ) by {
        assert(v@.subrange(lo as int, hi as int)[j] == v@[lo + j]);
    }
    true
}

/// Index (relative to `lo`) of the first `c` in `v[lo..hi]`.
fn find_char(v: &Vec<char>, lo: usize, hi: usize, c: char) -> (r: Option<usize>)
    requires
        lo <= hi <= v@.len(),
    ensures
        match first_index(v@.subrange(lo as int, hi as int), c) {
            Some(i) => r matches Some(k) && k == i,
            None => r is None,
        },
{
    let ghost s = v@.subrange(lo as int, hi as int);
    let mut i = lo;
    while i < hi
        invariant
            lo <= i <= hi <= v@.len(),
            s == v@.subrange(lo as int, hi as int),
            forall|j: int| 0 <= j < i - lo ==> s[j] != c,
        decreases hi - i,
    {
        if v[i] == c {
            proof {
                lemma_first_index_at(s, c, i - lo);
            }
            return Some(i - lo);
        }
        i = i + 1;
    }
    proof {
        lemma_first_index(s, c);
    }
    None
}

/// Whether `v[lo..hi]` is a mantissa.
fn is_mantissa_range(v: &Vec<char>, lo: usize, hi: usize) -> (r: bool)
    requires
        lo <= hi <= v@.len(),
    ensures
        r == is_mantissa(v@.subrange(lo as int, hi as int)),
{
    let ghost m = v@.subrange(lo as int, hi as int);
    match find_char(v, lo, hi, '.') {
        None => lo < hi && all_digits_range(v, lo, hi),
        Some(d) => {
            proof {
                lemma_first_index(m, '.');
            }
            assert(m.take(d as int) =~= v@.subrange(lo as int, lo + d));
            assert(m.skip(d + 1) =~= v@.subrange(lo + d + 1, hi as int));
            all_digits_range(v, lo, lo + d) && all_digits_range(v, lo + d + 1, hi) && (d > 0 || hi - lo
                > d + 1)
        },
    }
}

/// Whether the text `t` is in the syntax `str::parse::<f64>` accepts.
pub fn float_text_ok(t: &str) -> (r: bool)
    ensures
        r == is_float_text(t@),
{
    let v = chars_of(t);
    let lo: usize = if v.len() > 0 && (v[0] == '+' || v[0] == '-') {
        1
    } else {
        0
    };
    let ghost u = strip_sign(t@);
    assert(u =~= v@.subrange(lo as int, v@.len() as int));
    let uv = {
        let mut w: Vec<char> = Vec::new();
        let mut i = lo;
        while i < v.len()
            invariant
                lo <= i <= v@.len(),
                w@ == v@.subrange(lo as int, i as int),
            decreases v.len() - i,
        {
            w.push(v[i]);
            i = i + 1;
            assert(w@ =~= v@.subrange(lo as int, i as int));
        }
        w
    };
    assert(uv@ == u);
    if chars_eq_ignore_ascii_case(&uv, &chars_of("inf")) || chars_eq_ignore_ascii_case(
        &uv,
        &chars_of("infinity"),
    ) || chars_eq_ignore_ascii_case(&uv, &chars_of("nan")) {
        return true;
    }
    let ghost marks = exp_marks(u);
    let mut e: usize = 0;
    while e < uv.len() && uv[e] != 'e' && uv[e] != 'E'
        invariant
            e <= uv@.len(),
            uv@ == u,
            marks == exp_marks(u),
            forall|j: int| 0 <= j < e ==> marks[j] != true,
        decreases uv.len() - e,
    {
        e = e + 1;
    }
    if e == uv.len() {
        proof {
            lemma_first_index(marks, true);
            assert(uv@.subrange(0, uv@.len() as int) =~= u);
        }
        return is_mantissa_range(&uv, 0, uv.len());
    }
    proof {
        lemma_first_index_at(marks, true, e as int);
        assert(u.take(e as int) =~= uv@.subrange(0, e as int));
    }
    if !is_mantissa_range(&uv, 0, e) {
        return false;
    }
    let x = e + 1;
    let ghost xs = u.skip(e + 1);
    let start: usize = if x < uv.len() && (uv[x] == '+' || uv[x] == '-') {
        x + 1
    } else {
        x
    };
    assert(strip_sign(xs) =~= uv@.subrange(start as int, uv@.len() as int));
    start < uv.len() && all_digits_range(&uv, start, uv.len())
}

/// Parses `t` as an `i64` (see [`dec_i64`]).
pub fn parse_i64_text(t: &str) -> (r: Option<i64>)
    ensures
        match dec_i64(t@) {
            Some(n) => r == Some(n as i64),
            None => r is None,
        },
{
    let v = chars_of(t);
    if v.len() > 0 && v[0] == '-' {
        assert(t@.drop_first() =~= v@.subrange(1, v@.len() as int));
        if v.len() == 1 {
            return None;
        }
        match parse_digits(&v, 1, v.len(), 9223372036854775808) {
            Some(n) => {
                if n == 9223372036854775808 {
                    Some(-9223372036854775807 - 1)
                } else {
                    Some(-(n as i64))
                }
            },
            None => None,
        }
    } else {
        let start: usize = if v.len() > 0 && v[0] == '+' {
            1
        } else {
            0
        };
        assert(v@.subrange(start as int, v@.len() as int) =~= (if t@.len() > 0 && t@[0] == '+' {
            t@.drop_first()
        } else {
            t@
        }));
        if start == v.len() {
            return None;
        }
        match parse_digits(&v, start, v.len(), 9223372036854775807) {
            Some(n) => Some(n as i64),
            None => None,
        }
    }
}

/// Appends the decimal text of an integer.
pub fn push_int(out: &mut String, n: i64)
    ensures
        final(out)@ == old(out)@ + int_text(n as int),
{
    if n < 0 {
        push_char(out, '-');
        let m: u64 = if n == -9223372036854775807 - 1 {
            9223372036854775808
        } else {
            (-n) as u64
        };
        push_decimal(out, m);
        assert(final(out)@ =~= old(out)@ + int_text(n as int));
    } else {
        push_decimal(out, n as u64);
    }
}

/// The digits before the `.` of a mantissa (all of it when there is none).
pub open spec fn int_part(m: Seq<char>) -> Seq<char> {
    match first_index(m, '.') {
        Some(d) => m.take(d),
        None => m,
    }
}

/// The digits after the `.` of a mantissa (none when there is no `.`).
pub open spec fn frac_part(m: Seq<char>) -> Seq<char> {
    match first_index(m, '.') {
        Some(d) => m.skip(d + 1),
        None => Seq::empty(),
    }
}

/// `s` without its leading `0`s.
pub open spec fn drop_leading_zeros(s: Seq<char>) -> Seq<char>
    decreases s.len(),
{
    if s.len() > 0 && s[0] == '0' {
        drop_leading_zeros(s.drop_first())
    } else {
        s
    }
}

/// `s` without its trailing `0`s.
pub open spec fn drop_trailing_zeros(s: Seq<char>) -> Seq<char>
    decreases s.len(),
{
    if s.len() > 0 && s.last() == '0' {
        drop_trailing_zeros(s.drop_last())
    } else {
        s
    }
}

/// `n` zeros.
pub open spec fn zeros(n: nat) -> Seq<char> {
    Seq::new(n, |i: int| '0')
}

/// The digits before the point of the number with digits `d` and its point
/// after `p` of them (zeros fill in where `p` is past the digits).
pub open spec fn shifted_int(d: Seq<char>, p: int) -> Seq<char> {
    if p <= 0 {
        Seq::empty()
    } else if p <= d.len() {
        d.take(p)
    } else {
        d + zeros((p - d.len()) as nat)
    }
}

/// The digits after the point of the number with digits `d` and its point
/// after `p` of them (zeros fill in where `p` is before the digits).
pub open spec fn shifted_frac(d: Seq<char>, p: int) -> Seq<char> {
    if p <= 0 {
        zeros((-p) as nat) + d
    } else if p <= d.len() {
        d.skip(p)
    } else {
        Seq::empty()
    }
}

/// The value of an exponent: its sign and digits.
pub open spec fn exponent_value(x: Seq<char>) -> int {
    if x.len() > 0 && x[0] == '-' {
        -(digits_value(strip_sign(x)) as int)
    } else {
        digits_value(strip_sign(x)) as int
    }
}

/// The mantissa of an unsigned float text (all of it without an exponent).
pub open spec fn mantissa_of(u: Seq<char>) -> Seq<char> {
    match first_index(exp_marks(u), true) {
        None => u,
        Some(e) => u.take(e),
    }
}

/// The exponent of an unsigned float text (0 without an exponent).
pub open spec fn exponent_of(u: Seq<char>) -> int {
    match first_index(exp_marks(u), true) {
        None => 0,
        Some(e) => exponent_value(u.skip(e + 1)),
    }
}

/// Whether an unsigned text is a decimal number with an optional exponent.
pub open spec fn is_decimal_float(u: Seq<char>) -> bool {
    match first_index(exp_marks(u), true) {
        None => is_mantissa(u),
        Some(e) => is_mantissa(u.take(e)) && is_exponent(u.skip(e + 1)),
    }
}

/// The text a float written as `t` is displayed with, as Rust displays
/// the `f64` it parses to (a whole number through `i64`). For a decimal
/// number, with or without an exponent, of at most 15 significant digits,
/// the `f64` holds exactly that decimal, and Rust writes it in plain
/// positional form, without the sign `+`, leading and trailing zeros, a
/// bare `.`, or the sign of zero: `+1.50` is `1.5`, `1.0` is `1`, `1e3` is
/// `1000`, `25e-3` is `0.025`, `-0.0` is `0`. The text is kept as written
/// for `inf` and `nan`, for more than 15 significant digits, for more than
/// 18 digits before the point or 300 after it, and for an exponent beyond
/// 100000 in size.
pub open spec fn float_display(t: Seq<char>) -> Seq<char> {
    let u = strip_sign(t);
    let m = mantissa_of(u);
    let x = exponent_of(u);
    if !is_decimal_float(u) || x < -100000 || x > 100000 {
        t
    } else {
        match digits_display(t[0] == '-', int_part(m) + frac_part(m), int_part(m).len() + x) {
            Some(s) => s,
            None => t,
        }
    }
}

/// The positional text of the number with digits `d`, its point after `p`
/// of them, and a `-` sign where `neg` holds: `0` for zero, `None` for more
/// than 15 significant digits, 18 digits before the point or 300 after it.
#[verifier::opaque]
pub open spec fn digits_display(neg: bool, d: Seq<char>, p: int) -> Option<Seq<char>> {
    let ip = drop_leading_zeros(shifted_int(d, p));
    let fp = drop_trailing_zeros(shifted_frac(d, p));
    let sig = drop_trailing_zeros(drop_leading_zeros(d)).len();
    if sig == 0 {
        Some("0"@)
    } else if sig > 15 || ip.len() > 18 || fp.len() > 300 {
        None
    } else {
        Some(
            (if neg {
                "-"@
            } else {
                ""@
            }) + (if ip.len() == 0 {
                "0"@
            } else {
                ip
            }) + (if fp.len() == 0 {
                ""@
            } else {
                "."@ + fp
            }),
        )
    }
}

/// Where the digits of `v[lo..hi]` start once its leading zeros are dropped.
fn skip_leading_zeros(v: &Vec<char>, lo: usize, hi: usize) -> (a: usize)
    requires
        lo <= hi <= v@.len(),
    ensures
        lo <= a <= hi,
        drop_leading_zeros(v@.subrange(lo as int, hi as int)) == v@.subrange(a as int, hi as int),
{
    let mut a = lo;
    while a < hi && v[a] == '0'
        invariant
            lo <= a <= hi <= v@.len(),
            drop_leading_zeros(v@.subrange(lo as int, hi as int)) == drop_leading_zeros(
                v@.subrange(a as int, hi as int),
            ),
        decreases hi - a,
    {
        assert(v@.subrange(a as int, hi as int).drop_first() =~= v@.subrange(a + 1, hi as int));
        a = a + 1;
    }
    a
}

/// Where the digits of `v[lo..hi]` end once its trailing zeros are dropped.
fn skip_trailing_zeros(v: &Vec<char>, lo: usize, hi: usize) -> (b: usize)
    requires
        lo <= hi <= v@.len(),
    ensures
        lo <= b <= hi,
        drop_trailing_zeros(v@.subrange(lo as int, hi as int)) == v@.subrange(lo as int, b as int),
{
    let mut b = hi;
    while b > lo && v[b - 1] == '0'
        invariant
            lo <= b <= hi <= v@.len(),
            drop_trailing_zeros(v@.subrange(lo as int, hi as int)) == drop_trailing_zeros(
                v@.subrange(lo as int, b as int),
            ),
        decreases b - lo,
    {
        assert(v@.subrange(lo as int, b as int).drop_last() =~= v@.subrange(lo as int, b - 1));
        b = b - 1;
    }
    b
}

/// The sign, the integer digits `v[a..ie]` (or `0`), and the fraction
/// digits `v[fs..b]` after a `.` when there are any.
fn assemble_decimal(v: &Vec<char>, neg: bool, a: usize, ie: usize, fs: usize, b: usize) -> (r: String)
    requires
        a <= ie <= v@.len(),
        fs <= b <= v@.len(),
    ensures
        r@ == (if neg {
            "-"@
        } else {
            ""@
        }) + (if a == ie {
            "0"@
        } else {
            v@.subrange(a as int, ie as int)
        }) + (if b == fs {
            ""@
        } else {
            "."@ + v@.subrange(fs as int, b as int)
        }),
{
    let mut out = String::new();
    if neg {
        push_char(&mut out, '-');
    }
    proof {
        reveal_strlit("-");
        reveal_strlit("");
        reveal_strlit("0");
        reveal_strlit(".");
    }
    let ghost sign = out@;
    assert(sign =~= (if neg { "-"@ } else { ""@ }));
    if a == ie {
        push_char(&mut out, '0');
        assert(out@ =~= sign + "0"@);
    } else {
        push_range(&mut out, v, a, ie);
    }
    let ghost mid = out@;
    if b > fs {
        push_char(&mut out, '.');
        push_range(&mut out, v, fs, b);
        assert(out@ =~= mid + ("."@ + v@.subrange(fs as int, b as int)));
    } else {
        assert(out@ =~= mid + ""@);
    }
    out
}

/// Appends `n` zeros.
fn push_zeros(w: &mut Vec<char>, n: usize)
    ensures
        final(w)@ == old(w)@ + zeros(n as nat),
{
    let ghost w0 = w@;
    let mut k: usize = 0;
    while k < n
        invariant
            k <= n,
            w@ == w0 + zeros(k as nat),
        decreases n - k,
    {
        w.push('0');
        k = k + 1;
        assert(w@ =~= w0 + zeros(k as nat));
    }
}

/// Appends the characters of `v[lo..hi]`.
fn push_chars(w: &mut Vec<char>, v: &Vec<char>, lo: usize, hi: usize)
    requires
        lo <= hi <= v@.len(),
    ensures
        final(w)@ == old(w)@ + v@.subrange(lo as int, hi as int),
{
    let ghost w0 = w@;
    let mut k = lo;
    while k < hi
        invariant
            lo <= k <= hi <= v@.len(),
            w@ == w0 + v@.subrange(lo as int, k as int),
        decreases hi - k,
    {
        w.push(v[k]);
        k = k + 1;
        assert(w@ =~= w0 + v@.subrange(lo as int, k as int));
    }
}

/// The digits before the point of `d` shifted to `p`, then those after it;
/// `k` is where the point falls.
fn shifted_digits(d: &Vec<char>, p: i128) -> (r: (Vec<char>, usize))
    requires
        -200000 <= p <= 200000 + d@.len(),
    ensures
        r.0@ == shifted_int(d@, p as int) + shifted_frac(d@, p as int),
        r.1 == shifted_int(d@, p as int).len(),
{
    let l = d.len();
    let mut w: Vec<char> = Vec::new();
    if p <= 0 {
        push_zeros(&mut w, (-p) as usize);
        push_chars(&mut w, d, 0, l);
        assert(d@.subrange(0, l as int) =~= d@);
        assert(w@ =~= shifted_int(d@, p as int) + shifted_frac(d@, p as int));
        (w, 0)
    } else if p <= l as i128 {
        let q = p as usize;
        push_chars(&mut w, d, 0, l);
        assert(d@.subrange(0, l as int) =~= d@);
        assert(shifted_int(d@, p as int) == d@.take(q as int));
        assert(shifted_frac(d@, p as int) == d@.skip(q as int));
        assert(w@ =~= d@.take(q as int) + d@.skip(q as int));
        (w, q)
    } else {
        push_chars(&mut w, d, 0, l);
        assert(d@.subrange(0, l as int) =~= d@);
        let extra = (p - l as i128) as usize;
        push_zeros(&mut w, extra);
        assert(shifted_int(d@, p as int) == d@ + zeros(extra as nat));
        assert(shifted_frac(d@, p as int) == Seq::<char>::empty());
        assert(w@ =~= shifted_int(d@, p as int) + shifted_frac(d@, p as int));
        let k = w.len();
        (w, k)
    }
}

/// Index of the first `e` or `E` in `v[lo..hi]`, or `hi` when there is none.
fn exponent_index(v: &Vec<char>, lo: usize, hi: usize) -> (r: usize)
    requires
        lo <= hi <= v@.len(),
    ensures
        lo <= r <= hi,
        r < hi ==> first_index(exp_marks(v@.subrange(lo as int, hi as int)), true) == Some((r - lo) as int),
        r == hi ==> first_index(exp_marks(v@.subrange(lo as int, hi as int)), true) is None,
{
    let ghost u = v@.subrange(lo as int, hi as int);
    let ghost marks = exp_marks(u);
    let mut e = lo;
    while e < hi && v[e] != 'e' && v[e] != 'E'
        invariant
            lo <= e <= hi <= v@.len(),
            u == v@.subrange(lo as int, hi as int),
            marks == exp_marks(u),
            forall|j: int| 0 <= j < e - lo ==> marks[j] != true,
        decreases hi - e,
    {
        assert(marks[e - lo] == (u[e - lo] == 'e' || u[e - lo] == 'E'));
        e = e + 1;
    }
    proof {
        if e < hi {
            assert(marks[e - lo] == true);
            lemma_first_index_at(marks, true, e - lo);
        } else {
            lemma_first_index(marks, true);
        }
    }
    e
}

/// The value of the exponent `v[lo..hi]` when it is one and at most 100000
/// in size.
fn parse_exponent(v: &Vec<char>, lo: usize, hi: usize) -> (r: Option<i64>)
    requires
        lo <= hi <= v@.len(),
    ensures
        ({
            let xs = v@.subrange(lo as int, hi as int);
            match r {
                Some(x) => is_exponent(xs) && x == exponent_value(xs) && -100000 <= x <= 100000,
                None => !is_exponent(xs) || exponent_value(xs) < -100000 || exponent_value(xs) > 100000,
            }
        }),
{
    let ghost xs = v@.subrange(lo as int, hi as int);
    let neg = lo < hi && v[lo] == '-';
    let start: usize = if lo < hi && (v[lo] == '+' || v[lo] == '-') {
        lo + 1
    } else {
        lo
    };
    assert(strip_sign(xs) =~= v@.subrange(start as int, hi as int));
    if start == hi {
        return None;
    }
    match parse_digits(&v, start, hi, 100000) {
        Some(k) => {
            if neg {
                Some(-(k as i64))
            } else {
                Some(k as i64)
            }
        },
        None => None,
    }
}

/// For the unsigned float text `v[lo..hi]`: where its mantissa ends and
/// the value of its exponent, when it is a decimal number with an exponent
/// of at most 100000 in size.
fn float_exponent(v: &Vec<char>, lo: usize, hi: usize) -> (r: Option<(usize, i64)>)
    requires
        lo <= hi <= v@.len(),
    ensures
        ({
            let u = v@.subrange(lo as int, hi as int);
            match r {
                Some((me, x)) => is_decimal_float(u) && x == exponent_of(u) && -100000 <= x <= 100000
                    && lo <= me <= hi && mantissa_of(u) == v@.subrange(lo as int, me as int),
                None => !is_decimal_float(u) || exponent_of(u) < -100000 || exponent_of(u) > 100000,
            }
        }),
{
    let ghost u = v@.subrange(lo as int, hi as int);
    let me = exponent_index(v, lo, hi);
    let ghost m = mantissa_of(u);
    assert(m =~= v@.subrange(lo as int, me as int));
    if !is_mantissa_range(v, lo, me) {
        return None;
    }
    if me < hi {
        assert(u.skip(me - lo + 1) =~= v@.subrange(me + 1, hi as int));
        match parse_exponent(v, me + 1, hi) {
            Some(k) => Some((me, k)),
            None => None,
        }
    } else {
        Some((me, 0))
    }
}

/// The digits of the mantissa `v[lo..me]` without its point, and how many
/// come before the point.
fn mantissa_digits(v: &Vec<char>, lo: usize, me: usize) -> (r: (Vec<char>, usize))
    requires
        lo <= me <= v@.len(),
    ensures
        r.0@ == int_part(v@.subrange(lo as int, me as int)) + frac_part(v@.subrange(lo as int, me as int)),
        r.1 == int_part(v@.subrange(lo as int, me as int)).len(),
        r.1 <= r.0@.len(),
{
    let ghost m = v@.subrange(lo as int, me as int);
    proof {
        lemma_first_index(m, '.');
    }
    let (ie, fs): (usize, usize) = match find_char(v, lo, me, '.') {
        Some(dd) => (lo + dd, lo + dd + 1),
        None => (me, me),
    };
    assert(int_part(m) =~= v@.subrange(lo as int, ie as int));
    assert(frac_part(m) =~= v@.subrange(fs as int, me as int));
    let mut d: Vec<char> = Vec::new();
    push_chars(&mut d, v, lo, ie);
    push_chars(&mut d, v, fs, me);
    assert(d@ =~= int_part(m) + frac_part(m));
    (d, ie - lo)
}

/// The text of a float as it is displayed (see [`float_display`]).
pub fn display_float_text(t: &str) -> (r: String)
    ensures
        r@ == float_display(t@),
{
    let v = chars_of(t);
    let n = v.len();
    let lo: usize = if n > 0 && (v[0] == '+' || v[0] == '-') {
        1
    } else {
        0
    };
    let ghost u = strip_sign(t@);
    assert(u =~= v@.subrange(lo as int, n as int));
    let (me, x) = match float_exponent(&v, lo, n) {
        Some(e) => e,
        None => {
            return chars_string(&v);
        },
    };
    let (d, il) = mantissa_digits(&v, lo, me);
    let p: i128 = il as i128 + x as i128;
    match display_digits(v[0] == '-', &d, p) {
        Some(r) => r,
        None => chars_string(&v),
    }
}

/// The positional text of a number from its digits (see [`digits_display`]).
fn display_digits(neg: bool, d: &Vec<char>, p: i128) -> (r: Option<String>)
    requires
        -200000 <= p <= 200000 + d@.len(),
    ensures
        match digits_display(neg, d@, p as int) {
            Some(s) => r matches Some(x) && x@ == s,
            None => r is None,
        },
{
    reveal(digits_display);
    let a0 = skip_leading_zeros(d, 0, d.len());
    let b0 = skip_trailing_zeros(d, a0, d.len());
    assert(d@.subrange(0, d@.len() as int) =~= d@);
    if b0 == a0 {
        return Some(to_owned_zero());
    }
    if b0 - a0 > 15 {
        return None;
    }
    let (w, k) = shifted_digits(d, p);
    assert(w@.subrange(0, k as int) =~= shifted_int(d@, p as int));
    assert(w@.subrange(k as int, w@.len() as int) =~= shifted_frac(d@, p as int));
    let a = skip_leading_zeros(&w, 0, k);
    let b = skip_trailing_zeros(&w, k, w.len());
    if k - a > 18 || b - k > 300 {
        return None;
    }
    Some(assemble_decimal(&w, neg, a, k, k, b))
}

/// The string of some characters.
fn chars_string(v: &Vec<char>) -> (r: String)
    ensures
        r@ == v@,
{
    let mut out = String::new();
    push_range(&mut out, v, 0, v.len());
    assert(v@.subrange(0, v@.len() as int) =~= v@);
    out
}

/// The text `0`.
fn to_owned_zero() -> (r: String)
    ensures
        r@ == "0"@,
{
    let mut out = String::new();
    push_str(&mut out, "0");
    out
}

/// The integer that the number written as the plain decimal `t` (an
/// optional sign, digits and at most one `.`) truncates to, when it has at
/// most 15 significant digits: an `f64` holds such a decimal closely enough
/// that truncating it gives the decimal's integer part.
pub open spec fn truncated_int(t: Seq<char>) -> Option<int> {
    let m = strip_sign(t);
    let d = int_part(m) + frac_part(m);
    if is_mantissa(m) && drop_trailing_zeros(drop_leading_zeros(d)).len() <= 15
        && digits_value(int_part(m)) <= 1000000000000000 {
        if t[0] == '-' {
            Some(-(digits_value(int_part(m)) as int))
        } else {
            Some(digits_value(int_part(m)) as int)
        }
    } else {
        None
    }
}

/// The integer a number text truncates to (see [`truncated_int`]).
pub fn truncate_number_text(t: &str) -> (r: Option<i64>)
    ensures
        match truncated_int(t@) {
            Some(n) => r == Some(n as i64),
            None => r is None,
        },
{
    let v = chars_of(t);
    let n = v.len();
    let lo: usize = if n > 0 && (v[0] == '+' || v[0] == '-') {
        1
    } else {
        0
    };
    let ghost m = strip_sign(t@);
    assert(m =~= v@.subrange(lo as int, n as int));
    if !is_mantissa_range(&v, lo, n) {
        return None;
    }
    let (d, il) = mantissa_digits(&v, lo, n);
    let a0 = skip_leading_zeros(&d, 0, d.len());
    let b0 = skip_trailing_zeros(&d, a0, d.len());
    assert(d@.subrange(0, d@.len() as int) =~= d@);
    if b0 - a0 > 15 {
        return None;
    }
    assert(d@.subrange(0, il as int) =~= int_part(m));
    match parse_digits(&d, 0, il, 1000000000000000) {
        Some(k) => {
            if v[0] == '-' {
                Some(-(k as i64))
            } else {
                Some(k as i64)
            }
        },
        None => None,
    }
}

} // verus!
