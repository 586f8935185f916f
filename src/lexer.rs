//! Token-level grammar: numbers, spaces and fixed words, over a sequence of
//! characters. Each parser looks at the characters from a start position and
//! reports where the token ends.

use vstd::prelude::*;

use vstd::arithmetic::div_mod::lemma_fundamental_div_mod_converse;

use crate::decimal::{lemma_pow10_positive, pow10, round_div, Decimal};

verus! {

/// Largest magnitude of a number literal, in micro-units (`10^9` units); larger
/// literals are held at this bound, which every color range lies far within.
pub const LITERAL_CAP: i64 = 1_000_000_000_000_000;

/// Exponents are read up to this magnitude; any larger one already moves every
/// nonzero literal past `LITERAL_CAP` or below half a micro-unit.
const EXPONENT_CAP: i128 = 100_000_000_000_000_000_000;

pub open spec fn is_digit(c: char) -> bool {
    '0' <= c <= '9'
}

pub open spec fn digit_value(c: char) -> int {
    c as int - '0' as int
}

pub open spec fn all_digits(ds: Seq<char>) -> bool {
    forall|k: int| 0 <= k < ds.len() ==> is_digit(#[trigger] ds[k])
}

/// The digits `ds`, read as one decimal integer.
pub open spec fn digits_value(ds: Seq<char>) -> int
    decreases ds.len(),
{
    if ds.len() == 0 {
        0
    } else {
        digits_value(ds.drop_last()) * 10 + digit_value(ds.last())
    }
}

/// The end of the run of digits that starts at `i`.
pub open spec fn digits_end(s: Seq<char>, i: int) -> int
    decreases s.len() - i,
{
    if 0 <= i < s.len() && is_digit(s[i]) {
        digits_end(s, i + 1)
    } else {
        i
    }
}

pub open spec fn is_sign(s: Seq<char>, i: int) -> bool {
    0 <= i < s.len() && (s[i] == '+' || s[i] == '-')
}

/// The position after an optional sign at `i`.
pub open spec fn after_sign(s: Seq<char>, i: int) -> int {
    if is_sign(s, i) {
        i + 1
    } else {
        i
    }
}

/// The exponent that starts at `i` (`e` or `E`, an optional sign, one or more
/// digits): its end and its value; `(i, 0)` where there is none.
pub open spec fn spec_exponent(s: Seq<char>, i: int) -> (int, int) {
    if 0 <= i < s.len() && (s[i] == 'e' || s[i] == 'E') {
        let k = after_sign(s, i + 1);
        let end = digits_end(s, k);
        if end > k {
            let v = digits_value(s.subrange(k, end));
            (end, if s[i + 1] == '-' { -v } else { v })
        } else {
            (i, 0)
        }
    } else {
        (i, 0)
    }
}

/// The magnitude of `m * 10^t` in micro-units, rounded to the nearest (halves
/// up) and held at `LITERAL_CAP`.
pub open spec fn scaled_magnitude(m: int, t: int) -> int {
    let v = if t >= 0 {
        m * pow10(t as nat)
    } else {
        round_div(m, pow10((-t) as nat))
    };
    if v > LITERAL_CAP {
        LITERAL_CAP as int
    } else {
        v
    }
}

/// A number literal at `i`: an optional sign, then digits with an optional `.`
/// and fraction digits, or `.` and fraction digits, then an optional exponent.
/// On success: the end of the literal and its value in micro-units, rounded to
/// the nearest and held within `LITERAL_CAP`.
pub open spec fn spec_number(s: Seq<char>, i: int) -> Option<(int, Decimal)> {
    let a = after_sign(s, i);
    let p = digits_end(s, a);
    let has_point = 0 <= p < s.len() && s[p] == '.';
    let f0 = if has_point { p + 1 } else { p };
    let f1 = if has_point { digits_end(s, p + 1) } else { p };
    if p == a && f1 == f0 {
        None
    } else {
        let (end, e) = spec_exponent(s, f1);
        let m = digits_value(s.subrange(a, p) + s.subrange(f0, f1));
        let mag = scaled_magnitude(m, e - (f1 - f0) + 6);
        let micros = if is_sign(s, i) && s[i] == '-' { -mag } else { mag };
        Some((end, Decimal { micros: micros as i64 }))
    }
}

// ---------------------------------------------------------------------------
// Facts about powers of ten and digit strings
// ---------------------------------------------------------------------------

pub proof fn lemma_pow10_add(a: nat, b: nat)
    ensures
        pow10(a + b) == pow10(a) * pow10(b),
    decreases b,
{
    if b > 0 {
        lemma_pow10_add(a, (b - 1) as nat);
        assert(pow10(a + b) == 10 * pow10((a + b - 1) as nat));
        assert(pow10(a) * pow10(b) == pow10(a) * (10 * pow10((b - 1) as nat)));
        assert(pow10(a) * (10 * pow10((b - 1) as nat)) == 10 * (pow10(a) * pow10(
            (b - 1) as nat,
        ))) by (nonlinear_arith);
    }
}

pub proof fn lemma_pow10_mono(a: nat, b: nat)
    requires
        a <= b,
    ensures
        1 <= pow10(a) <= pow10(b),
    decreases b,
{
    lemma_pow10_positive(a);
    if a < b {
        lemma_pow10_mono(a, (b - 1) as nat);
    }
}

pub proof fn lemma_digits_value_bound(ds: Seq<char>)
    requires
        all_digits(ds),
    ensures
        0 <= digits_value(ds) < pow10(ds.len()),
    decreases ds.len(),
{
    if ds.len() > 0 {
        let init = ds.drop_last();
        assert(all_digits(init)) by {
            assert forall|k: int| 0 <= k < init.len() implies is_digit(#[trigger] init[k]) by {
                assert(init[k] == ds[k]);
            }
        }
        lemma_digits_value_bound(init);
        assert(is_digit(ds[ds.len() - 1]));
        let v = digits_value(init);
        let p = pow10(init.len());
        assert(v * 10 + digit_value(ds.last()) < p * 10) by (nonlinear_arith)
            requires
                0 <= v < p,
                0 <= digit_value(ds.last()) <= 9,
        ;
    }
}

pub proof fn lemma_digits_value_append(x: Seq<char>, y: Seq<char>)
    ensures
        digits_value(x + y) == digits_value(x) * pow10(y.len()) + digits_value(y),
    decreases y.len(),
{
    if y.len() == 0 {
        assert(x + y =~= x);
        assert(pow10(0) == 1);
        assert(digits_value(y) == 0);
        assert(digits_value(x) * 1 == digits_value(x));
    } else {
        let y0 = y.drop_last();
        assert((x + y).drop_last() =~= x + y0);
        assert((x + y).last() == y.last());
        lemma_digits_value_append(x, y0);
        let vx = digits_value(x);
        let p = pow10(y0.len());
        let dl = digit_value(y.last());
        assert(pow10(y.len()) == 10 * p);
        assert(digits_value(x + y) == digits_value(x + y0) * 10 + dl);
        assert(digits_value(y) == digits_value(y0) * 10 + dl);
        assert((vx * p + digits_value(y0)) * 10 == vx * (10 * p) + digits_value(y0) * 10)
            by (nonlinear_arith);
    }
}

/// A number below `10^n`, divided by `10^q` with `q > n` and rounded, gives 0.
proof fn lemma_round_small(m: int, n: nat, q: nat)
    requires
        0 <= m < pow10(n),
        n < q,
    ensures
        round_div(m, pow10(q)) == 0,
{
    let tenth = pow10((q - 1) as nat);
    lemma_pow10_mono(n, (q - 1) as nat);
    assert(pow10(q) == 10 * tenth);
    lemma_fundamental_div_mod_converse(2 * m + pow10(q), 2 * pow10(q), 0, 2 * m + pow10(q));
}

/// Dividing `a * 10^q + r` by `10^q` and rounding gives `a`, plus one where the
/// leading digit `d` of the `q`-digit remainder `r` is 5 or more.
proof fn lemma_round_split(a: int, d: int, rest: int, q: nat)
    requires
        a >= 0,
        0 <= d <= 9,
        q >= 1,
        0 <= rest < pow10((q - 1) as nat),
    ensures
        round_div(a * pow10(q) + d * pow10((q - 1) as nat) + rest, pow10(q)) == a + if d >= 5 {
            1int
        } else {
            0int
        },
{
    let tenth = pow10((q - 1) as nat);
    let p = pow10(q);
    lemma_pow10_positive((q - 1) as nat);
    assert(p == 10 * tenth);
    let bit: int = if d >= 5 {
        1
    } else {
        0
    };
    let x = 2 * (a * p + d * tenth + rest) + p;
    let r = 2 * d * tenth + 2 * rest + p - bit * 2 * p;
    assert(0 <= r < 2 * p) by (nonlinear_arith)
        requires
            p == 10 * tenth,
            tenth >= 1,
            0 <= rest < tenth,
            0 <= d <= 9,
            bit == (if d >= 5 {
                1int
            } else {
                0int
            }),
            r == 2 * d * tenth + 2 * rest + p - bit * 2 * p,
    ;
    assert(x == (a + bit) * (2 * p) + r) by (nonlinear_arith)
        requires
            x == 2 * (a * p + d * tenth + rest) + p,
            r == 2 * d * tenth + 2 * rest + p - bit * 2 * p,
    ;
    lemma_fundamental_div_mod_converse(x, 2 * p, a + bit, r);
}

/// Reading an exponent only up to `EXPONENT_CAP` changes no literal's value.
proof fn lemma_exponent_cap(m: int, n: nat, nf: int, e: int, e2: int)
    requires
        0 <= m < pow10(n),
        n <= usize::MAX,
        0 <= nf <= usize::MAX,
        e == e2 || (e >= EXPONENT_CAP && e2 == EXPONENT_CAP) || (e <= -EXPONENT_CAP && e2
            == -EXPONENT_CAP),
    ensures
        scaled_magnitude(m, e - nf + 6) == scaled_magnitude(m, e2 - nf + 6),
{
    if e != e2 {
        if e2 > 0 {
            let t1 = e - nf + 6;
            let t2 = e2 - nf + 6;
            reveal_with_fuel(pow10, 17);
            assert(pow10(16) == 10_000_000_000_000_000int);
            lemma_pow10_mono(16, t1 as nat);
            lemma_pow10_mono(16, t2 as nat);
            if m > 0 {
                assert(m * pow10(t1 as nat) >= pow10(t1 as nat)) by (nonlinear_arith)
                    requires
                        m >= 1,
                        pow10(t1 as nat) >= 1,
                ;
                assert(m * pow10(t2 as nat) >= pow10(t2 as nat)) by (nonlinear_arith)
                    requires
                        m >= 1,
                        pow10(t2 as nat) >= 1,
                ;
                assert(scaled_magnitude(m, t1) == LITERAL_CAP);
                assert(scaled_magnitude(m, t2) == LITERAL_CAP);
            } else {
                assert(m == 0);
                assert(m * pow10(t1 as nat) == 0);
                assert(m * pow10(t2 as nat) == 0);
                assert(scaled_magnitude(m, t1) == 0);
                assert(scaled_magnitude(m, t2) == 0);
            }
        } else {
            lemma_round_small(m, n, (nf - e - 6) as nat);
            lemma_round_small(m, n, (nf - e2 - 6) as nat);
        }
    }
}

fn is_digit_char(c: char) -> (r: bool)
    ensures
        r == is_digit(c),
{
    c >= '0' && c <= '9'
}

fn digit_of(c: char) -> (r: i64)
    requires
        is_digit(c),
    ensures
        r == digit_value(c),
        0 <= r <= 9,
{
    (c as u32 - '0' as u32) as i64
}

/// `digits_end` on a vector.
pub fn scan_digits(s: &Vec<char>, i: usize) -> (j: usize)
    requires
        i <= s.len(),
    ensures
        j == digits_end(s@, i as int),
        i <= j <= s.len(),
        all_digits(s@.subrange(i as int, j as int)),
{
    let mut j = i;
    while j < s.len() && is_digit_char(s[j])
        invariant
            i <= j <= s.len(),
            digits_end(s@, j as int) == digits_end(s@, i as int),
            all_digits(s@.subrange(i as int, j as int)),
        decreases s.len() - j,
    {
        assert(s@.subrange(i as int, j + 1) =~= s@.subrange(i as int, j as int).push(s@[j as int]));
        j = j + 1;
    }
    j
}

/// `min(digits_value(ds[0..len]), cap)`.
fn prefix_value(ds: &Vec<char>, len: usize, cap: i128) -> (r: i128)
    requires
        all_digits(ds@),
        len <= ds.len(),
        0 < cap <= EXPONENT_CAP,
    ensures
        r == if digits_value(ds@.take(len as int)) > cap {
            cap as int
        } else {
            digits_value(ds@.take(len as int))
        },
{
    let mut acc: i128 = 0;
    let mut k: usize = 0;
    assert(ds@.take(0) =~= Seq::<char>::empty());
    while k < len
        invariant
            all_digits(ds@),
            k <= len <= ds.len(),
            0 < cap <= EXPONENT_CAP,
            acc == if digits_value(ds@.take(k as int)) > cap {
                cap as int
            } else {
                digits_value(ds@.take(k as int))
            },
        decreases len - k,
    {
        assert(ds@.take(k + 1).drop_last() =~= ds@.take(k as int));
        assert(is_digit(ds@[k as int]));
        let d = digit_of(ds[k]) as i128;
        proof {
            lemma_digits_value_bound(ds@.take(k as int));
        }
        let next = acc * 10 + d;
        acc = if next > cap {
            cap
        } else {
            next
        };
        k = k + 1;
    }
    acc
}

/// Appends `s[from..to]` to `out`.
fn append_range(s: &Vec<char>, from: usize, to: usize, out: &mut Vec<char>)
    requires
        from <= to <= s.len(),
    ensures
        final(out)@ == old(out)@ + s@.subrange(from as int, to as int),
{
    let mut k = from;
    while k < to
        invariant
            from <= k <= to <= s.len(),
            out@ == old(out)@ + s@.subrange(from as int, k as int),
        decreases to - k,
    {
        out.push(s[k]);
        assert(s@.subrange(from as int, k + 1) =~= s@.subrange(from as int, k as int).push(
            s@[k as int],
        ));
        assert(old(out)@ + s@.subrange(from as int, k + 1) =~= (old(out)@ + s@.subrange(
            from as int,
            k as int,
        )).push(s@[k as int]));
        k = k + 1;
    }
}

/// `scaled_magnitude(digits_value(ds), t)`.
fn magnitude(ds: &Vec<char>, t: i128) -> (r: i64)
    requires
        all_digits(ds@),
        -EXPONENT_CAP - 0x1_0000_0000_0000_0000 <= t <= EXPONENT_CAP + 6,
    ensures
        r == scaled_magnitude(digits_value(ds@), t as int),
        0 <= r <= LITERAL_CAP,
{
    let n = ds.len();
    let big: i128 = LITERAL_CAP as i128 + 1;
    let ghost m = digits_value(ds@);
    proof {
        lemma_digits_value_bound(ds@);
        assert(ds@.take(n as int) =~= ds@);
    }
    if t >= 0 {
        let mut acc = prefix_value(ds, n, big);
        let mut j: i128 = 0;
        assert(pow10(0) == 1);
        while j < t && 0 < acc && acc < big
            invariant
                0 <= j <= t,
                m >= 0,
                big == LITERAL_CAP + 1,
                acc == if m * pow10(j as nat) > big {
                    big as int
                } else {
                    m * pow10(j as nat)
                },
            decreases t - j,
        {
            proof {
                let pj = pow10(j as nat);
                assert(pow10((j + 1) as nat) == 10 * pj);
                assert(m * (10 * pj) == (m * pj) * 10) by (nonlinear_arith);
            }
            let next = acc * 10;
            acc = if next > big {
                big
            } else {
                next
            };
            j = j + 1;
        }
        proof {
            let pj = pow10(j as nat);
            let pt = pow10(t as nat);
            lemma_pow10_add(j as nat, (t - j) as nat);
            lemma_pow10_positive(j as nat);
            lemma_pow10_positive((t - j) as nat);
            assert(pt == pj * pow10((t - j) as nat));
            if j < t {
                if acc == 0 {
                    assert(m == 0) by (nonlinear_arith)
                        requires
                            m >= 0,
                            pj >= 1,
                            m * pj == 0,
                    ;
                    assert(m * pt == 0);
                } else {
                    let w = pow10((t - j) as nat);
                    assert(m * pt == (m * pj) * w) by (nonlinear_arith)
                        requires
                            pt == pj * w,
                    ;
                    assert((m * pj) * w >= m * pj) by (nonlinear_arith)
                        requires
                            m * pj >= 0,
                            w >= 1,
                    ;
                }
            }
        }
        if acc > LITERAL_CAP as i128 {
            LITERAL_CAP
        } else {
            acc as i64
        }
    } else {
        let q = -t;
        if q > n as i128 {
            proof {
                lemma_round_small(m, n as nat, q as nat);
            }
            return 0;
        }
        let keep = (n as i128 - q) as usize;
        let acc = prefix_value(ds, keep, big);
        let up = ds[keep] >= '5';
        proof {
            let x = ds@.take(keep as int);
            let y = ds@.skip(keep as int);
            let d = y[0];
            let rest = y.skip(1);
            assert(ds@ =~= x + y);
            lemma_digits_value_append(x, y);
            assert(y =~= seq![d] + rest);
            lemma_digits_value_append(seq![d], rest);
            assert(seq![d].drop_last() =~= Seq::<char>::empty());
            assert(seq![d].last() == d);
            assert(digits_value(Seq::<char>::empty()) == 0);
            assert(digits_value(seq![d]) == digit_value(d));
            assert(is_digit(ds@[keep as int]));
            assert(all_digits(rest)) by {
                assert forall|k: int| 0 <= k < rest.len() implies is_digit(#[trigger] rest[k]) by {
                    assert(rest[k] == ds@[keep + 1 + k]);
                }
            }
            assert(all_digits(x)) by {
                assert forall|k: int| 0 <= k < x.len() implies is_digit(#[trigger] x[k]) by {
                    assert(x[k] == ds@[k]);
                }
            }
            lemma_digits_value_bound(rest);
            lemma_digits_value_bound(x);
            lemma_round_split(digits_value(x), digit_value(d), digits_value(rest), q as nat);
        }
        let v = acc + if up {
            1
        } else {
            0
        };
        if v > LITERAL_CAP as i128 {
            LITERAL_CAP
        } else {
            v as i64
        }
    }
}

/// The exponent at `i`, as `spec_exponent` gives it, its value held within
/// `EXPONENT_CAP`.
fn exponent(s: &Vec<char>, i: usize) -> (r: (usize, i128))
    requires
        i <= s.len(),
    ensures
        r.0 == spec_exponent(s@, i as int).0,
        i <= r.0 <= s.len(),
        -EXPONENT_CAP <= r.1 <= EXPONENT_CAP,
        ({
            let e = spec_exponent(s@, i as int).1;
            ||| r.1 == e
            ||| e >= EXPONENT_CAP && r.1 == EXPONENT_CAP
            ||| e <= -EXPONENT_CAP && r.1 == -EXPONENT_CAP
        }),
{
    let n = s.len();
    if i < n && (s[i] == 'e' || s[i] == 'E') {
        let k = if i + 1 < n && (s[i + 1] == '+' || s[i + 1] == '-') {
            i + 2
        } else {
            i + 1
        };
        let end = scan_digits(s, k);
        if end > k {
            let mut ds: Vec<char> = Vec::new();
            append_range(s, k, end, &mut ds);
            assert(ds@ =~= s@.subrange(k as int, end as int));
            assert(ds@.take(ds.len() as int) =~= ds@);
            let v = prefix_value(&ds, ds.len(), EXPONENT_CAP);
            proof {
                lemma_digits_value_bound(ds@);
            }
            if s[i + 1] == '-' {
                (end, -v)
            } else {
                (end, v)
            }
        } else {
            (i, 0)
        }
    } else {
        (i, 0)
    }
}

/// The digits `s[a..p]` followed by `s[f0..f1]`.
fn mantissa_digits(s: &Vec<char>, a: usize, p: usize, f0: usize, f1: usize) -> (ds: Vec<char>)
    requires
        a <= p <= s.len(),
        f0 <= f1 <= s.len(),
        all_digits(s@.subrange(a as int, p as int)),
        all_digits(s@.subrange(f0 as int, f1 as int)),
    ensures
        ds@ == s@.subrange(a as int, p as int) + s@.subrange(f0 as int, f1 as int),
        all_digits(ds@),
{
    let mut ds: Vec<char> = Vec::new();
    append_range(s, a, p, &mut ds);
    append_range(s, f0, f1, &mut ds);
    let ghost x = s@.subrange(a as int, p as int);
    let ghost y = s@.subrange(f0 as int, f1 as int);
    assert(ds@ =~= x + y);
    assert(all_digits(ds@)) by {
        assert forall|k: int| 0 <= k < ds@.len() implies is_digit(#[trigger] ds@[k]) by {
            if k < x.len() {
                assert(ds@[k] == x[k]);
            } else {
                assert(ds@[k] == y[k - x.len()]);
            }
        }
    }
    ds
}

/// An `Option` of an end position and a value, with the position as an `int`.
pub open spec fn at_int<T>(r: Option<(usize, T)>) -> Option<(int, T)> {
    match r {
        Some((j, v)) => Some((j as int, v)),
        None => None,
    }
}

/// The number literal at `i` (see `spec_number`).
pub fn number(s: &Vec<char>, i: usize) -> (r: Option<(usize, Decimal)>)
    requires
        i <= s.len(),
    ensures
        at_int(r) == spec_number(s@, i as int),
        r matches Some((j, v)) ==> i < j <= s.len() && -LITERAL_CAP <= v.micros <= LITERAL_CAP,
{
    let n = s.len();
    let signed = i < n && (s[i] == '+' || s[i] == '-');
    let a = if signed {
        i + 1
    } else {
        i
    };
    let p = scan_digits(s, a);
    let has_point = p < n && s[p] == '.';
    let (f0, f1) = if has_point {
        (p + 1, scan_digits(s, p + 1))
    } else {
        (p, p)
    };
    if p == a && f1 == f0 {
        return None;
    }
    let (end, e) = exponent(s, f1);
    let ds = mantissa_digits(s, a, p, f0, f1);
    let t = e - (f1 - f0) as i128 + 6;
    let mag = magnitude(&ds, t);
    proof {
        lemma_digits_value_bound(ds@);
        lemma_exponent_cap(
            digits_value(ds@),
            ds@.len(),
            (f1 - f0) as int,
            spec_exponent(s@, f1 as int).1,
            e as int,
        );
    }
    let micros = if signed && s[i] == '-' {
        -mag
    } else {
        mag
    };
    Some((end, Decimal { micros }))
}

pub open spec fn is_space(c: char) -> bool {
    c == ' ' || c == '\t'
}

/// The end of the run of spaces and tabs that starts at `i`.
pub open spec fn spaces_end(s: Seq<char>, i: int) -> int
    decreases s.len() - i,
{
    if 0 <= i < s.len() && is_space(s[i]) {
        spaces_end(s, i + 1)
    } else {
        i
    }
}

/// Whether the characters `w` stand in `s` at `i`.
pub open spec fn has_word(s: Seq<char>, i: int, w: Seq<char>) -> bool {
    0 <= i && i + w.len() <= s.len() && s.subrange(i, i + w.len()) == w
}

/// A number literal at `i` directly followed by `%`; the number is not scaled.
pub open spec fn spec_percentage(s: Seq<char>, i: int) -> Option<(int, Decimal)> {
    match spec_number(s, i) {
        Some((j, v)) => if 0 <= j < s.len() && s[j] == '%' {
            Some((j + 1, v))
        } else {
            None
        },
        None => None,
    }
}

/// `spaces_end` on a vector.
pub fn skip_spaces(s: &Vec<char>, i: usize) -> (j: usize)
    requires
        i <= s.len(),
    ensures
        j == spaces_end(s@, i as int),
        i <= j <= s.len(),
{
    let mut j = i;
    while j < s.len() && (s[j] == ' ' || s[j] == '\t')
        invariant
            i <= j <= s.len(),
            spaces_end(s@, j as int) == spaces_end(s@, i as int),
        decreases s.len() - j,
    {
        j = j + 1;
    }
    j
}

/// Whether the characters of `w` stand in `s` at `i`.
pub fn word_at(s: &Vec<char>, i: usize, w: &str) -> (r: bool)
    requires
        i <= s.len(),
    ensures
        r == has_word(s@, i as int, w@),
{
    let len = w.unicode_len();
    if len > s.len() - i {
        return false;
    }
    let mut k: usize = 0;
    while k < len
        invariant
            len == w@.len(),
            i + len <= s.len(),
            k <= len,
            forall|m: int| 0 <= m < k ==> s@[i + m] == w@[m],
        decreases len - k,
    {
        if s[i + k] != w.get_char(k) {
            assert(s@.subrange(i as int, i + len)[k as int] != w@[k as int]);
            return false;
        }
        k = k + 1;
    }
    assert(s@.subrange(i as int, i + len) =~= w@);
    true
}

/// The percentage at `i` (see `spec_percentage`).
pub fn percentage(s: &Vec<char>, i: usize) -> (r: Option<(usize, Decimal)>)
    requires
        i <= s.len(),
    ensures
        at_int(r) == spec_percentage(s@, i as int),
        r matches Some((j, v)) ==> i < j <= s.len() && -LITERAL_CAP <= v.micros <= LITERAL_CAP,
{
    match number(s, i) {
        Some((j, v)) => if j < s.len() && s[j] == '%' {
            Some((j + 1, v))
        } else {
            None
        },
        None => None,
    }
}

/// No `)` stands in `s[i..j]`, a valid range.
pub open spec fn no_close(s: Seq<char>, i: int, j: int) -> bool {
    &&& 0 <= i <= j <= s.len()
    &&& forall|k: int| i <= k < j ==> #[trigger] s[k] != ')'
}

pub proof fn lemma_no_close_join(s: Seq<char>, i: int, a: int, j: int)
    requires
        no_close(s, i, a),
        no_close(s, a, j),
    ensures
        no_close(s, i, j),
{
    assert forall|k: int| i <= k < j implies #[trigger] s[k] != ')' by {
        if k < a {
            assert(s[k] != ')');
        } else {
            assert(s[k] != ')');
        }
    }
}

pub proof fn lemma_digits_no_close(s: Seq<char>, i: int)
    requires
        0 <= i <= s.len(),
    ensures
        no_close(s, i, digits_end(s, i)),
    decreases s.len() - i,
{
    if i < s.len() && is_digit(s[i]) {
        lemma_digits_no_close(s, i + 1);
        assert(no_close(s, i, i + 1));
        lemma_no_close_join(s, i, i + 1, digits_end(s, i));
    }
}

pub proof fn lemma_spaces_no_close(s: Seq<char>, i: int)
    requires
        0 <= i <= s.len(),
    ensures
        no_close(s, i, spaces_end(s, i)),
    decreases s.len() - i,
{
    if i < s.len() && is_space(s[i]) {
        lemma_spaces_no_close(s, i + 1);
        assert(no_close(s, i, i + 1));
        lemma_no_close_join(s, i, i + 1, spaces_end(s, i));
    }
}

/// A word without `)` that stands at `i` holds no `)`.
pub proof fn lemma_word_no_close(s: Seq<char>, i: int, w: Seq<char>)
    requires
        has_word(s, i, w),
        forall|m: int| 0 <= m < w.len() ==> #[trigger] w[m] != ')',
    ensures
        no_close(s, i, i + w.len()),
{
    assert forall|k: int| i <= k < i + w.len() implies #[trigger] s[k] != ')' by {
        assert(s[k] == s.subrange(i, i + w.len())[k - i]);
        assert(w[k - i] != ')');
    }
}

/// A number literal holds no `)`.
pub proof fn lemma_number_no_close(s: Seq<char>, i: int)
    requires
        0 <= i <= s.len(),
    ensures
        spec_number(s, i) matches Some((j, _)) ==> no_close(s, i, j),
{
    let a = after_sign(s, i);
    assert(no_close(s, i, a));
    lemma_digits_no_close(s, a);
    let p = digits_end(s, a);
    lemma_no_close_join(s, i, a, p);
    let has_point = 0 <= p < s.len() && s[p] == '.';
    let f1 = if has_point {
        digits_end(s, p + 1)
    } else {
        p
    };
    if has_point {
        assert(no_close(s, p, p + 1));
        lemma_digits_no_close(s, p + 1);
        lemma_no_close_join(s, p, p + 1, f1);
        lemma_no_close_join(s, i, p, f1);
    }
    if 0 <= f1 < s.len() && (s[f1] == 'e' || s[f1] == 'E') {
        let k = after_sign(s, f1 + 1);
        assert(no_close(s, f1, k));
        lemma_digits_no_close(s, k);
        lemma_no_close_join(s, f1, k, digits_end(s, k));
        lemma_no_close_join(s, i, f1, digits_end(s, k));
    }
}

/// A percentage holds no `)`.
pub proof fn lemma_percentage_no_close(s: Seq<char>, i: int)
    requires
        0 <= i <= s.len(),
    ensures
        spec_percentage(s, i) matches Some((j, _)) ==> no_close(s, i, j),
{
    lemma_number_no_close(s, i);
    if let Some((j, _)) = spec_number(s, i) {
        if 0 <= j < s.len() && s[j] == '%' {
            assert(no_close(s, j, j + 1));
            lemma_no_close_join(s, i, j, j + 1);
        }
    }
}

} // verus!
