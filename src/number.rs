//! Seconds as the structured document writes them: JSON number text, read
//! and written exactly, at millisecond precision.
use vstd::prelude::*;
use vstd::string::*;

use crate::text::{chars_of, decimal, digit_char, digit_str, digit_value, is_digit, push_decimal};
use crate::time::Duration;

verus! {

/// The value of a run of decimal digits.
pub open spec fn digits_value(s: Seq<char>) -> int
    decreases s.len(),
{
    if s.len() == 0 {
        0
    } else {
        digits_value(s.drop_last()) * 10 + digit_value(s.last())
    }
}

/// `10` to the power `n`.
pub open spec fn pow10(n: nat) -> nat
    decreases n,
{
    if n == 0 {
        1
    } else {
        10 * pow10((n - 1) as nat)
    }
}

/// The end of the run of digits that starts at `t[i]`.
pub open spec fn digits_end(t: Seq<char>, i: int) -> int
    decreases t.len() - i,
{
    if 0 <= i < t.len() && is_digit(t[i]) {
        digits_end(t, i + 1)
    } else {
        i
    }
}

/// The parts of a number text `-? digits (. digits)? ([eE] [+-]? digits)?`:
/// whether it is negative, all its significant digits, how many of them
/// stand before the point, and the exponent. Exponents have at most three
/// digits. `None` where the text is not such a number.
pub open spec fn number_parts(t: Seq<char>) -> Option<(bool, Seq<char>, int, int)> {
    let negative = t.len() > 0 && t[0] == '-';
    let s0: int = if negative {
        1
    } else {
        0
    };
    let a = digits_end(t, s0);
    let has_fraction = a < t.len() && t[a] == '.';
    let b = if has_fraction {
        digits_end(t, a + 1)
    } else {
        a
    };
    let digits = if has_fraction {
        t.subrange(s0, a) + t.subrange(a + 1, b)
    } else {
        t.subrange(s0, a)
    };
    let has_exponent = b < t.len();
    let exp_negative = has_exponent && b + 1 < t.len() && t[b + 1] == '-';
    let c = if has_exponent && b + 1 < t.len() && (t[b + 1] == '-' || t[b + 1] == '+') {
        b + 2
    } else {
        b + 1
    };
    let f = digits_end(t, c);
    let magnitude = digits_value(t.subrange(c, f));
    let exponent = if !has_exponent {
        0
    } else if exp_negative {
        -magnitude
    } else {
        magnitude as int
    };
    if a == s0 || (has_fraction && b == a + 1) {
        None
    } else if has_exponent && !((t[b] == 'e' || t[b] == 'E') && c < f && f == t.len() && f - c
        <= 3) {
        None
    } else {
        Some((negative, digits, a - s0, exponent))
    }
}

/// The digits of an integer whose decimal digits are `g`, shifted so that
/// `p` of them stand before the point, and cut at the point.
pub open spec fn shifted(g: Seq<char>, p: int) -> Seq<char> {
    if p <= 0 {
        Seq::empty()
    } else if p <= g.len() {
        g.take(p)
    } else {
        g + Seq::new((p - g.len()) as nat, |i: int| '0')
    }
}

/// `v` clamped to the range of `i64`.
pub open spec fn clamp_i64(v: int) -> int {
    if v < i64::MIN {
        i64::MIN as int
    } else if v > i64::MAX {
        i64::MAX as int
    } else {
        v
    }
}

/// The milliseconds of a number text of seconds: the value times 1000,
/// truncated toward zero and clamped to `i64`. `None` where the text is not a
/// number.
pub open spec fn millis_of_text(t: Seq<char>) -> Option<int> {
    match number_parts(t) {
        None => None,
        Some((negative, g, int_len, exponent)) => {
            let v = digits_value(shifted(g, int_len + exponent + 3));
            Some(
                clamp_i64(
                    if negative {
                        -v
                    } else {
                        v
                    },
                ),
            )
        },
    }
}

/// The fraction digits of `f` thousandths, without trailing zeros.
pub open spec fn fraction_text(f: nat) -> Seq<char> {
    if f % 100 == 0 {
        seq![digit_char((f / 100) as int)]
    } else if f % 10 == 0 {
        seq![digit_char((f / 100) as int), digit_char((f / 10 % 10) as int)]
    } else {
        seq![
            digit_char((f / 100) as int),
            digit_char((f / 10 % 10) as int),
            digit_char((f % 10) as int),
        ]
    }
}

/// The seconds of `ms` milliseconds as number text: a bare integer where the
/// offset is whole seconds, else a decimal with the digits of the
/// milliseconds that are not trailing zeros.
pub open spec fn seconds_text(ms: int) -> Seq<char> {
    let magnitude = if ms < 0 {
        -ms
    } else {
        ms
    };
    let sign = if ms < 0 {
        seq!['-']
    } else {
        Seq::empty()
    };
    let whole = sign + decimal((magnitude / 1000) as nat);
    if magnitude % 1000 == 0 {
        whole
    } else {
        whole + seq!['.'] + fraction_text((magnitude % 1000) as nat)
    }
}

/// Where the magnitude of an offset saturates: one past `i64::MAX`.
pub const SATURATION: u128 = 0x8000_0000_0000_0000;

/// `v`, or `SATURATION` where `v` reaches it.
pub open spec fn saturated(v: int) -> int {
    if v >= SATURATION {
        SATURATION as int
    } else {
        v
    }
}

fn digits_end_exec(t: &Vec<char>, i: usize) -> (r: usize)
    requires
        i <= t@.len(),
    ensures
        r == digits_end(t@, i as int),
        i <= r <= t@.len(),
        forall|k: int| i <= k < r ==> is_digit(#[trigger] t@[k]),
{
    let mut k: usize = i;
    while k < t.len() && (48 <= t[k] as u32 && t[k] as u32 <= 57)
        invariant
            i <= k <= t@.len(),
            digits_end(t@, k as int) == digits_end(t@, i as int),
            forall|j: int| i <= j < k ==> is_digit(#[trigger] t@[j]),
        decreases t@.len() - k,
    {
        k = k + 1;
    }
    k
}

proof fn lemma_digits_value_take(s: Seq<char>, j: int)
    requires
        0 <= j < s.len(),
    ensures
        digits_value(s.take(j + 1)) == digits_value(s.take(j)) * 10 + digit_value(s[j]),
{
    assert(s.take(j + 1).drop_last() =~= s.take(j));
    assert(s.take(j + 1).last() == s[j]);
}

/// The value of the digits `t[c..f]`, at most three of them.
fn small_digits_value(t: &Vec<char>, c: usize, f: usize) -> (r: u64)
    requires
        c <= f <= t@.len(),
        f - c <= 3,
        forall|k: int| c <= k < f ==> is_digit(#[trigger] t@[k]),
    ensures
        r == digits_value(t@.subrange(c as int, f as int)),
{
    let mut v: u64 = 0;
    let mut k: usize = c;
    assert(pow10(0) == 1);
    assert(pow10(1) == 10);
    assert(pow10(2) == 100);
    while k < f
        invariant
            c <= k <= f <= t@.len(),
            f - c <= 3,
            forall|k: int| c <= k < f ==> is_digit(#[trigger] t@[k]),
            v == digits_value(t@.subrange(c as int, k as int)),
            v < pow10((k - c) as nat),
            pow10(0) == 1 && pow10(1) == 10 && pow10(2) == 100,
        decreases f - k,
    {
        proof {
            lemma_digits_value_take(t@.subrange(c as int, f as int), (k - c) as int);
            assert(t@.subrange(c as int, f as int).take((k - c) as int) =~= t@.subrange(
                c as int,
                k as int,
            ));
            assert(t@.subrange(c as int, f as int).take((k + 1 - c) as int) =~= t@.subrange(
                c as int,
                k + 1,
            ));
            assert(is_digit(t@[k as int]));
            assert(v < 100);
            assert(pow10((k + 1 - c) as nat) == 10 * pow10((k - c) as nat));
        }
        v = v * 10 + (t[k] as u32 - 48) as u64;
        k = k + 1;
    }
    v
}

/// The value of the digits `g` shifted so that `p` of them stand before the
/// point, cut at the point, and saturated.
fn shifted_value(g: &Vec<char>, p: i128) -> (r: u128)
    requires
        forall|k: int| 0 <= k < g@.len() ==> is_digit(#[trigger] g@[k]),
        p <= g@.len() + 1002,
    ensures
        r == saturated(digits_value(shifted(g@, p as int))),
{
    let ghost sh = shifted(g@, p as int);
    let mut acc: u128 = 0;
    let mut j: i128 = 0;
    while j < p
        invariant
            0 <= j,
            p > 0 ==> j <= p,
            p <= 0 ==> j == 0,
            p <= g@.len() + 1002,
            forall|k: int| 0 <= k < g@.len() ==> is_digit(#[trigger] g@[k]),
            sh == shifted(g@, p as int),
            acc == saturated(digits_value(sh.take(j as int))),
            digits_value(sh.take(j as int)) >= 0,
        decreases p - j,
    {
        let d: u128 = if j < g.len() as i128 {
            assert(is_digit(g@[j as int]));
            (g[j as usize] as u32 - 48) as u128
        } else {
            0
        };
        proof {
            lemma_digits_value_take(sh, j as int);
            if j < g@.len() {
                assert(sh[j as int] == g@[j as int]);
            } else {
                assert(sh[j as int] == '0');
            }
        }
        if acc < SATURATION {
            acc = acc * 10 + d;
            if acc > SATURATION {
                acc = SATURATION;
            }
        }
        j = j + 1;
    }
    proof {
        if p > 0 {
            assert(sh.take(j as int) =~= sh);
        } else {
            assert(sh =~= Seq::<char>::empty());
            assert(sh.take(j as int) =~= sh);
        }
    }
    acc
}

/// Splits a number text into its parts (see `number_parts`).
fn split_number(t: &Vec<char>) -> (r: Option<(bool, Vec<char>, usize, i64)>)
    ensures
        match number_parts(t@) {
            None => r is None,
            Some(q) => r matches Some(x) && x.0 == q.0 && x.1@ == q.1 && x.2 == q.2 && x.3 == q.3,
        },
        r matches Some(x) ==> (forall|k: int| 0 <= k < x.1@.len() ==> is_digit(#[trigger] x.1@[k]))
            && x.2 <= x.1@.len() && -999 <= x.3 <= 999,
{
    let n = t.len();
    let negative = n > 0 && t[0] == '-';
    let s0: usize = if negative {
        1
    } else {
        0
    };
    let a = digits_end_exec(t, s0);
    let has_fraction = a < n && t[a] == '.';
    let b = if has_fraction {
        digits_end_exec(t, a + 1)
    } else {
        a
    };
    if a == s0 || (has_fraction && b == a + 1) {
        return None;
    }
    let mut exponent: i64 = 0;
    if b < n {
        if !(t[b] == 'e' || t[b] == 'E') {
            return None;
        }
        let exp_negative = b + 1 < n && t[b + 1] == '-';
        let c = if b + 1 < n && (t[b + 1] == '-' || t[b + 1] == '+') {
            b + 2
        } else {
            b + 1
        };
        let f = digits_end_exec(t, c);
        if !(c < f && f == n && f - c <= 3) {
            return None;
        }
        let m = small_digits_value(t, c, f);
        assert(m < 1000) by {
            let sub = t@.subrange(c as int, f as int);
            assert forall|k: int| 0 <= k < sub.len() implies is_digit(#[trigger] sub[k]) by {
                assert(sub[k] == t@[c + k]);
            }
            lemma_small_digits_bound(sub);
            assert(pow10(0) == 1);
            assert(pow10(1) == 10);
            assert(pow10(2) == 100);
            assert(pow10(3) == 1000);
        }
        exponent = if exp_negative {
            -(m as i64)
        } else {
            m as i64
        };
    }
    let mut g: Vec<char> = Vec::new();
    let mut k: usize = s0;
    while k < a
        invariant
            s0 <= k <= a <= t@.len(),
            g@ == t@.subrange(s0 as int, k as int),
            forall|j: int| s0 <= j < a ==> is_digit(#[trigger] t@[j]),
        decreases a - k,
    {
        g.push(t[k]);
        k = k + 1;
        assert(g@ =~= t@.subrange(s0 as int, k as int));
    }
    if has_fraction {
        let ghost g0 = g@;
        let mut k: usize = a + 1;
        while k < b
            invariant
                a + 1 <= k <= b <= t@.len(),
                g@ == g0 + t@.subrange(a + 1, k as int),
            decreases b - k,
        {
            g.push(t[k]);
            k = k + 1;
            assert(g@ =~= g0 + t@.subrange(a + 1, k as int));
        }
    }
    Some((negative, g, a - s0, exponent))
}

/// Three digits or fewer have a value under 1000.
proof fn lemma_small_digits_bound(s: Seq<char>)
    requires
        s.len() <= 3,
        forall|k: int| 0 <= k < s.len() ==> is_digit(#[trigger] s[k]),
    ensures
        0 <= digits_value(s) < pow10(s.len()),
    decreases s.len(),
{
    if s.len() > 0 {
        assert(is_digit(s[s.len() - 1]));
        lemma_small_digits_bound(s.drop_last());
    }
}

/// Reads a number text of seconds as an offset: the value times 1000,
/// truncated toward zero and clamped to the range of `i64`. `None` where the
/// text is not a number (see `number_parts`).
pub fn parse_seconds(text: &str) -> (r: Option<Duration>)
    ensures
        match millis_of_text(text@) {
            Some(v) => r matches Some(d) && d.ms == v,
            None => r is None,
        },
{
    let t = chars_of(text);
    match split_number(&t) {
        None => None,
        Some((negative, g, int_len, exponent)) => {
            let p: i128 = int_len as i128 + exponent as i128 + 3;
            let acc = shifted_value(&g, p);
            let ms: i64 = if negative {
                if acc == SATURATION {
                    i64::MIN
                } else {
                    -(acc as i64)
                }
            } else if acc >= SATURATION {
                i64::MAX
            } else {
                acc as i64
            };
            Some(Duration::milliseconds(ms))
        },
    }
}

/// Writes an offset as number text of seconds: a bare integer where it is
/// whole seconds (`45`), else a decimal at millisecond precision without
/// trailing zeros (`130.5`).
pub fn format_seconds(duration: Duration) -> (r: String)
    ensures
        r@ == seconds_text(duration.ms as int),
{
    let negative = duration.ms < 0;
    let magnitude: u64 = if negative {
        (-(duration.ms + 1)) as u64 + 1
    } else {
        duration.ms as u64
    };
    let mut s = String::new();
    proof {
        reveal_strlit("-");
        reveal_strlit(".");
    }
    if negative {
        s.append("-");
    }
    push_decimal(&mut s, magnitude / 1000);
    let f = magnitude % 1000;
    if f != 0 {
        s.append(".");
        s.append(digit_str(f / 100));
        if f % 100 != 0 {
            s.append(digit_str(f / 10 % 10));
            if f % 10 != 0 {
                s.append(digit_str(f % 10));
            }
        }
    }
    assert(s@ =~= seconds_text(duration.ms as int));
    s
}

proof fn lemma_digit_char(d: int)
    requires
        0 <= d < 10,
    ensures
        is_digit(digit_char(d)),
        digit_value(digit_char(d)) == d,
{
}

/// The decimal text of `n` is one or more digits that read back as `n`.
pub proof fn lemma_decimal(n: nat)
    ensures
        decimal(n).len() >= 1,
        forall|k: int| 0 <= k < decimal(n).len() ==> is_digit(#[trigger] decimal(n)[k]),
        digits_value(decimal(n)) == n,
    decreases n,
{
    let d = decimal(n);
    if n < 10 {
        lemma_digit_char(n as int);
        assert(d.drop_last() =~= Seq::<char>::empty());
        assert(digits_value(d) == digits_value(d.drop_last()) * 10 + digit_value(d.last()));
    } else {
        lemma_decimal(n / 10);
        lemma_digit_char((n % 10) as int);
        assert(d.drop_last() =~= decimal(n / 10));
        assert(digits_value(d) == digits_value(d.drop_last()) * 10 + digit_value(d.last()));
        assert forall|k: int| 0 <= k < d.len() implies is_digit(#[trigger] d[k]) by {
            if k < d.len() - 1 {
                assert(d[k] == decimal(n / 10)[k]);
            }
        }
    }
}

proof fn lemma_digits_value_append(a: Seq<char>, b: Seq<char>)
    ensures
        digits_value(a + b) == digits_value(a) * pow10(b.len()) + digits_value(b),
    decreases b.len(),
{
    if b.len() == 0 {
        assert(a + b =~= a);
        assert(pow10(0) == 1);
        let x = digits_value(a);
        assert(x * 1 == x);
    } else {
        lemma_digits_value_append(a, b.drop_last());
        assert((a + b).drop_last() =~= a + b.drop_last());
        assert((a + b).last() == b.last());
        let x = digits_value(a);
        let p = pow10((b.len() - 1) as nat);
        let y = digits_value(b.drop_last());
        assert(digits_value(a + b) == digits_value((a + b).drop_last()) * 10 + digit_value(
            (a + b).last(),
        ));
        assert(digits_value(b) == y * 10 + digit_value(b.last()));
        assert(pow10(b.len()) == 10 * p);
        assert(digits_value(a + b.drop_last()) == x * p + y);
        assert((x * p + y) * 10 == x * (10 * p) + y * 10) by (nonlinear_arith);
        let q = pow10(b.len());
        assert(x * q == x * (10 * p)) by (nonlinear_arith)
            requires
                q == 10 * p,
        ;
        assert(digits_value(a + b) == x * q + digits_value(b));
    }
}

proof fn lemma_zeros_value(k: nat)
    ensures
        digits_value(Seq::new(k, |i: int| '0')) == 0,
    decreases k,
{
    if k > 0 {
        lemma_zeros_value((k - 1) as nat);
        assert(Seq::new(k, |i: int| '0').drop_last() =~= Seq::new((k - 1) as nat, |i: int| '0'));
    }
}

proof fn lemma_digits_end_run(t: Seq<char>, i: int, j: int)
    requires
        0 <= i <= j <= t.len(),
        forall|k: int| i <= k < j ==> is_digit(#[trigger] t[k]),
        j == t.len() || !is_digit(t[j]),
    ensures
        digits_end(t, i) == j,
    decreases j - i,
{
    if i < j {
        lemma_digits_end_run(t, i + 1, j);
    }
}

/// The fraction digits of `f` thousandths, padded back to three digits,
/// have the value `f`.
proof fn lemma_fraction_text(f: nat)
    requires
        0 < f < 1000,
    ensures
        1 <= fraction_text(f).len() <= 3,
        forall|k: int| 0 <= k < fraction_text(f).len() ==> is_digit(#[trigger] fraction_text(f)[k]),
        digits_value(fraction_text(f)) * pow10((3 - fraction_text(f).len()) as nat) == f,
{
    lemma_digit_char((f / 100) as int);
    lemma_digit_char((f / 10 % 10) as int);
    lemma_digit_char((f % 10) as int);
    let ft = fraction_text(f);
    let c0 = digit_char((f / 100) as int);
    let c1 = digit_char((f / 10 % 10) as int);
    let c2 = digit_char((f % 10) as int);
    assert(pow10(0) == 1);
    assert(pow10(1) == 10);
    assert(pow10(2) == 100);
    lemma_digits_value_one(c0);
    if f % 100 == 0 {
        assert(ft == seq![c0]);
        assert(digits_value(ft) == f / 100);
        assert(pow10((3 - ft.len()) as nat) == 100);
        assert((f / 100) * 100 == f);
    } else if f % 10 == 0 {
        assert(ft == seq![c0, c1]);
        assert(seq![c0, c1] =~= seq![c0] + seq![c1]);
        lemma_digits_value_append(seq![c0], seq![c1]);
        lemma_digits_value_one(c1);
        assert(digits_value(ft) == (f / 100) * 10 + f / 10 % 10);
        assert(pow10((3 - ft.len()) as nat) == 10);
        assert(((f / 100) * 10 + f / 10 % 10) * 10 == f);
    } else {
        assert(ft == seq![c0, c1, c2]);
        assert(seq![c0, c1, c2] =~= seq![c0, c1] + seq![c2]);
        assert(seq![c0, c1] =~= seq![c0] + seq![c1]);
        lemma_digits_value_append(seq![c0], seq![c1]);
        lemma_digits_value_append(seq![c0, c1], seq![c2]);
        lemma_digits_value_one(c1);
        lemma_digits_value_one(c2);
        assert(digits_value(ft) == ((f / 100) * 10 + f / 10 % 10) * 10 + f % 10);
        assert(pow10((3 - ft.len()) as nat) == 1);
        assert(((f / 100) * 10 + f / 10 % 10) * 10 + f % 10 == f);
    }
}

proof fn lemma_digits_value_one(c: char)
    ensures
        digits_value(seq![c]) == digit_value(c),
{
    assert(seq![c].drop_last() =~= Seq::<char>::empty());
    assert(digits_value(Seq::<char>::empty()) == 0);
    assert(seq![c].last() == c);
}

/// Reading back the text of an offset gives the offset.
pub proof fn lemma_seconds_round_trip(ms: int)
    requires
        i64::MIN <= ms <= i64::MAX,
    ensures
        millis_of_text(seconds_text(ms)) == Some(ms),
{
    let magnitude = if ms < 0 {
        -ms
    } else {
        ms
    };
    let w = (magnitude / 1000) as nat;
    let f = (magnitude % 1000) as nat;
    let sign: Seq<char> = if ms < 0 {
        seq!['-']
    } else {
        Seq::empty()
    };
    let dw = decimal(w);
    lemma_decimal(w);
    let t = seconds_text(ms);
    let s0 = sign.len() as int;
    let a = s0 + dw.len();
    assert(t.subrange(s0, a) =~= dw);
    assert forall|k: int| s0 <= k < a implies is_digit(#[trigger] t[k]) by {
        assert(t[k] == dw[k - s0]);
    }
    let g = if f == 0 {
        dw
    } else {
        dw + fraction_text(f)
    };
    if f == 0 {
        assert(t =~= sign + dw);
        lemma_digits_end_run(t, s0, a);
        assert(number_parts(t) == Some((ms < 0, dw, dw.len() as int, 0int)));
        let p = dw.len() + 3int;
        assert(shifted(dw, p) == dw + Seq::new(3, |i: int| '0'));
        lemma_digits_value_append(dw, Seq::new(3, |i: int| '0'));
        lemma_zeros_value(3);
        assert(pow10(3) == 1000) by {
            assert(pow10(0) == 1);
            assert(pow10(1) == 10);
            assert(pow10(2) == 100);
        }
        assert(digits_value(shifted(g, p)) == w * 1000);
        assert(magnitude == w * 1000 + f);
        assert(millis_of_text(t) == Some(clamp_i64(if ms < 0 { -(w * 1000) } else { (w * 1000) as int })));
    } else {
        let ft = fraction_text(f);
        lemma_fraction_text(f);
        assert(t =~= sign + dw + seq!['.'] + ft);
        assert(t[a] == '.');
        lemma_digits_end_run(t, s0, a);
        assert forall|k: int| a + 1 <= k < t.len() implies is_digit(#[trigger] t[k]) by {
            assert(t[k] == ft[k - a - 1]);
        }
        lemma_digits_end_run(t, a + 1, t.len() as int);
        assert(t.subrange(a + 1, t.len() as int) =~= ft);
        assert(number_parts(t) == Some((ms < 0, g, dw.len() as int, 0int)));
        let p = dw.len() + 3int;
        let z = (3 - ft.len()) as nat;
        assert(shifted(g, p) =~= dw + (ft + Seq::new(z, |i: int| '0')));
        lemma_digits_value_append(dw, ft + Seq::new(z, |i: int| '0'));
        lemma_digits_value_append(ft, Seq::new(z, |i: int| '0'));
        lemma_zeros_value(z);
        assert(pow10(3) == 1000) by {
            assert(pow10(0) == 1);
            assert(pow10(1) == 10);
            assert(pow10(2) == 100);
        }
        assert((ft + Seq::new(z, |i: int| '0')).len() == 3);
        assert(digits_value(ft + Seq::new(z, |i: int| '0')) == f);
        assert(digits_value(shifted(g, p)) == w * 1000 + f);
        assert(magnitude == w * 1000 + f);
        assert(millis_of_text(t) == Some(clamp_i64(if ms < 0 { -magnitude } else { magnitude })));
    }
}

} // verus!
