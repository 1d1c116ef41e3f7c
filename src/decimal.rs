//! Fixed-point amounts, and the reading of number literals into them.

use vstd::prelude::*;

verus! {

/// Number of fractional digits held by a [`Decimal`].
pub const SCALE_DIGITS: usize = 8;

/// `10^SCALE_DIGITS`: the number of units in one.
pub const UNITS_PER_ONE: u64 = 100_000_000;

/// A signed amount with eight fractional digits: its value is
/// `units / 10^8`.
#[derive(Clone, Copy, Debug, PartialEq, Eq, Structural)]
pub struct Decimal {
    pub units: i64,
}

pub open spec fn is_digit(c: char) -> bool {
    '0' <= c && c <= '9'
}

pub open spec fn digit_value(c: char) -> int {
    c as int - '0' as int
}

pub open spec fn all_digits(s: Seq<char>) -> bool {
    forall|i: int| 0 <= i < s.len() ==> is_digit(s[i])
}

/// The number that the decimal digits `s` write, most significant first.
pub open spec fn digits_value(s: Seq<char>) -> nat
    decreases s.len(),
{
    if s.len() == 0 {
        0
    } else {
        (digits_value(s.drop_last()) * 10 + digit_value(s.last())) as nat
    }
}

pub open spec fn pow10(n: nat) -> nat
    decreases n,
{
    if n == 0 {
        1
    } else {
        10 * pow10((n - 1) as nat)
    }
}

/// The number of decimal digits at the start of `s`.
pub open spec fn leading_digits(s: Seq<char>) -> nat
    decreases s.len(),
{
    if s.len() > 0 && is_digit(s[0]) {
        1 + leading_digits(s.drop_first())
    } else {
        0
    }
}

/// The natural number written by `s`, a non-empty run of decimal digits.
pub open spec fn natural_of(s: Seq<char>) -> Option<nat> {
    if s.len() > 0 && all_digits(s) {
        Some(digits_value(s))
    } else {
        None
    }
}

/// `n * 10^shift` rounded to a whole number, a half rounded up.
pub open spec fn rounded_scaled(n: nat, shift: int) -> nat {
    if shift >= 0 {
        n * pow10(shift as nat)
    } else {
        (n + pow10((-shift) as nat) / 2) / pow10((-shift) as nat)
    }
}

/// The integer written after an exponent mark: digits, optionally after `+`
/// or `-`.
pub open spec fn exponent_of(e: Seq<char>) -> Option<int> {
    if e.len() > 0 && (e[0] == '-' || e[0] == '+') {
        match natural_of(e.drop_first()) {
            Some(v) => Some(if e[0] == '-' { -v } else { v as int }),
            None => None,
        }
    } else {
        match natural_of(e) {
            Some(v) => Some(v as int),
            None => None,
        }
    }
}

/// The number of fraction digits of an unsigned literal: those after a point
/// that follows its leading digits (none if there is no such point).
pub open spec fn fraction_len(s: Seq<char>) -> nat {
    let k = leading_digits(s);
    if k < s.len() && s[k as int] == '.' {
        leading_digits(s.skip(k as int + 1))
    } else {
        0
    }
}

/// Where the digits and fraction of an unsigned literal end.
pub open spec fn mantissa_end(s: Seq<char>) -> int {
    let k = leading_digits(s);
    if fraction_len(s) > 0 {
        k as int + 1 + fraction_len(s)
    } else {
        k as int
    }
}

/// The digits of an unsigned literal's mantissa, the point left out.
pub open spec fn mantissa_digits(s: Seq<char>) -> Seq<char> {
    let k = leading_digits(s) as int;
    if fraction_len(s) > 0 {
        s.take(k) + s.subrange(k + 1, mantissa_end(s))
    } else {
        s.take(k)
    }
}

/// The units of an unsigned literal: digits, then optionally a point and
/// more digits, then optionally `e` or `E` and an exponent (`12`, `12.5`,
/// `1.25e+3`), rounded to the nearest unit, a half rounded up. `None` when
/// the text is not such a literal.
pub open spec fn unsigned_units(s: Seq<char>) -> Option<nat> {
    let m = mantissa_end(s);
    let exponent = if m == s.len() {
        Some(0int)
    } else if s[m] == 'e' || s[m] == 'E' {
        exponent_of(s.skip(m + 1))
    } else {
        None
    };
    if leading_digits(s) == 0 {
        None
    } else {
        match exponent {
            Some(x) => Some(
                rounded_scaled(digits_value(mantissa_digits(s)), SCALE_DIGITS + x - fraction_len(s)),
            ),
            None => None,
        }
    }
}

/// The amount that the number literal `s` writes, optionally signed with
/// `-`: rounded to eight places, a half rounded away from zero, and held at
/// `i64::MAX` units (or its negation) when larger. `None` only when `s` is
/// not a number literal.
pub open spec fn decimal_of(s: Seq<char>) -> Option<Decimal> {
    let neg = s.len() > 0 && s[0] == '-';
    let body = if neg {
        s.drop_first()
    } else {
        s
    };
    match unsigned_units(body) {
        Some(u) => {
            let m = if u <= i64::MAX { u as int } else { i64::MAX as int };
            Some(Decimal { units: (if neg { -m } else { m }) as i64 })
        },
        None => None,
    }
}

/// The `u64` that the literal `s` writes: digits only, within range.
pub open spec fn u64_of(s: Seq<char>) -> Option<u64> {
    match natural_of(s) {
        Some(n) => if n <= u64::MAX {
            Some(n as u64)
        } else {
            None
        },
        None => None,
    }
}

/// The `i64` that the literal `s` writes: digits, optionally after `-`, within
/// range.
pub open spec fn i64_of(s: Seq<char>) -> Option<i64> {
    let neg = s.len() > 0 && s[0] == '-';
    match natural_of(
        if neg {
            s.drop_first()
        } else {
            s
        },
    ) {
        Some(n) => if neg && n <= 0x8000_0000_0000_0000 {
            Some((-n) as i64)
        } else if !neg && n <= i64::MAX {
            Some(n as i64)
        } else {
            None
        },
        None => None,
    }
}

proof fn lemma_leading_all(s: Seq<char>, k: int)
    requires
        0 <= k <= s.len(),
        all_digits(s.take(k)),
        k == s.len() || !is_digit(s[k]),
    ensures
        leading_digits(s) == k,
    decreases k,
{
    if k > 0 {
        let t = s.drop_first();
        assert(s.take(k).drop_first() =~= t.take(k - 1));
        assert(is_digit(s.take(k)[0]));
        if k - 1 < t.len() {
            assert(t[k - 1] == s[k]);
        }
        lemma_leading_all(t, k - 1);
    }
}

/// The run of digits of `s` from `start`: its end, and the value of the run
/// if that is at most `cap`.
fn scan_digits(s: &str, n: usize, start: usize, cap: u64) -> (r: (usize, Option<u64>))
    requires
        n == s@.len(),
        start <= n,
        cap >= 9,
    ensures
        start <= r.0 <= n,
        all_digits(s@.subrange(start as int, r.0 as int)),
        r.0 == n || !is_digit(s@[r.0 as int]),
        match r.1 {
            Some(v) => v == digits_value(s@.subrange(start as int, r.0 as int)) && v <= cap,
            None => digits_value(s@.subrange(start as int, r.0 as int)) > cap,
        },
{
    let mut i: usize = start;
    let mut acc: Option<u64> = Some(0);
    while i < n
        invariant
            n == s@.len(),
            cap >= 9,
            start <= i <= n,
            all_digits(s@.subrange(start as int, i as int)),
            match acc {
                Some(v) => v == digits_value(s@.subrange(start as int, i as int)) && v <= cap,
                None => digits_value(s@.subrange(start as int, i as int)) > cap,
            },
        ensures
            i == n || !is_digit(s@[i as int]),
        decreases n - i,
    {
        let c = s.get_char(i);
        if !('0' <= c && c <= '9') {
            break;
        }
        let ghost prev = s@.subrange(start as int, i as int);
        let ghost next = s@.subrange(start as int, i + 1);
        proof {
            assert(next.drop_last() =~= prev);
            assert(next.last() == c);
        }
        acc = match acc {
            Some(v) => {
                let d = (c as u64) - ('0' as u64);
                assert(d <= 9 && d == digit_value(c));
                if v > (cap - d) / 10 {
                    assert(v * 10 + d > cap) by (nonlinear_arith)
                        requires v > (cap - d) / 10, d <= 9;
                    None
                } else {
                    assert(v * 10 + d <= cap) by (nonlinear_arith)
                        requires v <= (cap - d) / 10, d <= 9;
                    Some(v * 10 + d)
                }
            },
            None => {
                proof {
                    assert(digits_value(next) >= digits_value(prev)) by (nonlinear_arith)
                        requires digits_value(next) == digits_value(prev) * 10 + digit_value(c),
                            0 <= digit_value(c);
                }
                None
            },
        };
        i = i + 1;
    }
    (i, acc)
}

pub(crate) proof fn lemma_pow10_mono(a: nat, b: nat)
    requires
        a <= b,
    ensures
        pow10(a) <= pow10(b),
    decreases b - a,
{
    if a < b {
        lemma_pow10_mono(a, (b - 1) as nat);
    }
}

pub(crate) proof fn lemma_pow10_scale()
    ensures
        pow10(SCALE_DIGITS as nat) == UNITS_PER_ONE,
        pow10(7) == 10_000_000,
{
    reveal_with_fuel(pow10, 9);
}

/// Reads `s` as a natural number: digits only, within `u64`.
pub fn parse_u64(s: &str) -> (r: Option<u64>)
    ensures
        r == u64_of(s@),
{
    let n = s.unicode_len();
    let (end, acc) = scan_digits(s, n, 0, u64::MAX);
    proof {
        assert(s@.subrange(0, n as int) =~= s@);
    }
    if end == 0 || end < n {
        None
    } else {
        acc
    }
}

/// Reads `s` as an integer: digits, optionally after `-`, within `i64`.
pub fn parse_i64(s: &str) -> (r: Option<i64>)
    ensures
        r == i64_of(s@),
{
    let n = s.unicode_len();
    let neg = n > 0 && s.get_char(0) == '-';
    let start: usize = if neg {
        1
    } else {
        0
    };
    let cap: u64 = if neg {
        0x8000_0000_0000_0000
    } else {
        0x7fff_ffff_ffff_ffff
    };
    let (end, acc) = scan_digits(s, n, start, cap);
    proof {
        if neg {
            assert(s@.subrange(1, n as int) =~= s@.drop_first());
        } else {
            assert(s@.subrange(0, n as int) =~= s@);
        }
    }
    if end == start || end < n {
        proof {
            if end < n {
                if neg {
                    assert(s@.drop_first()[end - 1] == s@[end as int]);
                } else {
                    assert(!all_digits(s@));
                }
            }
        }
        return None;
    }
    match acc {
        Some(v) => if neg {
            if v == 0x8000_0000_0000_0000 {
                Some(i64::MIN)
            } else {
                Some(-(v as i64))
            }
        } else {
            Some(v as i64)
        },
        None => None,
    }
}

/// Saturation bound for exponents: any exponent at least this large moves a
/// non-zero amount out of range.
const EXPONENT_CAP: u128 = 0x10_0000_0000_0000_0000_0000_0000;

proof fn lemma_pow10_positive(n: nat)
    ensures
        pow10(n) >= 1,
    decreases n,
{
    if n > 0 {
        lemma_pow10_positive((n - 1) as nat);
    }
}

proof fn lemma_pow10_19()
    ensures
        pow10(19) == 10_000_000_000_000_000_000,
{
    reveal_with_fuel(pow10, 20);
}

fn pow10_u64(n: usize) -> (r: u64)
    requires
        n <= 19,
    ensures
        r == pow10(n as nat),
{
    let mut r: u64 = 1;
    let mut i: usize = 0;
    while i < n
        invariant
            i <= n <= 19,
            r == pow10(i as nat),
        decreases n - i,
    {
        proof {
            lemma_pow10_19();
            lemma_pow10_mono((i + 1) as nat, 19);
        }
        r = r * 10;
        i = i + 1;
    }
    r
}

/// The run of digits of `s` from `start`: its end, and its value, saturated
/// at `EXPONENT_CAP`.
fn scan_exponent_digits(s: &str, n: usize, start: usize) -> (r: (usize, u128))
    requires
        n == s@.len(),
        start <= n,
    ensures
        start <= r.0 <= n,
        all_digits(s@.subrange(start as int, r.0 as int)),
        r.0 == n || !is_digit(s@[r.0 as int]),
        r.1 <= EXPONENT_CAP,
        r.1 < EXPONENT_CAP ==> r.1 == digits_value(s@.subrange(start as int, r.0 as int)),
        r.1 == EXPONENT_CAP ==> digits_value(s@.subrange(start as int, r.0 as int)) >= EXPONENT_CAP,
{
    let mut i: usize = start;
    let mut acc: u128 = 0;
    while i < n
        invariant
            n == s@.len(),
            start <= i <= n,
            all_digits(s@.subrange(start as int, i as int)),
            acc <= EXPONENT_CAP,
            acc < EXPONENT_CAP ==> acc == digits_value(s@.subrange(start as int, i as int)),
            acc == EXPONENT_CAP ==> digits_value(s@.subrange(start as int, i as int)) >= EXPONENT_CAP,
        ensures
            i == n || !is_digit(s@[i as int]),
        decreases n - i,
    {
        let c = s.get_char(i);
        if !('0' <= c && c <= '9') {
            break;
        }
        let ghost prev = s@.subrange(start as int, i as int);
        let ghost next = s@.subrange(start as int, i + 1);
        proof {
            assert(next.drop_last() =~= prev);
            assert(next.last() == c);
        }
        let d = (c as u128) - ('0' as u128);
        assert(d <= 9 && d == digit_value(c));
        if acc == EXPONENT_CAP || acc > (EXPONENT_CAP - d) / 10 {
            assert(digits_value(next) >= EXPONENT_CAP) by (nonlinear_arith)
                requires digits_value(next) == digits_value(prev) * 10 + d, digits_value(prev) >= acc,
                    acc == EXPONENT_CAP || acc > (EXPONENT_CAP - d) / 10, d >= 0, d <= 9;
            acc = EXPONENT_CAP;
        } else {
            acc = acc * 10 + d;
        }
        i = i + 1;
    }
    (i, acc)
}

/// Reads the exponent from `start` to the end of `s`: its sign and its
/// magnitude, saturated at `EXPONENT_CAP`, as `exponent_of` says.
fn parse_exponent(s: &str, n: usize, start: usize) -> (r: Option<(bool, u128)>)
    requires
        n == s@.len(),
        start <= n,
    ensures
        match exponent_of(s@.subrange(start as int, n as int)) {
            None => r is None,
            Some(x) => r matches Some((neg, mag)) && mag <= EXPONENT_CAP && (mag < EXPONENT_CAP ==> x
                == (if neg { -mag } else { mag as int })) && (mag == EXPONENT_CAP ==> (if neg {
                x <= -EXPONENT_CAP
            } else {
                x >= EXPONENT_CAP
            })),
        },
{
    let ghost e = s@.subrange(start as int, n as int);
    let signed = start < n && (s.get_char(start) == '-' || s.get_char(start) == '+');
    let neg = signed && s.get_char(start) == '-';
    let from: usize = if signed {
        start + 1
    } else {
        start
    };
    let (end, mag) = scan_exponent_digits(s, n, from);
    proof {
        if signed {
            assert(e.drop_first() =~= s@.subrange(from as int, n as int));
        }
        if end < n {
            assert(s@.subrange(from as int, n as int)[end - from] == s@[end as int]);
        } else {
            assert(s@.subrange(from as int, n as int) =~= s@.subrange(from as int, end as int));
        }
    }
    if end == from || end < n {
        None
    } else {
        Some((neg, mag))
    }
}

/// Saturation bound for a run of digits: one more than `i64::MAX`.
const VALUE_CAP: u128 = 0x8000_0000_0000_0000;

proof fn lemma_digits_bound(s: Seq<char>)
    requires
        all_digits(s),
    ensures
        digits_value(s) < pow10(s.len()),
    decreases s.len(),
{
    if s.len() > 0 {
        let t = s.drop_last();
        lemma_digits_bound(t);
        assert(is_digit(s.last()));
        let a = digits_value(t);
        let p = pow10(t.len());
        assert(a * 10 + digit_value(s.last()) < 10 * p) by (nonlinear_arith)
            requires a < p, 0 <= digit_value(s.last()) <= 9;
    }
}

proof fn lemma_digits_concat(a: Seq<char>, b: Seq<char>)
    requires
        all_digits(b),
    ensures
        digits_value(a + b) == digits_value(a) * pow10(b.len()) + digits_value(b),
    decreases b.len(),
{
    if b.len() == 0 {
        assert(a + b =~= a);
        assert(pow10(0) == 1);
    } else {
        let b1 = b.drop_last();
        lemma_digits_concat(a, b1);
        assert((a + b).drop_last() =~= a + b1);
        assert((a + b).last() == b.last());
        assert(is_digit(b.last()));
        assert(all_digits(b1));
        assert(pow10(b.len()) == 10 * pow10(b1.len()));
        let x = digits_value(a);
        let p = pow10(b1.len());
        let y = digits_value(b1);
        assert((x * p + y) * 10 + digit_value(b.last()) == x * (10 * p) + (y * 10 + digit_value(
            b.last(),
        ))) by (nonlinear_arith);
    }
}

/// Rounding `digits_value(d) / 10^a`, a half up, for `a` from one to the
/// number of digits: the first `|d| - a` digits, plus one when the next digit
/// is five or more.
proof fn lemma_round_split(d: Seq<char>, keep: int)
    requires
        all_digits(d),
        0 <= keep < d.len(),
    ensures
        rounded_scaled(digits_value(d), keep - d.len()) == digits_value(d.take(keep)) + (if d[keep]
            >= '5' {
            1int
        } else {
            0int
        }),
{
    let a = (d.len() - keep) as nat;
    let head = d.take(keep);
    let tail = d.skip(keep);
    assert(head + tail =~= d);
    lemma_digits_concat(head, tail);
    let rest = tail.drop_first();
    assert(tail.take(1) + rest =~= tail);
    lemma_digits_concat(tail.take(1), rest);
    assert(tail.take(1).drop_last() =~= Seq::<char>::empty());
    assert(tail.take(1).last() == d[keep]);
    assert(is_digit(d[keep]));
    assert(digits_value(tail.take(1).drop_last()) == 0);
    assert(digits_value(tail.take(1)) == digit_value(d[keep]));
    assert(all_digits(rest));
    assert(all_digits(tail));
    lemma_digits_bound(rest);
    let q = digits_value(head);
    let p = pow10(a);
    let h = pow10((a - 1) as nat);
    let d0 = digit_value(d[keep]);
    let r2 = digits_value(rest);
    assert(p == 10 * h);
    assert(rest.len() == a - 1);
    lemma_pow10_positive((a - 1) as nat);
    assert(p / 2 == 5 * h);
    let up: int = if d[keep] >= '5' { 1 } else { 0 };
    assert(up == (if d0 >= 5 { 1int } else { 0int }));
    let t = d0 * h + r2 + 5 * h - up * p;
    if d0 >= 5 {
        assert(0 <= t < p) by (nonlinear_arith)
            requires 5 <= d0 <= 9, 0 <= r2 < h, h >= 1, p == 10 * h, up == 1,
                t == d0 * h + r2 + 5 * h - up * p;
    } else {
        assert(0 <= t < p) by (nonlinear_arith)
            requires 0 <= d0 <= 4, 0 <= r2 < h, h >= 1, p == 10 * h, up == 0,
                t == d0 * h + r2 + 5 * h - up * p;
    }
    assert(q * p + d0 * h + r2 + 5 * h == (q + up) * p + t) by (nonlinear_arith)
        requires t == d0 * h + r2 + 5 * h - up * p;
    vstd::arithmetic::div_mod::lemma_fundamental_div_mod_converse(
        (q * p + d0 * h + r2 + p / 2) as int,
        p as int,
        q + up,
        t,
    );
}

/// Rounding `digits_value(d) / 10^a`, a half up, gives zero when `a` exceeds
/// the number of digits.
proof fn lemma_round_small(d: Seq<char>, a: nat)
    requires
        all_digits(d),
        a > d.len(),
    ensures
        rounded_scaled(digits_value(d), -a) == 0,
{
    lemma_digits_bound(d);
    lemma_pow10_mono(d.len(), (a - 1) as nat);
    let h = pow10((a - 1) as nat);
    let p = pow10(a);
    assert(p == 10 * h);
    lemma_pow10_positive((a - 1) as nat);
    assert(p / 2 == 5 * h);
    vstd::arithmetic::div_mod::lemma_fundamental_div_mod_converse(
        (digits_value(d) + p / 2) as int,
        p as int,
        0,
        (digits_value(d) + p / 2) as int,
    );
}

/// The value of the first `count` digits of `d`, held at `VALUE_CAP`.
fn prefix_value(d: &Vec<char>, count: usize) -> (r: u128)
    requires
        all_digits(d@),
        count <= d@.len(),
    ensures
        r == (if digits_value(d@.take(count as int)) < VALUE_CAP {
            digits_value(d@.take(count as int))
        } else {
            VALUE_CAP as nat
        }),
{
    let mut acc: u128 = 0;
    let mut i: usize = 0;
    proof {
        assert(d@.take(0) =~= Seq::<char>::empty());
    }
    while i < count
        invariant
            count <= d@.len(),
            all_digits(d@),
            i <= count,
            acc == (if digits_value(d@.take(i as int)) < VALUE_CAP {
                digits_value(d@.take(i as int))
            } else {
                VALUE_CAP as nat
            }),
        decreases count - i,
    {
        let c = d[i];
        let ghost prev = d@.take(i as int);
        let ghost next = d@.take(i + 1);
        proof {
            assert(next.drop_last() =~= prev);
            assert(next.last() == c);
            assert(is_digit(c));
        }
        let v = (c as u128) - ('0' as u128);
        assert(v <= 9 && v == digit_value(c));
        if acc == VALUE_CAP || acc * 10 + v >= VALUE_CAP {
            assert(digits_value(next) >= VALUE_CAP) by (nonlinear_arith)
                requires
                    digits_value(next) == digits_value(prev) * 10 + v,
                    digits_value(prev) >= acc,
                    acc == VALUE_CAP || acc * 10 + v >= VALUE_CAP,
                    v >= 0,
            ;
            acc = VALUE_CAP;
        } else {
            acc = acc * 10 + v;
        }
        i = i + 1;
    }
    acc
}

/// Appends the characters of `s` from `from` to `to` to `v`.
fn push_chars(v: &mut Vec<char>, s: &str, from: usize, to: usize)
    requires
        from <= to <= s@.len(),
    ensures
        final(v)@ == old(v)@ + s@.subrange(from as int, to as int),
{
    let mut i: usize = from;
    while i < to
        invariant
            from <= i <= to <= s@.len(),
            v@ == old(v)@ + s@.subrange(from as int, i as int),
        decreases to - i,
    {
        v.push(s.get_char(i));
        proof {
            assert(v@ =~= old(v)@ + s@.subrange(from as int, i + 1));
        }
        i = i + 1;
    }
}

/// The units of `digits` scaled by `10^shift`, as `rounded_scaled` says,
/// held at `VALUE_CAP`. `shift` may be the true power or, beyond 19 or below
/// minus the number of digits, any power on the same side.
#[verifier::rlimit(100)]
fn units_of(digits: &Vec<char>, shift: i128, Ghost(true_shift): Ghost<int>) -> (r: u128)
    requires
        all_digits(digits@),
        shift == true_shift || (shift > 19 && true_shift > 19) || (shift < -(digits@.len() as int)
            && true_shift < -(digits@.len() as int)),
    ensures
        r == (if rounded_scaled(digits_value(digits@), true_shift) < VALUE_CAP {
            rounded_scaled(digits_value(digits@), true_shift)
        } else {
            VALUE_CAP as nat
        }),
{
    let ghost u = rounded_scaled(digits_value(digits@), true_shift);
    let len = digits.len();
    proof {
        lemma_pow10_19();
    }
    if shift >= 0 {
        let all = prefix_value(&digits, len);
        proof {
            assert(digits@.take(len as int) =~= digits@);
        }
        if all == 0 {
            proof {
                assert(u == 0) by (nonlinear_arith)
                    requires u == digits_value(digits@) * pow10(true_shift as nat), digits_value(digits@) == 0;
            }
            0
        } else if shift > 19 {
            proof {
                lemma_pow10_mono(19, true_shift as nat);
                assert(u >= VALUE_CAP) by (nonlinear_arith)
                    requires
                        u == digits_value(digits@) * pow10(true_shift as nat),
                        digits_value(digits@) >= 1,
                        pow10(true_shift as nat) >= pow10(19),
                        pow10(19) == 10_000_000_000_000_000_000,
                ;
            }
            VALUE_CAP
        } else {
            let p = pow10_u64(shift as usize);
            proof {
                lemma_pow10_mono(shift as nat, 19);
                lemma_pow10_positive(shift as nat);
                assert(all * p <= VALUE_CAP * 10_000_000_000_000_000_000) by (nonlinear_arith)
                    requires all <= VALUE_CAP, p <= 10_000_000_000_000_000_000;
            }
            let prod = all * (p as u128);
            proof {
                if all == VALUE_CAP {
                    assert(u >= VALUE_CAP && prod >= VALUE_CAP) by (nonlinear_arith)
                        requires
                            u == digits_value(digits@) * p,
                            digits_value(digits@) >= VALUE_CAP,
                            prod == all * p,
                            all == VALUE_CAP,
                            p >= 1,
                    ;
                }
            }
            if prod >= VALUE_CAP {
                VALUE_CAP
            } else {
                prod
            }
        }
    } else {
        let keep: i128 = (len as i128) + shift;
        if keep < 0 {
            proof {
                lemma_round_small(digits@, (-true_shift) as nat);
            }
            0
        } else {
            let kk = keep as usize;
            proof {
                lemma_round_split(digits@, kk as int);
                assert(kk - len == true_shift);
            }
            let q = prefix_value(&digits, kk);
            let up: u128 = if digits[kk] >= '5' {
                1
            } else {
                0
            };
            if q + up >= VALUE_CAP {
                VALUE_CAP
            } else {
                q + up
            }
        }
    }
}

/// Reads a number literal as an amount, as `decimal_of` says: an optional
/// `-`, digits, optionally a point and more digits, and optionally an
/// exponent. The amount is rounded to eight places, a half away from zero,
/// and held at the bound of `i64` units when larger; only a text that is no
/// number literal gives `None`.
#[verifier::rlimit(100)]
pub fn parse_decimal(s: &str) -> (r: Option<Decimal>)
    ensures
        r == decimal_of(s@),
{
    let n = s.unicode_len();
    let neg = n > 0 && s.get_char(0) == '-';
    let start: usize = if neg {
        1
    } else {
        0
    };
    let ghost body = if neg {
        s@.drop_first()
    } else {
        s@
    };
    proof {
        assert(body =~= s@.subrange(start as int, n as int));
    }
    let (k_end, _) = scan_digits(s, n, start, 9);
    let ghost k = k_end - start;
    proof {
        assert(body.take(k) =~= s@.subrange(start as int, k_end as int));
        if k_end < n {
            assert(body[k] == s@[k_end as int]);
        }
        lemma_leading_all(body, k);
    }
    if k_end == start {
        return None;
    }
    let mut digits: Vec<char> = Vec::new();
    push_chars(&mut digits, s, start, k_end);
    let mut m: usize = k_end;
    let mut frac: usize = 0;
    if k_end < n && s.get_char(k_end) == '.' {
        let (f_end, _) = scan_digits(s, n, k_end + 1, 9);
        proof {
            let rest = body.skip(k + 1);
            assert(rest =~= s@.subrange(k_end + 1, n as int));
            assert(rest.take(f_end - k_end - 1) =~= s@.subrange(k_end + 1, f_end as int));
            if f_end < n {
                assert(rest[f_end - k_end - 1] == s@[f_end as int]);
            }
            lemma_leading_all(rest, f_end - k_end - 1);
        }
        if f_end > k_end + 1 {
            push_chars(&mut digits, s, k_end + 1, f_end);
            frac = f_end - k_end - 1;
            m = f_end;
        }
    }
    proof {
        if frac > 0 {
            assert(body.subrange(k + 1, mantissa_end(body)) =~= s@.subrange(k_end + 1, m as int));
        }
        assert(digits@ =~= mantissa_digits(body));
        assert(mantissa_end(body) == m - start);
        assert(fraction_len(body) == frac);
        assert(all_digits(digits@));
    }
    let exponent: Option<(bool, u128)> = if m == n {
        Some((false, 0))
    } else {
        let c = s.get_char(m);
        proof {
            assert(body[m - start] == c);
        }
        if c == 'e' || c == 'E' {
            proof {
                assert(body.skip(m - start + 1) =~= s@.subrange(m + 1, n as int));
            }
            parse_exponent(s, n, m + 1)
        } else {
            None
        }
    };
    let (eneg, emag) = match exponent {
        Some(x) => x,
        None => {
            return None;
        },
    };
    let ghost x = if m == n {
        0int
    } else {
        exponent_of(s@.subrange(m + 1, n as int)).unwrap()
    };
    let ghost true_shift = SCALE_DIGITS + x - frac;
    let ghost u = rounded_scaled(digits_value(digits@), true_shift);
    assert(unsigned_units(body) == Some(u));
    let e_signed: i128 = if eneg {
        -(emag as i128)
    } else {
        emag as i128
    };
    let shift: i128 = 8 + e_signed - (frac as i128);
    let len = digits.len();
    proof {
        assert(all_digits(digits@));
        if emag == EXPONENT_CAP {
            if eneg {
                assert(true_shift < -(len as int));
                assert(shift < -(len as int));
            } else {
                assert(true_shift > 19);
                assert(shift > 19);
            }
        } else {
            assert(shift == true_shift);
        }
        lemma_pow10_19();
    }
    let units = units_of(&digits, shift, Ghost(true_shift));
    assert(units == (if u < VALUE_CAP { u } else { VALUE_CAP as nat }));
    let magnitude: i64 = if units >= VALUE_CAP {
        0x7fff_ffff_ffff_ffff
    } else {
        units as i64
    };
    if neg {
        Some(Decimal { units: -magnitude })
    } else {
        Some(Decimal { units: magnitude })
    }
}

} // verus!
