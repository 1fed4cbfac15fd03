//! The text Rust prints for the quotient `k / n` of two counts computed in
//! binary64 floating point: the quotient is rounded to the nearest double
//! (ties to even), and the double is printed as the decimal with the
//! fewest places that reads back as that double, the closest one to it
//! when several have as few places.
use vstd::prelude::*;
use crate::decimal::{lemma_pow10_mono, pow10};
use crate::numfmt::{digit_char, digit_char_exec};
use crate::retry::pow2;
use crate::text::{copy_str, push_char};

verus! {

/// `t` brings `k / n` into `[1/2, 1)`: `k·2^t ≥ n > k·2^(t−1)`.
pub open spec fn binade(k: nat, n: nat, t: nat) -> bool {
    t >= 1 && k * pow2(t) >= n && k * pow2((t - 1) as nat) < n
}

/// The double nearest `k / n` (for `0 < k < n`), as `m / 2^e` with
/// `2^52 ≤ m < 2^53`: `k·2^e / n` rounded to the nearest integer, ties to
/// even, with `e` chosen so that it has 53 bits.
pub open spec fn nearest_double(k: nat, n: nat) -> (nat, nat) {
    let t = choose|t: nat| binade(k, n, t);
    let e = 52 + t;
    let q = (k * pow2(e)) / n;
    let r = (k * pow2(e)) % n;
    let m: nat = if 2 * r > n || (2 * r == n && q % 2 == 1) {
        q + 1
    } else {
        q
    };
    if m == pow2(53) {
        (pow2(52), (e - 1) as nat)
    } else {
        (m, e)
    }
}

/// The lower end of the rounding interval of `m / 2^e`, in units of
/// `2^-(e+2)`: halfway to the next smaller double.
pub open spec fn low_end(m: nat) -> int {
    if m == pow2(52) {
        4 * m - 1
    } else {
        4 * m - 2
    }
}

/// The upper end of the rounding interval of `m / 2^e`, in units of
/// `2^-(e+2)`: halfway to the next larger double.
pub open spec fn high_end(m: nat) -> int {
    4 * m as int + 2
}

/// `c / 10^q` reads back as the double `m / 2^e`: it lies in that double's
/// rounding interval, whose ends belong to it when `m` is even.
pub open spec fn reads_back(c: int, q: nat, m: nat, e: nat) -> bool {
    let x = c * pow2(e + 2);
    let lo = low_end(m) * pow10(q);
    let hi = high_end(m) * pow10(q);
    let incl = m % 2 == 0;
    &&& (lo < x || (incl && lo == x))
    &&& (x < hi || (incl && x == hi))
}

/// Some decimal with `q` places reads back as `m / 2^e`.
pub open spec fn has_digits(q: nat, m: nat, e: nat) -> bool {
    exists|c: int| reads_back(c, q, m, e)
}

/// How far `c / 10^q` lies from `m / 2^e`, in units of `10^-q·2^-e`.
pub open spec fn gap(c: int, q: nat, m: nat, e: nat) -> int {
    let x = c * pow2(e) - m * pow10(q);
    if x < 0 {
        -x
    } else {
        x
    }
}

/// `c / 10^q` is the decimal with `q` places, reading back as `m / 2^e`,
/// that lies closest to it (the larger on a tie).
pub open spec fn best_digits(c: int, q: nat, m: nat, e: nat) -> bool {
    &&& reads_back(c, q, m, e)
    &&& forall|c2: int| #[trigger] reads_back(c2, q, m, e) ==> gap(c, q, m, e) < gap(c2, q, m, e) || (gap(c, q, m, e) == gap(c2, q, m, e) && c >= c2)
}

/// `q` is the fewest places (at least one) with which a decimal reads back
/// as `m / 2^e`.
pub open spec fn fewest_places(q: nat, m: nat, e: nat) -> bool {
    &&& q >= 1
    &&& has_digits(q, m, e)
    &&& forall|p: nat| 1 <= p < q ==> !#[trigger] has_digits(p, m, e)
}

/// `c` written with exactly `q` digits, leading zeros included.
pub open spec fn fixed_digits(c: nat, q: nat) -> Seq<char>
    decreases q,
{
    if q == 0 {
        seq![]
    } else {
        fixed_digits(c / 10, (q - 1) as nat).push(digit_char((c % 10) as int))
    }
}

/// What Rust prints for `k as f64 / n as f64` (and `1` when `n` is zero):
/// `1` and `0` for the whole quotients and for a quotient that rounds to
/// the double `1`, else `0.` followed by the digits
/// of the decimal with the fewest places that reads back as the nearest
/// double, the closest such decimal.
pub open spec fn float_ratio_text(k: nat, n: nat) -> Seq<char> {
    if n == 0 || k >= n {
        "1"@
    } else if k == 0 {
        "0"@
    } else {
        let (m, e) = nearest_double(k, n);
        if e <= 52 {
            "1"@
        } else {
            let q = choose|q: nat| fewest_places(q, m, e);
            let c = choose|c: int| best_digits(c, q, m, e);
            "0."@ + fixed_digits(c as nat, q)
        }
    }
}

proof fn lemma_pow2_add(a: nat, b: nat)
    ensures
        pow2(a + b) == pow2(a) * pow2(b),
    decreases b,
{
    if b > 0 {
        lemma_pow2_add(a, (b - 1) as nat);
        assert(pow2(a + b) == 2 * pow2((a + b - 1) as nat));
        assert(pow2(a) * pow2(b) == pow2(a) * (2 * pow2((b - 1) as nat)));
        assert(pow2(a) * (2 * pow2((b - 1) as nat)) == 2 * (pow2(a) * pow2((b - 1) as nat))) by (nonlinear_arith);
        assert((a + b - 1) as nat == a + (b - 1) as nat);
    } else {
        assert(pow2(0) == 1);
        assert(a + b == a);
    }
}

proof fn lemma_pow2_mono(a: nat, b: nat)
    requires
        a <= b,
    ensures
        1 <= pow2(a) <= pow2(b),
    decreases b,
{
    if b > a {
        lemma_pow2_mono(a, (b - 1) as nat);
    } else if a > 0 {
        lemma_pow2_mono(0, (a - 1) as nat);
    }
}

proof fn lemma_binade_unique(k: nat, n: nat, t1: nat, t2: nat)
    requires
        binade(k, n, t1),
        binade(k, n, t2),
    ensures
        t1 == t2,
{
    if t1 < t2 {
        lemma_pow2_mono(t1, (t2 - 1) as nat);
        assert(k * pow2(t1) <= k * pow2((t2 - 1) as nat)) by (nonlinear_arith)
            requires
                pow2(t1) <= pow2((t2 - 1) as nat),
        ;
    } else if t2 < t1 {
        lemma_pow2_mono(t2, (t1 - 1) as nat);
        assert(k * pow2(t2) <= k * pow2((t1 - 1) as nat)) by (nonlinear_arith)
            requires
                pow2(t2) <= pow2((t1 - 1) as nat),
        ;
    }
}

proof fn lemma_fewest_unique(q1: nat, q2: nat, m: nat, e: nat)
    requires
        fewest_places(q1, m, e),
        fewest_places(q2, m, e),
    ensures
        q1 == q2,
{
    if q1 < q2 {
        assert(!has_digits(q1, m, e));
    } else if q2 < q1 {
        assert(!has_digits(q2, m, e));
    }
}

proof fn lemma_best_unique(c1: int, c2: int, q: nat, m: nat, e: nat)
    requires
        best_digits(c1, q, m, e),
        best_digits(c2, q, m, e),
    ensures
        c1 == c2,
{
    assert(reads_back(c2, q, m, e));
    assert(reads_back(c1, q, m, e));
}


proof fn lemma_pow2_values()
    ensures
        pow2(52) == 0x10_0000_0000_0000,
        pow2(53) == 0x20_0000_0000_0000,
        pow2(60) == 0x1000_0000_0000_0000,
        pow2(114) == 0x4_0000_0000_0000_0000_0000_0000_0000,
{
    reveal_with_fuel(pow2, 61);
    assert(pow2(52) == 0x10_0000_0000_0000);
    assert(pow2(53) == 0x20_0000_0000_0000);
    assert(pow2(57) == 0x200_0000_0000_0000);
    assert(pow2(60) == 0x1000_0000_0000_0000);
    lemma_pow2_add(57, 57);
}

fn binade_exec(k: u64, n: u64) -> (r: (u128, u32))
    requires
        0 < k < n,
        n <= 0x0fff_ffff_ffff_ffff,
    ensures
        binade(k as nat, n as nat, r.1 as nat),
        r.0 == k * pow2(r.1 as nat),
        1 <= r.1 <= 60,
        n <= r.0 < 2 * n,
{
    let mut kk: u128 = k as u128;
    let mut t: u32 = 0;
    proof {
        lemma_pow2_values();
        assert(pow2(0) == 1);
    }
    while kk < n as u128
        invariant
            0 < k < n <= 0x0fff_ffff_ffff_ffff,
            kk == k * pow2(t as nat),
            t <= 60,
            t >= 1 ==> k * pow2((t - 1) as nat) < n,
            t == 0 ==> kk == k,
            kk < 2 * n,
            pow2(t as nat) <= kk,
            kk >= 1,
            pow2(60) == 0x1000_0000_0000_0000,
        decreases 2 * n - kk,
    {
        proof {
            if t >= 60 {
                lemma_pow2_mono(60, t as nat);
            }
            assert(k * pow2((t + 1) as nat) == 2 * (k * pow2(t as nat))) by (nonlinear_arith)
                requires
                    pow2((t + 1) as nat) == 2 * pow2(t as nat),
            ;
        }
        kk = kk * 2;
        t = t + 1;
    }
    (kk, t)
}

fn quotient53(kk: u128, n: u64) -> (r: (u128, u128))
    requires
        0 < n <= kk < 2 * n,
        n <= 0x0fff_ffff_ffff_ffff,
    ensures
        r.0 * n + r.1 == kk * pow2(52),
        r.1 < n,
        pow2(52) <= r.0 < pow2(53),
{
    let mut q: u128 = 1;
    let mut r: u128 = kk - n as u128;
    let mut j: u32 = 0;
    proof {
        lemma_pow2_values();
        assert(pow2(0) == 1);
        assert(pow2(1) == 2);
    }
    while j < 52
        invariant
            0 < n <= 0x0fff_ffff_ffff_ffff,
            j <= 52,
            q * n + r == kk * pow2(j as nat),
            r < n,
            pow2(j as nat) <= q < pow2((j + 1) as nat),
            pow2(53) == 0x20_0000_0000_0000,
        decreases 52 - j,
    {
        proof {
            lemma_pow2_mono((j + 1) as nat, 53);
            assert(pow2((j + 1) as nat) == 2 * pow2(j as nat));
            assert(pow2((j + 2) as nat) == 2 * pow2((j + 1) as nat));
        }
        let r2 = r * 2;
        if r2 >= n as u128 {
            proof {
                assert((2 * q + 1) * n + (r2 - n) == 2 * (q * n + r)) by (nonlinear_arith)
                    requires
                        r2 == 2 * r,
                ;
            }
            q = 2 * q + 1;
            r = r2 - n as u128;
        } else {
            proof {
                assert((2 * q) * n + r2 == 2 * (q * n + r)) by (nonlinear_arith)
                    requires
                        r2 == 2 * r,
                ;
            }
            q = 2 * q;
            r = r2;
        }
        proof {
            assert(kk * pow2((j + 1) as nat) == 2 * (kk * pow2(j as nat))) by (nonlinear_arith)
                requires
                    pow2((j + 1) as nat) == 2 * pow2(j as nat),
            ;
        }
        j = j + 1;
    }
    (q, r)
}

/// The double nearest `k / n`.
fn nearest_double_exec(k: u64, n: u64) -> (r: (u64, u32))
    requires
        0 < k < n,
        n <= 0x0fff_ffff_ffff_ffff,
    ensures
        (r.0 as nat, r.1 as nat) == nearest_double(k as nat, n as nat),
        pow2(52) <= r.0 < pow2(53),
        52 <= r.1 <= 112,
{
    let (kk, t) = binade_exec(k, n);
    let (q, r) = quotient53(kk, n);
    proof {
        lemma_pow2_values();
        let t0 = choose|t0: nat| binade(k as nat, n as nat, t0);
        lemma_binade_unique(k as nat, n as nat, t0, t as nat);
        lemma_pow2_add(t as nat, 52);
        let x = k * pow2((52 + t) as nat);
        assert(x == kk * pow2(52)) by (nonlinear_arith)
            requires
                kk == k * pow2(t as nat),
                pow2((t + 52) as nat) == pow2(t as nat) * pow2(52),
                x == k * pow2((52 + t) as nat),
        ;
        vstd::arithmetic::div_mod::lemma_fundamental_div_mod_converse(x as int, n as int, q as int, r as int);
    }
    let up = 2 * r > n as u128 || (2 * r == n as u128 && q % 2 == 1);
    let m: u128 = if up {
        q + 1
    } else {
        q
    };
    if m == 0x20_0000_0000_0000 {
        (0x10_0000_0000_0000, 52 + t - 1)
    } else {
        (m as u64, 52 + t)
    }
}


proof fn lemma_pow10_35()
    ensures
        pow10(35) == 100_000_000_000_000_000_000_000_000_000_000_000,
{
    reveal_with_fuel(pow10, 36);
}

/// Comparing `c·D` with `f·D + r`, where `0 ≤ r < D`, is comparing `c`
/// with `f` (and `r` with zero).
proof fn lemma_floor_order(c: int, f: int, r: int, d: int)
    requires
        d > 0,
        0 <= r < d,
    ensures
        (f * d + r < c * d) == (c > f),
        (f * d + r == c * d) == (c == f && r == 0),
        (c * d < f * d + r) == (c < f || (c == f && r > 0)),
{
    if c > f {
        assert(c * d >= f * d + d) by (nonlinear_arith)
            requires
                c >= f + 1,
                d > 0,
        ;
    } else if c < f {
        assert(c * d + d <= f * d) by (nonlinear_arith)
            requires
                c + 1 <= f,
                d > 0,
        ;
    }
}

proof fn lemma_floor_below(f: int, r: int, d: int, num: int, p: int)
    requires
        d > 0,
        p > 0,
        f >= 0,
        0 <= r,
        num < d,
        f * d + r == num * p,
    ensures
        f < p,
{
    if f >= p {
        assert(f * d >= p * d) by (nonlinear_arith)
            requires
                f >= p,
                d > 0,
        ;
        assert(num * p < d * p) by (nonlinear_arith)
            requires
                num < d,
                p > 0,
        ;
    }
}

/// Whether `c / 10^q` reads back, in terms of the whole and remaining parts
/// of the interval's ends at `q` places.
proof fn lemma_reads_back_floor(c: int, q: nat, m: nat, e: nat, fl: int, rl: int, fh: int, rh: int)
    requires
        pow2(e + 2) > 0,
        fl * pow2(e + 2) + rl == low_end(m) * pow10(q),
        0 <= rl < pow2(e + 2),
        fh * pow2(e + 2) + rh == high_end(m) * pow10(q),
        0 <= rh < pow2(e + 2),
    ensures
        reads_back(c, q, m, e) == ((c > fl || (c == fl && rl == 0 && m % 2 == 0)) && (c < fh || (c == fh && (rh > 0
            || m % 2 == 0)))),
{
    let d = pow2(e + 2) as int;
    lemma_floor_order(c, fl, rl, d);
    lemma_floor_order(c, fh, rh, d);
}

/// When a decimal with `q` places reads back, so does the whole part of
/// the double at `q` places or the next one up.
proof fn lemma_neighbour_reads_back(c: int, q: nat, m: nat, e: nat, fd: int, rd: int)
    requires
        reads_back(c, q, m, e),
        pow2(e + 2) > 0,
        fd * pow2(e + 2) + rd == 4 * m * pow10(q),
        0 <= rd < pow2(e + 2),
    ensures
        reads_back(fd, q, m, e) || (rd > 0 && reads_back(fd + 1, q, m, e)),
{
    let d = pow2(e + 2) as int;
    let p = pow10(q) as int;
    lemma_pow10_mono(0, q);
    assert(low_end(m) * p < 4 * m * p && 4 * m * p < high_end(m) * p) by (nonlinear_arith)
        requires
            low_end(m) < 4 * m < high_end(m),
            p >= 1,
    ;
    if c <= fd {
        assert(c * d <= fd * d) by (nonlinear_arith)
            requires
                c <= fd,
                d > 0,
        ;
    } else if rd > 0 {
        assert((fd + 1) * d <= c * d && (fd + 1) * d == fd * d + d) by (nonlinear_arith)
            requires
                c >= fd + 1,
                d > 0,
        ;
    }
}

/// With the interval's ends 3 units apart, some decimal with 35 places
/// lies strictly inside it when `2^(e+2)` is below `3·10^35`.
proof fn lemma_35_places(m: nat, e: nat, fl: int, rl: int)
    requires
        pow2(52) <= m,
        e + 2 <= 114,
        fl * pow2(e + 2) + rl == low_end(m) * pow10(35),
        0 <= rl < pow2(e + 2),
    ensures
        has_digits(35, m, e),
{
    lemma_pow2_values();
    lemma_pow10_35();
    lemma_pow2_mono(e + 2, 114);
    let d = pow2(e + 2) as int;
    let p = pow10(35) as int;
    let c = fl + 1;
    assert(c * d == fl * d + d) by (nonlinear_arith)
        requires
            c == fl + 1,
    ;
    assert(high_end(m) * p >= low_end(m) * p + 3 * p) by (nonlinear_arith)
        requires
            high_end(m) >= low_end(m) + 3,
            p > 0,
    ;
    assert(reads_back(c, 35, m, e));
}

fn pow2_exec(e: u32) -> (r: u128)
    requires
        e <= 114,
    ensures
        r == pow2(e as nat),
{
    let mut r: u128 = 1;
    let mut i: u32 = 0;
    proof {
        lemma_pow2_values();
        assert(pow2(0) == 1);
    }
    while i < e
        invariant
            i <= e <= 114,
            r == pow2(i as nat),
            pow2(114) == 0x4_0000_0000_0000_0000_0000_0000_0000,
        decreases e - i,
    {
        proof {
            lemma_pow2_mono((i + 1) as nat, 114);
            assert(pow2((i + 1) as nat) == 2 * pow2(i as nat));
        }
        r = r * 2;
        i = i + 1;
    }
    r
}

/// One more place of `num / d`: from the whole part `f` and remainder `r`
/// at `q` places to those at `q + 1` places.
fn next_place(f: u128, r: u128, d: u128, Ghost(num): Ghost<int>, Ghost(q): Ghost<nat>) -> (res: (u128, u128))
    requires
        0 < d <= 0x4_0000_0000_0000_0000_0000_0000_0000,
        r < d,
        f < 100_000_000_000_000_000_000_000_000_000_000_000,
        f * d + r == num * pow10(q),
    ensures
        res.0 * d + res.1 == num * pow10(q + 1),
        res.1 < d,
{
    let x = r * 10;
    let dig = x / d;
    let r2 = x % d;
    proof {
        vstd::arithmetic::div_mod::lemma_fundamental_div_mod(x as int, d as int);
        assert(dig < 10) by (nonlinear_arith)
            requires
                dig * d <= x,
                x < 10 * d,
                d > 0,
        ;
    }
    let f2 = f * 10 + dig;
    proof {
        assert(pow10(q + 1) == 10 * pow10(q));
        assert(f2 * d + r2 == 10 * (f * d + r)) by (nonlinear_arith)
            requires
                f2 == f * 10 + dig,
                x == dig * d + r2,
                x == r * 10,
        ;
        assert(num * pow10(q + 1) == 10 * (num * pow10(q))) by (nonlinear_arith)
            requires
                pow10(q + 1) == 10 * pow10(q),
        ;
    }
    (f2, r2)
}

/// `c` written with exactly `q` digits.
fn push_fixed(out: &mut String, c: u128, q: u32)
    ensures
        final(out)@ == old(out)@ + fixed_digits(c as nat, q as nat),
    decreases q,
{
    if q > 0 {
        push_fixed(out, c / 10, q - 1);
        let ch = digit_char_exec((c % 10) as u64);
        push_char(out, ch);
    }
}


proof fn lemma_gap_scaled(c: int, q: nat, m: nat, e: nat)
    ensures
        4 * gap(c, q, m, e) == if c * pow2(e + 2) < 4 * m * pow10(q) {
            4 * m * pow10(q) - c * pow2(e + 2)
        } else {
            c * pow2(e + 2) - 4 * m * pow10(q)
        },
{
    assert(pow2(e + 2) == 2 * pow2(e + 1));
    assert(pow2(e + 1) == 2 * pow2(e));
    assert(c * pow2(e + 2) - 4 * m * pow10(q) == 4 * (c * pow2(e) - m * pow10(q))) by (nonlinear_arith)
        requires
            pow2(e + 2) == 4 * pow2(e),
    ;
}

proof fn lemma_best_against(q: nat, m: nat, e: nat, fd: int, rd: int, c: int, c2: int)
    requires
        pow2(e + 2) > 0,
        fd * pow2(e + 2) + rd == 4 * m * pow10(q),
        0 <= rd < pow2(e + 2),
        c == fd || (c == fd + 1 && rd > 0),
        c == fd ==> !(rd > 0 && reads_back(fd + 1, q, m, e)) || 2 * rd < pow2(e + 2),
        c == fd + 1 ==> !reads_back(fd, q, m, e) || 2 * rd >= pow2(e + 2),
        reads_back(c2, q, m, e),
    ensures
        gap(c, q, m, e) < gap(c2, q, m, e) || (gap(c, q, m, e) == gap(c2, q, m, e) && c >= c2),
{
    let d = pow2(e + 2) as int;
    lemma_gap_scaled(c, q, m, e);
    lemma_gap_scaled(c2, q, m, e);
    assert(c * d == fd * d || c * d == fd * d + d) by (nonlinear_arith)
        requires
            c == fd || c == fd + 1,
    ;
    if c2 <= fd - 1 {
        assert(c2 * d <= fd * d - d) by (nonlinear_arith)
            requires
                c2 <= fd - 1,
                d > 0,
        ;
    } else if c2 >= fd + 2 {
        assert(c2 * d >= fd * d + 2 * d) by (nonlinear_arith)
            requires
                c2 >= fd + 2,
                d > 0,
        ;
    } else if c2 == fd {
        assert(c2 * d == fd * d);
    } else {
        assert(c2 * d == fd * d + d) by (nonlinear_arith)
            requires
                c2 == fd + 1,
        ;
    }
}

/// Of the two decimals with `q` places around the double, the one picked
/// (the reading-back one, the closer when both read back, the upper on a
/// tie) is the best.
proof fn lemma_best_choice(q: nat, m: nat, e: nat, fd: int, rd: int, c: int)
    requires
        pow2(e + 2) > 0,
        fd * pow2(e + 2) + rd == 4 * m * pow10(q),
        0 <= rd < pow2(e + 2),
        reads_back(c, q, m, e),
        c == fd || (c == fd + 1 && rd > 0),
        c == fd ==> !(rd > 0 && reads_back(fd + 1, q, m, e)) || 2 * rd < pow2(e + 2),
        c == fd + 1 ==> !reads_back(fd, q, m, e) || 2 * rd >= pow2(e + 2),
    ensures
        best_digits(c, q, m, e),
{
    assert forall|c2: int| #[trigger] reads_back(c2, q, m, e) implies gap(c, q, m, e) < gap(c2, q, m, e)
        || (gap(c, q, m, e) == gap(c2, q, m, e) && c >= c2) by {
        lemma_best_against(q, m, e, fd, rd, c, c2);
    }
}


/// What Rust prints for `k as f64 / n as f64`, for counts `k ≤ n`.
pub fn float_ratio_text_exec(k: u64, n: u64) -> (s: String)
    requires
        k <= n,
        n <= 0x0fff_ffff_ffff_ffff,
    ensures
        s@ == float_ratio_text(k as nat, n as nat),
{
    if n == 0 || k >= n {
        return copy_str("1");
    }
    if k == 0 {
        return copy_str("0");
    }
    let (m, e) = nearest_double_exec(k, n);
    if e <= 52 {
        return copy_str("1");
    }
    let d = pow2_exec(e + 2);
    let m4: u128 = 4 * (m as u128);
    let lo: u128 = if m == 0x10_0000_0000_0000 {
        m4 - 1
    } else {
        m4 - 2
    };
    let hi: u128 = m4 + 2;
    let incl = m % 2 == 0;
    proof {
        lemma_pow2_values();
        lemma_pow10_35();
        lemma_pow2_mono(53, e as nat);
        assert(pow2((e + 2) as nat) == 2 * pow2((e + 1) as nat));
        assert(pow2((e + 1) as nat) == 2 * pow2(e as nat));
        lemma_pow2_mono((e + 2) as nat, 114);
        assert(pow10(0) == 1);
    }
    let mut fd: u128 = 0;
    let mut rd: u128 = m4;
    let mut fl: u128 = 0;
    let mut rl: u128 = lo;
    let mut fh: u128 = 0;
    let mut rh: u128 = hi;
    let mut q: u32 = 0;
    while q < 35
        invariant
            pow2(52) <= m < pow2(53),
            53 <= e <= 112,
            0 < k < n,
            (m as nat, e as nat) == nearest_double(k as nat, n as nat),
            d == pow2((e + 2) as nat),
            0 < d <= 0x4_0000_0000_0000_0000_0000_0000_0000,
            m4 == 4 * m,
            lo == low_end(m as nat),
            hi == high_end(m as nat),
            hi < d,
            incl == (m % 2 == 0),
            q <= 35,
            fd * d + rd == 4 * m * pow10(q as nat),
            rd < d,
            fl * d + rl == low_end(m as nat) * pow10(q as nat),
            rl < d,
            fh * d + rh == high_end(m as nat) * pow10(q as nat),
            rh < d,
            fd < pow10(q as nat),
            fl < pow10(q as nat),
            fh < pow10(q as nat),
            forall|p: nat| 1 <= p <= q ==> !#[trigger] has_digits(p, m as nat, e as nat),
            pow10(35) == 100_000_000_000_000_000_000_000_000_000_000_000,
        decreases 35 - q,
    {
        proof {
            lemma_pow10_mono(q as nat, 34);
        }
        let (a1, b1) = next_place(fd, rd, d, Ghost(4 * m as int), Ghost(q as nat));
        let (a2, b2) = next_place(fl, rl, d, Ghost(low_end(m as nat)), Ghost(q as nat));
        let (a3, b3) = next_place(fh, rh, d, Ghost(high_end(m as nat)), Ghost(q as nat));
        fd = a1;
        rd = b1;
        fl = a2;
        rl = b2;
        fh = a3;
        rh = b3;
        q = q + 1;
        proof {
            lemma_pow10_mono(0, q as nat);
            lemma_floor_below(fd as int, rd as int, d as int, 4 * m as int, pow10(q as nat) as int);
            lemma_floor_below(fl as int, rl as int, d as int, low_end(m as nat), pow10(q as nat) as int);
            lemma_floor_below(fh as int, rh as int, d as int, high_end(m as nat), pow10(q as nat) as int);
            lemma_pow10_mono(q as nat, 35);
        }
        let c2: u128 = fd + 1;
        let in1 = (fd > fl || (fd == fl && rl == 0 && incl)) && (fd < fh || (fd == fh && (rh > 0 || incl)));
        let in2 = rd > 0 && (c2 > fl || (c2 == fl && rl == 0 && incl)) && (c2 < fh || (c2 == fh && (rh > 0 || incl)));
        proof {
            lemma_reads_back_floor(fd as int, q as nat, m as nat, e as nat, fl as int, rl as int, fh as int, rh as int);
            lemma_reads_back_floor(c2 as int, q as nat, m as nat, e as nat, fl as int, rl as int, fh as int, rh as int);
        }
        if in1 || in2 {
            let c = if in1 && (!in2 || 2 * rd < d) {
                fd
            } else {
                c2
            };
            proof {
                let gm = m as nat;
                let ge = e as nat;
                let gq = q as nat;
                lemma_best_choice(gq, gm, ge, fd as int, rd as int, c as int);
                assert(has_digits(gq, gm, ge));
                assert(fewest_places(gq, gm, ge));
                let qs = choose|qq: nat| fewest_places(qq, gm, ge);
                lemma_fewest_unique(qs, gq, gm, ge);
                let cs = choose|cc: int| best_digits(cc, gq, gm, ge);
                lemma_best_unique(cs, c as int, gq, gm, ge);
            }
            let mut s = copy_str("0.");
            push_fixed(&mut s, c, q);
            proof {
                let qs = choose|qq: nat| fewest_places(qq, m as nat, e as nat);
                let cs = choose|cc: int| best_digits(cc, qs, m as nat, e as nat);
                assert(qs == q as nat);
                assert(cs == c as int);
                assert(s@ == "0."@ + fixed_digits(c as nat, q as nat));
            }
            return s;
        }
        proof {
            if has_digits(q as nat, m as nat, e as nat) {
                let c0 = choose|c0: int| reads_back(c0, q as nat, m as nat, e as nat);
                lemma_neighbour_reads_back(c0, q as nat, m as nat, e as nat, fd as int, rd as int);
            }
        }
    }
    proof {
        lemma_35_places(m as nat, e as nat, fl as int, rl as int);
        assert(!has_digits(35, m as nat, e as nat));
    }
    copy_str("1")
}

} // verus!
