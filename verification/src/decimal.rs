//! Numbers written the way `str::parse::<f64>` reads them: an optional
//! sign, then `inf`, `infinity` or `nan` in any letter case, or decimal
//! digits with an optional point and an optional exponent (`e` or `E`,
//! an optional sign, digits). The value of a finite number is kept
//! exactly, as a digit string and a power of ten, and compared exactly
//! with amounts in hundredths.
use vstd::prelude::*;
use crate::numfmt::{
    all_digits, cents_text, decimal_seq, digit_char, digit_value, digits_value, is_digit, lemma_decimal_seq,
    lemma_digit_char, lemma_digits_value_nonneg,
};
use crate::text::chars_of;

verus! {

/// Ten to the power `n`.
pub open spec fn pow10(n: nat) -> nat
    decreases n,
{
    if n == 0 {
        1
    } else {
        10 * pow10((n - 1) as nat)
    }
}

/// A number as written.
pub enum FloatText {
    /// `±digits × 10^(±exp_mag − frac_len)`: the digits of the mantissa
    /// with the point left out, `frac_len` of them after the point.
    Finite { neg: bool, digits: Seq<char>, frac_len: nat, exp_neg: bool, exp_mag: nat },
    /// `inf` or `infinity`, with its sign.
    Infinite { neg: bool },
    /// `nan`.
    NotANumber,
}

/// `p` is the first position in `s` holding `a` or `b`, or the length of
/// `s` when none does.
pub open spec fn is_first(s: Seq<char>, p: int, a: char, b: char) -> bool {
    &&& 0 <= p <= s.len()
    &&& (p == s.len() || s[p] == a || s[p] == b)
    &&& forall|j: int| 0 <= j < p ==> #[trigger] s[j] != a && s[j] != b
}

/// The first position in `s` holding `a` or `b`, or the length of `s`.
pub open spec fn first_of(s: Seq<char>, a: char, b: char) -> int {
    choose|p: int| is_first(s, p, a, b)
}

/// Whether the text starts with a minus sign.
pub open spec fn sign_of(s: Seq<char>) -> bool {
    s.len() > 0 && s[0] == '-'
}

/// The text without a leading `+` or `-`.
pub open spec fn unsigned_part(s: Seq<char>) -> Seq<char> {
    if s.len() > 0 && (s[0] == '+' || s[0] == '-') {
        s.drop_first()
    } else {
        s
    }
}

/// `c` is the lower-case letter `lower` or its ASCII upper case.
pub open spec fn same_letter(c: char, lower: char) -> bool {
    c == lower || (c as u32) + 32 == (lower as u32)
}

/// `s` spells the lower-case word `lower`, ignoring ASCII letter case.
pub open spec fn equals_ignoring_case(s: Seq<char>, lower: Seq<char>) -> bool {
    s.len() == lower.len() && forall|i: int| 0 <= i < s.len() ==> same_letter(#[trigger] s[i], lower[i])
}

/// The digits of a mantissa (`12`, `1.5`, `.5`, `7.`) and how many of
/// them follow the point.
pub open spec fn mantissa_spec(m: Seq<char>) -> Option<(Seq<char>, nat)> {
    let q = first_of(m, '.', '.');
    if q == m.len() {
        if m.len() > 0 && all_digits(m) {
            Some((m, 0nat))
        } else {
            None
        }
    } else {
        let w = m.take(q);
        let f = m.skip(q + 1);
        if all_digits(w) && all_digits(f) && w.len() + f.len() > 0 {
            Some((w + f, f.len()))
        } else {
            None
        }
    }
}

/// The sign and magnitude of an exponent: an optional sign, then digits.
pub open spec fn exponent_spec(x: Seq<char>) -> Option<(bool, nat)> {
    let d = unsigned_part(x);
    if d.len() > 0 && all_digits(d) {
        Some((sign_of(x), digits_value(d) as nat))
    } else {
        None
    }
}

/// The number a text writes, when it writes one.
pub open spec fn float_text(s: Seq<char>) -> Option<FloatText> {
    let neg = sign_of(s);
    let b = unsigned_part(s);
    if equals_ignoring_case(b, "inf"@) || equals_ignoring_case(b, "infinity"@) {
        Some(FloatText::Infinite { neg })
    } else if equals_ignoring_case(b, "nan"@) {
        Some(FloatText::NotANumber)
    } else {
        let p = first_of(b, 'e', 'E');
        let ex = if p == b.len() {
            Some((false, 0nat))
        } else {
            exponent_spec(b.skip(p + 1))
        };
        match (mantissa_spec(b.take(p)), ex) {
            (Some((digits, frac_len)), Some((exp_neg, exp_mag))) => Some(FloatText::Finite { neg, digits, frac_len, exp_neg, exp_mag }),
            _ => None,
        }
    }
}

/// The power of ten that scales the digits of a finite number.
pub open spec fn exponent_of(frac_len: nat, exp_neg: bool, exp_mag: nat) -> int {
    (if exp_neg {
        -(exp_mag as int)
    } else {
        exp_mag as int
    }) - frac_len
}

/// The magnitude of `digits × 10^k` as a fraction `num / den`, `den` a
/// power of ten.
pub open spec fn scaled_ratio(digits: Seq<char>, k: int) -> (nat, nat) {
    let m = digits_value(digits) as nat;
    if k >= 0 {
        (m * pow10(k as nat), 1nat)
    } else {
        (m, pow10((-k) as nat))
    }
}

/// The magnitude of a finite number in hundredths, as a fraction.
pub open spec fn hundredths_ratio(digits: Seq<char>, frac_len: nat, exp_neg: bool, exp_mag: nat) -> (nat, nat) {
    scaled_ratio(digits, exponent_of(frac_len, exp_neg, exp_mag) + 2)
}

/// The number is below `b` hundredths, compared exactly; minus infinity
/// is below everything, NaN below nothing.
pub open spec fn below_hundredths(v: FloatText, b: int) -> bool {
    match v {
        FloatText::Finite { neg, digits, frac_len, exp_neg, exp_mag } => {
            let (n, d) = hundredths_ratio(digits, frac_len, exp_neg, exp_mag);
            (if neg {
                -(n as int)
            } else {
                n as int
            }) < b * d
        },
        FloatText::Infinite { neg } => neg,
        FloatText::NotANumber => false,
    }
}

/// The number is above `b` hundredths, compared exactly; infinity is
/// above everything, NaN above nothing.
pub open spec fn above_hundredths(v: FloatText, b: int) -> bool {
    match v {
        FloatText::Finite { neg, digits, frac_len, exp_neg, exp_mag } => {
            let (n, d) = hundredths_ratio(digits, frac_len, exp_neg, exp_mag);
            (if neg {
                -(n as int)
            } else {
                n as int
            }) > b * d
        },
        FloatText::Infinite { neg } => !neg,
        FloatText::NotANumber => false,
    }
}

/// A number rounded to whole hundredths, halves away from zero, the
/// magnitude held to `i64::MAX` (so infinities give the extremes); `None`
/// for NaN.
pub open spec fn rounded_hundredths(v: FloatText) -> Option<i64> {
    match v {
        FloatText::Finite { neg, digits, frac_len, exp_neg, exp_mag } => {
            let (n, d) = hundredths_ratio(digits, frac_len, exp_neg, exp_mag);
            let c = capped(((2 * n + d) / (2 * d)) as int, i64::MAX as int);
            Some((if neg {
                -c
            } else {
                c
            }) as i64)
        },
        FloatText::Infinite { neg } => Some((if neg {
            -(i64::MAX as int)
        } else {
            i64::MAX as int
        }) as i64),
        FloatText::NotANumber => None,
    }
}

/// A price read from its text into cents: the number the text writes,
/// rounded to the nearest cent (halves away from zero), an amount beyond
/// the `i64` range held at `±i64::MAX` cents; `None` when the text writes
/// no number, or NaN.
pub open spec fn parse_price_spec(s: Seq<char>) -> Option<i64> {
    match float_text(s) {
        Some(v) => rounded_hundredths(v),
        None => None,
    }
}

/// Where saturated counts stop: 2^64.
pub const SAT: u128 = 0x1_0000_0000_0000_0000;

/// Where a saturated exponent stops: 2^66, beyond any text length.
pub const EXP_CAP: u128 = 0x4_0000_0000_0000_0000;

/// `x`, or `cap` when `x` is larger.
pub open spec fn capped(x: int, cap: int) -> int {
    if x < cap {
        x
    } else {
        cap
    }
}

proof fn lemma_first_of(s: Seq<char>, p: int, a: char, b: char)
    requires
        is_first(s, p, a, b),
    ensures
        first_of(s, a, b) == p,
{
    assert(exists|x: int| is_first(s, x, a, b));
    let q = first_of(s, a, b);
    assert(is_first(s, q, a, b));
    if q < p {
        assert(s[q] != a && s[q] != b);
    }
    if p < q {
        assert(s[p] != a && s[p] != b);
    }
}

proof fn lemma_all_digits_sub(s: Seq<char>, i: int, j: int)
    requires
        all_digits(s),
        0 <= i <= j <= s.len(),
    ensures
        all_digits(s.subrange(i, j)),
{
    assert forall|k: int| 0 <= k < j - i implies is_digit(#[trigger] s.subrange(i, j)[k]) by {
        assert(s.subrange(i, j)[k] == s[i + k]);
    }
}

/// Ten to a power is positive, and grows with the power.
pub proof fn lemma_pow10_mono(a: nat, b: nat)
    requires
        a <= b,
    ensures
        1 <= pow10(a) <= pow10(b),
    decreases b,
{
    if b > a {
        lemma_pow10_mono(a, (b - 1) as nat);
    } else if a > 0 {
        lemma_pow10_mono(0, (a - 1) as nat);
    }
}

proof fn lemma_pow10_big(k: nat)
    requires
        k >= 20,
    ensures
        pow10(k) >= SAT,
{
    lemma_pow10_mono(20, k);
    reveal_with_fuel(pow10, 21);
    assert(pow10(20) == 100_000_000_000_000_000_000nat);
}

/// A digit string splits at `m` into a head, worth a power of ten per
/// remaining digit, and a tail below that power.
pub proof fn lemma_split_digits(s: Seq<char>, m: int)
    requires
        all_digits(s),
        0 <= m <= s.len(),
    ensures
        digits_value(s) == digits_value(s.take(m)) * pow10((s.len() - m) as nat) + digits_value(s.skip(m)),
        0 <= digits_value(s.skip(m)) < pow10((s.len() - m) as nat),
        digits_value(s.take(m)) >= 0,
    decreases s.len(),
{
    lemma_all_digits_sub(s, 0, m);
    assert(s.subrange(0, m) == s.take(m));
    lemma_digits_value_nonneg(s.take(m));
    if m == s.len() {
        assert(s.take(m) == s);
        assert(s.skip(m) =~= Seq::<char>::empty());
        assert(digits_value(Seq::<char>::empty()) == 0);
        assert(pow10(0) == 1);
        assert(digits_value(s.take(m)) * pow10((s.len() - m) as nat) == digits_value(s)) by (nonlinear_arith)
            requires
                pow10((s.len() - m) as nat) == 1,
                s.take(m) == s,
        ;
    } else {
        let t = s.drop_last();
        lemma_all_digits_sub(s, 0, s.len() - 1);
        assert(s.subrange(0, s.len() - 1) == t);
        lemma_split_digits(t, m);
        assert(t.take(m) == s.take(m));
        assert(s.skip(m).drop_last() == t.skip(m));
        assert(s.skip(m).last() == s.last());
        assert(is_digit(s[s.len() - 1]));
        let a = digits_value(s.take(m));
        let p = pow10((t.len() - m) as nat);
        let r = digits_value(t.skip(m));
        let d = digit_value(s.last());
        assert(0 <= d <= 9);
        assert(digits_value(s) == digits_value(t) * 10 + d);
        assert(digits_value(s.skip(m)) == r * 10 + d);
        assert(pow10((s.len() - m) as nat) == 10 * p);
        assert(digits_value(t) == a * p + r);
        assert((a * p + r) * 10 + d == a * (10 * p) + (r * 10 + d)) by (nonlinear_arith);
        assert(digits_value(s) == a * pow10((s.len() - m) as nat) + digits_value(s.skip(m)));
    }
}

/// A digit string is worth zero exactly when all its digits are `0`.
proof fn lemma_zero_digits(s: Seq<char>)
    requires
        all_digits(s),
    ensures
        (digits_value(s) == 0) == (forall|i: int| 0 <= i < s.len() ==> #[trigger] s[i] == '0'),
    decreases s.len(),
{
    if s.len() > 0 {
        let t = s.drop_last();
        lemma_all_digits_sub(s, 0, s.len() - 1);
        assert(s.subrange(0, s.len() - 1) == t);
        lemma_zero_digits(t);
        lemma_digits_value_nonneg(t);
        assert(is_digit(s[s.len() - 1]));
        if digits_value(s) == 0 {
            assert forall|i: int| 0 <= i < s.len() implies #[trigger] s[i] == '0' by {
                if i < s.len() - 1 {
                    assert(t[i] == s[i]);
                }
            }
        }
        if forall|i: int| 0 <= i < s.len() ==> #[trigger] s[i] == '0' {
            assert forall|i: int| 0 <= i < t.len() implies #[trigger] t[i] == '0' by {
                assert(t[i] == s[i]);
            }
            assert(s[s.len() - 1] == '0');
        }
    }
}

/// Twice a digit string reaches the next power of ten exactly when its
/// first digit is at least 5.
proof fn lemma_half_digits(t: Seq<char>)
    requires
        all_digits(t),
        t.len() > 0,
    ensures
        (2 * digits_value(t) >= pow10(t.len())) == (digit_value(t[0]) >= 5),
{
    lemma_split_digits(t, 1);
    let h = t.take(1);
    assert(h.drop_last() =~= Seq::<char>::empty());
    assert(h.last() == t[0]);
    assert(digits_value(Seq::<char>::empty()) == 0);
    assert(digits_value(h) == digit_value(t[0]));
    assert(is_digit(t[0]));
    let d = digit_value(t[0]);
    let p = pow10((t.len() - 1) as nat);
    let r = digits_value(t.skip(1));
    assert(pow10(t.len()) == 10 * p);
    lemma_pow10_mono(0, (t.len() - 1) as nat);
    assert((2 * (d * p + r) >= 10 * p) == (d >= 5)) by (nonlinear_arith)
        requires
            0 <= d <= 9,
            0 <= r < p,
            p >= 1,
    ;
}

/// The value of `s[from..to]`, capped at `cap`.
fn capped_value(s: &Vec<char>, from: usize, to: usize, cap: u128) -> (r: u128)
    requires
        from <= to <= s.len(),
        all_digits(s@.subrange(from as int, to as int)),
        1 <= cap <= 0x1_0000_0000_0000_0000_0000_0000,
    ensures
        r == capped(digits_value(s@.subrange(from as int, to as int)), cap as int),
{
    let mut acc: u128 = 0;
    let mut k = from;
    proof {
        assert(s@.subrange(from as int, from as int) =~= Seq::<char>::empty());
    }
    while k < to
        invariant
            from <= k <= to <= s.len(),
            1 <= cap <= 0x1_0000_0000_0000_0000_0000_0000,
            all_digits(s@.subrange(from as int, to as int)),
            acc == capped(digits_value(s@.subrange(from as int, k as int)), cap as int),
        decreases to - k,
    {
        let ghost w = s@.subrange(from as int, to as int);
        let ghost pre = s@.subrange(from as int, k as int);
        proof {
            assert(w[k - from] == s@[k as int]);
            assert(is_digit(s@[k as int]));
            assert(s@.subrange(from as int, k + 1).drop_last() == pre);
            assert(s@.subrange(from as int, k + 1).last() == s@[k as int]);
            lemma_all_digits_sub(w, 0, k - from);
            assert(w.subrange(0, k - from) == pre);
            lemma_digits_value_nonneg(pre);
        }
        let d = (s[k] as u32 - '0' as u32) as u128;
        let next = acc * 10 + d;
        acc = if next >= cap {
            cap
        } else {
            next
        };
        k += 1;
    }
    acc
}

/// Whether some character of `s[from..to]` is not `0`.
fn has_nonzero(s: &Vec<char>, from: usize, to: usize) -> (b: bool)
    requires
        from <= to <= s.len(),
    ensures
        b == !(forall|i: int| 0 <= i < to - from ==> #[trigger] s@.subrange(from as int, to as int)[i] == '0'),
{
    let mut k = from;
    while k < to
        invariant
            from <= k <= to <= s.len(),
            forall|i: int| from <= i < k ==> #[trigger] s@[i] == '0',
        decreases to - k,
    {
        if s[k] != '0' {
            proof {
                assert(s@.subrange(from as int, to as int)[k - from] == s@[k as int]);
            }
            return true;
        }
        k += 1;
    }
    proof {
        assert forall|i: int| 0 <= i < to - from implies #[trigger] s@.subrange(from as int, to as int)[i] == '0' by {
            assert(s@.subrange(from as int, to as int)[i] == s@[from + i]);
        }
    }
    false
}

/// The magnitude `n / d` of a finite number in hundredths, as figures:
/// its floor (capped at `SAT`), whether a remainder is left, and whether
/// that remainder is at least half of `d`.
fn scale(digits: &Vec<char>, frac_len: usize, exp_neg: bool, exp_sat: u128, Ghost(exp_mag): Ghost<nat>) -> (r: (u128, bool, bool))
    requires
        all_digits(digits@),
        exp_sat == capped(exp_mag as int, EXP_CAP as int),
    ensures
        ({
            let (n, d) = hundredths_ratio(digits@, frac_len as nat, exp_neg, exp_mag);
            &&& d > 0
            &&& r.0 == capped((n / d) as int, SAT as int)
            &&& r.1 == (n % d != 0)
            &&& r.2 == (2 * (n % d) >= d)
        }),
{
    let len = digits.len();
    let ghost m = digits_value(digits@);
    let ghost k = exponent_of(frac_len as nat, exp_neg, exp_mag) + 2;
    let ghost nd = hundredths_ratio(digits@, frac_len as nat, exp_neg, exp_mag);
    proof {
        lemma_split_digits(digits@, 0);
        assert(digits@.skip(0) == digits@);
        assert(digits@.subrange(0, len as int) == digits@);
        assert(0 <= m < pow10(len as nat));
        if k < 0 {
            lemma_pow10_mono(0, (-k) as nat);
        }
        assert(nd.1 > 0);
    }
    if !has_nonzero(digits, 0, len) {
        proof {
            lemma_zero_digits(digits@);
            assert(m == 0);
            assert(nd.0 == 0) by (nonlinear_arith)
                requires
                    nd.0 == m * pow10(k as nat) || nd.0 == m,
                    m == 0,
            ;
            vstd::arithmetic::div_mod::lemma_fundamental_div_mod_converse(0, nd.1 as int, 0, 0);
        }
        return (0, false, false);
    }
    proof {
        lemma_zero_digits(digits@);
        assert(m >= 1);
    }
    if !exp_neg && exp_sat == EXP_CAP {
        proof {
            assert(k >= 20);
            lemma_pow10_big(k as nat);
            assert(nd.0 == m * pow10(k as nat));
            assert(m * pow10(k as nat) >= pow10(k as nat)) by (nonlinear_arith)
                requires
                    m >= 1,
                    pow10(k as nat) >= 1,
            ;
            vstd::arithmetic::div_mod::lemma_fundamental_div_mod_converse(nd.0 as int, 1, nd.0 as int, 0);
        }
        return (SAT, false, false);
    }
    if exp_neg && exp_sat == EXP_CAP {
        proof {
            let j = -k;
            assert(j >= len + 1);
            lemma_pow10_mono((len + 1) as nat, j as nat);
            assert(pow10((len + 1) as nat) == 10 * pow10(len as nat));
            assert(nd == (m as nat, pow10(j as nat)));
            vstd::arithmetic::div_mod::lemma_fundamental_div_mod_converse(m, nd.1 as int, 0, m);
        }
        return (0, true, false);
    }
    let e: i128 = if exp_neg {
        -(exp_sat as i128)
    } else {
        exp_sat as i128
    };
    let kk: i128 = e - frac_len as i128 + 2;
    proof {
        assert(exp_sat == exp_mag);
        assert(kk == k);
    }
    if kk >= 0 {
        let mut acc = capped_value(digits, 0, len, SAT);
        let mut i: i128 = 0;
        proof {
            assert(pow10(0) == 1);
            assert(m * pow10(0) == m) by (nonlinear_arith)
                requires
                    pow10(0) == 1,
            ;
        }
        while i < kk && acc < SAT
            invariant
                0 <= i <= kk,
                m >= 1,
                acc == capped(m * pow10(i as nat), SAT as int),
            decreases kk - i,
        {
            proof {
                assert(pow10((i + 1) as nat) == 10 * pow10(i as nat));
                assert(m * pow10((i + 1) as nat) == (m * pow10(i as nat)) * 10) by (nonlinear_arith)
                    requires
                        pow10((i + 1) as nat) == 10 * pow10(i as nat),
                ;
                lemma_pow10_mono(0, i as nat);
                assert(m * pow10(i as nat) >= 0) by (nonlinear_arith)
                    requires
                        m >= 1,
                        pow10(i as nat) >= 1,
                ;
            }
            let next = acc * 10;
            acc = if next >= SAT {
                SAT
            } else {
                next
            };
            i += 1;
        }
        proof {
            if i < kk {
                assert(acc == SAT);
                assert(m * pow10(i as nat) >= SAT);
                lemma_pow10_mono(i as nat, kk as nat);
                assert(m * pow10(kk as nat) >= m * pow10(i as nat)) by (nonlinear_arith)
                    requires
                        m >= 1,
                        pow10(kk as nat) >= pow10(i as nat),
                ;
            }
            assert(nd.0 == m * pow10(kk as nat));
            vstd::arithmetic::div_mod::lemma_fundamental_div_mod_converse(nd.0 as int, 1, nd.0 as int, 0);
        }
        return (acc, false, false);
    }
    let j: i128 = -kk;
    if j > len as i128 {
        proof {
            lemma_pow10_mono((len + 1) as nat, j as nat);
            assert(pow10((len + 1) as nat) == 10 * pow10(len as nat));
            assert(nd == (m as nat, pow10(j as nat)));
            vstd::arithmetic::div_mod::lemma_fundamental_div_mod_converse(m, nd.1 as int, 0, m);
        }
        return (0, true, false);
    }
    let mm: usize = (len as i128 - j) as usize;
    let f = capped_value(digits, 0, mm, SAT);
    let frac = has_nonzero(digits, mm, len);
    let half = digits[mm] >= '5';
    proof {
        lemma_split_digits(digits@, mm as int);
        let tail = digits@.skip(mm as int);
        assert(tail == digits@.subrange(mm as int, len as int));
        assert(digits@.subrange(0, mm as int) == digits@.take(mm as int));
        assert(nd == (m as nat, pow10(j as nat)));
        assert(len - mm == j);
        vstd::arithmetic::div_mod::lemma_fundamental_div_mod_converse(
            m,
            nd.1 as int,
            digits_value(digits@.take(mm as int)),
            digits_value(tail),
        );
        lemma_all_digits_sub(digits@, mm as int, len as int);
        lemma_zero_digits(tail);
        lemma_half_digits(tail);
        assert(tail[0] == digits@[mm as int]);
        assert(is_digit(tail[0]));
    }
    (f, frac, half)
}

/// A number read from its text: a finite one with its exponent's
/// magnitude capped at `EXP_CAP`, an infinity, or NaN.
pub enum ReadFloat {
    Finite { neg: bool, digits: Vec<char>, frac_len: usize, exp_neg: bool, exp_sat: u128 },
    Infinite { neg: bool },
    NotANumber,
}

/// `r` is the number `t`, its exponent capped.
pub open spec fn read_matches(r: ReadFloat, t: FloatText) -> bool {
    match (r, t) {
        (
            ReadFloat::Finite { neg, digits, frac_len, exp_neg, exp_sat },
            FloatText::Finite { neg: n2, digits: d2, frac_len: f2, exp_neg: e2, exp_mag },
        ) => neg == n2 && digits@ == d2 && frac_len == f2 && exp_neg == e2 && exp_sat == capped(exp_mag as int, EXP_CAP as int),
        (ReadFloat::Infinite { neg }, FloatText::Infinite { neg: n2 }) => neg == n2,
        (ReadFloat::NotANumber, FloatText::NotANumber) => true,
        _ => false,
    }
}

/// Whether `s[from..]` spells `word` (lower case) ignoring ASCII case.
fn spells(s: &Vec<char>, from: usize, word: &str) -> (b: bool)
    requires
        from <= s.len(),
    ensures
        b == equals_ignoring_case(s@.skip(from as int), word@),
{
    let w = chars_of(word);
    let ghost t = s@.skip(from as int);
    if s.len() - from != w.len() {
        return false;
    }
    let mut i: usize = 0;
    while i < w.len()
        invariant
            i <= w.len() == s.len() - from,
            from <= s.len(),
            w@ == word@,
            t == s@.skip(from as int),
            forall|j: int| 0 <= j < i ==> same_letter(#[trigger] t[j], w@[j]),
        decreases w.len() - i,
    {
        let c = s[from + i];
        let l = w[i];
        proof {
            assert(t[i as int] == c);
        }
        if !(c == l || ((l as u32) >= 32 && (c as u32) == (l as u32) - 32)) {
            return false;
        }
        i += 1;
    }
    true
}

/// Appends `s[from..to]`.
fn copy_range(s: &Vec<char>, from: usize, to: usize, out: &mut Vec<char>)
    requires
        from <= to <= s.len(),
    ensures
        final(out)@ == old(out)@ + s@.subrange(from as int, to as int),
{
    let mut k = from;
    while k < to
        invariant
            from <= k <= to <= s.len(),
            out@ == old(out)@ + s@.subrange(from as int, k as int),
        decreases to - k,
    {
        out.push(s[k]);
        proof {
            assert(s@.subrange(from as int, k + 1) == s@.subrange(from as int, k as int).push(s@[k as int]));
        }
        k += 1;
    }
}

/// The mantissa `s[from..to]`: its digits and how many follow the point.
fn read_mantissa(s: &Vec<char>, from: usize, to: usize) -> (r: Option<(Vec<char>, usize)>)
    requires
        from <= to <= s.len(),
    ensures
        match mantissa_spec(s@.subrange(from as int, to as int)) {
            None => r is None,
            Some((d, f)) => (r matches Some((v, fl)) && v@ == d && fl == f),
        },
{
    let ghost m = s@.subrange(from as int, to as int);
    let mut q = from;
    while q < to && s[q] != '.'
        invariant
            from <= q <= to <= s.len(),
            forall|j: int| from <= j < q ==> s@[j] != '.',
        decreases to - q,
    {
        q += 1;
    }
    proof {
        assert(is_first(m, q - from, '.', '.')) by {
            assert forall|j: int| 0 <= j < q - from implies #[trigger] m[j] != '.' && m[j] != '.' by {
                assert(m[j] == s@[from + j]);
            }
            if q < to {
                assert(m[q - from] == s@[q as int]);
            }
        }
        lemma_first_of(m, q - from, '.', '.');
    }
    let mut digits: Vec<char> = Vec::new();
    if q == to {
        if to == from || !crate::numfmt::all_digits_in(s, from, to) {
            return None;
        }
        copy_range(s, from, to, &mut digits);
        proof {
            assert(digits@ =~= m);
        }
        return Some((digits, 0));
    }
    let whole = crate::numfmt::all_digits_in(s, from, q);
    let frac = crate::numfmt::all_digits_in(s, q + 1, to);
    proof {
        assert(m.take(q - from) =~= s@.subrange(from as int, q as int));
        assert(m.skip(q - from + 1) =~= s@.subrange(q + 1, to as int));
    }
    if !whole || !frac || (q == from && q + 1 == to) {
        return None;
    }
    copy_range(s, from, q, &mut digits);
    copy_range(s, q + 1, to, &mut digits);
    proof {
        assert(digits@ =~= m.take(q - from) + m.skip(q - from + 1));
    }
    Some((digits, to - q - 1))
}

/// The exponent `s[from..to]`: its sign and its magnitude capped at
/// `EXP_CAP`.
fn read_exponent(s: &Vec<char>, from: usize, to: usize) -> (r: Option<(bool, u128)>)
    requires
        from <= to <= s.len(),
    ensures
        match exponent_spec(s@.subrange(from as int, to as int)) {
            None => r is None,
            Some((en, em)) => (r matches Some((e2, es)) && e2 == en && es == capped(em as int, EXP_CAP as int)),
        },
{
    let ghost x = s@.subrange(from as int, to as int);
    let signed = from < to && (s[from] == '+' || s[from] == '-');
    let neg = from < to && s[from] == '-';
    let start: usize = if signed {
        from + 1
    } else {
        from
    };
    proof {
        if from < to {
            assert(x[0] == s@[from as int]);
        }
        assert(unsigned_part(x) =~= s@.subrange(start as int, to as int));
    }
    if start == to || !crate::numfmt::all_digits_in(s, start, to) {
        return None;
    }
    let v = capped_value(s, start, to, EXP_CAP);
    proof {
        lemma_digits_value_nonneg(s@.subrange(start as int, to as int));
    }
    Some((neg, v))
}

/// The number `s` writes, when it writes one.
pub(crate) fn read_float(s: &Vec<char>) -> (r: Option<ReadFloat>)
    ensures
        match float_text(s@) {
            None => r is None,
            Some(t) => (r matches Some(x) && read_matches(x, t)),
        },
{
    let n = s.len();
    let signed = n > 0 && (s[0] == '+' || s[0] == '-');
    let neg = n > 0 && s[0] == '-';
    let from: usize = if signed {
        1
    } else {
        0
    };
    let ghost b = s@.skip(from as int);
    proof {
        assert(unsigned_part(s@) == b);
    }
    if spells(s, from, "inf") || spells(s, from, "infinity") {
        return Some(ReadFloat::Infinite { neg });
    }
    if spells(s, from, "nan") {
        return Some(ReadFloat::NotANumber);
    }
    let mut p = from;
    while p < n && s[p] != 'e' && s[p] != 'E'
        invariant
            from <= p <= n == s.len(),
            forall|j: int| from <= j < p ==> s@[j] != 'e' && s@[j] != 'E',
        decreases n - p,
    {
        p += 1;
    }
    proof {
        assert(is_first(b, p - from, 'e', 'E')) by {
            assert forall|j: int| 0 <= j < p - from implies #[trigger] b[j] != 'e' && b[j] != 'E' by {
                assert(b[j] == s@[from + j]);
            }
            if p < n {
                assert(b[p - from] == s@[p as int]);
            }
        }
        lemma_first_of(b, p - from, 'e', 'E');
        assert(b.take(p - from) =~= s@.subrange(from as int, p as int));
        if p < n {
            assert(b.skip(p - from + 1) =~= s@.subrange(p + 1, n as int));
        }
    }
    let mant = read_mantissa(s, from, p);
    let ex = if p == n {
        Some((false, 0u128))
    } else {
        read_exponent(s, p + 1, n)
    };
    match (mant, ex) {
        (Some((digits, frac_len)), Some((exp_neg, exp_sat))) => Some(ReadFloat::Finite { neg, digits, frac_len, exp_neg, exp_sat }),
        _ => None,
    }
}

proof fn lemma_floor_compare(n: int, d: int, q: int, r: int, b: int)
    requires
        d > 0,
        0 <= r < d,
        n == q * d + r,
    ensures
        (n < b * d) == (q < b),
        (n > b * d) == (q > b || (q == b && r != 0)),
        (-n < b * d) == (q > -b || (q == -b && r != 0)),
        (-n > b * d) == (q < -b),
{
    assert((n < b * d) == (q < b)) by (nonlinear_arith)
        requires
            d > 0,
            0 <= r < d,
            n == q * d + r,
    ;
    assert((n > b * d) == (q > b || (q == b && r != 0))) by (nonlinear_arith)
        requires
            d > 0,
            0 <= r < d,
            n == q * d + r,
    ;
    assert((n > (-b) * d) == (q > -b || (q == -b && r != 0))) by (nonlinear_arith)
        requires
            d > 0,
            0 <= r < d,
            n == q * d + r,
    ;
    assert((n < (-b) * d) == (q < -b)) by (nonlinear_arith)
        requires
            d > 0,
            0 <= r < d,
            n == q * d + r,
    ;
    assert((-b) * d == -(b * d)) by (nonlinear_arith);
}

proof fn lemma_round(n: int, d: int, q: int, r: int)
    requires
        d > 0,
        0 <= r < d,
        n == q * d + r,
    ensures
        (2 * n + d) / (2 * d) == q + (if 2 * r >= d {
            1int
        } else {
            0int
        }),
{
    if 2 * r >= d {
        assert(2 * n + d == (2 * d) * (q + 1) + (2 * r - d)) by (nonlinear_arith)
            requires
                n == q * d + r,
        ;
        vstd::arithmetic::div_mod::lemma_fundamental_div_mod_converse(2 * n + d, 2 * d, q + 1, 2 * r - d);
    } else {
        assert(2 * n + d == (2 * d) * q + (2 * r + d)) by (nonlinear_arith)
            requires
                n == q * d + r,
        ;
        vstd::arithmetic::div_mod::lemma_fundamental_div_mod_converse(2 * n + d, 2 * d, q, 2 * r + d);
    }
}

/// The magnitude in hundredths of the finite number `s` writes, when
/// it writes one.
spec fn exp_mag_of(s: Seq<char>) -> nat {
    match float_text(s) {
        Some(FloatText::Finite { exp_mag, .. }) => exp_mag,
        _ => 0,
    }
}

/// Whether the number `text` writes lies below `min` and above `max`
/// (both in hundredths), each compared exactly; neither when the text
/// writes no number.
pub fn range_verdict(text: &str, min: Option<i64>, max: Option<i64>) -> (r: (bool, bool))
    ensures
        r == match float_text(text@) {
            None => (false, false),
            Some(v) => (
                (min matches Some(m) && below_hundredths(v, m as int)),
                (max matches Some(m) && above_hundredths(v, m as int)),
            ),
        },
{
    let s = chars_of(text);
    match read_float(&s) {
        None => (false, false),
        Some(ReadFloat::NotANumber) => (false, false),
        Some(ReadFloat::Infinite { neg }) => (min.is_some() && neg, max.is_some() && !neg),
        Some(ReadFloat::Finite { neg, digits, frac_len, exp_neg, exp_sat }) => {
            let ghost em = exp_mag_of(s@);
            let (fl, frac, _) = scale(&digits, frac_len, exp_neg, exp_sat, Ghost(em));
            let ghost nd = hundredths_ratio(digits@, frac_len as nat, exp_neg, em);
            let ghost q = (nd.0 / nd.1) as int;
            let ghost rm = (nd.0 % nd.1) as int;
            proof {
                vstd::arithmetic::div_mod::lemma_fundamental_div_mod(nd.0 as int, nd.1 as int);
                vstd::arithmetic::div_mod::lemma_mod_bound(nd.0 as int, nd.1 as int);
                vstd::arithmetic::div_mod::lemma_div_pos_is_pos(nd.0 as int, nd.1 as int);
            }
            let f = fl as i128;
            let below = match min {
                None => false,
                Some(b) => {
                    proof {
                        lemma_floor_compare(nd.0 as int, nd.1 as int, q, rm, b as int);
                    }
                    let bb = b as i128;
                    if !neg {
                        f < bb
                    } else {
                        f > -bb || (f == -bb && frac)
                    }
                },
            };
            let above = match max {
                None => false,
                Some(b) => {
                    proof {
                        lemma_floor_compare(nd.0 as int, nd.1 as int, q, rm, b as int);
                    }
                    let bb = b as i128;
                    if !neg {
                        f > bb || (f == bb && frac)
                    } else {
                        f < -bb
                    }
                },
            };
            (below, above)
        },
    }
}

/// A price read from its text into cents: rounded to the nearest cent,
/// halves away from zero, held at `±i64::MAX` beyond the `i64` range;
/// `None` when the text writes no number, or NaN.
pub fn parse_price_cents(text: &str) -> (r: Option<i64>)
    ensures
        r == parse_price_spec(text@),
{
    let s = chars_of(text);
    match read_float(&s) {
        Some(ReadFloat::Finite { neg, digits, frac_len, exp_neg, exp_sat }) => {
            let ghost em = exp_mag_of(s@);
            let (fl, _, half) = scale(&digits, frac_len, exp_neg, exp_sat, Ghost(em));
            let ghost nd = hundredths_ratio(digits@, frac_len as nat, exp_neg, em);
            proof {
                vstd::arithmetic::div_mod::lemma_fundamental_div_mod(nd.0 as int, nd.1 as int);
                vstd::arithmetic::div_mod::lemma_mod_bound(nd.0 as int, nd.1 as int);
                vstd::arithmetic::div_mod::lemma_div_pos_is_pos(nd.0 as int, nd.1 as int);
                lemma_round(nd.0 as int, nd.1 as int, (nd.0 / nd.1) as int, (nd.0 % nd.1) as int);
            }
            let v: i64 = if fl >= SAT {
                0x7fff_ffff_ffff_ffff
            } else {
                let c: u128 = if half {
                    fl + 1
                } else {
                    fl
                };
                if c > 0x7fff_ffff_ffff_ffff {
                    0x7fff_ffff_ffff_ffff
                } else {
                    c as i64
                }
            };
            if neg {
                Some(-v)
            } else {
                Some(v)
            }
        },
        Some(ReadFloat::Infinite { neg }) => {
            if neg {
                Some(-0x7fff_ffff_ffff_ffff)
            } else {
                Some(0x7fff_ffff_ffff_ffff)
            }
        },
        _ => None,
    }
}

/// The digits after the point in the text of an amount whose cents
/// part is `frac`.
spec fn cents_digits(frac: int) -> Seq<char> {
    if frac == 0 {
        Seq::<char>::empty()
    } else if frac % 10 == 0 {
        seq![digit_char(frac / 10)]
    } else {
        seq![digit_char(frac / 10), digit_char(frac % 10)]
    }
}

proof fn lemma_cents_digits(frac: int)
    requires
        0 <= frac < 100,
    ensures
        all_digits(cents_digits(frac)),
        cents_digits(frac).len() <= 2,
        cents_digits(frac).len() == 0 <==> frac == 0,
        digits_value(cents_digits(frac)) * pow10((2 - cents_digits(frac).len()) as nat) == frac,
{
    let f = cents_digits(frac);
    lemma_digit_char(frac / 10);
    lemma_digit_char(frac % 10);
    reveal_with_fuel(pow10, 3);
    assert(digits_value(Seq::<char>::empty()) == 0);
    if frac == 0 {
    } else if frac % 10 == 0 {
        assert(f.drop_last() =~= Seq::<char>::empty());
        assert(digits_value(f) == frac / 10);
    } else {
        assert(f.drop_last() =~= seq![digit_char(frac / 10)]);
        assert(f.drop_last().drop_last() =~= Seq::<char>::empty());
        assert(digits_value(f.drop_last()) == frac / 10);
        assert(digits_value(f) == (frac / 10) * 10 + frac % 10);
    }
}

/// A plain decimal `w.f` (or `w` alone), after an optional minus sign,
/// reads as the digits of `w` and `f` with `f.len()` of them after the
/// point and no exponent.
proof fn lemma_plain_decimal_text(w: Seq<char>, f: Seq<char>, neg: bool)
    requires
        w.len() > 0,
        all_digits(w),
        all_digits(f),
    ensures
        float_text(
            (if neg { seq!['-'] } else { Seq::<char>::empty() }) + (if f.len() == 0 { w } else { w + seq!['.'] + f }),
        ) == Some(FloatText::Finite { neg, digits: w + f, frac_len: f.len(), exp_neg: false, exp_mag: 0 }),
{
    reveal_strlit("inf");
    reveal_strlit("infinity");
    reveal_strlit("nan");
    let body = if f.len() == 0 {
        w
    } else {
        w + seq!['.'] + f
    };
    let sign = if neg {
        seq!['-']
    } else {
        Seq::<char>::empty()
    };
    let s = sign + body;
    assert(unsigned_part(s) =~= body);
    assert(sign_of(s) == neg);
    assert(body[0] == w[0]);
    assert(is_digit(body[0]));
    assert(!equals_ignoring_case(body, "inf"@)) by {
        assert("inf"@[0] == 'i');
    }
    assert(!equals_ignoring_case(body, "infinity"@)) by {
        assert("infinity"@[0] == 'i');
    }
    assert(!equals_ignoring_case(body, "nan"@)) by {
        assert("nan"@[0] == 'n');
    }
    assert forall|j: int| 0 <= j < body.len() implies is_digit(#[trigger] body[j]) || body[j] == '.' by {
        if j < w.len() {
            assert(body[j] == w[j]);
        } else if j > w.len() {
            assert(body[j] == f[j - w.len() - 1]);
        }
    }
    assert(is_first(body, body.len() as int, 'e', 'E'));
    lemma_first_of(body, body.len() as int, 'e', 'E');
    assert(body.take(body.len() as int) =~= body);
    if f.len() == 0 {
        assert(is_first(body, body.len() as int, '.', '.'));
        lemma_first_of(body, body.len() as int, '.', '.');
        assert(w + f =~= w);
    } else {
        assert(body[w.len() as int] == '.');
        assert(is_first(body, w.len() as int, '.', '.')) by {
            assert forall|j: int| 0 <= j < w.len() implies #[trigger] body[j] != '.' && body[j] != '.' by {
                assert(body[j] == w[j]);
            }
        }
        lemma_first_of(body, w.len() as int, '.', '.');
        assert(body.take(w.len() as int) =~= w);
        assert(body.skip((w.len() + 1) as int) =~= f);
    }
}

proof fn lemma_pow10_pair(l: nat)
    requires
        l <= 2,
    ensures
        pow10(l) * pow10((2 - l) as nat) == 100,
{
    reveal_with_fuel(pow10, 3);
    assert(pow10(0) == 1);
    assert(pow10(1) == 10);
    assert(pow10(2) == 100);
    if l == 0 {
        assert((2 - l) as nat == 2);
    } else if l == 1 {
        assert((2 - l) as nat == 1);
    } else {
        assert((2 - l) as nat == 0);
    }
}

/// Reading back the text of a price gives the same price.
pub proof fn lemma_price_round_trip(c: i64)
    requires
        c > i64::MIN,
    ensures
        parse_price_spec(cents_text(c as int)) == Some(c),
{
    let a: int = if c < 0 {
        -c
    } else {
        c as int
    };
    let q = a / 100;
    let frac = a % 100;
    let w = decimal_seq(q as nat);
    lemma_decimal_seq(q as nat);
    lemma_cents_digits(frac);
    let f = cents_digits(frac);
    lemma_digit_char(frac / 10);
    lemma_digit_char(frac % 10);
    let sign = if c < 0 {
        seq!['-']
    } else {
        Seq::<char>::empty()
    };
    let body = if f.len() == 0 {
        w
    } else {
        w + seq!['.'] + f
    };
    assert(cents_text(c as int) =~= sign + body);
    lemma_plain_decimal_text(w, f, c < 0);
    let digits = w + f;
    assert(all_digits(digits)) by {
        assert forall|j: int| 0 <= j < digits.len() implies is_digit(#[trigger] digits[j]) by {
            if j < w.len() {
                assert(digits[j] == w[j]);
            } else {
                assert(digits[j] == f[j - w.len()]);
            }
        }
    }
    lemma_split_digits(digits, w.len() as int);
    assert(digits.take(w.len() as int) =~= w);
    assert(digits.skip(w.len() as int) =~= f);
    let k = (2 - f.len()) as nat;
    let n = digits_value(digits) * pow10(k);
    lemma_pow10_pair(f.len());
    assert(n == q * 100 + frac) by (nonlinear_arith)
        requires
            n == digits_value(digits) * pow10(k),
            digits_value(digits) == q * pow10(f.len()) + digits_value(f),
            digits_value(f) * pow10(k) == frac,
            pow10(f.len()) * pow10(k) == 100,
    ;
    assert(n == a);
    vstd::arithmetic::div_mod::lemma_fundamental_div_mod_converse(2 * n + 1, 2, n, 1);
}

} // verus!
