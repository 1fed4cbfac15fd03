//! Decimal text of integers and of money amounts held as whole cents.
//!
//! Prices are kept as signed integers counting hundredths of the currency
//! unit. Their text is the one Rust prints for the same amount as a float
//! (`29.99`, `30`, `29.9`, `0.05`); reading prices back is in `decimal`.
use vstd::prelude::*;
use crate::text::push_char;

verus! {

/// The character of a decimal digit.
pub open spec fn digit_char(d: int) -> char {
    if d == 0 {
        '0'
    } else if d == 1 {
        '1'
    } else if d == 2 {
        '2'
    } else if d == 3 {
        '3'
    } else if d == 4 {
        '4'
    } else if d == 5 {
        '5'
    } else if d == 6 {
        '6'
    } else if d == 7 {
        '7'
    } else if d == 8 {
        '8'
    } else {
        '9'
    }
}

/// Whether `c` is an ASCII decimal digit.
pub open spec fn is_digit(c: char) -> bool {
    '0' <= c && c <= '9'
}

/// The value of a digit character.
pub open spec fn digit_value(c: char) -> int {
    (c as u32) - ('0' as u32)
}

/// Every character of `s` is an ASCII digit.
pub open spec fn all_digits(s: Seq<char>) -> bool {
    forall|k: int| 0 <= k < s.len() ==> is_digit(#[trigger] s[k])
}

/// The number that the digit string `s` denotes.
pub open spec fn digits_value(s: Seq<char>) -> int
    decreases s.len(),
{
    if s.len() == 0 {
        0
    } else {
        digits_value(s.drop_last()) * 10 + digit_value(s.last())
    }
}

/// Decimal text of `n` without leading zeros.
pub open spec fn decimal_seq(n: nat) -> Seq<char>
    decreases n,
{
    if n < 10 {
        seq![digit_char(n as int)]
    } else {
        decimal_seq(n / 10).push(digit_char((n % 10) as int))
    }
}

pub(crate) proof fn lemma_digit_char(d: int)
    requires
        0 <= d < 10,
    ensures
        is_digit(digit_char(d)),
        digit_value(digit_char(d)) == d,
{
}

/// The decimal text of `n` is a nonempty digit string that denotes `n`.
pub proof fn lemma_decimal_seq(n: nat)
    ensures
        decimal_seq(n).len() > 0,
        all_digits(decimal_seq(n)),
        digits_value(decimal_seq(n)) == n,
    decreases n,
{
    if n < 10 {
        lemma_digit_char(n as int);
        assert(seq![digit_char(n as int)].drop_last() == Seq::<char>::empty());
        assert(digits_value(Seq::<char>::empty()) == 0);
    } else {
        lemma_decimal_seq(n / 10);
        lemma_digit_char((n % 10) as int);
        let s = decimal_seq(n);
        assert(s.drop_last() == decimal_seq(n / 10));
        assert(s.last() == digit_char((n % 10) as int));
        assert(n == (n / 10) * 10 + n % 10);
        assert forall|k: int| 0 <= k < s.len() implies is_digit(#[trigger] s[k]) by {
            if k < s.len() - 1 {
                assert(s[k] == decimal_seq(n / 10)[k]);
            }
        }
    }
}

/// The character of the digit `d`.
pub fn digit_char_exec(d: u64) -> (c: char)
    requires
        d < 10,
    ensures
        c == digit_char(d as int),
{
    digit(d)
}

fn digit(d: u64) -> (c: char)
    requires
        d < 10,
    ensures
        c == digit_char(d as int),
{
    if d == 0 {
        '0'
    } else if d == 1 {
        '1'
    } else if d == 2 {
        '2'
    } else if d == 3 {
        '3'
    } else if d == 4 {
        '4'
    } else if d == 5 {
        '5'
    } else if d == 6 {
        '6'
    } else if d == 7 {
        '7'
    } else if d == 8 {
        '8'
    } else {
        '9'
    }
}

/// Appends the decimal text of `n` (what `u64::to_string` gives).
pub fn push_decimal(out: &mut String, n: u64)
    ensures
        final(out)@ == old(out)@ + decimal_seq(n as nat),
    decreases n,
{
    if n >= 10 {
        push_decimal(out, n / 10);
    }
    push_char(out, digit(n % 10));
    proof {
        if n < 10 {
            assert(decimal_seq(n as nat) == seq![digit_char(n as int)]);
        }
    }
}

/// The decimal text of `n` (`u64::to_string`).
pub fn decimal_string(n: u64) -> (s: String)
    ensures
        s@ == decimal_seq(n as nat),
{
    let mut s = String::new();
    push_decimal(&mut s, n);
    s
}

/// Text of an amount of `c` cents, as Rust prints the same amount as a
/// float: a minus sign when negative, the whole units, then a point and
/// the cents with a trailing zero dropped, or nothing when there are no
/// cents.
pub open spec fn cents_text(c: int) -> Seq<char> {
    let a = if c < 0 {
        -c
    } else {
        c
    };
    let sign = if c < 0 {
        seq!['-']
    } else {
        Seq::<char>::empty()
    };
    let frac = a % 100;
    let tail = if frac == 0 {
        Seq::<char>::empty()
    } else if frac % 10 == 0 {
        seq!['.', digit_char(frac / 10)]
    } else {
        seq!['.', digit_char(frac / 10), digit_char(frac % 10)]
    };
    sign + decimal_seq((a / 100) as nat) + tail
}

/// The text of a price held in cents.
pub fn format_cents(c: i64) -> (s: String)
    ensures
        s@ == cents_text(c as int),
{
    let mut s = String::new();
    let a: u64 = if c < 0 {
        (-(c as i128)) as u64
    } else {
        c as u64
    };
    if c < 0 {
        push_char(&mut s, '-');
    }
    push_decimal(&mut s, a / 100);
    let frac = a % 100;
    if frac != 0 {
        push_char(&mut s, '.');
        push_char(&mut s, digit(frac / 10));
        if frac % 10 != 0 {
            push_char(&mut s, digit(frac % 10));
        }
    }
    proof {
        let sign = if c < 0 {
            seq!['-']
        } else {
            Seq::<char>::empty()
        };
        if frac == 0 {
            assert(s@ == sign + decimal_seq((a / 100) as nat) + Seq::<char>::empty());
        } else if frac % 10 == 0 {
            assert(s@ == sign + decimal_seq((a / 100) as nat) + seq!['.', digit_char((frac / 10) as int)]);
        } else {
            assert(s@ == sign + decimal_seq((a / 100) as nat) + seq!['.', digit_char((frac / 10) as int), digit_char((frac % 10) as int)]);
        }
    }
    s
}

pub(crate) proof fn lemma_digits_value_nonneg(s: Seq<char>)
    requires
        all_digits(s),
    ensures
        digits_value(s) >= 0,
    decreases s.len(),
{
    if s.len() > 0 {
        assert(all_digits(s.drop_last())) by {
            assert forall|k: int| 0 <= k < s.drop_last().len() implies is_digit(#[trigger] s.drop_last()[k]) by {
                assert(s.drop_last()[k] == s[k]);
            }
        }
        lemma_digits_value_nonneg(s.drop_last());
        assert(is_digit(s[s.len() - 1]));
    }
}

pub(crate) fn all_digits_in(s: &Vec<char>, from: usize, to: usize) -> (b: bool)
    requires
        from <= to <= s.len(),
    ensures
        b == all_digits(s@.subrange(from as int, to as int)),
{
    let mut k = from;
    while k < to
        invariant
            from <= k <= to <= s.len(),
            forall|j: int| from <= j < k ==> is_digit(#[trigger] s@[j]),
        decreases to - k,
    {
        if !('0' <= s[k] && s[k] <= '9') {
            proof {
                assert(s@.subrange(from as int, to as int)[k - from] == s@[k as int]);
            }
            return false;
        }
        k += 1;
    }
    proof {
        assert forall|j: int| 0 <= j < to - from implies is_digit(#[trigger] s@.subrange(from as int, to as int)[j]) by {
            assert(s@.subrange(from as int, to as int)[j] == s@[from + j]);
        }
    }
    true
}

} // verus!
