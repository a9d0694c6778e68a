//! Decimal rendering of unsigned integers, with zero-padding.
//!
//! The naming formatter zero-pads each record's 1-based sequence number to
//! the digit width of the batch total, so both the digit sequence and the
//! digit count of a number are specified here.

use vstd::prelude::*;

verus! {

/// The character for a single decimal digit.
pub open spec fn digit_char(d: nat) -> char {
    if d == 0 {
        '0'
    } else if d == 1 {
        '1'
    } else if d == 2 {
        '2'
    } else if d == 3 {
        '3'
    } else if d == 4 {
        '4'
    } else if d == 5 {
        '5'
    } else if d == 6 {
        '6'
    } else if d == 7 {
        '7'
    } else if d == 8 {
        '8'
    } else {
        '9'
    }
}

/// The decimal digits of `n`, most significant first, with no leading zeros
/// (except for `n == 0`, which is the single digit `0`).
pub open spec fn dec_digits(n: nat) -> Seq<char>
    decreases n,
{
    if n < 10 {
        seq![digit_char(n)]
    } else {
        dec_digits(n / 10).push(digit_char(n % 10))
    }
}

/// The number of decimal digits of `n`.
pub open spec fn dec_width(n: nat) -> nat
    decreases n,
{
    if n < 10 {
        1
    } else {
        1 + dec_width(n / 10)
    }
}

/// A run of `k` zero characters.
pub open spec fn zeroes(k: nat) -> Seq<char> {
    Seq::new(k, |i: int| '0')
}

/// The decimal digits of `n`, left-padded with zeros to at least `width`
/// characters; a number with more digits than `width` is never truncated.
pub open spec fn padded_digits(n: nat, width: nat) -> Seq<char> {
    if dec_width(n) < width {
        zeroes((width - dec_width(n)) as nat) + dec_digits(n)
    } else {
        dec_digits(n)
    }
}

/// `dec_width` counts exactly the characters of `dec_digits`.
pub proof fn lemma_dec_width_is_digit_count(n: nat)
    ensures
        dec_digits(n).len() == dec_width(n),
    decreases n,
{
    if n >= 10 {
        lemma_dec_width_is_digit_count(n / 10);
    }
}

/// The digit count never shrinks as the number grows.
pub proof fn lemma_dec_width_monotone(a: nat, b: nat)
    requires
        a <= b,
    ensures
        dec_width(a) <= dec_width(b),
    decreases b,
{
    if a >= 10 {
        lemma_dec_width_monotone(a / 10, b / 10);
    }
}

/// No `u64` has more than twenty decimal digits.
pub proof fn lemma_dec_width_u64(n: u64)
    ensures
        dec_width(n as nat) <= 20,
{
    lemma_dec_width_monotone(n as nat, 0xffff_ffff_ffff_ffff as nat);
    assert(dec_width(0xffff_ffff_ffff_ffff as nat) == 20) by {
        reveal_with_fuel(dec_width, 21);
    }
}

/// The string for a single decimal digit.
fn digit_str(d: u64) -> (s: &'static str)
    requires
        d < 10,
    ensures
        s@ == seq![digit_char(d as nat)],
{
    let s: &'static str = if d == 0 {
        "0"
    } else if d == 1 {
        "1"
    } else if d == 2 {
        "2"
    } else if d == 3 {
        "3"
    } else if d == 4 {
        "4"
    } else if d == 5 {
        "5"
    } else if d == 6 {
        "6"
    } else if d == 7 {
        "7"
    } else if d == 8 {
        "8"
    } else {
        "9"
    };
    proof {
        reveal_strlit("0");
        reveal_strlit("1");
        reveal_strlit("2");
        reveal_strlit("3");
        reveal_strlit("4");
        reveal_strlit("5");
        reveal_strlit("6");
        reveal_strlit("7");
        reveal_strlit("8");
        reveal_strlit("9");
        assert(s@ =~= seq![digit_char(d as nat)]);
    }
    s
}

/// Renders `n` in decimal, most significant digit first.
pub fn u64_to_string(n: u64) -> (s: String)
    ensures
        s@ == dec_digits(n as nat),
    decreases n,
{
    if n < 10 {
        String::from_str(digit_str(n))
    } else {
        let mut s = u64_to_string(n / 10);
        s.append(digit_str(n % 10));
        proof {
            assert(s@ =~= dec_digits(n as nat));
        }
        s
    }
}

/// Counts the decimal digits of `n`.
pub fn dec_width_u64(n: u64) -> (w: usize)
    ensures
        w == dec_width(n as nat),
{
    let mut m: u64 = n;
    let mut w: usize = 1;
    proof {
        lemma_dec_width_u64(n);
    }
    while m >= 10
        invariant
            w + dec_width(m as nat) == 1 + dec_width(n as nat),
            dec_width(n as nat) <= 20,
        decreases m,
    {
        m = m / 10;
        w = w + 1;
    }
    w
}

/// Renders `n` in decimal, left-padded with zeros to at least `width`
/// characters.
pub fn padded_u64(n: u64, width: usize) -> (s: String)
    ensures
        s@ == padded_digits(n as nat, width as nat),
{
    let digits = u64_to_string(n);
    let dw = dec_width_u64(n);
    let mut s = String::new();
    let mut i: usize = dw;
    proof {
        lemma_dec_width_is_digit_count(n as nat);
        assert(s@ =~= zeroes(0));
    }
    while i < width
        invariant
            dw <= i,
            dw >= width ==> i == dw,
            dw < width ==> i <= width,
            s@ == zeroes((i - dw) as nat),
            dw == dec_width(n as nat),
        decreases width - i,
    {
        s.append("0");
        proof {
            reveal_strlit("0");
            assert(s@ =~= zeroes((i + 1 - dw) as nat));
        }
        i = i + 1;
    }
    s.append(digits.as_str());
    proof {
        assert(s@ =~= padded_digits(n as nat, width as nat));
    }
    s
}

} // verus!
