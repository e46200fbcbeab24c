//! Decimal rendering of integers, as `Display` writes them.

use vstd::prelude::*;

verus! {

/// The decimal digit for `d` (`d < 10`).
pub open spec fn digit_char(d: nat) -> char {
    (48 + d) as char
}

/// Decimal digits of `n`, most significant first, without leading zeros.
pub open spec fn nat_decimal(n: nat) -> Seq<char>
    decreases n,
{
    if n < 10 {
        seq![digit_char(n)]
    } else {
        nat_decimal(n / 10).push(digit_char(n % 10))
    }
}

/// A number below ten is its one digit; appending a digit `d` to the
/// decimal digits of a positive `q` gives the digits of `10 * q + d`.
pub proof fn lemma_decimal_digits(q: nat, d: nat)
    requires
        d < 10,
    ensures
        nat_decimal(d) == seq![(48 + d) as char],
        q > 0 ==> nat_decimal(10 * q + d) == nat_decimal(q) + seq![(48 + d) as char],
{
    if q > 0 {
        let n = 10 * q + d;
        assert(n / 10 == q && n % 10 == d);
        assert(nat_decimal(q).push(digit_char(d)) =~= nat_decimal(q) + seq![(48 + d) as char]);
    }
}

/// Decimal rendering of `x`: a minus sign before the digits of `|x|` when
/// `x` is negative.
pub open spec fn int_decimal(x: int) -> Seq<char> {
    if x < 0 {
        seq!['-'] + nat_decimal((-x) as nat)
    } else {
        nat_decimal(x as nat)
    }
}

/// A negative number renders as a minus sign followed by the digits of
/// its magnitude, any other number as its digits alone.
pub proof fn lemma_int_decimal_sign(x: int)
    ensures
        x < 0 ==> int_decimal(x) == seq!['-'] + nat_decimal((-x) as nat),
        x >= 0 ==> int_decimal(x) == nat_decimal(x as nat),
{
}

fn digit_str(d: u64) -> (s: &'static str)
    requires
        d < 10,
    ensures
        s@ == seq![digit_char(d as nat)],
{
    match d {
        0 => { proof { reveal_strlit("0"); } "0" },
        1 => { proof { reveal_strlit("1"); } "1" },
        2 => { proof { reveal_strlit("2"); } "2" },
        3 => { proof { reveal_strlit("3"); } "3" },
        4 => { proof { reveal_strlit("4"); } "4" },
        5 => { proof { reveal_strlit("5"); } "5" },
        6 => { proof { reveal_strlit("6"); } "6" },
        7 => { proof { reveal_strlit("7"); } "7" },
        8 => { proof { reveal_strlit("8"); } "8" },
        _ => { proof { reveal_strlit("9"); } "9" },
    }
}

/// Appends the decimal digits of `n` to `s`.
pub fn push_decimal_u64(s: &mut String, n: u64)
    ensures
        final(s)@ == old(s)@ + nat_decimal(n as nat),
    decreases n,
{
    if n >= 10 {
        push_decimal_u64(s, n / 10);
    }
    s.append(digit_str(n % 10));
    proof {
        assert(old(s)@ + nat_decimal(n as nat) =~= (if n >= 10 {
            old(s)@ + nat_decimal((n / 10) as nat)
        } else {
            old(s)@
        }) + seq![digit_char((n % 10) as nat)]);
    }
}

/// Appends the decimal rendering of `x` to `s`.
pub fn push_decimal_i64(s: &mut String, x: i64)
    ensures
        final(s)@ == old(s)@ + int_decimal(x as int),
{
    if x < 0 {
        proof { reveal_strlit("-"); }
        s.append("-");
        let magnitude: u64 = (-(x as i128)) as u64;
        push_decimal_u64(s, magnitude);
        assert(old(s)@ + int_decimal(x as int) =~= old(s)@ + seq!['-'] + nat_decimal(magnitude as nat));
    } else {
        push_decimal_u64(s, x as u64);
    }
}

} // verus!
