//! Decimal rendering of the numeric values that samples carry.

use vstd::prelude::*;
use vstd::string::StringExecFns;

verus! {

/// The decimal digit character for `d` (meaningful for `d < 10`).
pub open spec fn dec_digit(d: nat) -> char {
    if d == 0 {
        '0'
    } else if d == 1 {
        '1'
    } else if d == 2 {
        '2'
    } else if d == 3 {
        '3'
    } else if d == 4 {
        '4'
    } else if d == 5 {
        '5'
    } else if d == 6 {
        '6'
    } else if d == 7 {
        '7'
    } else if d == 8 {
        '8'
    } else {
        '9'
    }
}

/// The decimal digits of `n`, most significant first, with no sign and no
/// leading zeros (a single `'0'` for zero).
pub open spec fn dec_str(n: nat) -> Seq<char>
    decreases n,
{
    if n < 10 {
        seq![dec_digit(n)]
    } else {
        dec_str(n / 10) + seq![dec_digit(n % 10)]
    }
}

/// The decimal rendering of a signed value: its digits, behind a `'-'` when
/// it is negative.
pub open spec fn int_str(v: int) -> Seq<char> {
    if v < 0 {
        seq!['-'] + dec_str((-v) as nat)
    } else {
        dec_str(v as nat)
    }
}

/// The one-character string for the digit `d`.
fn digit_str(d: u64) -> (s: &'static str)
    requires
        d < 10,
    ensures
        s@ == seq![dec_digit(d as nat)],
{
    proof {
        reveal_strlit("0");
        reveal_strlit("1");
        reveal_strlit("2");
        reveal_strlit("3");
        reveal_strlit("4");
        reveal_strlit("5");
        reveal_strlit("6");
        reveal_strlit("7");
        reveal_strlit("8");
        reveal_strlit("9");
    }
    let s: &'static str = match d {
        0 => "0",
        1 => "1",
        2 => "2",
        3 => "3",
        4 => "4",
        5 => "5",
        6 => "6",
        7 => "7",
        8 => "8",
        _ => "9",
    };
    proof {
        assert(s@ =~= seq![dec_digit(d as nat)]);
    }
    s
}

/// Appends the decimal digits of `n` to `buf`.
pub fn push_u64(buf: &mut String, n: u64)
    ensures
        final(buf)@ == old(buf)@ + dec_str(n as nat),
    decreases n,
{
    if n >= 10 {
        push_u64(buf, n / 10);
    }
    let s = digit_str(n % 10);
    buf.append(s);
    proof {
        assert(final(buf)@ =~= old(buf)@ + dec_str(n as nat));
    }
}

/// Appends the decimal rendering of the signed value `v` to `buf`.
pub fn push_i64(buf: &mut String, v: i64)
    ensures
        final(buf)@ == old(buf)@ + int_str(v as int),
{
    if v >= 0 {
        push_u64(buf, v as u64);
    } else {
        buf.append("-");
        let m: u64 = ((-(v + 1)) as u64) + 1;
        proof {
            reveal_strlit("-");
            assert(m as nat == (-(v as int)) as nat);
        }
        push_u64(buf, m);
        proof {
            assert(final(buf)@ =~= old(buf)@ + int_str(v as int));
        }
    }
}

} // verus!
