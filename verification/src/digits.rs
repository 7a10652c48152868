//! Decimal rendering of unsigned integers, used for the bind address
//! (`0.0.0.0:{port}`) and for the zero-padded fields of log timestamps.

use vstd::prelude::*;

verus! {

/// The character for a single decimal digit.
pub open spec fn digit_char(d: int) -> char {
    if d == 0 {
        '0'
    } else if d == 1 {
        '1'
    } else if d == 2 {
        '2'
    } else if d == 3 {
        '3'
    } else if d == 4 {
        '4'
    } else if d == 5 {
        '5'
    } else if d == 6 {
        '6'
    } else if d == 7 {
        '7'
    } else if d == 8 {
        '8'
    } else {
        '9'
    }
}

/// The usual decimal notation of `n`: most significant digit first,
/// no leading zeroes (a single `'0'` for zero itself).
pub open spec fn dec_rep(n: nat) -> Seq<char>
    decreases n,
{
    if n < 10 {
        seq![digit_char(n as int)]
    } else {
        dec_rep(n / 10).push(digit_char((n % 10) as int))
    }
}

/// `dec_rep(n)` left-padded with `'0'` up to width `w` (unchanged when it
/// is already at least `w` characters long).
pub open spec fn zero_pad(n: nat, w: nat) -> Seq<char> {
    if dec_rep(n).len() >= w {
        dec_rep(n)
    } else {
        Seq::new((w - dec_rep(n).len()) as nat, |i: int| '0') + dec_rep(n)
    }
}

fn digit_str(d: u64) -> (r: &'static str)
    requires
        d < 10,
    ensures
        r@ == seq![digit_char(d as int)],
{
    proof {
        reveal_strlit("0");
        reveal_strlit("1");
        reveal_strlit("2");
        reveal_strlit("3");
        reveal_strlit("4");
        reveal_strlit("5");
        reveal_strlit("6");
        reveal_strlit("7");
        reveal_strlit("8");
        reveal_strlit("9");
    }
    let r = match d {
        0 => "0",
        1 => "1",
        2 => "2",
        3 => "3",
        4 => "4",
        5 => "5",
        6 => "6",
        7 => "7",
        8 => "8",
        _ => "9",
    };
    proof {
        assert(r@ =~= seq![digit_char(d as int)]);
    }
    r
}

/// Renders `n` in decimal.
pub fn u64_to_dec(n: u64) -> (r: String)
    ensures
        r@ == dec_rep(n as nat),
    decreases n,
{
    if n < 10 {
        let r = digit_str(n).to_owned();
        proof {
            assert(r@ =~= dec_rep(n as nat));
        }
        r
    } else {
        let mut r = u64_to_dec(n / 10);
        r.append(digit_str(n % 10));
        proof {
            assert(r@ =~= dec_rep(n as nat));
        }
        r
    }
}

/// Renders `n` in decimal, left-padded with zeroes to at least `w`
/// characters.
pub fn u64_to_dec_pad(n: u64, w: usize) -> (r: String)
    ensures
        r@ == zero_pad(n as nat, w as nat),
{
    let digits = u64_to_dec(n);
    let len = digits.as_str().unicode_len();
    if len >= w {
        proof {
            assert(digits@ =~= zero_pad(n as nat, w as nat));
        }
        digits
    } else {
        let mut r = String::new();
        let mut k: usize = 0;
        while k < w - len
            invariant
                len == dec_rep(n as nat).len(),
                len < w,
                k <= w - len,
                r@ =~= Seq::new(k as nat, |i: int| '0'),
            decreases w - len - k,
        {
            r.append(digit_str(0));
            k = k + 1;
            proof {
                assert(r@ =~= Seq::new(k as nat, |i: int| '0'));
            }
        }
        r.append(digits.as_str());
        proof {
            assert(r@ =~= zero_pad(n as nat, w as nat));
        }
        r
    }
}

} // verus!
