//! Decimal rendering of fixed-point values.
//!
//! Every rendering function is specified exactly: the spec functions here
//! define the character sequence produced, digit by digit, with rounding
//! half up at the requested number of decimals.

use vstd::prelude::*;

use crate::fixed::{pow10, lemma_pow10_le, NOTIONAL_CAP};

verus! {

/// The character for the decimal digit `d`.
pub open spec fn digit_char(d: int) -> char {
    if d == 0 {
        '0'
    } else if d == 1 {
        '1'
    } else if d == 2 {
        '2'
    } else if d == 3 {
        '3'
    } else if d == 4 {
        '4'
    } else if d == 5 {
        '5'
    } else if d == 6 {
        '6'
    } else if d == 7 {
        '7'
    } else if d == 8 {
        '8'
    } else {
        '9'
    }
}

/// Decimal digits of `n`, most significant first, with no leading zeros
/// (a single `'0'` for zero).
pub open spec fn dec_digits(n: nat) -> Seq<char>
    decreases n,
{
    if n < 10 {
        seq![digit_char(n as int)]
    } else {
        dec_digits(n / 10).push(digit_char((n % 10) as int))
    }
}

/// The last `w` decimal digits of `n`, most significant first, zero padded.
pub open spec fn fixed_width_digits(n: nat, w: nat) -> Seq<char>
    decreases w,
{
    if w == 0 {
        Seq::<char>::empty()
    } else {
        fixed_width_digits(n / 10, (w - 1) as nat).push(digit_char((n % 10) as int))
    }
}

/// `v` (carrying `pow10(scale_pow)` units per 1) rounded half up to `d`
/// decimals, expressed in `pow10(d)` units per 1.
pub open spec fn scaled_rounded(v: u128, scale_pow: nat, d: nat) -> int {
    let unit = pow10((scale_pow - d) as nat) as int;
    (v + unit / 2) / unit
}

/// `v` (carrying `pow10(scale_pow)` units per 1) rendered with exactly `d`
/// decimals, rounded half up.
pub open spec fn scaled_str(v: u128, scale_pow: nat, d: nat) -> Seq<char> {
    let r = scaled_rounded(v, scale_pow, d);
    if d == 0 {
        dec_digits(r as nat)
    } else {
        dec_digits((r / pow10(d) as int) as nat) + seq!['.'] + fixed_width_digits(
            (r % pow10(d) as int) as nat,
            d,
        )
    }
}

/// The one-character string for the digit `d`.
fn digit_str(d: u64) -> (r: &'static str)
    requires
        d <= 9,
    ensures
        r@ == seq![digit_char(d as int)],
{
    if d == 0 {
        proof {
            reveal_strlit("0");
            assert("0"@ =~= seq!['0']);
        }
        "0"
    } else if d == 1 {
        proof {
            reveal_strlit("1");
            assert("1"@ =~= seq!['1']);
        }
        "1"
    } else if d == 2 {
        proof {
            reveal_strlit("2");
            assert("2"@ =~= seq!['2']);
        }
        "2"
    } else if d == 3 {
        proof {
            reveal_strlit("3");
            assert("3"@ =~= seq!['3']);
        }
        "3"
    } else if d == 4 {
        proof {
            reveal_strlit("4");
            assert("4"@ =~= seq!['4']);
        }
        "4"
    } else if d == 5 {
        proof {
            reveal_strlit("5");
            assert("5"@ =~= seq!['5']);
        }
        "5"
    } else if d == 6 {
        proof {
            reveal_strlit("6");
            assert("6"@ =~= seq!['6']);
        }
        "6"
    } else if d == 7 {
        proof {
            reveal_strlit("7");
            assert("7"@ =~= seq!['7']);
        }
        "7"
    } else if d == 8 {
        proof {
            reveal_strlit("8");
            assert("8"@ =~= seq!['8']);
        }
        "8"
    } else {
        proof {
            reveal_strlit("9");
            assert("9"@ =~= seq!['9']);
        }
        "9"
    }
}

/// Renders `n` in decimal, most significant digit first.
pub fn format_integer(n: u128) -> (r: String)
    ensures
        r@ == dec_digits(n as nat),
    decreases n,
{
    if n < 10 {
        let s = digit_str(n as u64);
        let r = String::from_str(s);
        r
    } else {
        let mut r = format_integer(n / 10);
        r.append(digit_str((n % 10) as u64));
        proof {
            assert(r@ =~= dec_digits(n as nat));
        }
        r
    }
}

/// Renders the last `w` digits of `n`, zero padded to width `w`.
pub fn format_fixed_width(n: u64, w: usize) -> (r: String)
    ensures
        r@ == fixed_width_digits(n as nat, w as nat),
    decreases w,
{
    if w == 0 {
        let r = String::new();
        proof {
            assert(r@ =~= fixed_width_digits(n as nat, 0));
        }
        r
    } else {
        let mut r = format_fixed_width(n / 10, w - 1);
        r.append(digit_str(n % 10));
        proof {
            assert(r@ =~= fixed_width_digits(n as nat, w as nat));
        }
        r
    }
}

/// Exact exec counterpart of `pow10` for exponents up to 22.
pub fn pow10_u128(e: usize) -> (r: u128)
    requires
        e <= 22,
    ensures
        r == pow10(e as nat),
{
    let mut r: u128 = 1;
    let mut i: usize = 0;
    while i < e
        invariant
            i <= e <= 22,
            r == pow10(i as nat),
        decreases e - i,
    {
        proof {
            lemma_pow10_le(i as nat, 21);
            lemma_pow10_22();
            lemma_pow10_21();
            assert(pow10((i + 1) as nat) == 10 * pow10(i as nat));
        }
        r = r * 10;
        i = i + 1;
    }
    r
}

proof fn lemma_pow10_21()
    ensures
        pow10(21) == 1_000_000_000_000_000_000_000,
{
    reveal_with_fuel(pow10, 22);
}

proof fn lemma_pow10_22()
    ensures
        pow10(22) == 10_000_000_000_000_000_000_000,
{
    reveal_with_fuel(pow10, 23);
}

/// Renders `v` (carrying `pow10(scale_pow)` units per 1) with exactly
/// `decimals` decimals, rounded half up.
pub fn format_scaled(v: u128, scale_pow: usize, decimals: usize) -> (r: String)
    requires
        decimals <= scale_pow <= 22,
        decimals <= 16,
        v <= NOTIONAL_CAP,
    ensures
        r@ == scaled_str(v, scale_pow as nat, decimals as nat),
{
    let unit = pow10_u128(scale_pow - decimals);
    proof {
        lemma_pow10_le(0, (scale_pow - decimals) as nat);
        lemma_pow10_le((scale_pow - decimals) as nat, 22);
        lemma_pow10_22();
    }
    let rounded = (v + unit / 2) / unit;
    let ghost r_spec = scaled_rounded(v, scale_pow as nat, decimals as nat);
    proof {
        assert(rounded == r_spec);
    }
    if decimals == 0 {
        format_integer(rounded)
    } else {
        let dpow = pow10_u128(decimals);
        proof {
            lemma_pow10_le(0, decimals as nat);
            lemma_pow10_le(decimals as nat, 22);
        }
        let int_part = rounded / dpow;
        let frac_part = rounded % dpow;
        proof {
            lemma_pow10_le(decimals as nat, 16);
            lemma_pow10_16();
        }
        let mut r = format_integer(int_part);
        proof {
            reveal_strlit(".");
            assert("."@ =~= seq!['.']);
        }
        r.append(".");
        r.append(format_fixed_width(frac_part as u64, decimals).as_str());
        proof {
            assert(r@ =~= scaled_str(v, scale_pow as nat, decimals as nat));
        }
        r
    }
}

proof fn lemma_pow10_16()
    ensures
        pow10(16) == 10_000_000_000_000_000,
{
    reveal_with_fuel(pow10, 17);
}

} // verus!
