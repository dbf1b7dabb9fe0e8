//! Fixed-point representation of prices, quantities, percentages and
//! notionals, and the decimal-string parser that produces them.
//!
//! An *amount* (a price or a quantity) is a `u64` holding `AMOUNT_SCALE`
//! units per 1. A *percentage* is a `u64` (or an `i64` where raw, possibly
//! negative readings are accepted) holding `PCT_SCALE` units per percentage
//! point. A *notional* is a `u128` product of two amounts, so it holds
//! `AMOUNT_SCALE * AMOUNT_SCALE` units per 1.

use vstd::prelude::*;

verus! {

/// Units per 1 in an amount (a price or a quantity): 10^8.
pub const AMOUNT_SCALE: u64 = 100_000_000;

/// Units per percentage point in a percentage: 10^6.
pub const PCT_SCALE: u64 = 1_000_000;

/// One hundred percent, in percentage units.
pub const PCT_100: u64 = 100_000_000;

/// Units per 1 in a notional: 10^16.
pub const NOTIONAL_SCALE: u128 = 10_000_000_000_000_000;

/// Cap applied when notionals are summed, chosen so that a capped total
/// multiplied by `PCT_100` still fits in a `u128`.
pub const NOTIONAL_CAP: u128 = u128::MAX / 100_000_000;

/// 10 to the power `n`.
pub open spec fn pow10(n: nat) -> nat
    decreases n,
{
    if n == 0 {
        1
    } else {
        10 * pow10((n - 1) as nat)
    }
}

pub proof fn lemma_pow10_8()
    ensures
        pow10(8) == 100_000_000,
{
    reveal_with_fuel(pow10, 9);
}

pub proof fn lemma_pow10_le(a: nat, b: nat)
    requires
        a <= b,
    ensures
        pow10(a) <= pow10(b),
    decreases b,
{
    if a < b {
        lemma_pow10_le(a, (b - 1) as nat);
    }
}

/// `c` is a decimal digit.
pub open spec fn is_digit(c: char) -> bool {
    48 <= c as u32 <= 57
}

/// Numeric value of the digit `c`.
pub open spec fn digit_val(c: char) -> int {
    c as u32 - 48
}

/// Every character of `s` is a decimal digit.
pub open spec fn all_digits(s: Seq<char>) -> bool {
    forall|i: int| 0 <= i < s.len() ==> is_digit(#[trigger] s[i])
}

/// Value of a digit string read most-significant first.
pub open spec fn digits_val(s: Seq<char>) -> int
    decreases s.len(),
{
    if s.len() == 0 {
        0
    } else {
        digits_val(s.drop_last()) * 10 + digit_val(s.last())
    }
}

/// Index of the first `'.'` in `s`, or `s.len()` if there is none.
pub open spec fn first_dot(s: Seq<char>) -> int
    decreases s.len(),
{
    if s.len() == 0 {
        0
    } else if s[0] == '.' {
        0
    } else {
        1 + first_dot(s.drop_first())
    }
}

/// Amount denoted by an integer part `ip` and a fractional part `fp` of at
/// most 8 digits.
pub open spec fn fixed_val(ip: Seq<char>, fp: Seq<char>) -> int {
    digits_val(ip) * (AMOUNT_SCALE as int) + digits_val(fp) * pow10((8 - fp.len()) as nat)
}

/// The amount denoted by `s`, if `s` is an unsigned decimal numeral
/// `digits [ '.' digits ]` with at least one digit in all, at most 8
/// fractional digits, and a value that fits in a `u64` amount.
pub open spec fn parse_fixed_spec(s: Seq<char>) -> Option<u64> {
    let d = first_dot(s);
    let ip = s.take(d);
    let fp = if d == s.len() {
        Seq::<char>::empty()
    } else {
        s.skip(d + 1)
    };
    if all_digits(ip) && all_digits(fp) && ip.len() + fp.len() >= 1 && fp.len() <= 8
        && fixed_val(ip, fp) <= u64::MAX as int {
        Some(fixed_val(ip, fp) as u64)
    } else {
        None
    }
}

proof fn lemma_all_digits_drop_last(s: Seq<char>)
    requires
        all_digits(s),
        s.len() > 0,
    ensures
        all_digits(s.drop_last()),
{
    assert(forall|i: int| 0 <= i < s.len() - 1 ==> s.drop_last()[i] == #[trigger] s[i]);
}

pub proof fn lemma_digits_val_nonneg(s: Seq<char>)
    requires
        all_digits(s),
    ensures
        digits_val(s) >= 0,
    decreases s.len(),
{
    if s.len() > 0 {
        lemma_all_digits_drop_last(s);
        lemma_digits_val_nonneg(s.drop_last());
        assert(is_digit(s.last()));
    }
}

pub proof fn lemma_digits_val_upper(s: Seq<char>)
    requires
        all_digits(s),
    ensures
        digits_val(s) < pow10(s.len()),
    decreases s.len(),
{
    if s.len() > 0 {
        lemma_all_digits_drop_last(s);
        lemma_digits_val_upper(s.drop_last());
        assert(is_digit(s.last()));
    }
}

/// Appending digits can only grow the value of a digit string.
pub proof fn lemma_digits_val_prefix_le(s: Seq<char>, j: int)
    requires
        all_digits(s),
        0 <= j <= s.len(),
    ensures
        digits_val(s.take(j)) <= digits_val(s),
    decreases s.len(),
{
    if j < s.len() {
        lemma_all_digits_drop_last(s);
        assert(s.take(j) =~= s.drop_last().take(j));
        lemma_digits_val_prefix_le(s.drop_last(), j);
        lemma_digits_val_nonneg(s.drop_last());
        assert(is_digit(s.last()));
    } else {
        assert(s.take(j) =~= s);
    }
}

proof fn lemma_first_dot_at(s: Seq<char>, k: int)
    requires
        0 <= k <= s.len(),
        forall|j: int| 0 <= j < k ==> s[j] != '.',
        k < s.len() ==> s[k] == '.',
    ensures
        first_dot(s) == k,
    decreases k,
{
    if s.len() == 0 {
    } else if k == 0 {
    } else {
        assert(s[0] != '.');
        assert(forall|j: int| 0 <= j < k - 1 ==> s.drop_first()[j] == #[trigger] s[j + 1]);
        lemma_first_dot_at(s.drop_first(), k - 1);
    }
}

/// Index of the first `'.'` in `s`, or the length of `s` if there is none.
fn find_first_dot(s: &str) -> (r: usize)
    ensures
        r == first_dot(s@),
        r <= s@.len(),
{
    let n = s.unicode_len();
    let mut i: usize = 0;
    while i < n
        invariant
            i <= n == s@.len(),
            forall|j: int| 0 <= j < i ==> s@[j] != '.',
        decreases n - i,
    {
        if s.get_char(i) == '.' {
            proof {
                lemma_first_dot_at(s@, i as int);
            }
            return i;
        }
        i = i + 1;
    }
    proof {
        lemma_first_dot_at(s@, n as int);
    }
    n
}

/// Exact exec counterpart of `pow10` for exponents up to 8.
fn pow10_u64(e: usize) -> (r: u64)
    requires
        e <= 8,
    ensures
        r == pow10(e as nat),
{
    let mut r: u64 = 1;
    let mut i: usize = 0;
    while i < e
        invariant
            i <= e <= 8,
            r == pow10(i as nat),
        decreases e - i,
    {
        proof {
            lemma_pow10_le(i as nat, 8);
            lemma_pow10_8();
            assert(pow10((i + 1) as nat) == 10 * pow10(i as nat));
        }
        r = r * 10;
        i = i + 1;
    }
    r
}

/// Value of the digit string `s@.subrange(lo, hi)`, or `None` if some
/// character there is not a digit or the value exceeds `u64::MAX`.
fn digits_value(s: &str, lo: usize, hi: usize) -> (r: Option<u64>)
    requires
        lo <= hi <= s@.len(),
    ensures
        ({
            let sub = s@.subrange(lo as int, hi as int);
            match r {
                Some(v) => all_digits(sub) && digits_val(sub) == v,
                None => !(all_digits(sub) && digits_val(sub) <= u64::MAX),
            }
        }),
{
    let ghost sub = s@.subrange(lo as int, hi as int);
    let mut acc: u128 = 0;
    let mut i: usize = lo;
    while i < hi
        invariant
            lo <= i <= hi <= s@.len(),
            sub == s@.subrange(lo as int, hi as int),
            forall|j: int| 0 <= j < i - lo ==> is_digit(#[trigger] sub[j]),
            acc == digits_val(sub.take(i - lo)),
            acc <= u64::MAX,
        decreases hi - i,
    {
        let c = s.get_char(i);
        let v = c as u32;
        proof {
            assert(sub[i - lo] == s@[i as int]);
        }
        if v < 48 || v > 57 {
            proof {
                assert(!is_digit(sub[i - lo]));
            }
            return None;
        }
        let d = (v - 48) as u64;
        proof {
            assert(is_digit(sub[i - lo]));
            assert(sub.take(i - lo + 1).drop_last() =~= sub.take(i - lo));
            assert(sub.take(i - lo + 1).last() == sub[i - lo]);
        }
        acc = acc * 10 + d as u128;
        i = i + 1;
        if acc > u64::MAX as u128 {
            proof {
                // The value can only grow as later digits are appended.
                if all_digits(sub) {
                    lemma_digits_val_prefix_le(sub, i - lo);
                }
            }
            return None;
        }
    }
    proof {
        assert(sub.take(hi - lo) =~= sub);
    }
    Some(acc as u64)
}

/// Parses an unsigned decimal numeral into an amount of `AMOUNT_SCALE` units
/// per 1. Accepts `digits [ '.' digits ]` with at least one digit in all and
/// at most 8 fractional digits; anything else, or a value too large for a
/// `u64` amount, yields `None`.
pub fn parse_fixed(s: &str) -> (r: Option<u64>)
    ensures
        r == parse_fixed_spec(s@),
{
    let n = s.unicode_len();
    let dot = find_first_dot(s);
    let ghost ip = s@.take(dot as int);
    let ghost fp = if dot == n {
        Seq::<char>::empty()
    } else {
        s@.skip(dot as int + 1)
    };
    let frac_len: usize = if dot == n {
        0
    } else {
        n - dot - 1
    };
    proof {
        assert(fp.len() == frac_len);
        assert(ip.len() == dot);
    }
    if n == 0 || (dot == 0 && frac_len == 0) || frac_len > 8 {
        return None;
    }
    let int_part = match digits_value(s, 0, dot) {
        Some(v) => v,
        None => {
            proof {
                assert(ip =~= s@.subrange(0, dot as int));
                if all_digits(ip) && all_digits(fp) && fp.len() <= 8 {
                    // The integer part alone already exceeds `u64::MAX`.
                    lemma_digits_val_nonneg(fp);
                    assert(digits_val(ip) > u64::MAX);
                    assert(fixed_val(ip, fp) > u64::MAX as int);
                }
            }
            return None;
        },
    };
    let frac_res = if dot == n {
        Some(0u64)
    } else {
        digits_value(s, dot + 1, n)
    };
    let frac_part = match frac_res {
        Some(v) => v,
        None => {
            proof {
                assert(fp =~= s@.subrange(dot as int + 1, n as int));
                if all_digits(fp) {
                    // At most 8 digits always fit in a `u64`.
                    lemma_digits_val_upper(fp);
                    lemma_pow10_le(fp.len(), 8);
                    lemma_pow10_8();
                }
            }
            return None;
        },
    };
    proof {
        if dot == n {
            assert(digits_val(fp) == 0);
        } else {
            assert(fp =~= s@.subrange(dot as int + 1, n as int));
        }
        assert(ip =~= s@.subrange(0, dot as int));
        lemma_digits_val_nonneg(ip);
        lemma_digits_val_nonneg(fp);
    }
    let scale = pow10_u64(8 - frac_len);
    proof {
        lemma_pow10_le((8 - frac_len) as nat, 8);
        lemma_pow10_8();
    }
    assert(int_part as u128 * (AMOUNT_SCALE as u128) <= (u64::MAX as u128) * 100_000_000u128)
        by (nonlinear_arith)
        requires
            int_part <= u64::MAX,
    ;
    assert(frac_part as u128 * (scale as u128) <= (u64::MAX as u128) * 100_000_000u128)
        by (nonlinear_arith)
        requires
            frac_part <= u64::MAX,
            scale <= 100_000_000u64,
    ;
    let total: u128 = int_part as u128 * AMOUNT_SCALE as u128 + frac_part as u128 * scale as u128;
    proof {
        assert(total == fixed_val(ip, fp));
    }
    if total > u64::MAX as u128 {
        return None;
    }
    Some(total as u64)
}

/// Sum of `a` and `b`, capped at `NOTIONAL_CAP`.
pub open spec fn cap_add_spec(a: u128, b: u128) -> u128 {
    if a + b > NOTIONAL_CAP {
        NOTIONAL_CAP
    } else {
        (a + b) as u128
    }
}

/// Adds two notionals, saturating at `NOTIONAL_CAP`.
pub fn cap_add(a: u128, b: u128) -> (r: u128)
    ensures
        r == cap_add_spec(a, b),
{
    if a >= NOTIONAL_CAP {
        NOTIONAL_CAP
    } else if b > NOTIONAL_CAP - a {
        NOTIONAL_CAP
    } else {
        a + b
    }
}

} // verus!
