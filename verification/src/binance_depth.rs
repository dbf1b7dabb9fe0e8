//! Depth updates: raw level validation, the big-level filter, the pressure
//! gate, and the text renderings derived from depth data.

use vstd::prelude::*;

use crate::fixed::{parse_fixed, parse_fixed_spec, NOTIONAL_CAP, NOTIONAL_SCALE, PCT_100};
use crate::fmt::{format_integer, format_scaled, scaled_str};
use crate::json_values::{json_get, json_parse};
use crate::text::{lower_of, to_lowercase};

verus! {

/// One raw order-book level as delivered by the exchange: a price string
/// and a quantity string.
#[derive(Clone, Debug, PartialEq, Eq)]
pub struct RawLevel {
    pub price: String,
    pub qty: String,
}

/// One validated level: positive price and quantity amounts, and their
/// notional product.
#[derive(Clone, Copy, Debug, PartialEq, Eq, Structural)]
pub struct ParsedDepthLevel {
    /// Price in `AMOUNT_SCALE` units per 1.
    pub price: u64,
    /// Quantity in `AMOUNT_SCALE` units per 1.
    pub qty: u64,
    /// `price * qty`, in `NOTIONAL_SCALE` units per 1.
    pub notional: u128,
}

/// The invariant every parsed level satisfies: strictly positive sides and
/// a notional that is exactly their product.
pub open spec fn level_valid(l: ParsedDepthLevel) -> bool {
    l.price > 0 && l.qty > 0 && l.notional == l.price as u128 * l.qty as u128
}

/// The level produced from a raw price/quantity string pair: `None` when
/// either side fails to parse as a positive amount.
pub open spec fn parse_level_spec(price_s: Seq<char>, qty_s: Seq<char>) -> Option<
    ParsedDepthLevel,
> {
    match (parse_fixed_spec(price_s), parse_fixed_spec(qty_s)) {
        (Some(p), Some(q)) => if p > 0 && q > 0 {
            Some(
                ParsedDepthLevel {
                    price: p,
                    qty: q,
                    notional: (p as u128 * q as u128) as u128,
                },
            )
        } else {
            None
        },
        _ => None,
    }
}

/// Parses and validates one raw level. A pair that does not parse, or is
/// not strictly positive on both sides, is dropped (`None`), never an
/// error.
pub fn parse_depth_level(level: &RawLevel) -> (r: Option<ParsedDepthLevel>)
    ensures
        r == parse_level_spec(level.price@, level.qty@),
        r is Some ==> level_valid(r->Some_0),
{
    let price = match parse_fixed(level.price.as_str()) {
        Some(p) => p,
        None => {
            return None;
        },
    };
    let qty = match parse_fixed(level.qty.as_str()) {
        Some(q) => q,
        None => {
            return None;
        },
    };
    if price == 0 || qty == 0 {
        return None;
    }
    proof {
        lemma_u64_product_fits(price, qty);
    }
    Some(ParsedDepthLevel { price, qty, notional: price as u128 * qty as u128 })
}

/// The product of two 64-bit amounts always fits in a 128-bit notional.
pub proof fn lemma_u64_product_fits(a: u64, b: u64)
    ensures
        a as u128 * b as u128 <= u128::MAX,
{
    assert(a as u128 * b as u128 <= u64::MAX as u128 * u64::MAX as u128) by (nonlinear_arith)
        requires
            a <= u64::MAX,
            b <= u64::MAX,
    ;
}

/// An update carries a signal only if at least one side kept a level.
pub fn is_big_depth_update(bids: &[ParsedDepthLevel], asks: &[ParsedDepthLevel]) -> (r: bool)
    ensures
        r == (bids@.len() > 0 || asks@.len() > 0),
{
    bids.len() > 0 || asks.len() > 0
}

/// The levels of `levels` that parse and validate, in input order, keeping
/// those with quantity at or above `min_qty`.
pub open spec fn big_levels(levels: Seq<RawLevel>, min_qty: u64) -> Seq<ParsedDepthLevel>
    decreases levels.len(),
{
    if levels.len() == 0 {
        Seq::<ParsedDepthLevel>::empty()
    } else {
        let prefix = big_levels(levels.drop_last(), min_qty);
        match parse_level_spec(levels.last().price@, levels.last().qty@) {
            Some(l) => if l.qty >= min_qty {
                prefix.push(l)
            } else {
                prefix
            },
            None => prefix,
        }
    }
}

/// `x` inserted into `s` after every entry whose notional is at least
/// `x.notional`: the insertion step of a stable descending sort.
pub open spec fn insert_desc(s: Seq<ParsedDepthLevel>, x: ParsedDepthLevel) -> Seq<
    ParsedDepthLevel,
>
    decreases s.len(),
{
    if s.len() == 0 {
        seq![x]
    } else if s[0].notional >= x.notional {
        seq![s[0]] + insert_desc(s.drop_first(), x)
    } else {
        seq![x] + s
    }
}

/// Stable insertion sort by notional, descending: entries with equal
/// notionals keep their input order.
pub open spec fn sort_desc(s: Seq<ParsedDepthLevel>) -> Seq<ParsedDepthLevel>
    decreases s.len(),
{
    if s.len() == 0 {
        Seq::<ParsedDepthLevel>::empty()
    } else {
        insert_desc(sort_desc(s.drop_last()), s.last())
    }
}

/// `s` is ordered by notional, descending.
pub open spec fn sorted_desc(s: Seq<ParsedDepthLevel>) -> bool {
    forall|i: int, j: int|
        #![trigger s[i], s[j]]
        0 <= i < j < s.len() ==> s[i].notional >= s[j].notional
}

/// Every notional in `s` is at most `b`.
pub open spec fn all_notional_le(s: Seq<ParsedDepthLevel>, b: u128) -> bool {
    forall|i: int| 0 <= i < s.len() ==> #[trigger] s[i].notional <= b
}

proof fn lemma_insert_desc_len(s: Seq<ParsedDepthLevel>, x: ParsedDepthLevel)
    ensures
        insert_desc(s, x).len() == s.len() + 1,
    decreases s.len(),
{
    if s.len() > 0 && s[0].notional >= x.notional {
        lemma_insert_desc_len(s.drop_first(), x);
    }
}

proof fn lemma_insert_desc_all_le(s: Seq<ParsedDepthLevel>, x: ParsedDepthLevel, b: u128)
    requires
        all_notional_le(s, b),
        x.notional <= b,
    ensures
        all_notional_le(insert_desc(s, x), b),
    decreases s.len(),
{
    if s.len() == 0 {
    } else if s[0].notional >= x.notional {
        assert(forall|i: int|
            0 <= i < s.len() - 1 ==> s.drop_first()[i] == #[trigger] s[i + 1]);
        lemma_insert_desc_all_le(s.drop_first(), x, b);
        let r = seq![s[0]] + insert_desc(s.drop_first(), x);
        assert(forall|i: int|
            1 <= i < r.len() ==> r[i] == #[trigger] insert_desc(s.drop_first(), x)[i - 1]);
        assert(all_notional_le(r, b));
    } else {
        let r = seq![x] + s;
        assert(forall|i: int| 1 <= i < r.len() ==> r[i] == #[trigger] s[i - 1]);
        assert(all_notional_le(r, b));
    }
}

proof fn lemma_insert_desc_sorted(s: Seq<ParsedDepthLevel>, x: ParsedDepthLevel)
    requires
        sorted_desc(s),
    ensures
        sorted_desc(insert_desc(s, x)),
    decreases s.len(),
{
    if s.len() == 0 {
    } else if s[0].notional >= x.notional {
        let tail = s.drop_first();
        assert(forall|i: int| 0 <= i < tail.len() ==> tail[i] == #[trigger] s[i + 1]);
        assert(sorted_desc(tail));
        lemma_insert_desc_sorted(tail, x);
        assert(all_notional_le(tail, s[0].notional));
        lemma_insert_desc_all_le(tail, x, s[0].notional);
        let rest = insert_desc(tail, x);
        let r = seq![s[0]] + rest;
        assert forall|i: int, j: int| 0 <= i < j < r.len() implies r[i].notional
            >= r[j].notional by {
            if i == 0 {
                assert(r[j] == rest[j - 1]);
            } else {
                assert(r[i] == rest[i - 1]);
                assert(r[j] == rest[j - 1]);
            }
        }
    } else {
        let r = seq![x] + s;
        assert forall|i: int, j: int| 0 <= i < j < r.len() implies r[i].notional
            >= r[j].notional by {
            if i == 0 {
                assert(r[j] == s[j - 1]);
                if j - 1 > 0 {
                    assert(s[0].notional >= s[j - 1].notional);
                }
            } else {
                assert(r[i] == s[i - 1]);
                assert(r[j] == s[j - 1]);
            }
        }
    }
}

pub proof fn lemma_sort_desc_sorted(s: Seq<ParsedDepthLevel>)
    ensures
        sorted_desc(sort_desc(s)),
        sort_desc(s).len() == s.len(),
    decreases s.len(),
{
    if s.len() > 0 {
        lemma_sort_desc_sorted(s.drop_last());
        lemma_insert_desc_sorted(sort_desc(s.drop_last()), s.last());
        lemma_insert_desc_len(sort_desc(s.drop_last()), s.last());
    }
}

/// A prefix of a descending-sorted sequence is descending sorted.
pub proof fn lemma_sorted_desc_take(s: Seq<ParsedDepthLevel>, n: int)
    requires
        sorted_desc(s),
        0 <= n <= s.len(),
    ensures
        sorted_desc(s.take(n)),
{
    assert(forall|i: int| 0 <= i < n ==> s.take(n)[i] == #[trigger] s[i]);
}

/// Membership-style property preservation: if every entry of `s` and `x`
/// itself satisfy the level predicate, so does every entry after insertion.
pub open spec fn all_keep(s: Seq<ParsedDepthLevel>, min_qty: u64) -> bool {
    forall|i: int|
        0 <= i < s.len() ==> level_valid(#[trigger] s[i]) && s[i].qty >= min_qty
}

proof fn lemma_insert_desc_all_keep(s: Seq<ParsedDepthLevel>, x: ParsedDepthLevel, min_qty: u64)
    requires
        all_keep(s, min_qty),
        level_valid(x),
        x.qty >= min_qty,
    ensures
        all_keep(insert_desc(s, x), min_qty),
    decreases s.len(),
{
    if s.len() == 0 {
    } else if s[0].notional >= x.notional {
        assert(forall|i: int|
            0 <= i < s.len() - 1 ==> s.drop_first()[i] == #[trigger] s[i + 1]);
        lemma_insert_desc_all_keep(s.drop_first(), x, min_qty);
        let r = seq![s[0]] + insert_desc(s.drop_first(), x);
        assert(forall|i: int|
            1 <= i < r.len() ==> r[i] == #[trigger] insert_desc(s.drop_first(), x)[i - 1]);
        assert(all_keep(r, min_qty));
    } else {
        let r = seq![x] + s;
        assert(forall|i: int| 1 <= i < r.len() ==> r[i] == #[trigger] s[i - 1]);
        assert(all_keep(r, min_qty));
    }
}

proof fn lemma_big_levels_all_keep(levels: Seq<RawLevel>, min_qty: u64)
    ensures
        all_keep(big_levels(levels, min_qty), min_qty),
    decreases levels.len(),
{
    if levels.len() > 0 {
        lemma_big_levels_all_keep(levels.drop_last(), min_qty);
        let prefix = big_levels(levels.drop_last(), min_qty);
        match parse_level_spec(levels.last().price@, levels.last().qty@) {
            Some(l) => {
                if l.qty >= min_qty {
                    let r = prefix.push(l);
                    assert(forall|i: int|
                        0 <= i < prefix.len() ==> r[i] == #[trigger] prefix[i]);
                    assert(r[r.len() - 1] == l);
                    match (
                        parse_fixed_spec(levels.last().price@),
                        parse_fixed_spec(levels.last().qty@),
                    ) {
                        (Some(p), Some(q)) => {
                            assert(l == ParsedDepthLevel {
                                price: p,
                                qty: q,
                                notional: (p as u128 * q as u128) as u128,
                            });
                            lemma_u64_product_fits(p, q);
                            assert(level_valid(l));
                        },
                        _ => {
                            assert(false);
                        },
                    }
                    assert(all_keep(r, min_qty));
                }
            },
            None => {},
        }
    }
}

pub proof fn lemma_sort_desc_all_keep(s: Seq<ParsedDepthLevel>, min_qty: u64)
    requires
        all_keep(s, min_qty),
    ensures
        all_keep(sort_desc(s), min_qty),
    decreases s.len(),
{
    if s.len() > 0 {
        assert(forall|i: int|
            0 <= i < s.len() - 1 ==> s.drop_last()[i] == #[trigger] s[i]);
        lemma_sort_desc_all_keep(s.drop_last(), min_qty);
        lemma_insert_desc_all_keep(sort_desc(s.drop_last()), s.last(), min_qty);
    }
}

/// Inserting at the first position whose notional is below `x.notional`
/// is exactly the stable insertion step.
proof fn lemma_insert_desc_at(s: Seq<ParsedDepthLevel>, x: ParsedDepthLevel, idx: int)
    requires
        0 <= idx <= s.len(),
        forall|j: int| 0 <= j < idx ==> #[trigger] s[j].notional >= x.notional,
        idx < s.len() ==> s[idx].notional < x.notional,
    ensures
        insert_desc(s, x) == s.insert(idx, x),
    decreases idx,
{
    if s.len() == 0 {
        assert(insert_desc(s, x) =~= s.insert(0, x));
    } else if idx == 0 {
        assert(s[0].notional < x.notional);
        assert(insert_desc(s, x) =~= s.insert(0, x));
    } else {
        assert(s[0].notional >= x.notional);
        let tail = s.drop_first();
        assert(forall|j: int| 0 <= j < tail.len() ==> tail[j] == #[trigger] s[j + 1]);
        lemma_insert_desc_at(tail, x, idx - 1);
        assert(seq![s[0]] + tail.insert(idx - 1, x) =~= s.insert(idx, x));
    }
}

/// The filtered, sorted, truncated big levels of a raw list: parse each
/// pair, keep the valid ones with quantity at or above `min_qty`, sort by
/// notional descending (stable), and keep the first `max_matches`.
pub open spec fn collect_big_levels_spec(
    levels: Seq<RawLevel>,
    min_qty: u64,
    max_matches: usize,
) -> Seq<ParsedDepthLevel> {
    let sorted = sort_desc(big_levels(levels, min_qty));
    if sorted.len() <= max_matches {
        sorted
    } else {
        sorted.take(max_matches as int)
    }
}

/// Parses, filters, sorts and truncates the raw levels of one book side.
///
/// The result is ordered by notional descending (ties keep input order),
/// has at most `max_matches` entries, and holds only validated levels with
/// quantity at or above `min_qty`.
pub fn collect_big_levels(levels: &[RawLevel], min_qty: u64, max_matches: usize) -> (r: Vec<
    ParsedDepthLevel,
>)
    ensures
        r@ == collect_big_levels_spec(levels@, min_qty, max_matches),
        sorted_desc(r@),
        r@.len() <= max_matches,
        all_keep(r@, min_qty),
{
    let ghost lv = levels@;
    let mut sorted: Vec<ParsedDepthLevel> = Vec::new();
    let mut i: usize = 0;
    while i < levels.len()
        invariant
            i <= lv.len(),
            lv == levels@,
            sorted@ == sort_desc(big_levels(lv.take(i as int), min_qty)),
        decreases lv.len() - i,
    {
        proof {
            assert(lv.take(i + 1).drop_last() =~= lv.take(i as int));
            assert(lv.take(i + 1).last() == lv[i as int]);
        }
        let parsed = parse_depth_level(&levels[i]);
        match parsed {
            Some(l) => {
                if l.qty >= min_qty {
                    let ghost pre = sorted@;
                    let mut idx: usize = 0;
                    while idx < sorted.len() && sorted[idx].notional >= l.notional
                        invariant
                            idx <= sorted.len(),
                            pre == sorted@,
                            forall|j: int|
                                0 <= j < idx ==> #[trigger] pre[j].notional >= l.notional,
                        decreases sorted.len() - idx,
                    {
                        idx = idx + 1;
                    }
                    proof {
                        lemma_insert_desc_at(pre, l, idx as int);
                    }
                    sorted.insert(idx, l);
                    proof {
                        let big_prev = big_levels(lv.take(i as int), min_qty);
                        assert(big_levels(lv.take(i + 1), min_qty) == big_prev.push(l));
                        assert(big_prev.push(l).drop_last() =~= big_prev);
                        assert(big_prev.push(l).last() == l);
                        assert(sorted@ == sort_desc(big_levels(lv.take(i + 1), min_qty)));
                    }
                } else {
                    proof {
                        assert(big_levels(lv.take(i + 1), min_qty) == big_levels(
                            lv.take(i as int),
                            min_qty,
                        ));
                    }
                }
            },
            None => {
                proof {
                    assert(big_levels(lv.take(i + 1), min_qty) == big_levels(
                        lv.take(i as int),
                        min_qty,
                    ));
                }
            },
        }
        i = i + 1;
    }
    proof {
        assert(lv.take(lv.len() as int) =~= lv);
        lemma_sort_desc_sorted(big_levels(lv, min_qty));
        lemma_big_levels_all_keep(lv, min_qty);
        lemma_sort_desc_all_keep(big_levels(lv, min_qty), min_qty);
        lemma_sorted_desc_take(sorted@, if sorted@.len() <= max_matches {
            sorted@.len() as int
        } else {
            max_matches as int
        });
    }
    sorted.truncate(max_matches);
    proof {
        if sorted@.len() > max_matches {
        }
        assert(forall|i: int|
            0 <= i < sorted@.len() ==> level_valid(#[trigger] sorted@[i]) && sorted@[i].qty
                >= min_qty);
    }
    sorted
}

/// `v` clamped to the percentage range `[0, 100]`.
pub open spec fn clamp_pct(v: i64) -> int {
    if v < 0 {
        0
    } else if v > PCT_100 {
        PCT_100 as int
    } else {
        v as int
    }
}

/// The pressure-floor gate: with the floor disabled (`<= 0`) everything
/// passes; otherwise at least one side, clamped to `[0, 100]`, must reach
/// the clamped floor.
pub open spec fn passes_pressure_filter_spec(
    bid_pressure_pct: i64,
    sell_pressure_pct: i64,
    min_pressure_pct: i64,
) -> bool {
    if min_pressure_pct <= 0 {
        true
    } else {
        clamp_pct(bid_pressure_pct) >= clamp_pct(min_pressure_pct) || clamp_pct(sell_pressure_pct)
            >= clamp_pct(min_pressure_pct)
    }
}

/// Applies the pressure-floor gate to raw (possibly out-of-range)
/// percentage readings, in `PCT_SCALE` units per point.
pub fn passes_pressure_filter(
    bid_pressure_pct: i64,
    sell_pressure_pct: i64,
    min_pressure_pct: i64,
) -> (r: bool)
    ensures
        r == passes_pressure_filter_spec(bid_pressure_pct, sell_pressure_pct, min_pressure_pct),
{
    if min_pressure_pct <= 0 {
        return true;
    }
    let threshold = clamp_pct_exec(min_pressure_pct);
    let bid_pressure = clamp_pct_exec(bid_pressure_pct);
    let sell_pressure = clamp_pct_exec(sell_pressure_pct);
    bid_pressure >= threshold || sell_pressure >= threshold
}

/// Clamps a raw percentage reading to `[0, 100]`.
fn clamp_pct_exec(v: i64) -> (r: i64)
    ensures
        r == clamp_pct(v),
{
    if v < 0 {
        0
    } else if v > PCT_100 as i64 {
        PCT_100 as i64
    } else {
        v
    }
}

/// `"{price:.2} x {qty:.4}"` for one level.
pub open spec fn level_str(l: ParsedDepthLevel) -> Seq<char> {
    scaled_str(l.price as u128, 8, 2) + " x "@ + scaled_str(l.qty as u128, 8, 4)
}

/// The levels joined with commas, or `"-"` when there are none.
pub open spec fn levels_str(s: Seq<ParsedDepthLevel>) -> Seq<char>
    decreases s.len(),
{
    if s.len() == 0 {
        "-"@
    } else if s.len() == 1 {
        level_str(s[0])
    } else {
        levels_str(s.drop_last()) + ","@ + level_str(s.last())
    }
}

/// Renders one level as `"{price:.2} x {qty:.4}"`.
fn format_level(l: &ParsedDepthLevel) -> (r: String)
    ensures
        r@ == level_str(*l),
{
    let mut r = format_scaled(l.price as u128, 8, 2);
    r.append(" x ");
    r.append(format_scaled(l.qty as u128, 8, 4).as_str());
    r
}

/// Renders a level list compactly: `"{price:.2} x {qty:.4}"` per level,
/// joined with commas, `"-"` when empty.
pub fn format_depth_levels(levels: &[ParsedDepthLevel]) -> (r: String)
    ensures
        r@ == levels_str(levels@),
{
    if levels.len() == 0 {
        return String::from_str("-");
    }
    let mut r = format_level(&levels[0]);
    proof {
        assert(levels@.take(1).len() == 1);
        assert(levels@.take(1)[0] == levels@[0]);
    }
    let mut i: usize = 1;
    while i < levels.len()
        invariant
            1 <= i <= levels@.len(),
            r@ == levels_str(levels@.take(i as int)),
        decreases levels@.len() - i,
    {
        r.append(",");
        r.append(format_level(&levels[i]).as_str());
        proof {
            assert(levels@.take(i + 1).drop_last() =~= levels@.take(i as int));
            assert(levels@.take(i + 1).last() == levels@[i as int]);
            assert(levels@.take(i + 1).len() == i + 1 >= 2);
        }
        i = i + 1;
    }
    proof {
        assert(levels@.take(levels@.len() as int) =~= levels@);
    }
    r
}

/// The sequence of `n` copies of `c`.
pub open spec fn char_repeat(c: char, n: nat) -> Seq<char> {
    Seq::new(n, |i: int| c)
}

/// The number of filled cells in a pressure bar of `width` cells: the
/// share of `pct` out of 100 percent, rounded half up, clamped to the
/// width.
pub open spec fn bar_filled(pct: u64, width: nat) -> int {
    let f = (pct * width + 50_000_000) / 100_000_000;
    if f > width {
        width as int
    } else {
        f
    }
}

/// A bar of `width` cells, the leading `bar_filled` of them solid.
pub open spec fn pressure_bar(pct: u64, width: nat) -> Seq<char> {
    char_repeat('█', bar_filled(pct, width) as nat) + char_repeat(
        '░',
        (width - bar_filled(pct, width)) as nat,
    )
}

/// Renders the bid/ask balance as a bar of `width` cells: solid cells for
/// the bid share of the total pressure, shaded cells for the rest.
pub fn format_pressure_visual(pct: u64, width: usize) -> (r: String)
    ensures
        r@ == pressure_bar(pct, width as nat),
{
    proof {
        assert(pct as u128 * width as u128 <= u64::MAX as u128 * u64::MAX as u128)
            by (nonlinear_arith)
            requires
                pct <= u64::MAX,
                width <= u64::MAX,
        ;
    }
    let num = pct as u128 * width as u128 + 50_000_000;
    let cells = num / 100_000_000;
    let filled = if cells > width as u128 {
        width
    } else {
        cells as usize
    };
    proof {
        assert(filled == bar_filled(pct, width as nat));
        reveal_strlit("█");
        reveal_strlit("░");
        assert("█"@ =~= seq!['█']);
        assert("░"@ =~= seq!['░']);
    }
    let mut r = String::new();
    let mut i: usize = 0;
    while i < filled
        invariant
            i <= filled,
            filled == bar_filled(pct, width as nat),
            filled <= width,
            r@ == char_repeat('█', i as nat),
            "█"@ == seq!['█'],
        decreases filled - i,
    {
        r.append("█");
        proof {
            assert(r@ =~= char_repeat('█', (i + 1) as nat));
        }
        i = i + 1;
    }
    let mut j: usize = 0;
    while j < width - filled
        invariant
            j <= width - filled,
            filled == bar_filled(pct, width as nat),
            filled <= width,
            r@ == char_repeat('█', filled as nat) + char_repeat('░', j as nat),
            "░"@ == seq!['░'],
        decreases width - filled - j,
    {
        r.append("░");
        proof {
            assert(r@ =~= char_repeat('█', filled as nat) + char_repeat('░', (j + 1) as nat));
        }
        j = j + 1;
    }
    proof {
        assert(r@ =~= pressure_bar(pct, width as nat));
    }
    r
}

/// A notional rendered compactly: millions with two decimals and an `M`,
/// thousands with one decimal and a `K`, anything smaller as a rounded
/// integer.
pub open spec fn compact_notional_str(n: u128) -> Seq<char> {
    if n >= 1_000_000 * NOTIONAL_SCALE {
        scaled_str(n, 22, 2) + "M"@
    } else if n >= 1_000 * NOTIONAL_SCALE {
        scaled_str(n, 19, 1) + "K"@
    } else {
        scaled_str(n, 16, 0)
    }
}

/// Renders a notional compactly with `K`/`M` suffixes.
pub fn format_notional_compact(n: u128) -> (r: String)
    requires
        n <= NOTIONAL_CAP,
    ensures
        r@ == compact_notional_str(n),
{
    if n >= 1_000_000 * NOTIONAL_SCALE {
        let mut r = format_scaled(n, 22, 2);
        r.append("M");
        r
    } else if n >= 1_000 * NOTIONAL_SCALE {
        let mut r = format_scaled(n, 19, 1);
        r.append("K");
        r
    } else {
        format_scaled(n, 16, 0)
    }
}

/// The stream name subscribed for partial depth snapshots of one symbol.
pub open spec fn depth_stream_name(sym: Seq<char>, levels: u16, speed_ms: u16) -> Seq<char> {
    lower_of(sym) + "@depth"@ + crate::fmt::dec_digits(levels as nat) + "@"@ + crate::fmt::dec_digits(
        speed_ms as nat,
    ) + "ms"@
}

/// The stream name subscribed for differential depth updates of one symbol.
pub open spec fn diff_depth_stream_name(sym: Seq<char>, speed_ms: u16) -> Seq<char> {
    lower_of(sym) + "@depth@"@ + crate::fmt::dec_digits(speed_ms as nat) + "ms"@
}

/// Builds the partial-depth stream names, one per symbol, lowercased.
pub fn build_depth_streams(symbols: &[String], levels: u16, speed_ms: u16) -> (r: Vec<String>)
    ensures
        r@.len() == symbols@.len(),
        forall|i: int|
            0 <= i < symbols@.len() ==> #[trigger] r@[i]@ == depth_stream_name(
                symbols@[i]@,
                levels,
                speed_ms,
            ),
{
    let mut r: Vec<String> = Vec::new();
    let mut i: usize = 0;
    while i < symbols.len()
        invariant
            i <= symbols@.len(),
            r@.len() == i,
            forall|j: int|
                0 <= j < i ==> #[trigger] r@[j]@ == depth_stream_name(
                    symbols@[j]@,
                    levels,
                    speed_ms,
                ),
        decreases symbols@.len() - i,
    {
        let mut name = to_lowercase(symbols[i].as_str());
        name.append("@depth");
        name.append(format_integer(levels as u128).as_str());
        name.append("@");
        name.append(format_integer(speed_ms as u128).as_str());
        name.append("ms");
        r.push(name);
        i = i + 1;
    }
    r
}

/// Builds the differential-depth stream names, one per symbol, lowercased.
pub fn build_diff_depth_streams(symbols: &[String], speed_ms: u16) -> (r: Vec<String>)
    ensures
        r@.len() == symbols@.len(),
        forall|i: int|
            0 <= i < symbols@.len() ==> #[trigger] r@[i]@ == diff_depth_stream_name(
                symbols@[i]@,
                speed_ms,
            ),
{
    let mut r: Vec<String> = Vec::new();
    let mut i: usize = 0;
    while i < symbols.len()
        invariant
            i <= symbols@.len(),
            r@.len() == i,
            forall|j: int|
                0 <= j < i ==> #[trigger] r@[j]@ == diff_depth_stream_name(symbols@[j]@, speed_ms),
        decreases symbols@.len() - i,
    {
        let mut name = to_lowercase(symbols[i].as_str());
        name.append("@depth@");
        name.append(format_integer(speed_ms as u128).as_str());
        name.append("ms");
        r.push(name);
        i = i + 1;
    }
    r
}

/// One differential depth update, decoded from a combined-stream message.
#[derive(Debug)]
pub struct DepthUpdate {
    pub symbol: String,
    pub bids: Vec<RawLevel>,
    pub asks: Vec<RawLevel>,
    pub event_time: u64,
    pub first_update_id: u64,
    pub final_update_id: u64,
}

/// Decodes a JSON array of `[price, qty]` string pairs into raw levels;
/// `None` when any element is not such a pair.
fn parse_raw_levels(arr: &Vec<serde_json::Value>) -> (r: Option<Vec<RawLevel>>)
    ensures
        r is Some ==> r->Some_0@.len() == arr@.len(),
{
    let mut out: Vec<RawLevel> = Vec::new();
    let mut i: usize = 0;
    while i < arr.len()
        invariant
            i <= arr@.len(),
            out@.len() == i,
        decreases arr@.len() - i,
    {
        let pair = match arr[i].as_array() {
            Some(p) => p,
            None => {
                return None;
            },
        };
        if pair.len() != 2 {
            return None;
        }
        let price = match pair[0].as_str() {
            Some(s) => s,
            None => {
                return None;
            },
        };
        let qty = match pair[1].as_str() {
            Some(s) => s,
            None => {
                return None;
            },
        };
        out.push(RawLevel { price: price.to_owned(), qty: qty.to_owned() });
        i = i + 1;
    }
    Some(out)
}

/// Decodes a combined-stream depth message.
///
/// Wire decoding is boundary work: the payload shape is validated here
/// (`data` object with symbol, update ids, event time and two level
/// arrays), but what a given JSON document holds is outside what this
/// crate states, so the result carries no further contract. Any payload
/// of a different shape, and any invalid JSON, yields `None`.
pub fn parse_depth_update(msg: &str) -> (r: Option<DepthUpdate>) {
    let v = match json_parse(msg) {
        Some(v) => v,
        None => {
            return None;
        },
    };
    let data = match json_get(&v, "data") {
        Some(d) => d,
        None => {
            return None;
        },
    };
    let symbol = match json_get(data, "s") {
        Some(s) => match s.as_str() {
            Some(s) => s.to_owned(),
            None => {
                return None;
            },
        },
        None => {
            return None;
        },
    };
    let event_time = match json_get(data, "E") {
        Some(e) => match e.as_u64() {
            Some(e) => e,
            None => {
                return None;
            },
        },
        None => {
            return None;
        },
    };
    let first_update_id = match json_get(data, "U") {
        Some(u) => match u.as_u64() {
            Some(u) => u,
            None => {
                return None;
            },
        },
        None => {
            return None;
        },
    };
    let final_update_id = match json_get(data, "u") {
        Some(u) => match u.as_u64() {
            Some(u) => u,
            None => {
                return None;
            },
        },
        None => {
            return None;
        },
    };
    let bids = match json_get(data, "b") {
        Some(b) => match b.as_array() {
            Some(b) => match parse_raw_levels(b) {
                Some(b) => b,
                None => {
                    return None;
                },
            },
            None => {
                return None;
            },
        },
        None => {
            return None;
        },
    };
    let asks = match json_get(data, "a") {
        Some(a) => match a.as_array() {
            Some(a) => match parse_raw_levels(a) {
                Some(a) => a,
                None => {
                    return None;
                },
            },
            None => {
                return None;
            },
        },
        None => {
            return None;
        },
    };
    Some(DepthUpdate { symbol, bids, asks, event_time, first_update_id, final_update_id })
}

} // verus!
