//! The heatmap renderer: a pure function from the history window to a
//! vector-image document.
//!
//! The image is 1920 by 1080 with a 300-pixel right margin reserved for the
//! price axis, so the plotting area is 1620 pixels wide.  Each snapshot
//! occupies one bar on the time axis; each level is a one-pixel-tall bar
//! whose alpha encodes its size against the window's maximum; a white
//! marker traces the mid price; the margin carries ten axis divisions.
//! Coordinates follow the integer model throughout: products and quotients
//! of fixed-point values, truncated toward zero and saturated to the range
//! of 32-bit pixels.

use vstd::prelude::*;
use vstd::arithmetic::div_mod::{lemma_div_is_ordered, lemma_fundamental_div_mod};
use vstd::arithmetic::mul::lemma_mul_inequality;
use vstd::string::StringExecFns;

use crate::WINDOW_MS;
use crate::book::PriceLevelMap;
use crate::fmt::{
    fmt_i64, fmt_u64, lemma_fmt_int_safe, lemma_fmt_nat_digits, markup_safe, pad3, spec_fmt_int,
    spec_fmt_nat, spec_pad3,
};
use crate::state::{HistoryEntry, OrderBookState};
use crate::svg_text::{
    document_markup, document_text, empty_document_markup, empty_document_text, group_markup,
    group_text, line_markup, line_text, rect_markup, rect_text, text_el_text, text_markup,
};

verus! {

/// The larger of two integers.
pub open spec fn max2(a: int, b: int) -> int {
    if a >= b {
        a
    } else {
        b
    }
}

/// The largest size on one side.
pub open spec fn side_max_size(s: Seq<(u64, u64)>) -> int
    decreases s.len(),
{
    if s.len() == 0 {
        0
    } else {
        max2(side_max_size(s.drop_last()), s.last().1 as int)
    }
}

/// The largest size anywhere in the window, over both sides.
pub open spec fn hist_max_size(h: Seq<HistoryEntry>) -> int
    decreases h.len(),
{
    if h.len() == 0 {
        0
    } else {
        max2(
            hist_max_size(h.drop_last()),
            max2(side_max_size(h.last().buy@), side_max_size(h.last().sell@)),
        )
    }
}

/// The smaller of two optional values, treating absence as neutral.
pub open spec fn min_opt(a: Option<int>, b: Option<int>) -> Option<int> {
    match a {
        Option::None => b,
        Option::Some(x) => match b {
            Option::None => a,
            Option::Some(y) => Option::Some(
                if x <= y {
                    x
                } else {
                    y
                },
            ),
        },
    }
}

/// The larger of two optional values, treating absence as neutral.
pub open spec fn max_opt(a: Option<int>, b: Option<int>) -> Option<int> {
    match a {
        Option::None => b,
        Option::Some(x) => match b {
            Option::None => a,
            Option::Some(y) => Option::Some(
                if x >= y {
                    x
                } else {
                    y
                },
            ),
        },
    }
}

/// The lowest price on one side, if it has any level.
pub open spec fn side_min_price(s: Seq<(u64, u64)>) -> Option<int>
    decreases s.len(),
{
    if s.len() == 0 {
        Option::None
    } else {
        min_opt(side_min_price(s.drop_last()), Option::Some(s.last().0 as int))
    }
}

/// The highest price on one side, if it has any level.
pub open spec fn side_max_price(s: Seq<(u64, u64)>) -> Option<int>
    decreases s.len(),
{
    if s.len() == 0 {
        Option::None
    } else {
        max_opt(side_max_price(s.drop_last()), Option::Some(s.last().0 as int))
    }
}

/// The lowest price anywhere in the window.
pub open spec fn hist_min_price(h: Seq<HistoryEntry>) -> Option<int>
    decreases h.len(),
{
    if h.len() == 0 {
        Option::None
    } else {
        min_opt(
            hist_min_price(h.drop_last()),
            min_opt(side_min_price(h.last().buy@), side_min_price(h.last().sell@)),
        )
    }
}

/// The highest price anywhere in the window.
pub open spec fn hist_max_price(h: Seq<HistoryEntry>) -> Option<int>
    decreases h.len(),
{
    if h.len() == 0 {
        Option::None
    } else {
        max_opt(
            hist_max_price(h.drop_last()),
            max_opt(side_max_price(h.last().buy@), side_max_price(h.last().sell@)),
        )
    }
}

/// A value saturated to the range of a 32-bit pixel coordinate.
pub open spec fn spec_clamp_i32(v: int) -> int {
    if v > 2147483647 {
        2147483647
    } else if v < -2147483648 {
        -2147483648
    } else {
        v
    }
}

/// The opacity of a level, in thousandths: its size against the window
/// maximum, clamped to one.
pub open spec fn spec_alpha(size: int, maxs: int) -> int {
    if size * 1000 / maxs >= 1000 {
        1000
    } else {
        size * 1000 / maxs
    }
}

/// The x-coordinate of a snapshot: its offset from the window start,
/// scaled to the plotting width.
pub open spec fn spec_time_x(ts: int, latest: int) -> int {
    spec_clamp_i32((ts - (latest - WINDOW_MS)) * 1620 / 300_000)
}

/// The y-coordinate of a price at or above the window minimum; a window
/// whose prices all coincide maps everything to the bottom edge.
pub open spec fn spec_y(price: int, minp: int, range: int) -> int {
    if range == 0 {
        1080
    } else {
        spec_clamp_i32(1080 - (price - minp) * 1080 / range)
    }
}

/// The best bid of a snapshot, zero when the side is empty.
pub open spec fn spec_best_buy(s: Seq<(u64, u64)>) -> int {
    if s.len() == 0 {
        0
    } else {
        s.last().0 as int
    }
}

/// The best ask of a snapshot, zero when the side is empty.
pub open spec fn spec_best_sell(s: Seq<(u64, u64)>) -> int {
    if s.len() == 0 {
        0
    } else {
        s[0].0 as int
    }
}

/// The y-coordinate of the mid marker.  An empty side counts as price
/// zero, so the mid may fall below the window minimum.
pub open spec fn spec_mid_y(e: HistoryEntry, minp: int, range: int) -> int {
    let mid = (spec_best_buy(e.buy@) + spec_best_sell(e.sell@)) / 2;
    if range == 0 {
        1080
    } else if mid >= minp {
        spec_clamp_i32(1080 - (mid - minp) * 1080 / range)
    } else {
        spec_clamp_i32(1080 + (minp - mid) * 1080 / range)
    }
}

proof fn lemma_side_max_nonneg(s: Seq<(u64, u64)>)
    ensures
        side_max_size(s) >= 0,
    decreases s.len(),
{
    if s.len() > 0 {
        lemma_side_max_nonneg(s.drop_last());
    }
}

proof fn lemma_hist_max_nonneg(h: Seq<HistoryEntry>)
    ensures
        hist_max_size(h) >= 0,
    decreases h.len(),
{
    if h.len() > 0 {
        lemma_hist_max_nonneg(h.drop_last());
        lemma_side_max_nonneg(h.last().buy@);
        lemma_side_max_nonneg(h.last().sell@);
    }
}

proof fn lemma_side_price_bounds(s: Seq<(u64, u64)>)
    ensures
        side_min_price(s) is Some <==> s.len() > 0,
        side_max_price(s) is Some <==> s.len() > 0,
        forall|j: int|
            0 <= j < s.len() ==> side_min_price(s)->0 <= #[trigger] s[j].0 as int
                <= side_max_price(s)->0,
    decreases s.len(),
{
    if s.len() > 0 {
        lemma_side_price_bounds(s.drop_last());
        assert(forall|j: int| 0 <= j < s.len() - 1 ==> s.drop_last()[j] == #[trigger] s[j]);
    }
}

/// A window with any level at all has a well-defined price range, and every
/// level's price falls inside it.
proof fn lemma_hist_price_bounds(h: Seq<HistoryEntry>)
    ensures
        hist_min_price(h) is Some <==> hist_max_price(h) is Some,
        hist_min_price(h) is Some ==> hist_min_price(h)->0 <= hist_max_price(h)->0,
        hist_max_size(h) > 0 ==> hist_min_price(h) is Some && h.len() > 0,
        forall|i: int|
            #![trigger h[i].buy]
            0 <= i < h.len() && (h[i].buy@.len() > 0 || h[i].sell@.len() > 0)
                ==> hist_min_price(h) is Some,
        forall|i: int, j: int|
            0 <= i < h.len() && 0 <= j < h[i].buy@.len() ==> hist_min_price(h)->0
                <= #[trigger] h[i].buy@[j].0 as int <= hist_max_price(h)->0,
        forall|i: int, j: int|
            0 <= i < h.len() && 0 <= j < h[i].sell@.len() ==> hist_min_price(h)->0
                <= #[trigger] h[i].sell@[j].0 as int <= hist_max_price(h)->0,
    decreases h.len(),
{
    if h.len() > 0 {
        lemma_hist_price_bounds(h.drop_last());
        lemma_side_price_bounds(h.last().buy@);
        lemma_side_price_bounds(h.last().sell@);
        lemma_side_max_nonneg(h.last().buy@);
        lemma_side_max_nonneg(h.last().sell@);
        lemma_hist_max_nonneg(h.drop_last());
        if side_max_size(h.last().buy@) > 0 {
            assert(h.last().buy@.len() > 0);
        }
        if side_max_size(h.last().sell@) > 0 {
            assert(h.last().sell@.len() > 0);
        }
        let d = h.drop_last();
        let e = h.last();
        let hm = hist_min_price(h);
        let hx = hist_max_price(h);
        assert(hist_min_price(d) is Some ==> hm is Some && hm->0 <= hist_min_price(d)->0);
        assert(side_min_price(e.buy@) is Some ==> hm is Some && hm->0 <= side_min_price(
            e.buy@,
        )->0);
        assert(side_min_price(e.sell@) is Some ==> hm is Some && hm->0 <= side_min_price(
            e.sell@,
        )->0);
        assert(hist_max_price(d) is Some ==> hx is Some && hx->0 >= hist_max_price(d)->0);
        assert(side_max_price(e.buy@) is Some ==> hx is Some && hx->0 >= side_max_price(
            e.buy@,
        )->0);
        assert(side_max_price(e.sell@) is Some ==> hx is Some && hx->0 >= side_max_price(
            e.sell@,
        )->0);
        assert(h[h.len() - 1] == e);
        assert forall|i: int|
            #![trigger h[i].buy]
            0 <= i < h.len() && (h[i].buy@.len() > 0 || h[i].sell@.len() > 0)
                implies hist_min_price(h) is Some by {
            if i < h.len() - 1 {
                assert(d[i] == h[i]);
                assert(d[i].buy == h[i].buy);
                assert(d[i].buy@.len() > 0 || d[i].sell@.len() > 0);
                assert(hist_min_price(d) is Some);
            }
        }
        assert forall|i: int, j: int|
            0 <= i < h.len() && 0 <= j < h[i].buy@.len() implies hm->0 <= #[trigger] h[i].buy@[j].0 as int <= hx->0 by {
            if i < h.len() - 1 {
                assert(d[i] == h[i]);
                assert(d[i].buy == h[i].buy);
                assert(d[i].buy@.len() > 0);
                assert(hist_min_price(d) is Some);
                assert(hist_min_price(d)->0 <= d[i].buy@[j].0 as int <= hist_max_price(d)->0);
            } else {
                assert(side_min_price(e.buy@) is Some);
                assert(side_min_price(e.buy@)->0 <= e.buy@[j].0 as int <= side_max_price(
                    e.buy@,
                )->0);
            }
        }
        assert forall|i: int, j: int|
            0 <= i < h.len() && 0 <= j < h[i].sell@.len() implies hm->0 <= #[trigger] h[i].sell@[j].0 as int <= hx->0 by {
            if i < h.len() - 1 {
                assert(d[i] == h[i]);
                assert(d[i].buy == h[i].buy);
                assert(d[i].sell@.len() > 0);
                assert(hist_min_price(d) is Some);
                assert(hist_min_price(d)->0 <= d[i].sell@[j].0 as int <= hist_max_price(d)->0);
            } else {
                assert(side_min_price(e.sell@) is Some);
                assert(side_min_price(e.sell@)->0 <= e.sell@[j].0 as int <= side_max_price(
                    e.sell@,
                )->0);
            }
        }
    }
}

/// The opacity of one level against the window maximum, in thousandths.
///
/// It always lies between zero and one, and reaches one exactly when the
/// level's size reaches the window maximum.
pub fn alpha_millis(size: u64, max_size: u64) -> (a: u64)
    requires
        max_size > 0,
    ensures
        a as int == spec_alpha(size as int, max_size as int),
        a <= 1000,
        a == 1000 <==> size >= max_size,
{
    let q: u128 = (size as u128) * 1000 / (max_size as u128);
    proof {
        let n = size as int * 1000;
        let m = max_size as int;
        lemma_fundamental_div_mod(n, m);
        if size >= max_size {
            lemma_mul_inequality(max_size as int, size as int, 1000);
            lemma_div_is_ordered(m * 1000, n, m);
            assert(m * 1000 / m == 1000) by (nonlinear_arith)
                requires
                    m > 0,
            ;
        }
        if n / m >= 1000 {
            lemma_mul_inequality(1000, n / m, m);
            assert(m * (n / m) == (n / m) * m) by (nonlinear_arith);
            assert(n >= 1000 * m);
        }
    }
    if q >= 1000 {
        1000
    } else {
        q as u64
    }
}

/// Joining two safe texts is safe.
proof fn lemma_markup_safe_concat(a: Seq<char>, b: Seq<char>)
    requires
        markup_safe(a),
        markup_safe(b),
    ensures
        markup_safe(a + b),
{
    assert forall|i: int| 0 <= i < (a + b).len() implies (a + b)[i] != '&' && (a + b)[i] != '<'
        && (a + b)[i] != '>' && (a + b)[i] != '"' && (a + b)[i] != '\'' by {
        if i < a.len() {
            assert((a + b)[i] == a[i]);
        } else {
            assert((a + b)[i] == b[i - a.len()]);
        }
    }
}

/// The text of an opacity value: `1` at full opacity, else `0.` and three
/// digits of thousandths.
pub open spec fn alpha_text_of(a: int) -> Seq<char> {
    if a == 1000 {
        "1"@
    } else {
        "0."@ + spec_pad3(a)
    }
}

fn alpha_str(a: u64) -> (r: String)
    requires
        a <= 1000,
    ensures
        r@ == alpha_text_of(a as int),
        markup_safe(r@),
{
    if a == 1000 {
        let s = String::from_str("1");
        proof {
            reveal_strlit("1");
            assert(markup_safe("1"@));
        }
        s
    } else {
        let mut s = String::from_str("0.");
        let tail = pad3(a);
        s.append(tail.as_str());
        proof {
            reveal_strlit("0.");
            assert(markup_safe("0."@));
            crate::fmt::lemma_pad3_safe(a as int);
            lemma_markup_safe_concat("0."@, spec_pad3(a as int));
        }
        s
    }
}

/// The fill of a level: green for the buy side, red for the sell side,
/// with the level's opacity.
pub open spec fn fill_of(buy: bool, a: int) -> Seq<char> {
    (if buy {
        "rgba(0, 255, 0, "@
    } else {
        "rgba(255, 0, 0, "@
    }) + alpha_text_of(a) + ")"@
}

fn fill_str(buy: bool, a: u64) -> (r: String)
    requires
        a <= 1000,
    ensures
        r@ == fill_of(buy, a as int),
        markup_safe(r@),
{
    let mut s = if buy {
        String::from_str("rgba(0, 255, 0, ")
    } else {
        String::from_str("rgba(255, 0, 0, ")
    };
    let ghost prefix = s@;
    let a_txt = alpha_str(a);
    s.append(a_txt.as_str());
    s.append(")");
    proof {
        reveal_strlit("rgba(0, 255, 0, ");
        reveal_strlit("rgba(255, 0, 0, ");
        reveal_strlit(")");
        assert(markup_safe("rgba(0, 255, 0, "@));
        assert(markup_safe("rgba(255, 0, 0, "@));
        assert(markup_safe(")"@));
        lemma_markup_safe_concat(prefix, a_txt@);
        lemma_markup_safe_concat(prefix + a_txt@, ")"@);
    }
    s
}

/// The axis label of a price: the value in units, rounded to and written
/// with three decimal places.
pub open spec fn spec_price_label(micro: int) -> Seq<char> {
    let milli = (micro + 500) / 1000;
    spec_fmt_nat(milli / 1000) + seq!['.'] + spec_pad3(milli % 1000)
}

/// Writes a fixed-point price as its axis label.
pub fn price_label(micro: u64) -> (r: String)
    ensures
        r@ == spec_price_label(micro as int),
        markup_safe(r@),
{
    let milli: u64 = (((micro as u128) + 500) / 1000) as u64;
    let mut s = fmt_u64(milli / 1000);
    let ghost ip = s@;
    s.append(".");
    let frac = pad3(milli % 1000);
    s.append(frac.as_str());
    proof {
        reveal_strlit(".");
        assert("."@ =~= seq!['.']);
        assert(markup_safe("."@));
        lemma_fmt_nat_digits((milli / 1000) as int);
        lemma_markup_safe_concat(ip, "."@);
        crate::fmt::lemma_pad3_safe((milli % 1000) as int);
        lemma_markup_safe_concat(ip + "."@, frac@);
    }
    s
}

fn px_from_q(q: u128) -> (r: i64)
    ensures
        r as int == spec_clamp_i32(q as int),
{
    if q > 2147483647 {
        2147483647
    } else {
        q as i64
    }
}

fn px_down(q: u128) -> (r: i64)
    ensures
        r as int == spec_clamp_i32(1080 - q as int),
{
    if q <= 1080 {
        1080 - (q as i64)
    } else {
        let neg = q - 1080;
        if neg > 2147483648 {
            -2147483648
        } else {
            0 - (neg as i64)
        }
    }
}

fn px_up(q: u128) -> (r: i64)
    ensures
        r as int == spec_clamp_i32(1080 + q as int),
{
    if q > 2147483647 - 1080 {
        2147483647
    } else {
        1080 + (q as i64)
    }
}

fn time_x_px(ts: i64, latest: i64) -> (r: i64)
    requires
        ts > latest - WINDOW_MS,
    ensures
        r as int == spec_time_x(ts as int, latest as int),
{
    let d: i128 = ts as i128 - (latest as i128 - 300_000);
    let du: u128 = d as u128;
    let q: u128 = du * 1620 / 300_000;
    px_from_q(q)
}

fn level_y_px(price: u64, minp: u64, range: u64) -> (r: i64)
    requires
        minp <= price,
    ensures
        r as int == spec_y(price as int, minp as int, range as int),
{
    if range == 0 {
        1080
    } else {
        let q: u128 = (price - minp) as u128 * 1080 / (range as u128);
        px_down(q)
    }
}

fn mid_y_px(e: &HistoryEntry, minp: u64, range: u64) -> (r: i64)
    ensures
        r as int == spec_mid_y(*e, minp as int, range as int),
{
    let nb = e.buy.len();
    let bb: u64 = if nb > 0 {
        e.buy.level_at(nb - 1).0
    } else {
        0
    };
    let ns = e.sell.len();
    let bs: u64 = if ns > 0 {
        e.sell.level_at(0).0
    } else {
        0
    };
    proof {
        if nb > 0 {
            assert(e.buy@.last() == e.buy@[nb - 1]);
        }
    }
    let mid: u128 = (bb as u128 + bs as u128) / 2;
    if range == 0 {
        1080
    } else if mid >= minp as u128 {
        let q: u128 = (mid - minp as u128) * 1080 / (range as u128);
        px_down(q)
    } else {
        let q: u128 = ((minp as u128) - mid) * 1080 / (range as u128);
        px_up(q)
    }
}

/// The rectangle of one level.
pub open spec fn level_rect_text(
    lv: (u64, u64),
    tx: Seq<char>,
    bw: Seq<char>,
    minp: int,
    range: int,
    maxs: int,
    buy: bool,
) -> Seq<char> {
    rect_text(
        tx,
        spec_fmt_int(spec_y(lv.0 as int, minp, range)),
        bw,
        "1"@,
        fill_of(buy, spec_alpha(lv.1 as int, maxs)),
    )
}

/// The buy-side rectangles of one snapshot, in ascending price order, each
/// preceded by a child separator.
pub open spec fn rects_asc(
    s: Seq<(u64, u64)>,
    tx: Seq<char>,
    bw: Seq<char>,
    minp: int,
    range: int,
    maxs: int,
) -> Seq<char>
    decreases s.len(),
{
    if s.len() == 0 {
        Seq::empty()
    } else {
        rects_asc(s.drop_last(), tx, bw, minp, range, maxs) + "\n"@ + level_rect_text(
            s.last(),
            tx,
            bw,
            minp,
            range,
            maxs,
            true,
        )
    }
}

/// The sell-side rectangles of one snapshot, in descending price order,
/// each preceded by a child separator.
pub open spec fn rects_desc(
    s: Seq<(u64, u64)>,
    tx: Seq<char>,
    bw: Seq<char>,
    minp: int,
    range: int,
    maxs: int,
) -> Seq<char>
    decreases s.len(),
{
    if s.len() == 0 {
        Seq::empty()
    } else {
        rects_desc(s.drop_first(), tx, bw, minp, range, maxs) + "\n"@ + level_rect_text(
            s.first(),
            tx,
            bw,
            minp,
            range,
            maxs,
            false,
        )
    }
}

/// The white mid-price marker of one snapshot.
pub open spec fn mid_rect_text(
    e: HistoryEntry,
    tx: Seq<char>,
    bw: Seq<char>,
    minp: int,
    range: int,
) -> Seq<char> {
    rect_text(
        tx,
        spec_fmt_int(spec_mid_y(e, minp, range)),
        bw,
        "1"@,
        "rgba(255, 255, 255, 0.8)"@,
    )
}

/// Everything drawn for one snapshot: sell side, buy side, mid marker.
pub open spec fn entry_text(
    e: HistoryEntry,
    latest: int,
    bw: Seq<char>,
    minp: int,
    range: int,
    maxs: int,
) -> Seq<char> {
    let tx = spec_fmt_int(spec_time_x(e.ts as int, latest));
    rects_desc(e.sell@, tx, bw, minp, range, maxs) + rects_asc(e.buy@, tx, bw, minp, range, maxs)
        + "\n"@ + mid_rect_text(e, tx, bw, minp, range)
}

/// Everything drawn for the whole window, in order.
pub open spec fn entries_text(
    h: Seq<HistoryEntry>,
    latest: int,
    bw: Seq<char>,
    minp: int,
    range: int,
    maxs: int,
) -> Seq<char>
    decreases h.len(),
{
    if h.len() == 0 {
        Seq::empty()
    } else {
        entries_text(h.drop_last(), latest, bw, minp, range, maxs) + entry_text(
            h.last(),
            latest,
            bw,
            minp,
            range,
            maxs,
        )
    }
}

/// One axis division: a price label and its tick line.
pub open spec fn tick_text(i: int, minp: int, range: int) -> Seq<char> {
    let price = minp + range * i / 10;
    let y = 1080 - 108 * i;
    text_el_text("1640"@, spec_fmt_int(y + 5), "start"@, spec_price_label(price)) + "\n"@
        + line_text("1620"@, "1630"@, spec_fmt_int(y), spec_fmt_int(y), "white"@, "1"@)
}

/// The axis divisions from zero up to `i`, joined as children.
pub open spec fn legend_text(i: int, minp: int, range: int) -> Seq<char>
    decreases i,
{
    if i <= 0 {
        tick_text(0, minp, range)
    } else {
        legend_text(i - 1, minp, range) + "\n"@ + tick_text(i, minp, range)
    }
}

/// The black backdrop of the plotting area.
pub open spec fn background_text() -> Seq<char> {
    rect_text("0"@, "0"@, "1620"@, "100%"@, "#000000"@)
}

/// The full image for one history window.  A window without any positive
/// size yields the bare document; otherwise the backdrop, the snapshots
/// and the price axis are drawn in order.
pub open spec fn spec_render(h: Seq<HistoryEntry>) -> Seq<char> {
    if hist_max_size(h) <= 0 {
        empty_document_text("100%"@, "xMidYMid meet"@, "0 0 1920 1080"@, "100%"@)
    } else {
        let minp = hist_min_price(h)->0;
        let range = hist_max_price(h)->0 - minp;
        let maxs = hist_max_size(h);
        let latest = h.last().ts as int;
        let bw = spec_fmt_int((1620 + h.len() - 1) / h.len() as int + 1);
        document_text(
            "100%"@,
            "xMidYMid meet"@,
            "0 0 1920 1080"@,
            "100%"@,
            background_text() + entries_text(h, latest, bw, minp, range, maxs) + "\n"@
                + group_text("white"@, "Arial"@, "14"@, legend_text(10, minp, range)),
        )
    }
}

/// Rendering is deterministic: the image text is a function of the window
/// value alone, so rendering an unchanged history twice yields identical
/// bytes.
pub proof fn lemma_render_deterministic(h1: Seq<HistoryEntry>, h2: Seq<HistoryEntry>)
    requires
        h1 == h2,
    ensures
        spec_render(h1) == spec_render(h2),
{
}

/// An optional fixed-point value, read as mathematics.
pub open spec fn opt_int(o: Option<u64>) -> Option<int> {
    match o {
        Option::None => Option::None,
        Option::Some(v) => Option::Some(v as int),
    }
}

fn side_max_exec(m: &PriceLevelMap) -> (r: u64)
    ensures
        r as int == side_max_size(m@),
{
    let n = m.len();
    let mut acc: u64 = 0;
    let mut i: usize = 0;
    while i < n
        invariant
            0 <= i <= n,
            n == m@.len(),
            acc as int == side_max_size(m@.take(i as int)),
        decreases n - i,
    {
        proof {
            assert(m@.take(i as int + 1).drop_last() =~= m@.take(i as int));
        }
        let lv = m.level_at(i);
        if lv.1 > acc {
            acc = lv.1;
        }
        i = i + 1;
    }
    proof {
        assert(m@.take(n as int) =~= m@);
    }
    acc
}

fn side_min_exec(m: &PriceLevelMap) -> (r: Option<u64>)
    ensures
        opt_int(r) == side_min_price(m@),
{
    let n = m.len();
    let mut acc: Option<u64> = None;
    let mut i: usize = 0;
    while i < n
        invariant
            0 <= i <= n,
            n == m@.len(),
            opt_int(acc) == side_min_price(m@.take(i as int)),
        decreases n - i,
    {
        proof {
            assert(m@.take(i as int + 1).drop_last() =~= m@.take(i as int));
        }
        let lv = m.level_at(i);
        acc = match acc {
            None => Some(lv.0),
            Some(b) => if lv.0 <= b {
                Some(lv.0)
            } else {
                Some(b)
            },
        };
        i = i + 1;
    }
    proof {
        assert(m@.take(n as int) =~= m@);
    }
    acc
}

fn side_max_price_exec(m: &PriceLevelMap) -> (r: Option<u64>)
    ensures
        opt_int(r) == side_max_price(m@),
{
    let n = m.len();
    let mut acc: Option<u64> = None;
    let mut i: usize = 0;
    while i < n
        invariant
            0 <= i <= n,
            n == m@.len(),
            opt_int(acc) == side_max_price(m@.take(i as int)),
        decreases n - i,
    {
        proof {
            assert(m@.take(i as int + 1).drop_last() =~= m@.take(i as int));
        }
        let lv = m.level_at(i);
        acc = match acc {
            None => Some(lv.0),
            Some(b) => if lv.0 >= b {
                Some(lv.0)
            } else {
                Some(b)
            },
        };
        i = i + 1;
    }
    proof {
        assert(m@.take(n as int) =~= m@);
    }
    acc
}

fn hist_max_exec(h: &Vec<HistoryEntry>) -> (r: u64)
    ensures
        r as int == hist_max_size(h@),
{
    let n = h.len();
    let mut acc: u64 = 0;
    let mut i: usize = 0;
    while i < n
        invariant
            0 <= i <= n,
            n == h@.len(),
            acc as int == hist_max_size(h@.take(i as int)),
        decreases n - i,
    {
        proof {
            assert(h@.take(i as int + 1).drop_last() =~= h@.take(i as int));
            assert(h@.take(i as int + 1).last() == h@[i as int]);
        }
        let b = side_max_exec(&h[i].buy);
        let s = side_max_exec(&h[i].sell);
        if b > acc {
            acc = b;
        }
        if s > acc {
            acc = s;
        }
        i = i + 1;
    }
    proof {
        assert(h@.take(n as int) =~= h@);
    }
    acc
}

fn min_opt_exec(a: Option<u64>, b: Option<u64>) -> (r: Option<u64>)
    ensures
        opt_int(r) == min_opt(opt_int(a), opt_int(b)),
{
    match (a, b) {
        (None, _) => b,
        (Some(_), None) => a,
        (Some(x), Some(y)) => if x <= y {
            Some(x)
        } else {
            Some(y)
        },
    }
}

fn max_opt_exec(a: Option<u64>, b: Option<u64>) -> (r: Option<u64>)
    ensures
        opt_int(r) == max_opt(opt_int(a), opt_int(b)),
{
    match (a, b) {
        (None, _) => b,
        (Some(_), None) => a,
        (Some(x), Some(y)) => if x >= y {
            Some(x)
        } else {
            Some(y)
        },
    }
}

fn hist_price_range_exec(h: &Vec<HistoryEntry>) -> (r: (Option<u64>, Option<u64>))
    ensures
        opt_int(r.0) == hist_min_price(h@),
        opt_int(r.1) == hist_max_price(h@),
{
    let n = h.len();
    let mut mn: Option<u64> = None;
    let mut mx: Option<u64> = None;
    let mut i: usize = 0;
    while i < n
        invariant
            0 <= i <= n,
            n == h@.len(),
            opt_int(mn) == hist_min_price(h@.take(i as int)),
            opt_int(mx) == hist_max_price(h@.take(i as int)),
        decreases n - i,
    {
        proof {
            assert(h@.take(i as int + 1).drop_last() =~= h@.take(i as int));
            assert(h@.take(i as int + 1).last() == h@[i as int]);
        }
        let bmin = side_min_exec(&h[i].buy);
        let smin = side_min_exec(&h[i].sell);
        let bmax = side_max_price_exec(&h[i].buy);
        let smax = side_max_price_exec(&h[i].sell);
        mn = min_opt_exec(mn, min_opt_exec(bmin, smin));
        mx = max_opt_exec(mx, max_opt_exec(bmax, smax));
        i = i + 1;
    }
    proof {
        assert(h@.take(n as int) =~= h@);
    }
    (mn, mx)
}

fn rect_for_level(
    price: u64,
    size: u64,
    tx: &str,
    bw: &str,
    minp: u64,
    range: u64,
    maxs: u64,
    buy: bool,
) -> (r: String)
    requires
        minp <= price,
        maxs > 0,
        markup_safe(tx@),
        markup_safe(bw@),
    ensures
        r@ == level_rect_text(
            (price, size),
            tx@,
            bw@,
            minp as int,
            range as int,
            maxs as int,
            buy,
        ),
{
    let y = level_y_px(price, minp, range);
    let ytxt = fmt_i64(y);
    let a = alpha_millis(size, maxs);
    let f = fill_str(buy, a);
    proof {
        lemma_fmt_int_safe(y as int);
        reveal_strlit("1");
        assert(markup_safe("1"@));
    }
    rect_markup(tx, ytxt.as_str(), bw, "1", f.as_str())
}

fn render_sell_side(
    m: &PriceLevelMap,
    tx: &str,
    bw: &str,
    minp: u64,
    range: u64,
    maxs: u64,
    out: &mut String,
)
    requires
        maxs > 0,
        markup_safe(tx@),
        markup_safe(bw@),
        forall|j: int| 0 <= j < m@.len() ==> #[trigger] m@[j].0 >= minp,
    ensures
        final(out)@ == old(out)@ + rects_desc(m@, tx@, bw@, minp as int, range as int, maxs as int),
{
    let n = m.len();
    let mut j: usize = n;
    proof {
        assert(m@.skip(n as int) =~= Seq::<(u64, u64)>::empty());
    }
    while j > 0
        invariant
            0 <= j <= n,
            n == m@.len(),
            maxs > 0,
            markup_safe(tx@),
            markup_safe(bw@),
            forall|k: int| 0 <= k < m@.len() ==> #[trigger] m@[k].0 >= minp,
            out@ == old(out)@ + rects_desc(
                m@.skip(j as int),
                tx@,
                bw@,
                minp as int,
                range as int,
                maxs as int,
            ),
        decreases j,
    {
        proof {
            assert(m@.skip(j as int - 1).drop_first() =~= m@.skip(j as int));
            assert(m@.skip(j as int - 1).first() == m@[j as int - 1]);
        }
        let lv = m.level_at(j - 1);
        let rect = rect_for_level(lv.0, lv.1, tx, bw, minp, range, maxs, false);
        out.append("\n");
        out.append(rect.as_str());
        proof {
            reveal_strlit("\n");
        }
        j = j - 1;
    }
    proof {
        assert(m@.skip(0) =~= m@);
    }
}

fn render_buy_side(
    m: &PriceLevelMap,
    tx: &str,
    bw: &str,
    minp: u64,
    range: u64,
    maxs: u64,
    out: &mut String,
)
    requires
        maxs > 0,
        markup_safe(tx@),
        markup_safe(bw@),
        forall|j: int| 0 <= j < m@.len() ==> #[trigger] m@[j].0 >= minp,
    ensures
        final(out)@ == old(out)@ + rects_asc(m@, tx@, bw@, minp as int, range as int, maxs as int),
{
    let n = m.len();
    let mut j: usize = 0;
    while j < n
        invariant
            0 <= j <= n,
            n == m@.len(),
            maxs > 0,
            markup_safe(tx@),
            markup_safe(bw@),
            forall|k: int| 0 <= k < m@.len() ==> #[trigger] m@[k].0 >= minp,
            out@ == old(out)@ + rects_asc(
                m@.take(j as int),
                tx@,
                bw@,
                minp as int,
                range as int,
                maxs as int,
            ),
        decreases n - j,
    {
        proof {
            assert(m@.take(j as int + 1).drop_last() =~= m@.take(j as int));
            assert(m@.take(j as int + 1).last() == m@[j as int]);
        }
        let lv = m.level_at(j);
        let rect = rect_for_level(lv.0, lv.1, tx, bw, minp, range, maxs, true);
        out.append("\n");
        out.append(rect.as_str());
        proof {
            reveal_strlit("\n");
        }
        j = j + 1;
    }
    proof {
        assert(m@.take(n as int) =~= m@);
    }
}

fn render_entry(
    e: &HistoryEntry,
    latest: i64,
    bw: &str,
    minp: u64,
    range: u64,
    maxs: u64,
    out: &mut String,
)
    requires
        e.ts > latest - WINDOW_MS,
        maxs > 0,
        markup_safe(bw@),
        forall|j: int| 0 <= j < e.buy@.len() ==> #[trigger] e.buy@[j].0 >= minp,
        forall|j: int| 0 <= j < e.sell@.len() ==> #[trigger] e.sell@[j].0 >= minp,
    ensures
        final(out)@ == old(out)@ + entry_text(
            *e,
            latest as int,
            bw@,
            minp as int,
            range as int,
            maxs as int,
        ),
{
    let txv = time_x_px(e.ts, latest);
    let tx = fmt_i64(txv);
    proof {
        lemma_fmt_int_safe(txv as int);
    }
    render_sell_side(&e.sell, tx.as_str(), bw, minp, range, maxs, out);
    render_buy_side(&e.buy, tx.as_str(), bw, minp, range, maxs, out);
    let my = mid_y_px(e, minp, range);
    let mytxt = fmt_i64(my);
    proof {
        lemma_fmt_int_safe(my as int);
        reveal_strlit("1");
        reveal_strlit("rgba(255, 255, 255, 0.8)");
        assert(markup_safe("1"@));
        assert(markup_safe("rgba(255, 255, 255, 0.8)"@));
    }
    let mid_rect = rect_markup(tx.as_str(), mytxt.as_str(), bw, "1", "rgba(255, 255, 255, 0.8)");
    out.append("\n");
    out.append(mid_rect.as_str());
    proof {
        reveal_strlit("\n");
    }
}

fn tick_string(i: u64, minp: u64, range: u64) -> (r: String)
    requires
        i <= 10,
        minp + range <= u64::MAX,
    ensures
        r@ == tick_text(i as int, minp as int, range as int),
{
    proof {
        lemma_mul_inequality(i as int, 10, range as int);
        assert(range as int * i as int == i as int * range as int) by (nonlinear_arith);
        assert(range as int * 10 == 10 * range as int) by (nonlinear_arith);
        lemma_div_is_ordered(range as int * i as int, range as int * 10, 10);
        assert((range as int * 10) / 10 == range as int) by (nonlinear_arith);
    }
    let price: u64 = ((minp as u128) + (range as u128) * (i as u128) / 10) as u64;
    let y: i64 = 1080 - 108 * (i as i64);
    let label = price_label(price);
    let ytop = fmt_i64(y + 5);
    let ytick = fmt_i64(y);
    proof {
        lemma_fmt_int_safe(y as int + 5);
        lemma_fmt_int_safe(y as int);
        reveal_strlit("1640");
        reveal_strlit("1620");
        reveal_strlit("1630");
        reveal_strlit("start");
        reveal_strlit("white");
        reveal_strlit("1");
        assert(markup_safe("1640"@));
        assert(markup_safe("1620"@));
        assert(markup_safe("1630"@));
        assert(markup_safe("start"@));
        assert(markup_safe("white"@));
        assert(markup_safe("1"@));
    }
    let mut s = text_markup("1640", ytop.as_str(), "start", label.as_str());
    s.append("\n");
    let line = line_markup("1620", "1630", ytick.as_str(), ytick.as_str(), "white", "1");
    s.append(line.as_str());
    proof {
        reveal_strlit("\n");
    }
    s
}

/// Renders the retained window as a vector image.
///
/// The output text is exactly `spec_render` of the history: a bare document
/// when the window holds no positive size, otherwise the backdrop, one bar
/// of level rectangles and a mid marker per snapshot, and the price axis.
pub fn generate_heatmap(state: &OrderBookState) -> (r: String)
    requires
        state.wf(),
    ensures
        r@ == spec_render(state.history@),
{
    let h = &state.history;
    let maxs = hist_max_exec(h);
    proof {
        reveal_strlit("100%");
        reveal_strlit("xMidYMid meet");
        reveal_strlit("0 0 1920 1080");
        assert(markup_safe("100%"@));
        assert(markup_safe("xMidYMid meet"@));
        assert(markup_safe("0 0 1920 1080"@));
    }
    if maxs == 0 {
        return empty_document_markup("100%", "xMidYMid meet", "0 0 1920 1080", "100%");
    }
    proof {
        lemma_hist_price_bounds(h@);
    }
    let bounds = hist_price_range_exec(h);
    let (minp, maxp) = match bounds {
        (Some(a), Some(b)) => (a, b),
        _ => {
            proof {
                assert(false);
            }
            (0, 0)
        },
    };
    let range = maxp - minp;
    let n = h.len();
    let latest = h[n - 1].ts;
    proof {
        assert(h@[n - 1] == h@.last());
        assert(1620 + n as int - 1 <= 1621 * n as int);
        lemma_div_is_ordered(1620 + n as int - 1, 1621 * n as int, n as int);
        assert((1621 * n as int) / n as int == 1621) by (nonlinear_arith)
            requires
                n >= 1,
        ;
    }
    let bwv: u64 = ((1620u128 + n as u128 - 1) / (n as u128) + 1) as u64;
    let bw = fmt_i64(bwv as i64);
    proof {
        lemma_fmt_int_safe(bwv as int);
        reveal_strlit("0");
        reveal_strlit("1620");
        reveal_strlit("#000000");
        assert(markup_safe("0"@));
        assert(markup_safe("1620"@));
        assert(markup_safe("#000000"@));
    }
    let mut body = rect_markup("0", "0", "1620", "100%", "#000000");
    let mut i: usize = 0;
    while i < n
        invariant
            0 <= i <= n,
            n == h@.len(),
            h == &state.history,
            state.wf(),
            maxs > 0,
            maxs as int == hist_max_size(h@),
            minp as int == hist_min_price(h@)->0,
            range as int == hist_max_price(h@)->0 - minp as int,
            latest == h@.last().ts,
            markup_safe(bw@),
            bw@ == spec_fmt_int((1620 + h@.len() - 1) / h@.len() as int + 1),
            forall|a: int, j: int|
                0 <= a < h@.len() && 0 <= j < h@[a].buy@.len() ==> #[trigger] h@[a].buy@[j].0
                    >= minp,
            forall|a: int, j: int|
                0 <= a < h@.len() && 0 <= j < h@[a].sell@.len() ==> #[trigger] h@[a].sell@[j].0
                    >= minp,
            body@ == background_text() + entries_text(
                h@.take(i as int),
                latest as int,
                bw@,
                minp as int,
                range as int,
                maxs as int,
            ),
        decreases n - i,
    {
        proof {
            assert(h@.take(i as int + 1).drop_last() =~= h@.take(i as int));
            assert(h@.take(i as int + 1).last() == h@[i as int]);
        }
        render_entry(&h[i], latest, bw.as_str(), minp, range, maxs, &mut body);
        i = i + 1;
    }
    proof {
        assert(h@.take(n as int) =~= h@);
    }
    let mut legend = tick_string(0, minp, range);
    let mut t: u64 = 1;
    while t <= 10
        invariant
            1 <= t <= 11,
            minp as int + range as int <= u64::MAX,
            legend@ == legend_text(t as int - 1, minp as int, range as int),
        decreases 11 - t,
    {
        legend.append("\n");
        let tick = tick_string(t, minp, range);
        legend.append(tick.as_str());
        proof {
            reveal_strlit("\n");
        }
        t = t + 1;
    }
    proof {
        reveal_strlit("white");
        reveal_strlit("Arial");
        reveal_strlit("14");
        assert(markup_safe("white"@));
        assert(markup_safe("Arial"@));
        assert(markup_safe("14"@));
    }
    let grp = group_markup("white", "Arial", "14", legend.as_str());
    body.append("\n");
    body.append(grp.as_str());
    proof {
        reveal_strlit("\n");
    }
    document_markup("100%", "xMidYMid meet", "0 0 1920 1080", "100%", body.as_str())
}

} // verus!
