//! The order-book state: the current buy and sell sides and a sliding
//! time window of past snapshots.
//!
//! Each feed update replaces both sides wholesale — the feed delivers full
//! snapshots, not diffs — and appends a copy of the new book to the
//! history, purging entries older than the window.

use vstd::prelude::*;

use crate::WINDOW_MS;
use crate::book::{PriceLevelMap, price_sorted, spec_insert, spec_lookup, lemma_insert_sorted, lemma_insert_lookup};
use crate::decode::{RawLevel, UpdateRecord};
use crate::fixed::spec_parse_fixed;
use crate::fixed::parse_fixed;

verus! {

/// One retained snapshot: the book at one update timestamp.
pub struct HistoryEntry {
    pub ts: i64,
    pub buy: PriceLevelMap,
    pub sell: PriceLevelMap,
}

/// A snapshot reduced to mathematics: timestamp, buy levels, sell levels.
pub open spec fn entry_view(e: HistoryEntry) -> (i64, Seq<(u64, u64)>, Seq<(u64, u64)>) {
    (e.ts, e.buy@, e.sell@)
}

/// The history reduced to mathematics.
pub open spec fn hist_views(s: Seq<HistoryEntry>) -> Seq<
    (i64, Seq<(u64, u64)>, Seq<(u64, u64)>),
> {
    s.map_values(|e: HistoryEntry| entry_view(e))
}

/// The entries of `s`, in order, whose timestamp lies strictly inside the
/// window: everything at or before `cutoff` is purged.
pub open spec fn keep_recent(
    s: Seq<(i64, Seq<(u64, u64)>, Seq<(u64, u64)>)>,
    cutoff: int,
) -> Seq<(i64, Seq<(u64, u64)>, Seq<(u64, u64)>)>
    decreases s.len(),
{
    if s.len() == 0 {
        s
    } else {
        let rest = keep_recent(s.drop_last(), cutoff);
        if s.last().0 > cutoff {
            rest.push(s.last())
        } else {
            rest
        }
    }
}

/// After a purge at `cutoff`, every entry's timestamp lies strictly above
/// `cutoff`: strictly older entries are absent.
pub proof fn lemma_keep_recent_bound(
    s: Seq<(i64, Seq<(u64, u64)>, Seq<(u64, u64)>)>,
    cutoff: int,
)
    ensures
        forall|i: int|
            0 <= i < keep_recent(s, cutoff).len() ==> #[trigger] keep_recent(s, cutoff)[i].0
                > cutoff,
    decreases s.len(),
{
    if s.len() > 0 {
        lemma_keep_recent_bound(s.drop_last(), cutoff);
        let rest = keep_recent(s.drop_last(), cutoff);
        if s.last().0 > cutoff {
            assert(forall|i: int|
                0 <= i < rest.len() ==> keep_recent(s, cutoff)[i] == #[trigger] rest[i]);
            assert(keep_recent(s, cutoff)[rest.len() as int] == s.last());
        }
    }
}

/// A purge is exactly a filter: it keeps, in order, precisely the entries
/// whose timestamp lies strictly inside the window.
pub proof fn lemma_keep_recent_is_filter(
    s: Seq<(i64, Seq<(u64, u64)>, Seq<(u64, u64)>)>,
    cutoff: int,
)
    ensures
        keep_recent(s, cutoff) == s.filter(
            |e: (i64, Seq<(u64, u64)>, Seq<(u64, u64)>)| e.0 > cutoff,
        ),
    decreases s.len(),
{
    reveal(Seq::filter);
    if s.len() > 0 {
        lemma_keep_recent_is_filter(s.drop_last(), cutoff);
    }
}

/// The parsed levels of one wire group, in arrival order: a level whose
/// price or size fails to parse is dropped, the rest stand.
pub open spec fn parsed_group(g: Seq<RawLevel>) -> Seq<(u64, u64)>
    decreases g.len(),
{
    if g.len() == 0 {
        Seq::empty()
    } else {
        let rest = parsed_group(g.drop_last());
        let l = g.last();
        if spec_parse_fixed(l.px@) is Some && spec_parse_fixed(l.sz@) is Some {
            rest.push((spec_parse_fixed(l.px@)->0, spec_parse_fixed(l.sz@)->0))
        } else {
            rest
        }
    }
}

/// Levels inserted one after another into an empty side, later entries
/// overwriting earlier ones at the same price.
pub open spec fn fold_insert(s: Seq<(u64, u64)>) -> Seq<(u64, u64)>
    decreases s.len(),
{
    if s.len() == 0 {
        Seq::empty()
    } else {
        spec_insert(fold_insert(s.drop_last()), s.last().0, s.last().1)
    }
}

/// A folded side is sorted by strictly ascending price.
pub proof fn lemma_fold_insert_sorted(s: Seq<(u64, u64)>)
    ensures
        price_sorted(fold_insert(s)),
    decreases s.len(),
{
    if s.len() > 0 {
        lemma_fold_insert_sorted(s.drop_last());
        lemma_insert_sorted(fold_insert(s.drop_last()), s.last().0, s.last().1);
    }
}

/// A folded side holds, at each price, the size of the last level of the
/// update at that price: later levels overwrite earlier ones, none merge.
pub proof fn lemma_fold_insert_lookup(s: Seq<(u64, u64)>, p: u64)
    ensures
        spec_lookup(fold_insert(s), p) == spec_lookup(s, p),
    decreases s.len(),
{
    if s.len() > 0 {
        lemma_fold_insert_lookup(s.drop_last(), p);
        lemma_fold_insert_sorted(s.drop_last());
        lemma_insert_lookup(fold_insert(s.drop_last()), s.last().0, s.last().1, p);
    }
}

/// The buy-side levels of an update: the parsed levels of group zero.
pub open spec fn buy_levels(gs: Seq<Vec<RawLevel>>) -> Seq<(u64, u64)> {
    if gs.len() == 0 {
        Seq::empty()
    } else {
        parsed_group(gs[0]@)
    }
}

/// The sell-side levels of an update: the parsed levels of every group
/// after the first, in order.
pub open spec fn sell_levels(gs: Seq<Vec<RawLevel>>) -> Seq<(u64, u64)>
    decreases gs.len(),
{
    if gs.len() <= 1 {
        Seq::empty()
    } else {
        sell_levels(gs.drop_last()) + parsed_group(gs.last()@)
    }
}

/// The buy side that an update leaves behind.
pub open spec fn spec_buy_book(gs: Seq<Vec<RawLevel>>) -> Seq<(u64, u64)> {
    fold_insert(buy_levels(gs))
}

/// The sell side that an update leaves behind.
pub open spec fn spec_sell_book(gs: Seq<Vec<RawLevel>>) -> Seq<(u64, u64)> {
    fold_insert(sell_levels(gs))
}

/// The current book and the sliding window of past snapshots.
pub struct OrderBookState {
    pub buy: PriceLevelMap,
    pub sell: PriceLevelMap,
    pub history: Vec<HistoryEntry>,
}

impl OrderBookState {
    /// Both sides are price-sorted, and every retained snapshot lies
    /// strictly inside the window ending at the newest entry.
    pub open spec fn wf(&self) -> bool {
        &&& self.buy.wf()
        &&& self.sell.wf()
        &&& self.history@.len() > 0 ==> forall|i: int|
            0 <= i < self.history@.len() ==> #[trigger] self.history@[i].ts
                > self.history@.last().ts - WINDOW_MS
    }

    /// A fresh state: empty book, empty history.
    pub fn new() -> (r: OrderBookState)
        ensures
            r.buy@ =~= Seq::<(u64, u64)>::empty(),
            r.sell@ =~= Seq::<(u64, u64)>::empty(),
            r.history@ =~= Seq::<HistoryEntry>::empty(),
            r.wf(),
    {
        OrderBookState {
            buy: PriceLevelMap::new(),
            sell: PriceLevelMap::new(),
            history: Vec::new(),
        }
    }

    /// Appends the current book to the history at `timestamp`, then purges
    /// every entry older than the window.
    pub fn update_history(&mut self, timestamp: i64)
        ensures
            final(self).buy@ == old(self).buy@,
            final(self).sell@ == old(self).sell@,
            final(self).buy == old(self).buy,
            final(self).sell == old(self).sell,
            hist_views(final(self).history@) == keep_recent(
                hist_views(old(self).history@).push((timestamp, old(self).buy@, old(self).sell@)),
                timestamp - WINDOW_MS,
            ),
            old(self).buy.wf() && old(self).sell.wf() ==> final(self).wf(),
    {
        let entry = HistoryEntry {
            ts: timestamp,
            buy: self.buy.duplicate(),
            sell: self.sell.duplicate(),
        };
        self.history.push(entry);
        let ghost p = self.history@;
        let ghost pv = hist_views(p);
        let ghost cutoff = timestamp - WINDOW_MS;
        proof {
            assert(pv =~= hist_views(old(self).history@).push(
                (timestamp, old(self).buy@, old(self).sell@),
            ));
        }
        let n = self.history.len();
        let mut kept: Vec<HistoryEntry> = Vec::new();
        let mut i: usize = 0;
        while i < n
            invariant
                0 <= i <= n,
                n == p.len(),
                self.history@ == p,
                pv == hist_views(p),
                cutoff == timestamp - WINDOW_MS,
                hist_views(kept@) == keep_recent(pv.take(i as int), cutoff),
                forall|j: int| 0 <= j < kept@.len() ==> #[trigger] kept@[j].ts > cutoff,
            decreases n - i,
        {
            proof {
                assert(pv.take(i as int + 1).drop_last() =~= pv.take(i as int));
                assert(pv.take(i as int + 1).last() == entry_view(p[i as int]));
            }
            let e = &self.history[i];
            let keep = (e.ts as i128) > (timestamp as i128) - (WINDOW_MS as i128);
            if keep {
                let copy = HistoryEntry {
                    ts: e.ts,
                    buy: e.buy.duplicate(),
                    sell: e.sell.duplicate(),
                };
                kept.push(copy);
                proof {
                    assert(hist_views(kept@) =~= keep_recent(pv.take(i as int + 1), cutoff));
                }
            } else {
                proof {
                    assert(hist_views(kept@) =~= keep_recent(pv.take(i as int + 1), cutoff));
                }
            }
            i = i + 1;
        }
        proof {
            assert(pv.take(n as int) =~= pv);
        }
        self.history = kept;
        proof {
            if old(self).buy.wf() && old(self).sell.wf() {
                lemma_keep_recent_bound(pv, cutoff);
                let h = self.history@;
                if h.len() > 0 {
                    // The newest entry survives the purge and is the last
                    // kept entry, so the window bound is exactly `cutoff`.
                    assert(pv.last().0 == timestamp);
                    assert(keep_recent(pv, cutoff) == keep_recent(pv.drop_last(), cutoff).push(
                        pv.last(),
                    ));
                    assert(hist_views(h).last() == entry_view(h.last()));
                    assert(h.last().ts == timestamp);
                    assert(forall|j: int|
                        0 <= j < h.len() ==> entry_view(#[trigger] h[j]) == hist_views(h)[j]);
                    assert(forall|j: int| 0 <= j < h.len() ==> #[trigger] h[j].ts > cutoff);
                }
            }
        }
    }

    /// Replaces both sides with the levels of `u` — wholesale, not a merge —
    /// then appends the new book to the history and purges the window.
    pub fn apply_update(&mut self, u: &UpdateRecord)
        ensures
            final(self).buy@ == spec_buy_book(u.levels@),
            final(self).sell@ == spec_sell_book(u.levels@),
            hist_views(final(self).history@) == keep_recent(
                hist_views(old(self).history@).push(
                    (u.time, spec_buy_book(u.levels@), spec_sell_book(u.levels@)),
                ),
                u.time - WINDOW_MS,
            ),
            final(self).wf(),
    {
        self.buy = PriceLevelMap::new();
        self.sell = PriceLevelMap::new();
        let ngroups = u.levels.len();
        let ghost gs = u.levels@;
        let mut gi: usize = 0;
        while gi < ngroups
            invariant
                0 <= gi <= ngroups,
                ngroups == gs.len(),
                gs == u.levels@,
                self.buy.wf(),
                self.sell.wf(),
                self.buy@ == fold_insert(buy_levels(gs.take(gi as int))),
                self.sell@ == fold_insert(sell_levels(gs.take(gi as int))),
                self.history == old(self).history,
            decreases ngroups - gi,
        {
            let g = &u.levels[gi];
            let m = g.len();
            let mut li: usize = 0;
            while li < m
                invariant
                    0 <= li <= m,
                    0 <= gi < ngroups,
                    ngroups == gs.len(),
                    gs == u.levels@,
                    m == gs[gi as int]@.len(),
                    g == u.levels@[gi as int],
                    self.buy.wf(),
                    self.sell.wf(),
                    gi == 0 ==> self.buy@ == fold_insert(parsed_group(gs[0]@.take(li as int))),
                    gi == 0 ==> self.sell@ == fold_insert(sell_levels(gs.take(0))),
                    gi >= 1 ==> self.buy@ == fold_insert(buy_levels(gs.take(gi as int))),
                    gi >= 1 ==> self.sell@ == fold_insert(
                        sell_levels(gs.take(gi as int)) + parsed_group(gs[gi as int]@.take(li as int)),
                    ),
                    self.history == old(self).history,
                decreases m - li,
            {
                let lvl = &g[li];
                let pr = parse_fixed(lvl.px.as_str());
                let sr = parse_fixed(lvl.sz.as_str());
                proof {
                    let t = gs[gi as int]@;
                    assert(t.take(li as int + 1).drop_last() =~= t.take(li as int));
                    assert(t.take(li as int + 1).last() == t[li as int]);
                }
                match (pr, sr) {
                    (Some(price), Some(size)) => {
                        if gi == 0 {
                            self.buy.insert(price, size);
                        } else {
                            self.sell.insert(price, size);
                        }
                    },
                    _ => {},
                }
                proof {
                    let t = gs[gi as int]@;
                    let c0 = parsed_group(t.take(li as int));
                    let c1 = parsed_group(t.take(li as int + 1));
                    let l = t[li as int];
                    if spec_parse_fixed(l.px@) is Some && spec_parse_fixed(l.sz@) is Some {
                        let pair = (spec_parse_fixed(l.px@)->0, spec_parse_fixed(l.sz@)->0);
                        assert(c1 == c0.push(pair));
                        assert(c0.push(pair).drop_last() =~= c0);
                        assert(c0.push(pair).last() == pair);
                        assert(fold_insert(c1) == spec_insert(fold_insert(c0), pair.0, pair.1));
                        if gi >= 1 {
                            let a = sell_levels(gs.take(gi as int));
                            assert((a + c1) =~= (a + c0).push(pair));
                            assert((a + c0).push(pair).drop_last() =~= (a + c0));
                            assert(fold_insert(a + c1) == spec_insert(
                                fold_insert(a + c0),
                                pair.0,
                                pair.1,
                            ));
                        }
                    } else {
                        assert(c1 == c0);
                    }
                }
                li = li + 1;
            }
            proof {
                assert(gs.take(gi as int + 1).drop_last() =~= gs.take(gi as int));
                assert(gs.take(gi as int + 1).last() == gs[gi as int]);
                if gi == 0 {
                    assert(gs[0]@.take(m as int) =~= gs[0]@);
                    assert(gs.take(1int)[0] == gs[0]);
                    assert(buy_levels(gs.take(1int)) == parsed_group(gs[0]@));
                    assert(sell_levels(gs.take(1int)) == sell_levels(gs.take(0int)));
                } else {
                    assert(gs.take(gi as int + 1)[0] == gs[0]);
                    assert(buy_levels(gs.take(gi as int + 1)) == buy_levels(gs.take(gi as int)));
                    assert(gs[gi as int]@.take(m as int) =~= gs[gi as int]@);
                    assert(sell_levels(gs.take(gi as int + 1)) == sell_levels(gs.take(gi as int))
                        + parsed_group(gs[gi as int]@));
                }
            }
            gi = gi + 1;
        }
        proof {
            assert(gs.take(ngroups as int) =~= gs);
            if ngroups == 0 {
                assert(buy_levels(gs) == Seq::<(u64, u64)>::empty());
                assert(sell_levels(gs) == Seq::<(u64, u64)>::empty());
            }
        }
        self.update_history(u.time);
    }
}

/// What one update leaves as the current sides, whatever held before: the
/// transition that `apply_update` is verified to make.
pub open spec fn book_step(
    prev: (Seq<(u64, u64)>, Seq<(u64, u64)>),
    u: UpdateRecord,
) -> (Seq<(u64, u64)>, Seq<(u64, u64)>) {
    (spec_buy_book(u.levels@), spec_sell_book(u.levels@))
}

/// The book after a sequence of updates applied in order, starting from any
/// prior sides.
pub open spec fn book_after(
    b0: Seq<(u64, u64)>,
    s0: Seq<(u64, u64)>,
    us: Seq<UpdateRecord>,
) -> (Seq<(u64, u64)>, Seq<(u64, u64)>)
    decreases us.len(),
{
    if us.len() == 0 {
        (b0, s0)
    } else {
        book_step(book_after(b0, s0, us.drop_last()), us.last())
    }
}

/// Wholesale replacement: after any nonempty sequence of valid updates
/// applied in order, the current buy and sell sides are exactly the levels
/// of the most recently applied update — a full replacement, never a merge
/// with what came before.
pub proof fn lemma_wholesale_replace(
    b0: Seq<(u64, u64)>,
    s0: Seq<(u64, u64)>,
    us: Seq<UpdateRecord>,
)
    requires
        us.len() > 0,
    ensures
        book_after(b0, s0, us).0 == spec_buy_book(us.last().levels@),
        book_after(b0, s0, us).1 == spec_sell_book(us.last().levels@),
{
}

} // verus!
