//! One side of an order book: an ordered map from price to size.
//!
//! Prices and sizes are fixed-point values in millionths.  The map is kept
//! as a vector of `(price, size)` pairs sorted by strictly ascending price,
//! so the best bid is the last entry of the buy side and the best ask the
//! first entry of the sell side.

use vstd::prelude::*;

verus! {

/// Whether the pairs of `s` are sorted by strictly ascending price.
pub open spec fn price_sorted(s: Seq<(u64, u64)>) -> bool {
    forall|i: int, j: int| 0 <= i < j < s.len() ==> #[trigger] s[i].0 < #[trigger] s[j].0
}

/// What inserting `(p, v)` into a price-sorted sequence yields: the entry at
/// price `p` is replaced when present, and placed in price order otherwise.
pub open spec fn spec_insert(s: Seq<(u64, u64)>, p: u64, v: u64) -> Seq<(u64, u64)>
    decreases s.len(),
{
    if s.len() == 0 {
        seq![(p, v)]
    } else if s.last().0 < p {
        s.push((p, v))
    } else if s.last().0 == p {
        s.drop_last().push((p, v))
    } else {
        spec_insert(s.drop_last(), p, v).push(s.last())
    }
}

/// The size stored at price `p`, if any.
pub open spec fn spec_lookup(s: Seq<(u64, u64)>, p: u64) -> Option<u64>
    decreases s.len(),
{
    if s.len() == 0 {
        None
    } else if s.last().0 == p {
        Some(s.last().1)
    } else {
        spec_lookup(s.drop_last(), p)
    }
}

/// Inserting keeps the price order.
pub proof fn lemma_insert_sorted(s: Seq<(u64, u64)>, p: u64, v: u64)
    requires
        price_sorted(s),
    ensures
        price_sorted(spec_insert(s, p, v)),
        s.len() <= spec_insert(s, p, v).len() <= s.len() + 1,
        forall|i: int|
            0 <= i < spec_insert(s, p, v).len() ==> (#[trigger] spec_insert(s, p, v)[i].0 == p
                || exists|j: int| 0 <= j < s.len() && spec_insert(s, p, v)[i] == #[trigger] s[j]),
    decreases s.len(),
{
    if s.len() == 0 {
    } else if s.last().0 < p {
        assert(forall|j: int| 0 <= j < s.len() ==> spec_insert(s, p, v)[j] == #[trigger] s[j]);
    } else if s.last().0 == p {
        assert(price_sorted(s.drop_last()));
        assert(forall|j: int|
            0 <= j < s.len() - 1 ==> spec_insert(s, p, v)[j] == #[trigger] s[j]);
    } else {
        assert(price_sorted(s.drop_last()));
        lemma_insert_sorted(s.drop_last(), p, v);
        let r = spec_insert(s.drop_last(), p, v);
        assert(forall|i: int|
            0 <= i < r.len() ==> (#[trigger] r[i].0 == p || r[i].0 < s.last().0));
    }
}

/// Inserting sets the size at `p` and leaves every other price unchanged.
pub proof fn lemma_insert_lookup(s: Seq<(u64, u64)>, p: u64, v: u64, q: u64)
    requires
        price_sorted(s),
    ensures
        spec_lookup(spec_insert(s, p, v), p) == Some(v),
        q != p ==> spec_lookup(spec_insert(s, p, v), q) == spec_lookup(s, q),
    decreases s.len(),
{
    if s.len() == 0 {
        assert(spec_insert(s, p, v) =~= seq![(p, v)]);
        assert(seq![(p, v)].drop_last() =~= s);
    } else if s.last().0 < p {
        assert(spec_insert(s, p, v).drop_last() =~= s);
        assert(spec_insert(s, p, v).last() == (p, v));
    } else if s.last().0 == p {
        assert(spec_insert(s, p, v).drop_last() =~= s.drop_last());
        assert(spec_insert(s, p, v).last() == (p, v));
        assert(price_sorted(s.drop_last()));
    } else {
        assert(price_sorted(s.drop_last()));
        lemma_insert_lookup(s.drop_last(), p, v, q);
        let r = spec_insert(s.drop_last(), p, v);
        assert(spec_insert(s, p, v).drop_last() =~= r);
        assert(spec_insert(s, p, v).last() == s.last());
        lemma_insert_sorted(s.drop_last(), p, v);
    }
}

/// A price above every key of a sorted sequence is absent from it.
proof fn lemma_lookup_above(s: Seq<(u64, u64)>, q: u64)
    requires
        price_sorted(s),
    ensures
        (forall|i: int| 0 <= i < s.len() ==> #[trigger] s[i].0 != q) ==> spec_lookup(s, q)
            is None,
    decreases s.len(),
{
    if s.len() > 0 {
        assert(price_sorted(s.drop_last()));
        lemma_lookup_above(s.drop_last(), q);
    }
}

/// One side of an order book, keyed by fixed-point price.
pub struct PriceLevelMap {
    entries: Vec<(u64, u64)>,
}

impl View for PriceLevelMap {
    type V = Seq<(u64, u64)>;

    closed spec fn view(&self) -> Seq<(u64, u64)> {
        self.entries@
    }
}

impl PriceLevelMap {
    /// The map keeps its entries sorted by strictly ascending price.
    pub open spec fn wf(&self) -> bool {
        price_sorted(self@)
    }

    /// An empty side.
    pub fn new() -> (r: PriceLevelMap)
        ensures
            r@ =~= Seq::<(u64, u64)>::empty(),
            r.wf(),
    {
        PriceLevelMap { entries: Vec::new() }
    }

    /// Number of distinct price levels.
    pub fn len(&self) -> (r: usize)
        ensures
            r == self@.len(),
    {
        self.entries.len()
    }

    /// The level at position `i`, in ascending price order.
    pub fn level_at(&self, i: usize) -> (r: (u64, u64))
        requires
            i < self@.len(),
        ensures
            r == self@[i as int],
    {
        self.entries[i]
    }

    /// Stores size `v` at price `p`, replacing any earlier size there.
    pub fn insert(&mut self, p: u64, v: u64)
        requires
            old(self).wf(),
        ensures
            final(self)@ == spec_insert(old(self)@, p, v),
            final(self).wf(),
    {
        let n = self.entries.len();
        let mut i: usize = n;
        while i > 0 && self.entries[i - 1].0 > p
            invariant
                0 <= i <= n,
                n == self.entries.len(),
                forall|j: int| i <= j < n ==> #[trigger] self.entries@[j].0 > p,
            decreases i,
        {
            i = i - 1;
        }
        proof {
            lemma_insert_at(self.entries@, p, v, i as int);
            lemma_insert_sorted(self.entries@, p, v);
        }
        if i > 0 && self.entries[i - 1].0 == p {
            self.entries.remove(i - 1);
            self.entries.insert(i - 1, (p, v));
            proof {
                assert(self.entries@ =~= spec_insert(old(self).entries@, p, v));
            }
        } else {
            self.entries.insert(i, (p, v));
            proof {
                assert(self.entries@ =~= spec_insert(old(self).entries@, p, v));
            }
        }
    }

    /// The size resting at price `p`, if that level is present.
    pub fn get(&self, p: u64) -> (r: Option<u64>)
        ensures
            r == spec_lookup(self@, p),
    {
        let n = self.entries.len();
        let mut i: usize = n;
        proof {
            assert(self.entries@.take(n as int) =~= self.entries@);
        }
        while i > 0
            invariant
                0 <= i <= n,
                n == self.entries.len(),
                spec_lookup(self.entries@, p) == spec_lookup(self.entries@.take(i as int), p),
            decreases i,
        {
            proof {
                assert(self.entries@.take(i as int).drop_last() =~= self.entries@.take(
                    i as int - 1,
                ));
            }
            if self.entries[i - 1].0 == p {
                return Some(self.entries[i - 1].1);
            }
            i = i - 1;
        }
        None
    }

    /// A copy with the same levels.
    pub fn duplicate(&self) -> (r: PriceLevelMap)
        ensures
            r@ == self@,
    {
        let n = self.entries.len();
        let mut v: Vec<(u64, u64)> = Vec::new();
        let mut i: usize = 0;
        while i < n
            invariant
                0 <= i <= n,
                n == self.entries.len(),
                v@ == self.entries@.take(i as int),
            decreases n - i,
        {
            v.push(self.entries[i]);
            proof {
                assert(self.entries@.take(i as int + 1) =~= self.entries@.take(i as int).push(
                    self.entries@[i as int],
                ));
            }
            i = i + 1;
        }
        proof {
            assert(self.entries@.take(n as int) =~= self.entries@);
        }
        PriceLevelMap { entries: v }
    }
}

/// When every entry from `i` on has a price above `p` and the one before `i`
/// does not, inserting lands exactly at `i`.
proof fn lemma_insert_at(s: Seq<(u64, u64)>, p: u64, v: u64, i: int)
    requires
        0 <= i <= s.len(),
        forall|j: int| i <= j < s.len() ==> #[trigger] s[j].0 > p,
        i > 0 ==> s[i - 1].0 <= p,
    ensures
        spec_insert(s, p, v) == if i > 0 && s[i - 1].0 == p {
            s.update(i - 1, (p, v))
        } else {
            s.take(i) + seq![(p, v)] + s.skip(i)
        },
    decreases s.len() - i,
{
    if i == s.len() {
        if s.len() == 0 {
            assert(spec_insert(s, p, v) =~= s.take(i) + seq![(p, v)] + s.skip(i));
        } else if s.last().0 < p {
            assert(spec_insert(s, p, v) =~= s.take(i) + seq![(p, v)] + s.skip(i));
        } else {
            assert(s.last().0 == p);
            assert(spec_insert(s, p, v) =~= s.update(i - 1, (p, v)));
        }
    } else {
        assert(s.last().0 > p);
        assert(forall|j: int| i <= j < s.len() - 1 ==> #[trigger] s.drop_last()[j].0 > p);
        lemma_insert_at(s.drop_last(), p, v, i);
        if i > 0 && s[i - 1].0 == p {
            assert(s.drop_last()[i - 1].0 == p);
            assert(spec_insert(s, p, v) =~= s.update(i - 1, (p, v)));
        } else {
            assert(spec_insert(s, p, v) =~= s.take(i) + seq![(p, v)] + s.skip(i));
        }
    }
}

} // verus!
