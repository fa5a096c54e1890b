//! The ordered store of initialized ticks, keyed by tick index.
use vstd::prelude::*;

verus! {

/// An initialized tick. `liquidity_net` is `None` while the bitmap says the
/// tick is initialized but its net liquidity has not been fetched yet.
#[derive(Clone, Copy, Debug, PartialEq, Eq)]
pub struct Tick {
    pub tick: i32,
    pub liquidity_net: Option<i128>,
}

/// Whether the ticks of `s` are strictly increasing.
pub open spec fn strictly_sorted(s: Seq<Tick>) -> bool {
    forall|i: int, j: int| 0 <= i < j < s.len() ==> s[i].tick < s[j].tick
}

/// Whether tick `k` is stored in `s`.
pub open spec fn holds(s: Seq<Tick>, k: int) -> bool {
    exists|i: int| 0 <= i < s.len() && s[i].tick == k
}

/// What `s` records for tick `k`: `None` when it is absent, else its net
/// liquidity (itself optional).
pub open spec fn entry(s: Seq<Tick>, k: int) -> Option<Option<i128>> {
    if holds(s, k) {
        let i = choose|i: int| 0 <= i < s.len() && s[i].tick == k;
        Some(s[i].liquidity_net)
    } else {
        None
    }
}

/// The entry for `k` after `t` is merged into a store whose entry is `e`: a
/// record with a known net liquidity always lands, one without lands only on
/// an absent tick.
pub open spec fn merge_entry(e: Option<Option<i128>>, t: Tick, k: int) -> Option<Option<i128>> {
    if k == t.tick && (t.liquidity_net is Some || e is None) {
        Some(t.liquidity_net)
    } else {
        e
    }
}

/// The entry for `k` after the records of `ts` are merged in order into a
/// store whose entry is `e`.
pub open spec fn merge_all(e: Option<Option<i128>>, ts: Seq<Tick>, k: int) -> Option<Option<i128>>
    decreases ts.len(),
{
    if ts.len() == 0 {
        e
    } else {
        merge_entry(merge_all(e, ts.drop_last(), k), ts.last(), k)
    }
}

/// A sorted store of ticks with no duplicate tick index; every tick is a
/// multiple of `tick_spacing`.
#[derive(Clone, Debug)]
pub struct Ticks {
    pub tick_spacing: i32,
    pub ticks: Vec<Tick>,
}

pub proof fn lemma_entry_at(s: Seq<Tick>, i: int)
    requires
        strictly_sorted(s),
        0 <= i < s.len(),
    ensures
        entry(s, s[i].tick as int) == Some(s[i].liquidity_net),
{
    let k = s[i].tick as int;
    assert(holds(s, k));
    let j = choose|j: int| 0 <= j < s.len() && s[j].tick == k;
    if j < i {
    } else if j > i {
    }
}

pub proof fn lemma_entry_insert(s: Seq<Tick>, i: int, t: Tick, k: int)
    requires
        strictly_sorted(s),
        0 <= i <= s.len(),
        forall|j: int| 0 <= j < i ==> s[j].tick < t.tick,
        forall|j: int| i <= j < s.len() ==> s[j].tick > t.tick,
    ensures
        strictly_sorted(s.insert(i, t)),
        entry(s.insert(i, t), k) == if k == t.tick {
            Some(t.liquidity_net)
        } else {
            entry(s, k)
        },
        !holds(s, t.tick as int),
{
    let n = s.insert(i, t);
    assert(n[i] == t);
    if k == t.tick {
        lemma_entry_at(n, i);
    } else {
        if holds(s, k) {
            let j = choose|j: int| 0 <= j < s.len() && s[j].tick == k;
            lemma_entry_at(s, j);
            if j < i {
                assert(n[j] == s[j]);
                lemma_entry_at(n, j);
            } else {
                assert(n[j + 1] == s[j]);
                lemma_entry_at(n, j + 1);
            }
        } else {
            if holds(n, k) {
                let j = choose|j: int| 0 <= j < n.len() && n[j].tick == k;
                if j < i {
                    assert(s[j].tick == k);
                } else if j > i {
                    assert(s[j - 1].tick == k);
                }
            }
        }
    }
}

pub proof fn lemma_entry_update(s: Seq<Tick>, i: int, t: Tick, k: int)
    requires
        strictly_sorted(s),
        0 <= i < s.len(),
        s[i].tick == t.tick,
    ensures
        strictly_sorted(s.update(i, t)),
        entry(s.update(i, t), k) == if k == t.tick {
            Some(t.liquidity_net)
        } else {
            entry(s, k)
        },
{
    let n = s.update(i, t);
    if k == t.tick {
        lemma_entry_at(n, i);
    } else {
        if holds(s, k) {
            let j = choose|j: int| 0 <= j < s.len() && s[j].tick == k;
            lemma_entry_at(s, j);
            assert(n[j] == s[j]);
            lemma_entry_at(n, j);
        } else {
            if holds(n, k) {
                let j = choose|j: int| 0 <= j < n.len() && n[j].tick == k;
                assert(s[j].tick == k);
            }
        }
    }
}

impl Ticks {
    pub open spec fn view(&self) -> Seq<Tick> {
        self.ticks@
    }

    /// Sorted, without duplicates, every tick a multiple of the spacing.
    pub open spec fn wf(&self) -> bool {
        &&& self.tick_spacing > 0
        &&& strictly_sorted(self@)
        &&& forall|i: int| 0 <= i < self@.len() ==> #[trigger] self@[i].tick % self.tick_spacing == 0
    }

    /// An empty store for ticks at multiples of `tick_spacing`.
    pub fn new(tick_spacing: i32) -> (r: Ticks)
        requires
            tick_spacing > 0,
        ensures
            r.wf(),
            r@.len() == 0,
            r.tick_spacing == tick_spacing,
    {
        Ticks { tick_spacing, ticks: Vec::new() }
    }

    pub fn len(&self) -> (r: usize)
        ensures
            r == self@.len(),
    {
        self.ticks.len()
    }

    pub fn get(&self, index: usize) -> (r: Option<Tick>)
        ensures
            index < self@.len() ==> r == Some(self@[index as int]),
            index >= self@.len() ==> r is None,
    {
        if index < self.ticks.len() {
            Some(self.ticks[index])
        } else {
            None
        }
    }

    /// Position of `tick`: `Ok(i)` where it is stored at `i`, else `Err(i)`
    /// with `i` the position where it would be inserted.
    pub fn get_tick_index(&self, tick: i32) -> (r: Result<usize, usize>)
        requires
            self.wf(),
        ensures
            match r {
                Ok(i) => i < self@.len() && self@[i as int].tick == tick,
                Err(i) => i <= self@.len() && (forall|j: int| 0 <= j < i ==> self@[j].tick < tick)
                    && (forall|j: int| i <= j < self@.len() ==> self@[j].tick > tick),
            },
    {
        let mut lo: usize = 0;
        let mut hi: usize = self.ticks.len();
        while lo < hi
            invariant
                self.wf(),
                lo <= hi <= self@.len(),
                forall|j: int| 0 <= j < lo ==> self@[j].tick < tick,
                forall|j: int| hi <= j < self@.len() ==> self@[j].tick > tick,
            decreases hi - lo,
        {
            let mid = lo + (hi - lo) / 2;
            let t = self.ticks[mid].tick;
            if t == tick {
                return Ok(mid);
            } else if t < tick {
                lo = mid + 1;
            } else {
                hi = mid;
            }
        }
        Err(lo)
    }

    /// Merges one record: a record with a known net liquidity replaces the
    /// stored one, a record without one is added only where the tick is absent.
    pub fn insert_one(&mut self, t: Tick)
        requires
            old(self).wf(),
            t.tick % old(self).tick_spacing == 0,
        ensures
            final(self).wf(),
            final(self).tick_spacing == old(self).tick_spacing,
            forall|k: int| #[trigger] entry(final(self)@, k) == merge_entry(entry(old(self)@, k), t, k),
    {
        match self.get_tick_index(t.tick) {
            Ok(i) => {
                proof {
                    lemma_entry_at(self@, i as int);
                }
                if t.liquidity_net.is_some() {
                    let ghost s = self@;
                    self.ticks.set(i, t);
                    proof {
                        assert forall|k: int| #[trigger] entry(self@, k) == merge_entry(entry(s, k), t, k) by {
                            lemma_entry_update(s, i as int, t, k);
                        }
                    }
                }
            },
            Err(i) => {
                let ghost s = self@;
                self.ticks.insert(i, t);
                proof {
                    assert forall|k: int| #[trigger] entry(self@, k) == merge_entry(entry(s, k), t, k) by {
                        lemma_entry_insert(s, i as int, t, k);
                        if k == t.tick {
                            assert(entry(s, k) is None);
                        }
                    }
                }
            },
        }
    }

    /// Merges `ticks` in order, keeping the store sorted and free of duplicates.
    pub fn insert_many(&mut self, ticks: Vec<Tick>)
        requires
            old(self).wf(),
            forall|i: int| 0 <= i < ticks@.len() ==> #[trigger] ticks@[i].tick % old(self).tick_spacing == 0,
        ensures
            final(self).wf(),
            final(self).tick_spacing == old(self).tick_spacing,
            forall|k: int| #[trigger] entry(final(self)@, k) == merge_all(entry(old(self)@, k), ticks@, k),
    {
        let ghost s0 = self@;
        let mut i: usize = 0;
        while i < ticks.len()
            invariant
                self.wf(),
                self.tick_spacing == old(self).tick_spacing,
                s0 == old(self)@,
                i <= ticks@.len(),
                forall|j: int| 0 <= j < ticks@.len() ==> #[trigger] ticks@[j].tick % old(self).tick_spacing == 0,
                forall|k: int| #[trigger] entry(self@, k) == merge_all(entry(s0, k), ticks@.take(i as int), k),
            decreases ticks@.len() - i,
        {
            let t = ticks[i];
            self.insert_one(t);
            proof {
                assert(ticks@.take(i + 1).drop_last() == ticks@.take(i as int));
                assert(ticks@.take(i + 1).last() == t);
            }
            i = i + 1;
        }
        proof {
            assert(ticks@.take(i as int) == ticks@);
        }
    }
}

/// After a merge a tick is stored exactly when it was stored before or one of
/// the merged records carries it.
pub proof fn lemma_merge_all_holds(e: Option<Option<i128>>, ts: Seq<Tick>, k: int)
    ensures
        merge_all(e, ts, k) is Some <==> (e is Some || exists|j: int| 0 <= j < ts.len() && ts[j].tick == k),
    decreases ts.len(),
{
    if ts.len() > 0 {
        let p = ts.drop_last();
        lemma_merge_all_holds(e, p, k);
        if exists|j: int| 0 <= j < p.len() && p[j].tick == k {
            let j = choose|j: int| 0 <= j < p.len() && p[j].tick == k;
            assert(ts[j] == p[j]);
        }
        if exists|j: int| 0 <= j < ts.len() && ts[j].tick == k {
            let j = choose|j: int| 0 <= j < ts.len() && ts[j].tick == k;
            if j < p.len() {
                assert(ts[j] == p[j]);
            }
        }
    }
}

/// Whether some record of `ts` carries tick `k` with a known net liquidity.
pub open spec fn known_in(ts: Seq<Tick>, k: int) -> bool {
    exists|j: int| 0 <= j < ts.len() && ts[j].tick == k && ts[j].liquidity_net is Some
}

/// Whether some record of `ts` carries tick `k`.
pub open spec fn any_in(ts: Seq<Tick>, k: int) -> bool {
    exists|j: int| 0 <= j < ts.len() && ts[j].tick == k
}

/// Where a merged batch knows the net liquidity of `k`, the prior entry does
/// not matter.
pub proof fn lemma_merge_known(e1: Option<Option<i128>>, e2: Option<Option<i128>>, ts: Seq<Tick>, k: int)
    requires
        known_in(ts, k),
    ensures
        merge_all(e1, ts, k) == merge_all(e2, ts, k),
    decreases ts.len(),
{
    let p = ts.drop_last();
    let t = ts.last();
    if !(t.tick == k && t.liquidity_net is Some) {
        let j = choose|j: int| 0 <= j < ts.len() && ts[j].tick == k && ts[j].liquidity_net is Some;
        assert(j < p.len());
        assert(p[j] == ts[j]);
        lemma_merge_known(e1, e2, p, k);
    }
}

/// Where a merged batch does not know the net liquidity of `k`, the entry
/// only changes from absent to present-but-unknown.
pub proof fn lemma_merge_unknown(e: Option<Option<i128>>, ts: Seq<Tick>, k: int)
    requires
        !known_in(ts, k),
    ensures
        merge_all(e, ts, k) == if e is None && any_in(ts, k) {
            Some(None::<i128>)
        } else {
            e
        },
    decreases ts.len(),
{
    if ts.len() > 0 {
        let p = ts.drop_last();
        assert forall|j: int| 0 <= j < p.len() implies p[j] == ts[j] by {}
        assert(!known_in(p, k)) by {
            if known_in(p, k) {
                let j = choose|j: int| 0 <= j < p.len() && p[j].tick == k && p[j].liquidity_net is Some;
                assert(ts[j] == p[j]);
            }
        }
        lemma_merge_unknown(e, p, k);
        if any_in(p, k) {
            let j = choose|j: int| 0 <= j < p.len() && p[j].tick == k;
            assert(ts[j] == p[j]);
        }
        if any_in(ts, k) && !any_in(p, k) {
            let j = choose|j: int| 0 <= j < ts.len() && ts[j].tick == k;
            assert(j == ts.len() - 1);
        }
    }
}

/// Merging the same records a second time leaves every entry as the first
/// merge left it: fetching the same ticks twice changes nothing more.
pub proof fn lemma_insert_many_idempotent(e: Option<Option<i128>>, ts: Seq<Tick>, k: int)
    ensures
        merge_all(merge_all(e, ts, k), ts, k) == merge_all(e, ts, k),
{
    if known_in(ts, k) {
        lemma_merge_known(merge_all(e, ts, k), e, ts, k);
    } else {
        lemma_merge_unknown(e, ts, k);
        lemma_merge_unknown(merge_all(e, ts, k), ts, k);
    }
}

/// Two sorted stores that record the same entry for every tick are equal.
pub proof fn lemma_same_entries_equal(a: Seq<Tick>, b: Seq<Tick>)
    requires
        strictly_sorted(a),
        strictly_sorted(b),
        forall|k: int| #[trigger] entry(a, k) == entry(b, k),
    ensures
        a == b,
    decreases a.len() + b.len(),
{
    if a.len() == 0 || b.len() == 0 {
        if a.len() > 0 {
            lemma_entry_at(a, 0);
            assert(entry(b, a[0].tick as int) is None);
        }
        if b.len() > 0 {
            lemma_entry_at(b, 0);
            assert(entry(a, b[0].tick as int) is None);
        }
        assert(a =~= b);
    } else {
        let x = a[0];
        let y = b[0];
        lemma_entry_at(a, 0);
        lemma_entry_at(b, 0);
        assert(holds(b, x.tick as int));
        let j = choose|j: int| 0 <= j < b.len() && b[j].tick == x.tick;
        assert(holds(a, y.tick as int));
        let i = choose|i: int| 0 <= i < a.len() && a[i].tick == y.tick;
        assert(x.tick <= y.tick) by {
            if i > 0 {
                assert(a[0].tick < a[i].tick);
            }
        }
        assert(y.tick <= x.tick) by {
            if j > 0 {
                assert(b[0].tick < b[j].tick);
            }
        }
        assert(x == y);
        let a1 = a.drop_first();
        let b1 = b.drop_first();
        assert forall|k: int| #[trigger] entry(a1, k) == entry(b1, k) by {
            if k == x.tick {
                if holds(a1, k) {
                    let q = choose|q: int| 0 <= q < a1.len() && a1[q].tick == k;
                    assert(a[q + 1].tick == k);
                }
                if holds(b1, k) {
                    let q = choose|q: int| 0 <= q < b1.len() && b1[q].tick == k;
                    assert(b[q + 1].tick == k);
                }
            } else {
                lemma_entry_drop_first(a, k);
                lemma_entry_drop_first(b, k);
            }
        }
        lemma_same_entries_equal(a1, b1);
        assert(a =~= seq![x] + a1);
        assert(b =~= seq![y] + b1);
    }
}

/// Dropping the first record of a sorted store leaves every other tick's
/// entry as it was.
proof fn lemma_entry_drop_first(a: Seq<Tick>, k: int)
    requires
        strictly_sorted(a),
        a.len() > 0,
        k != a[0].tick,
    ensures
        entry(a.drop_first(), k) == entry(a, k),
{
    let a1 = a.drop_first();
    assert(strictly_sorted(a1));
    if holds(a, k) {
        let q = choose|q: int| 0 <= q < a.len() && a[q].tick == k;
        lemma_entry_at(a, q);
        assert(q > 0);
        assert(a1[q - 1] == a[q]);
        lemma_entry_at(a1, q - 1);
    } else if holds(a1, k) {
        let q = choose|q: int| 0 <= q < a1.len() && a1[q].tick == k;
        assert(a[q + 1].tick == k);
    }
}

/// Merging the same batch into a store twice leaves it identical to a single
/// merge: fetching the same ticks again changes nothing.
pub proof fn lemma_store_idempotent(s0: Seq<Tick>, s1: Seq<Tick>, s2: Seq<Tick>, ts: Seq<Tick>)
    requires
        strictly_sorted(s1),
        strictly_sorted(s2),
        forall|k: int| #[trigger] entry(s1, k) == merge_all(entry(s0, k), ts, k),
        forall|k: int| #[trigger] entry(s2, k) == merge_all(entry(s1, k), ts, k),
    ensures
        s2 == s1,
{
    assert forall|k: int| #[trigger] entry(s2, k) == entry(s1, k) by {
        lemma_insert_many_idempotent(entry(s0, k), ts, k);
    }
    lemma_same_entries_equal(s2, s1);
}

} // verus!
