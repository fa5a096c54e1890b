//! The word-addressed bitmap of initialized ticks: bit `b` of the word at
//! position `p` marks the tick `(p * 256 + b) * tick_spacing`.
use crate::ticks::{entry, holds, lemma_merge_all_holds, Tick, Ticks};
use crate::wide::U256;
use vstd::arithmetic::power2::pow2;
use vstd::prelude::*;

verus! {

/// Number of word positions, one for each `i16`.
pub const WORD_SLOTS: usize = 65536;

/// Whether bit `b` of `w` is set.
pub open spec fn bit_set(w: nat, b: nat) -> bool {
    (w / pow2(b)) % 2 == 1
}

/// The ticks marked by the first `n` bits of word `w` at position `pos`, in
/// increasing bit order.
pub open spec fn word_ticks(w: nat, pos: int, spacing: int, n: nat) -> Seq<int>
    decreases n,
{
    if n == 0 {
        Seq::empty()
    } else {
        let prev = word_ticks(w, pos, spacing, (n - 1) as nat);
        if bit_set(w, (n - 1) as nat) {
            prev.push((pos * 256 + (n - 1)) * spacing)
        } else {
            prev
        }
    }
}

/// Whether every tick of word position `pos` fits in an `i32`.
pub open spec fn word_fits(pos: int, spacing: int) -> bool {
    &&& spacing > 0
    &&& -0x8000_0000 <= pos * 256 * spacing
    &&& (pos * 256 + 255) * spacing <= 0x7fff_ffff
}

/// `tick` divided by `tick_spacing`, rounded towards negative infinity.
pub fn normalize_tick(current_tick: i32, tick_spacing: i32) -> (r: i32)
    requires
        tick_spacing > 0,
    ensures
        r as int == current_tick as int / tick_spacing as int,
{
    let t = current_tick as i64;
    let s = tick_spacing as i64;
    let q = if t >= 0 {
        t / s
    } else {
        -((-t - 1) / s) - 1
    };
    proof {
        let ti = t as int;
        let si = s as int;
        if t < 0 {
            let a = (-ti - 1) / si;
            assert(-a - 1 == ti / si) by (nonlinear_arith)
                requires ti < 0, si > 0, a == (-ti - 1) / si;
        }
        assert(-0x8000_0000 <= ti / si <= ti || ti < 0) by (nonlinear_arith)
            requires si > 0, -0x8000_0000 <= ti;
        assert(ti / si >= -0x8000_0000) by (nonlinear_arith)
            requires si >= 1, -0x8000_0000 <= ti;
        assert(ti >= 0 ==> ti / si <= ti) by (nonlinear_arith)
            requires si >= 1;
        assert(ti < 0 ==> ti / si < 0) by (nonlinear_arith)
            requires si >= 1;
    }
    q as i32
}

/// The word position of a normalized tick: floored division by 256, clamped
/// to the `i16` range.
pub fn word_index(normalized_tick: i32) -> (r: i16)
    ensures
        r as int == if normalized_tick as int / 256 > 0x7fff {
            0x7fff
        } else if normalized_tick as int / 256 < -0x8000 {
            -0x8000
        } else {
            normalized_tick as int / 256
        },
{
    let q = normalize_tick(normalized_tick, 256);
    if q > 0x7fff {
        0x7fff
    } else if q < -0x8000 {
        -0x8000
    } else {
        q as i16
    }
}

/// The ticks that word `bitmap` at position `word_idx` marks as initialized,
/// in increasing order.
pub fn extract_ticks_from_bitmap(bitmap: U256, word_idx: i32, tick_spacing: i32) -> (r: Vec<i32>)
    requires
        word_fits(word_idx as int, tick_spacing as int),
    ensures
        r@.map_values(|t: i32| t as int) == word_ticks(bitmap.value(), word_idx as int, tick_spacing as int, 256),
{
    let mut ticks: Vec<i32> = Vec::new();
    if bitmap.is_zero() {
        proof {
            assert forall|n: nat| n <= 256 implies word_ticks(bitmap.value(), word_idx as int, tick_spacing as int, n) == Seq::<int>::empty() by {
                lemma_zero_word(word_idx as int, tick_spacing as int, n);
            }
            assert(ticks@.map_values(|t: i32| t as int) =~= Seq::<int>::empty());
        }
        return ticks;
    }
    let mut bit: usize = 0;
    while bit < 256
        invariant
            bit <= 256,
            word_fits(word_idx as int, tick_spacing as int),
            ticks@.map_values(|t: i32| t as int) == word_ticks(bitmap.value(), word_idx as int, tick_spacing as int, bit as nat),
        decreases 256 - bit,
    {
        if bitmap.bit(bit) {
            let ghost p = word_idx as int;
            let ghost s = tick_spacing as int;
            proof {
                assert(-0x8000_0000 <= (p * 256 + bit) * s <= 0x7fff_ffff) by (nonlinear_arith)
                    requires
                        s > 0,
                        0 <= bit < 256,
                        -0x8000_0000 <= p * 256 * s,
                        (p * 256 + 255) * s <= 0x7fff_ffff,
                ;
            }
            let normalized = (word_idx as i64) * 256 + bit as i64;
            proof {
                assert(-0x8000_0000 <= normalized * s <= 0x7fff_ffff);
            }
            let t = (normalized * tick_spacing as i64) as i32;
            let ghost before = ticks@;
            ticks.push(t);
            proof {
                assert(ticks@.map_values(|t: i32| t as int) =~= before.map_values(|t: i32| t as int).push(t as int));
            }
        }
        bit = bit + 1;
    }
    ticks
}

pub proof fn lemma_zero_word(pos: int, spacing: int, n: nat)
    ensures
        word_ticks(0, pos, spacing, n) == Seq::<int>::empty(),
    decreases n,
{
    if n > 0 {
        lemma_zero_word(pos, spacing, (n - 1) as nat);
        vstd::arithmetic::power2::lemma_pow2_pos((n - 1) as nat);
    }
}

/// `start` clamped to the bit range `[0, 255]`.
pub open spec fn clamp_bit(start: i16) -> int {
    if start < 0 {
        0
    } else if start > 255 {
        255
    } else {
        start as int
    }
}

/// The highest set bit of `word` strictly below `start` (clamped to
/// `[0, 255]`).
pub fn next_left(word: &U256, start: &i16) -> (r: Option<usize>)
    ensures
        match r {
            Some(i) => i < clamp_bit(*start) && bit_set(word.value(), i as nat) && forall|j: nat|
                i < j < clamp_bit(*start) ==> !bit_set(word.value(), j),
            None => forall|j: nat| j < clamp_bit(*start) ==> !bit_set(word.value(), j),
        },
{
    let mut idx: usize = if *start < 0 {
        0
    } else if *start > 255 {
        255
    } else {
        *start as usize
    };
    while idx > 0
        invariant
            idx <= clamp_bit(*start),
            forall|j: nat| idx <= j < clamp_bit(*start) ==> !bit_set(word.value(), j),
        decreases idx,
    {
        idx = idx - 1;
        if word.bit(idx) {
            return Some(idx);
        }
    }
    None
}

/// The lowest set bit of `word` strictly above `start` (clamped to
/// `[0, 255]`).
pub fn next_right(word: &U256, start: &i16) -> (r: Option<usize>)
    ensures
        match r {
            Some(i) => clamp_bit(*start) < i <= 255 && bit_set(word.value(), i as nat) && forall|j: nat|
                clamp_bit(*start) < j < i ==> !bit_set(word.value(), j),
            None => forall|j: nat| clamp_bit(*start) < j <= 255 ==> !bit_set(word.value(), j),
        },
{
    let mut idx: usize = if *start < 0 {
        0
    } else if *start > 255 {
        255
    } else {
        *start as usize
    };
    while idx < 255
        invariant
            clamp_bit(*start) <= idx <= 255,
            forall|j: nat| clamp_bit(*start) < j <= idx ==> !bit_set(word.value(), j),
        decreases 255 - idx,
    {
        idx = idx + 1;
        if word.bit(idx) {
            return Some(idx);
        }
    }
    None
}

/// The last word given for position `pos` among `words`, if any.
pub open spec fn last_word(words: Seq<(i16, U256)>, pos: int) -> Option<U256>
    decreases words.len(),
{
    if words.len() == 0 {
        None
    } else if words.last().0 == pos {
        Some(words.last().1)
    } else {
        last_word(words.drop_last(), pos)
    }
}

/// Bitmap words by position; `None` for a word never fetched.
#[derive(Clone, Debug)]
pub struct BitMap {
    pub bitmap: Vec<Option<U256>>,
}

impl BitMap {
    /// One slot per `i16` word position.
    pub open spec fn wf(&self) -> bool {
        self.bitmap@.len() == WORD_SLOTS
    }

    /// The word known at position `pos`.
    pub open spec fn word_at(&self, pos: int) -> Option<U256> {
        self.bitmap@[pos + 0x8000]
    }

    /// A bitmap holding `words`; where a position repeats, the last word wins.
    pub fn new(tick_spacing: i32, words: Vec<(i16, U256)>) -> (r: BitMap)
        ensures
            r.wf(),
            forall|pos: int| -0x8000 <= pos <= 0x7fff ==> #[trigger] r.word_at(pos) == last_word(words@, pos),
    {
        let mut bm: Vec<Option<U256>> = Vec::new();
        while bm.len() < WORD_SLOTS
            invariant
                bm@.len() <= WORD_SLOTS,
                forall|i: int| 0 <= i < bm@.len() ==> bm@[i] is None,
            decreases WORD_SLOTS - bm@.len(),
        {
            bm.push(None);
        }
        let mut map = BitMap { bitmap: bm };
        let mut i: usize = 0;
        while i < words.len()
            invariant
                map.wf(),
                i <= words@.len(),
                forall|pos: int| -0x8000 <= pos <= 0x7fff ==> #[trigger] map.word_at(pos) == last_word(words@.take(i as int), pos),
            decreases words@.len() - i,
        {
            let (pos, word) = words[i];
            map.insert(pos, word, tick_spacing);
            proof {
                assert(words@.take(i + 1).drop_last() == words@.take(i as int));
            }
            i = i + 1;
        }
        proof {
            assert(words@.take(i as int) == words@);
        }
        map
    }

    /// Slot of word position `word_pos`.
    pub fn pos_to_idx(word_pos: i16, _tick_spacing: i32) -> (r: usize)
        ensures
            r == word_pos + 0x8000,
            r < WORD_SLOTS,
    {
        (word_pos as i32 + 0x8000) as usize
    }

    /// The word at position `word_pos`, if it was fetched.
    pub fn get_word_from_pos(&self, word_pos: i16, tick_spacing: i32) -> (r: Option<U256>)
        requires
            self.wf(),
        ensures
            r == self.word_at(word_pos as int),
    {
        self.bitmap[Self::pos_to_idx(word_pos, tick_spacing)]
    }

    /// The word position holding `tick`.
    pub fn get_pos_from_tick(&self, tick: i32, tick_spacing: i32) -> (r: i16)
        requires
            tick_spacing > 0,
        ensures
            r == pos_of_tick(tick as int, tick_spacing as int),
    {
        word_index(normalize_tick(tick, tick_spacing))
    }

    /// The word holding `tick`, if it was fetched.
    pub fn get_word_from_tick(&self, tick: i32, tick_spacing: i32) -> (r: Option<U256>)
        requires
            self.wf(),
            tick_spacing > 0,
        ensures
            r == self.word_at(pos_of_tick(tick as int, tick_spacing as int)),
    {
        let word_pos = self.get_pos_from_tick(tick, tick_spacing);
        self.get_word_from_pos(word_pos, tick_spacing)
    }

    /// Records `word` at position `pos`; every other position is unchanged.
    pub fn insert(&mut self, pos: i16, word: U256, tick_spacing: i32)
        requires
            old(self).wf(),
        ensures
            final(self).wf(),
            final(self).word_at(pos as int) == Some(word),
            forall|p: int| -0x8000 <= p <= 0x7fff && p != pos ==> #[trigger] final(self).word_at(p) == old(self).word_at(p),
    {
        let idx = Self::pos_to_idx(pos, tick_spacing);
        self.bitmap.set(idx, Some(word));
    }
}

/// The word position of `tick`: its floored quotient by the spacing, then by
/// 256, clamped to the `i16` range.
pub open spec fn pos_of_tick(tick: int, spacing: int) -> int {
    let q = (tick / spacing) / 256;
    if q > 0x7fff {
        0x7fff
    } else if q < -0x8000 {
        -0x8000
    } else {
        q
    }
}

/// Every tick a word marks is a multiple of the spacing.
pub proof fn lemma_word_ticks_aligned(w: nat, pos: int, spacing: int, n: nat)
    requires
        spacing > 0,
    ensures
        forall|j: int| 0 <= j < word_ticks(w, pos, spacing, n).len() ==> #[trigger] word_ticks(w, pos, spacing, n)[j] % spacing == 0,
    decreases n,
{
    if n > 0 {
        lemma_word_ticks_aligned(w, pos, spacing, (n - 1) as nat);
        let k = pos * 256 + (n - 1);
        vstd::arithmetic::div_mod::lemma_mod_multiples_basic(k, spacing);
        assert((k * spacing) % spacing == 0);
        let prev = word_ticks(w, pos, spacing, (n - 1) as nat);
        if bit_set(w, (n - 1) as nat) {
            assert forall|j: int| 0 <= j < prev.push(k * spacing).len() implies #[trigger] prev.push(k * spacing)[j] % spacing == 0 by {
                if j < prev.len() {
                    assert(prev.push(k * spacing)[j] == prev[j]);
                }
            }
        }
    }
}

/// Whether one of `words` (word index, word) marks tick `k`.
pub open spec fn marked_by(words: Seq<(i32, U256)>, spacing: int, k: int) -> bool {
    exists|i: int, j: int|
        0 <= i < words.len() && 0 <= j < word_ticks(words[i].1.value(), words[i].0 as int, spacing, 256).len()
            && #[trigger] word_ticks(words[i].1.value(), words[i].0 as int, spacing, 256)[j] == k
}

/// All ticks marked by `words`, in increasing order and without repeats.
pub fn collect_ticks_from_map(word_map: &Vec<(i32, U256)>, tick_spacing: i32) -> (r: Vec<i32>)
    requires
        tick_spacing > 0,
        forall|i: int| 0 <= i < word_map@.len() ==> word_fits(#[trigger] word_map@[i].0 as int, tick_spacing as int),
    ensures
        forall|i: int, j: int| 0 <= i < j < r@.len() ==> r@[i] < r@[j],
        forall|k: int| (exists|i: int| 0 <= i < r@.len() && r@[i] == k) <==> marked_by(word_map@, tick_spacing as int, k),
{
    let mut store = Ticks::new(tick_spacing);
    let mut w: usize = 0;
    while w < word_map.len()
        invariant
            tick_spacing > 0,
            store.wf(),
            store.tick_spacing == tick_spacing,
            w <= word_map@.len(),
            forall|i: int| 0 <= i < word_map@.len() ==> word_fits(#[trigger] word_map@[i].0 as int, tick_spacing as int),
            forall|k: int| #[trigger] holds(store@, k) <==> marked_by(word_map@.take(w as int), tick_spacing as int, k),
        decreases word_map@.len() - w,
    {
        let (idx, word) = word_map[w];
        proof {
            assert(word_fits(word_map@[w as int].0 as int, tick_spacing as int));
        }
        let found = extract_ticks_from_bitmap(word, idx, tick_spacing);
        let ghost marks = word_ticks(word.value(), idx as int, tick_spacing as int, 256);
        proof {
            lemma_word_ticks_aligned(word.value(), idx as int, tick_spacing as int, 256);
            assert forall|j: int| 0 <= j < found@.len() implies found@[j] as int == marks[j] by {
                assert(found@.map_values(|t: i32| t as int)[j] == found@[j] as int);
            }
        }
        let mut records: Vec<Tick> = Vec::new();
        let mut j: usize = 0;
        while j < found.len()
            invariant
                j <= found@.len(),
                records@.len() == j,
                forall|q: int| 0 <= q < j ==> #[trigger] records@[q] == (Tick { tick: found@[q], liquidity_net: None }),
            decreases found@.len() - j,
        {
            records.push(Tick { tick: found[j], liquidity_net: None });
            j = j + 1;
        }
        let ghost before = store@;
        proof {
            assert forall|q: int| 0 <= q < records@.len() implies #[trigger] records@[q].tick % store.tick_spacing == 0 by {
                assert(records@[q].tick == found@[q]);
                assert(found@[q] as int == marks[q]);
            }
        }
        store.insert_many(records);
        proof {
            let taken = word_map@.take(w as int);
            let next = word_map@.take(w + 1);
            assert forall|k: int| #[trigger] holds(store@, k) <==> marked_by(next, tick_spacing as int, k) by {
                lemma_merge_all_holds(entry(before, k), records@, k);
                assert(holds(store@, k) == (entry(store@, k) is Some));
                assert(holds(before, k) == (entry(before, k) is Some));
                if marked_by(next, tick_spacing as int, k) {
                    let (i, q) = choose|i: int, q: int|
                        0 <= i < next.len() && 0 <= q < word_ticks(next[i].1.value(), next[i].0 as int, tick_spacing as int, 256).len()
                            && #[trigger] word_ticks(next[i].1.value(), next[i].0 as int, tick_spacing as int, 256)[q] == k;
                    if i < w {
                        assert(taken[i] == next[i]);
                        assert(marked_by(taken, tick_spacing as int, k));
                    } else {
                        assert(records@[q].tick == k);
                    }
                }
                if holds(store@, k) {
                    if holds(before, k) {
                        let (i, q) = choose|i: int, q: int|
                            0 <= i < taken.len() && 0 <= q < word_ticks(taken[i].1.value(), taken[i].0 as int, tick_spacing as int, 256).len()
                                && #[trigger] word_ticks(taken[i].1.value(), taken[i].0 as int, tick_spacing as int, 256)[q] == k;
                        assert(taken[i] == next[i]);
                    } else {
                        let q = choose|q: int| 0 <= q < records@.len() && records@[q].tick == k;
                        assert(next[w as int] == (idx, word));
                        assert(marks[q] == k);
                    }
                }
            }
        }
        w = w + 1;
    }
    proof {
        assert(word_map@.take(w as int) == word_map@);
    }
    let mut out: Vec<i32> = Vec::new();
    let mut i: usize = 0;
    while i < store.ticks.len()
        invariant
            store.wf(),
            i <= store@.len(),
            out@.len() == i,
            forall|q: int| 0 <= q < i ==> #[trigger] out@[q] == store@[q].tick,
            forall|k: int| #[trigger] holds(store@, k) <==> marked_by(word_map@, tick_spacing as int, k),
        decreases store@.len() - i,
    {
        out.push(store.ticks[i].tick);
        i = i + 1;
    }
    proof {
        assert forall|k: int| (exists|q: int| 0 <= q < out@.len() && out@[q] == k) <==> marked_by(word_map@, tick_spacing as int, k) by {
            assert(holds(store@, k) <==> marked_by(word_map@, tick_spacing as int, k));
            if exists|q: int| 0 <= q < out@.len() && out@[q] == k {
                let q = choose|q: int| 0 <= q < out@.len() && out@[q] == k;
                assert(store@[q].tick == k);
            }
            if holds(store@, k) {
                let q = choose|q: int| 0 <= q < store@.len() && store@[q].tick == k;
                assert(out@[q] == k);
            }
        }
    }
    out
}

/// Inserting word `w` at `pos` into a bitmap that already holds it there
/// (as after a first insertion of it) leaves the bitmap identical: fetching
/// the same word twice changes nothing.
pub proof fn lemma_word_idempotent(b1: BitMap, b2: BitMap, pos: i16, w: U256)
    requires
        b1.wf(),
        b2.wf(),
        b1.word_at(pos as int) == Some(w),
        b2.word_at(pos as int) == Some(w),
        forall|p: int| -0x8000 <= p <= 0x7fff && p != pos ==> #[trigger] b2.word_at(p) == b1.word_at(p),
    ensures
        b2.bitmap@ == b1.bitmap@,
{
    assert forall|i: int| 0 <= i < WORD_SLOTS implies b2.bitmap@[i] == b1.bitmap@[i] by {
        let p = i - 0x8000;
        if p != pos {
            assert(b2.word_at(p) == b1.word_at(p));
        }
    }
    assert(b2.bitmap@ =~= b1.bitmap@);
}

} // verus!
