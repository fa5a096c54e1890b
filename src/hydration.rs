//! Lazy hydration of a pool during a swap. A swap that faults on a missing
//! bitmap word or an unfetched tick asks for the data, takes it in, and
//! resumes from the faulting state. The requests themselves (and the waits
//! between retry rounds) are carried out by the caller: each method takes
//! what came back and returns the next action.
use crate::bitmap::{extract_ticks_from_bitmap, normalize_tick, pos_of_tick, word_fits, word_ticks, BitMap};
use crate::engine::{
    final_of, retry, run_to_end, start_model, start_ok, trade, FetchError, TickError, TradeError, TradeState,
    V3State,
};
use crate::ticks::{entry, merge_all, Tick, Ticks};
use crate::wide::U256;
use vstd::prelude::*;

verus! {

/// Resume attempts allowed in one swap.
pub const MAX_RESUMES: u32 = 3;

/// Fetch rounds for the ticks of a freshly fetched word.
pub const WORD_TICK_TRIES: u32 = 3;

/// Fetch rounds for a single unavailable tick.
pub const SINGLE_TICK_TRIES: u32 = 2;

/// Seconds to wait between fetch rounds.
pub const BACKOFF_SECS: u64 = 10;

/// What the caller does next.
#[derive(Clone, Debug)]
pub enum Action {
    /// The swap is complete.
    Done(TradeState),
    /// The swap failed for good.
    Fail(TradeError),
    /// Fetch the bitmap word at this position and hand it to `on_word`.
    FetchWord(i16),
    /// Fetch the net liquidity of each tick and hand the results, in the same
    /// order, to `on_ticks`.
    FetchTicks(Vec<i32>),
    /// Wait this many seconds, then call `on_wake`.
    Wait(u64),
}

/// The progress of one hydrated swap.
#[derive(Clone, Debug)]
pub struct Hydration {
    /// The state the swap resumes from.
    pub resume: Option<TradeState>,
    /// Resume attempts made so far.
    pub attempts: u32,
    /// Ticks whose fetch is still outstanding.
    pub pending: Vec<i32>,
    /// Fetch rounds left for `pending`.
    pub tries_left: u32,
    /// The error of the last tick fetch that was given up.
    pub fetch_error: Option<FetchError>,
}

/// The error reported when the resume budget is spent on fault `f`: the last
/// given-up fetch, or else the fault itself.
pub open spec fn exhausted_error(fetch_error: Option<FetchError>, f: TickError) -> TradeError {
    match fetch_error {
        Some(e) => TradeError::Fetch(e),
        None => TradeError::Tick(f),
    }
}

/// The state carried by a tick fault.
pub open spec fn fault_state(f: TickError) -> TradeState {
    match f {
        TickError::Overflow(s) => s,
        TickError::Underflow(s) => s,
        TickError::Unavailable(s) => s,
    }
}

/// The records a fetch round adds: fetched ticks with their net liquidity.
pub open spec fn fetched_ticks(pending: Seq<i32>, results: Seq<Result<i128, FetchError>>) -> Seq<Tick>
    decreases pending.len(),
{
    if pending.len() == 0 || results.len() < pending.len() {
        Seq::empty()
    } else {
        let rest = fetched_ticks(pending.drop_last(), results.take(pending.len() - 1));
        match results[pending.len() - 1] {
            Ok(net) => rest.push(Tick { tick: pending.last(), liquidity_net: Some(net) }),
            Err(_) => rest,
        }
    }
}

/// The ticks whose fetch failed in a round.
pub open spec fn failed_ticks(pending: Seq<i32>, results: Seq<Result<i128, FetchError>>) -> Seq<i32>
    decreases pending.len(),
{
    if pending.len() == 0 || results.len() < pending.len() {
        Seq::empty()
    } else {
        let rest = failed_ticks(pending.drop_last(), results.take(pending.len() - 1));
        match results[pending.len() - 1] {
            Ok(_) => rest,
            Err(_) => rest.push(pending.last()),
        }
    }
}

/// Records for ticks given up on: known to be initialized, net unknown.
pub open spec fn unknown_ticks(ts: Seq<i32>) -> Seq<Tick> {
    ts.map_values(|t: i32| Tick { tick: t, liquidity_net: None })
}

/// Keeps the records whose tick is a multiple of `spacing`.
fn aligned(ticks: Vec<Tick>, spacing: i32) -> (r: Vec<Tick>)
    requires
        spacing > 0,
    ensures
        forall|i: int| 0 <= i < r@.len() ==> #[trigger] r@[i].tick % spacing == 0,
        r@ == ticks@.filter(|t: Tick| t.tick % spacing == 0),
{
    let mut r: Vec<Tick> = Vec::new();
    let mut i: usize = 0;
    while i < ticks.len()
        invariant
            spacing > 0,
            i <= ticks@.len(),
            forall|j: int| 0 <= j < r@.len() ==> #[trigger] r@[j].tick % spacing == 0,
            r@ == ticks@.take(i as int).filter(|t: Tick| t.tick % spacing == 0),
        decreases ticks@.len() - i,
    {
        let t = ticks[i];
        let q = normalize_tick(t.tick, spacing);
        proof {
            let qi = q as int;
            let si = spacing as int;
            let ti = t.tick as int;
            vstd::arithmetic::div_mod::lemma_fundamental_div_mod(ti, si);
            vstd::arithmetic::div_mod::lemma_mod_bound(ti, si);
            assert(si * qi == qi * si) by (nonlinear_arith);
            assert((qi * si == ti) == (ti % si == 0));
            assert(-0x8000_0000 <= qi <= 0x8000_0000);
            assert(-0x4000_0000_0000_0000 <= qi * si <= 0x4000_0000_0000_0000) by (nonlinear_arith)
                requires -0x8000_0000 <= qi <= 0x8000_0000, 0 < si <= 0x7fff_ffff;
        }
        if (q as i64) * (spacing as i64) == t.tick as i64 {
            r.push(t);
        }
        proof {
            assert(ticks@.take(i + 1).drop_last() == ticks@.take(i as int));
            assert(ticks@.take(i + 1).last() == t);
            reveal_with_fuel(Seq::filter, 1);
        }
        i = i + 1;
    }
    proof {
        assert(ticks@.take(i as int) == ticks@);
    }
    r
}

/// Whether `r` and the session `after` are the decision that session
/// `before` takes on engine result `result` in a pool of tick spacing
/// `spacing`.
pub open spec fn decided(
    before: Hydration,
    after: Hydration,
    spacing: int,
    result: Result<TradeState, TradeError>,
    r: Action,
) -> bool {
    match result {
        Ok(s) => r == Action::Done(s) && after == before,
        Err(TradeError::Tick(f)) => if before.attempts >= MAX_RESUMES {
            r == Action::Fail(exhausted_error(before.fetch_error, f))
        } else {
            &&& after.attempts == before.attempts + 1
            &&& after.resume == Some(fault_state(f))
            &&& match f {
                TickError::Overflow(s) => {
                    let pos = pos_of_tick(s.tick as int, spacing);
                    if pos < 0x7fff {
                        r == Action::FetchWord((pos + 1) as i16)
                    } else {
                        r == Action::Fail(TradeError::Tick(f))
                    }
                },
                TickError::Underflow(s) => {
                    let pos = pos_of_tick(s.tick as int, spacing);
                    if pos > -0x8000 {
                        r == Action::FetchWord((pos - 1) as i16)
                    } else {
                        r == Action::Fail(TradeError::Tick(f))
                    }
                },
                TickError::Unavailable(s) => {
                    &&& after.pending@ == seq![s.step.next_tick.tick]
                    &&& after.tries_left == SINGLE_TICK_TRIES
                    &&& r matches Action::FetchTicks(ts) && ts@ == seq![s.step.next_tick.tick]
                },
            }
        },
        Err(e) => r == Action::Fail(e) && after == before,
    }
}

/// Whether `r` and `after` are the decision on the swap resumed from the
/// state stored in `before`, on the ticks of `pool`.
pub open spec fn resumed(before: Hydration, after: Hydration, pool: V3State, r: Action) -> bool {
    match before.resume {
        Some(s) => exists|res: Result<TradeState, TradeError>|
            final_of(res) == run_to_end(s@, pool.ticks@) && #[trigger] decided(
                before,
                after,
                pool.ticks.tick_spacing as int,
                res,
                r,
            ),
        None => r is Fail,
    }
}

/// Whether `res` is what `trade` returns for this swap on `pool`.
pub open spec fn traded(pool: V3State, fee: u32, amount_in: U256, from0: bool, res: Result<TradeState, TradeError>) -> bool {
    &&& start_ok(amount_in.value() as int, fee as int, pool.x96price.value() as int) ==> final_of(res)
        == run_to_end(start_model(&pool, fee as int, amount_in.value() as int, from0), pool.ticks@)
    &&& !start_ok(amount_in.value() as int, fee as int, pool.x96price.value() as int) ==> res matches Err(
        TradeError::Math(_),
    )
}

impl Hydration {
    /// A session with no resume point, no attempt made and nothing pending.
    pub fn new() -> (r: Hydration)
        ensures
            r.resume is None,
            r.attempts == 0,
            r.pending@.len() == 0,
            r.tries_left == 0,
            r.fetch_error is None,
    {
        Hydration { resume: None, attempts: 0, pending: Vec::new(), tries_left: 0, fetch_error: None }
    }

    /// Starts the swap of `amount_in` at `fee` parts per million.
    pub fn begin(&mut self, pool: &V3State, fee: u32, amount_in: U256, from0: bool) -> (r: Action)
        requires
            pool.wf(),
        ensures
            exists|res: Result<TradeState, TradeError>|
                traded(*pool, fee, amount_in, from0, res) && #[trigger] decided(
                    *old(self),
                    *final(self),
                    pool.ticks.tick_spacing as int,
                    res,
                    r,
                ),
    {
        let first = trade(pool, fee, amount_in, from0);
        let ghost before = *self;
        let r = self.decide(pool, first);
        proof {
            assert(traded(*pool, fee, amount_in, from0, first));
            assert(decided(before, *self, pool.ticks.tick_spacing as int, first, r));
        }
        r
    }

    /// The next action after the engine returned `result`: done on success; a
    /// request for the missing data on a tick fault while resumes are left;
    /// the fault (or the last given-up fetch) once they are spent; any other
    /// error as it is.
    pub fn decide(&mut self, pool: &V3State, result: Result<TradeState, TradeError>) -> (r: Action)
        requires
            pool.wf(),
        ensures
            match result {
                Ok(s) => r == Action::Done(s) && *final(self) == *old(self),
                Err(TradeError::Tick(f)) => if old(self).attempts >= MAX_RESUMES {
                    r == Action::Fail(exhausted_error(old(self).fetch_error, f))
                } else {
                    &&& final(self).attempts == old(self).attempts + 1
                    &&& final(self).resume == Some(fault_state(f))
                    &&& match f {
                        TickError::Overflow(s) => {
                            let pos = pos_of_tick(s.tick as int, pool.ticks.tick_spacing as int);
                            if pos < 0x7fff {
                                r == Action::FetchWord((pos + 1) as i16)
                            } else {
                                r == Action::Fail(TradeError::Tick(f))
                            }
                        },
                        TickError::Underflow(s) => {
                            let pos = pos_of_tick(s.tick as int, pool.ticks.tick_spacing as int);
                            if pos > -0x8000 {
                                r == Action::FetchWord((pos - 1) as i16)
                            } else {
                                r == Action::Fail(TradeError::Tick(f))
                            }
                        },
                        TickError::Unavailable(s) => {
                            &&& final(self).pending@ == seq![s.step.next_tick.tick]
                            &&& final(self).tries_left == SINGLE_TICK_TRIES
                            &&& r matches Action::FetchTicks(ts) && ts@ == seq![s.step.next_tick.tick]
                        },
                    }
                },
                Err(e) => r == Action::Fail(e) && *final(self) == *old(self),
            },
    {
        match result {
            Ok(s) => Action::Done(s),
            Err(TradeError::Tick(f)) => {
                if self.attempts >= MAX_RESUMES {
                    let mut given_up: Option<FetchError> = None;
                    core::mem::swap(&mut given_up, &mut self.fetch_error);
                    return match given_up {
                        Some(e) => Action::Fail(TradeError::Fetch(e)),
                        None => Action::Fail(TradeError::Tick(f)),
                    };
                }
                self.attempts = self.attempts + 1;
                let spacing = pool.ticks.tick_spacing;
                match f {
                    TickError::Overflow(s) => {
                        self.resume = Some(s);
                        let pos = pool.bitmap.get_pos_from_tick(s.tick, spacing);
                        if pos < i16::MAX {
                            Action::FetchWord(pos + 1)
                        } else {
                            Action::Fail(TradeError::Tick(f))
                        }
                    },
                    TickError::Underflow(s) => {
                        self.resume = Some(s);
                        let pos = pool.bitmap.get_pos_from_tick(s.tick, spacing);
                        if pos > i16::MIN {
                            Action::FetchWord(pos - 1)
                        } else {
                            Action::Fail(TradeError::Tick(f))
                        }
                    },
                    TickError::Unavailable(s) => {
                        self.resume = Some(s);
                        self.pending = vec![s.step.next_tick.tick];
                        self.tries_left = SINGLE_TICK_TRIES;
                        Action::FetchTicks(vec![s.step.next_tick.tick])
                    },
                }
            },
            Err(e) => Action::Fail(e),
        }
    }

    /// Takes in the bitmap word fetched at `pos`: it is recorded, and the
    /// ticks it marks are requested. A failed fetch ends the swap.
    pub fn on_word(&mut self, pool: &mut V3State, pos: i16, word: Result<U256, FetchError>) -> (r: Action)
        requires
            old(pool).wf(),
        ensures
            final(pool).wf(),
            final(pool).ticks.tick_spacing == old(pool).ticks.tick_spacing,
            word is Err ==> r == Action::Fail(TradeError::Fetch(word->Err_0)) && *final(pool) == *old(pool),
            match word {
                Err(_) => true,
                Ok(w) => {
                    &&& final(pool).bitmap.word_at(pos as int) == Some(w)
                    &&& forall|p: int| -0x8000 <= p <= 0x7fff && p != pos ==> #[trigger] final(pool).bitmap.word_at(p)
                        == old(pool).bitmap.word_at(p)
                    &&& final(pool).ticks == old(pool).ticks
                    &&& if word_fits(pos as int, old(pool).ticks.tick_spacing as int) && word_ticks(
                        w.value(),
                        pos as int,
                        old(pool).ticks.tick_spacing as int,
                        256,
                    ).len() > 0 {
                        &&& final(self).pending@.map_values(|t: i32| t as int) == word_ticks(
                            w.value(),
                            pos as int,
                            old(pool).ticks.tick_spacing as int,
                            256,
                        )
                        &&& final(self).tries_left == WORD_TICK_TRIES
                        &&& r matches Action::FetchTicks(ts) && ts@ == final(self).pending@
                    } else {
                        resumed(*old(self), *final(self), *final(pool), r)
                    }
                },
            },
    {
        let w = match word {
            Ok(w) => w,
            Err(e) => return Action::Fail(TradeError::Fetch(e)),
        };
        let spacing = pool.ticks.tick_spacing;
        pool.bitmap.insert(pos, w, spacing);
        let p = pos as i64;
        let sp = spacing as i64;
        proof {
            assert(-0x8000 * 256 * 0x7fff_ffff <= p * 256 * sp <= 0x8000 * 256 * 0x7fff_ffff) by (nonlinear_arith)
                requires -0x8000 <= p <= 0x7fff, 0 < sp <= 0x7fff_ffff;
            assert(-0x8000 * 256 * 0x7fff_ffff <= (p * 256 + 255) * sp <= 0x8000 * 256 * 0x7fff_ffff) by (nonlinear_arith)
                requires -0x8000 <= p <= 0x7fff, 0 < sp <= 0x7fff_ffff;
        }
        if p * 256 * sp < -0x8000_0000 || (p * 256 + 255) * sp > 0x7fff_ffff {
            return self.resume_swap(pool);
        }
        let ticks = extract_ticks_from_bitmap(w, pos as i32, spacing);
        if ticks.len() == 0 {
            proof {
                assert(ticks@.map_values(|t: i32| t as int).len() == 0);
            }
            return self.resume_swap(pool);
        }
        self.pending = ticks.clone();
        proof {
            assert(self.pending@ == ticks@);
        }
        self.tries_left = WORD_TICK_TRIES;
        Action::FetchTicks(ticks)
    }

    /// The request to repeat after a wait.
    pub fn on_wake(&self) -> (r: Action)
        ensures
            r matches Action::FetchTicks(ts) && ts@ == self.pending@,
    {
        let ts = self.pending.clone();
        proof {
            assert(ts@ == self.pending@);
        }
        Action::FetchTicks(ts)
    }

    /// Takes in one round of tick fetches, `results[i]` answering
    /// `pending[i]`. Fetched ticks enter the pool; failed ones are asked again
    /// after a wait while rounds are left, and are otherwise recorded with an
    /// unknown net liquidity before the swap resumes.
    pub fn on_ticks(&mut self, pool: &mut V3State, results: Vec<Result<i128, FetchError>>) -> (r: Action)
        requires
            old(pool).wf(),
            results@.len() == old(self).pending@.len(),
        ensures
            final(pool).wf(),
            final(pool).bitmap == old(pool).bitmap,
            final(pool).ticks.tick_spacing == old(pool).ticks.tick_spacing,
            ({
                let fetched = fetched_ticks(old(self).pending@, results@);
                let failed = failed_ticks(old(self).pending@, results@);
                let aligned_fetched = fetched.filter(|t: Tick| t.tick % old(pool).ticks.tick_spacing == 0);
                let aligned_unknown = unknown_ticks(failed).filter(
                    |t: Tick| t.tick % old(pool).ticks.tick_spacing == 0,
                );
                if failed.len() > 0 && old(self).tries_left > 1 {
                    &&& r == Action::Wait(BACKOFF_SECS)
                    &&& final(self).pending@ == failed
                    &&& final(self).tries_left == old(self).tries_left - 1
                    &&& forall|k: int| #[trigger] entry(final(pool).ticks@, k) == merge_all(
                        entry(old(pool).ticks@, k),
                        aligned_fetched,
                        k,
                    )
                } else {
                    &&& forall|k: int| #[trigger] entry(final(pool).ticks@, k) == merge_all(
                        merge_all(entry(old(pool).ticks@, k), aligned_fetched, k),
                        aligned_unknown,
                        k,
                    )
                    &&& exists|mid: Hydration|
                        #[trigger] resumed(mid, *final(self), *final(pool), r) && mid.resume == old(self).resume
                            && mid.attempts == old(self).attempts && mid.pending@.len() == 0 && mid.tries_left == 0
                            && (failed.len() == 0 <==> mid.fetch_error is None)
                }
            }),
    {
        let spacing = pool.ticks.tick_spacing;
        let mut fetched: Vec<Tick> = Vec::new();
        let mut failed: Vec<i32> = Vec::new();
        let mut last_error: Option<FetchError> = None;
        let mut i: usize = 0;
        while i < results.len()
            invariant
                i <= results@.len(),
                results@.len() == self.pending@.len(),
                fetched@ == fetched_ticks(self.pending@.take(i as int), results@.take(i as int)),
                failed@ == failed_ticks(self.pending@.take(i as int), results@.take(i as int)),
                (failed@.len() == 0) == (last_error is None),
            decreases results@.len() - i,
        {
            let t = self.pending[i];
            proof {
                let p = self.pending@.take(i + 1);
                let q = results@.take(i + 1);
                assert(p.drop_last() == self.pending@.take(i as int));
                assert(q.take(p.len() - 1) == results@.take(i as int));
                assert(p.last() == t);
                assert(q[p.len() - 1] == results@[i as int]);
            }
            match &results[i] {
                Ok(net) => {
                    fetched.push(Tick { tick: t, liquidity_net: Some(*net) });
                },
                Err(e) => {
                    failed.push(t);
                    last_error = Some(e.clone());
                },
            }
            i = i + 1;
        }
        proof {
            assert(self.pending@.take(i as int) == self.pending@);
            assert(results@.take(i as int) == results@);
        }
        pool.ticks.insert_many(aligned(fetched, spacing));
        if failed.len() > 0 && self.tries_left > 1 {
            self.pending = failed;
            self.tries_left = self.tries_left - 1;
            return Action::Wait(BACKOFF_SECS);
        }
        let mut unknown: Vec<Tick> = Vec::new();
        let mut j: usize = 0;
        while j < failed.len()
            invariant
                j <= failed@.len(),
                unknown@ == unknown_ticks(failed@.take(j as int)),
            decreases failed@.len() - j,
        {
            unknown.push(Tick { tick: failed[j], liquidity_net: None });
            proof {
                assert(unknown_ticks(failed@.take(j + 1)) =~= unknown_ticks(failed@.take(j as int)).push(
                    Tick { tick: failed@[j as int], liquidity_net: None },
                ));
            }
            j = j + 1;
        }
        proof {
            assert(failed@.take(j as int) == failed@);
        }
        pool.ticks.insert_many(aligned(unknown, spacing));
        self.pending = Vec::new();
        self.tries_left = 0;
        self.fetch_error = last_error;
        let ghost mid = *self;
        let r = self.resume_swap(pool);
        proof {
            assert(resumed(mid, *self, *pool, r));
        }
        r
    }

    /// Resumes the swap from the stored state on the pool as it now is.
    fn resume_swap(&mut self, pool: &V3State) -> (r: Action)
        requires
            pool.wf(),
        ensures
            resumed(*old(self), *final(self), *pool, r),
    {
        match self.resume {
            Some(s) => {
                let result = retry(s, &pool.ticks);
                let ghost before = *self;
                let r = self.decide(pool, result);
                proof {
                    assert(decided(before, *self, pool.ticks.tick_spacing as int, result, r));
                }
                r
            },
            None => Action::Fail(TradeError::Fetch(FetchError { message: String::new() })),
        }
    }
}

} // verus!
