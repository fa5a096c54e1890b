//! The concentrated-liquidity swap engine: one step selects the next
//! initialized tick, then either stops inside the range (partial cross) or
//! crosses the whole range and updates in-range liquidity (full cross). Every
//! recoverable fault carries the state to resume from.
use crate::bitmap::{normalize_tick, pos_of_tick, word_index, BitMap};
use crate::tick_math::{price_from_tick, sqrt_ratio_at, tick_at_sqrt_ratio, tick_from_price};
use crate::ticks::{strictly_sorted, Tick, Ticks};
use crate::wide::{modulus256, modulus512, U256, U512};
use crate::x96::{
    amount_possible_of, compute_amount_possible, compute_price_from0, compute_price_from1,
    cross_liquidity, crossed_liquidity, opt_value, price_from0_of, price_from1_of, q96, q96_u256,
    q96_u512,
};
use vstd::prelude::*;

verus! {

/// Per-step scratch of a swap.
#[derive(Clone, Copy, Debug)]
pub struct TradeStep {
    pub amount_possible: U256,
    pub next_tick: Tick,
    pub next_tick_index: usize,
    pub next_price: U256,
    pub delta: U256,
}

/// The working record of one swap; it is also the payload of every
/// recoverable fault, so that the swap can resume from it.
#[derive(Clone, Copy, Debug)]
pub struct TradeState {
    pub fee_amount: U256,
    pub amount_in: U256,
    pub amount_out: U256,
    pub liquidity: U256,
    pub x96price: U256,
    pub tick: i32,
    pub remaining: U256,
    pub from0: bool,
    pub step: TradeStep,
}

/// Why a bitmap word is not at hand: it was never fetched.
#[derive(Clone, Copy, Debug, PartialEq, Eq)]
pub enum WordError {
    NotTried,
}

/// Faults on missing tick data, recoverable by fetching it.
#[derive(Clone, Copy, Debug)]
pub enum TickError {
    Overflow(TradeState),
    Underflow(TradeState),
    Unavailable(TradeState),
}

/// An arithmetic fault: overflow or an invalid price differential.
#[derive(Clone, Copy, Debug)]
pub enum MathError {
    A(TradeState),
}

/// Why a data-source request failed.
#[derive(Clone, Debug, PartialEq, Eq)]
pub struct FetchError {
    pub message: String,
}

#[derive(Clone, Debug)]
pub enum TradeError {
    Tick(TickError),
    Fetch(FetchError),
    Math(MathError),
    V2,
}

impl From<TickError> for TradeError {
    fn from(value: TickError) -> (r: TradeError)
        ensures
            r == TradeError::Tick(value),
    {
        TradeError::Tick(value)
    }
}

impl vstd::std_specs::convert::FromSpecImpl<TickError> for TradeError {
    open spec fn obeys_from_spec() -> bool {
        true
    }

    open spec fn from_spec(v: TickError) -> TradeError {
        TradeError::Tick(v)
    }
}

impl From<MathError> for TradeError {
    fn from(value: MathError) -> (r: TradeError)
        ensures
            r == TradeError::Math(value),
    {
        TradeError::Math(value)
    }
}

impl vstd::std_specs::convert::FromSpecImpl<MathError> for TradeError {
    open spec fn obeys_from_spec() -> bool {
        true
    }

    open spec fn from_spec(v: MathError) -> TradeError {
        TradeError::Math(v)
    }
}

impl From<FetchError> for TradeError {
    fn from(value: FetchError) -> (r: TradeError)
        ensures
            r == TradeError::Fetch(value),
    {
        TradeError::Fetch(value)
    }
}

impl vstd::std_specs::convert::FromSpecImpl<FetchError> for TradeError {
    open spec fn obeys_from_spec() -> bool {
        true
    }

    open spec fn from_spec(v: FetchError) -> TradeError {
        TradeError::Fetch(v)
    }
}

/// Identity of a concentrated-liquidity pool of the pair-contract kind.
#[derive(Clone, Copy, Debug, PartialEq, Eq)]
pub struct V3Key {
    pub address: [u8; 20],
    pub token0: [u8; 20],
    pub token1: [u8; 20],
    pub fee: u32,
    pub tick_spacing: i32,
}

/// The state of a concentrated-liquidity pool.
#[derive(Clone, Debug)]
pub struct V3State {
    pub tick: i32,
    pub ticks: Ticks,
    pub bitmap: BitMap,
    pub liquidity: U256,
    pub x96price: U256,
}

/// `TradeStep` over plain integers.
pub struct StepModel {
    pub amount_possible: int,
    pub next_tick: Tick,
    pub next_tick_index: int,
    pub next_price: int,
    pub delta: int,
}

/// `TradeState` over plain integers.
pub struct TradeModel {
    pub fee_amount: int,
    pub amount_in: int,
    pub amount_out: int,
    pub liquidity: int,
    pub x96price: int,
    pub tick: int,
    pub remaining: int,
    pub from0: bool,
    pub step: StepModel,
}

/// How a stage of the engine ends: `Next` continues, `Done` ends the swap,
/// the others are faults carrying the state at the fault.
pub enum Outcome {
    Next(TradeModel),
    Done(TradeModel),
    Overflow(TradeModel),
    Underflow(TradeModel),
    Unavailable(TradeModel),
    Math(TradeModel),
    Other,
}

impl TradeStep {
    pub open spec fn view(&self) -> StepModel {
        StepModel {
            amount_possible: self.amount_possible.value() as int,
            next_tick: self.next_tick,
            next_tick_index: self.next_tick_index as int,
            next_price: self.next_price.value() as int,
            delta: self.delta.value() as int,
        }
    }

    /// Scratch with every field zero.
    pub fn empty() -> (r: TradeStep)
        ensures
            r@.amount_possible == 0 && r@.next_price == 0 && r@.delta == 0,
            r.next_tick_index == 0,
            r.next_tick == (Tick { tick: 0, liquidity_net: None }),
    {
        TradeStep {
            amount_possible: U256::zero(),
            next_tick: Tick { tick: 0, liquidity_net: None },
            next_tick_index: 0,
            next_price: U256::zero(),
            delta: U256::zero(),
        }
    }
}

impl TradeState {
    pub open spec fn view(&self) -> TradeModel {
        TradeModel {
            fee_amount: self.fee_amount.value() as int,
            amount_in: self.amount_in.value() as int,
            amount_out: self.amount_out.value() as int,
            liquidity: self.liquidity.value() as int,
            x96price: self.x96price.value() as int,
            tick: self.tick as int,
            remaining: self.remaining.value() as int,
            from0: self.from0,
            step: self.step@,
        }
    }
}

/// The outcome that an engine result stands for; `Ok` continues.
pub open spec fn outcome_of(r: Result<TradeState, TradeError>) -> Outcome {
    match r {
        Ok(s) => Outcome::Next(s@),
        Err(TradeError::Tick(TickError::Overflow(s))) => Outcome::Overflow(s@),
        Err(TradeError::Tick(TickError::Underflow(s))) => Outcome::Underflow(s@),
        Err(TradeError::Tick(TickError::Unavailable(s))) => Outcome::Unavailable(s@),
        Err(TradeError::Math(MathError::A(s))) => Outcome::Math(s@),
        _ => Outcome::Other,
    }
}

/// The outcome of a whole swap; `Ok` is its end.
pub open spec fn final_of(r: Result<TradeState, TradeError>) -> Outcome {
    match r {
        Ok(s) => Outcome::Done(s@),
        _ => outcome_of(r),
    }
}

/// Whether `i` splits sorted `s` into ticks below `t` and ticks at or above it.
pub open spec fn splits_below(s: Seq<Tick>, t: int, i: int) -> bool {
    &&& 0 <= i <= s.len()
    &&& forall|j: int| 0 <= j < i ==> s[j].tick < t
    &&& forall|j: int| i <= j < s.len() ==> s[j].tick >= t
}

/// Whether `i` splits sorted `s` into ticks at or below `t` and ticks above it.
pub open spec fn splits_upto(s: Seq<Tick>, t: int, i: int) -> bool {
    &&& 0 <= i <= s.len()
    &&& forall|j: int| 0 <= j < i ==> s[j].tick <= t
    &&& forall|j: int| i <= j < s.len() ==> s[j].tick > t
}

/// Index of the first stored tick at or above `t`.
pub open spec fn lower_pos(s: Seq<Tick>, t: int) -> int {
    choose|i: int| splits_below(s, t, i)
}

/// Index of the first stored tick above `t`.
pub open spec fn upper_pos(s: Seq<Tick>, t: int) -> int {
    choose|i: int| splits_upto(s, t, i)
}

pub proof fn lemma_split_unique_below(s: Seq<Tick>, t: int, i: int)
    requires
        splits_below(s, t, i),
    ensures
        lower_pos(s, t) == i,
{
    let k = lower_pos(s, t);
    assert(splits_below(s, t, k));
    if k < i {
        assert(s[k].tick >= t);
    } else if k > i {
        assert(s[i].tick >= t);
    }
}

pub proof fn lemma_split_unique_upto(s: Seq<Tick>, t: int, i: int)
    requires
        splits_upto(s, t, i),
    ensures
        upper_pos(s, t) == i,
{
    let k = upper_pos(s, t);
    assert(splits_upto(s, t, k));
    if k < i {
        assert(s[k].tick > t);
    } else if k > i {
        assert(s[i].tick > t);
    }
}

/// How many more full crosses the tick store allows from tick `t`.
pub open spec fn crosses_left(s: Seq<Tick>, t: int, from0: bool) -> int {
    if from0 {
        s.len() - upper_pos(s, t)
    } else {
        lower_pos(s, t)
    }
}

/// Step start: select the next tick (above when `from0`, else below), check
/// that its net liquidity is known, then price it and compute the input that
/// reaches it.
pub open spec fn start_outcome(m: TradeModel, s: Seq<Tick>) -> Outcome {
    let next = if m.from0 { upper_pos(s, m.tick) } else { lower_pos(s, m.tick) - 1 };
    if m.from0 && next >= s.len() {
        Outcome::Overflow(m)
    } else if !m.from0 && next < 0 {
        Outcome::Underflow(m)
    } else {
        let m1 = TradeModel {
            step: StepModel { next_tick: s[next], next_tick_index: next, ..m.step },
            ..m
        };
        if s[next].liquidity_net is None {
            Outcome::Unavailable(m1)
        } else {
            match sqrt_ratio_at(s[next].tick as int) {
                None => Outcome::Math(m1),
                Some(np) => {
                    let m2 = TradeModel { step: StepModel { next_price: np, ..m1.step }, ..m1 };
                    match amount_possible_of(m.from0, m.liquidity, m.x96price, np) {
                        None => Outcome::Math(m2),
                        Some(ap) => Outcome::Next(
                            TradeModel { step: StepModel { amount_possible: ap, ..m2.step }, ..m2 },
                        ),
                    }
                },
            }
        }
    }
}

/// 2^192, the numerator of a Q64.96 reciprocal.
pub open spec fn q192() -> int {
    q96() * q96()
}

/// Output of a partial cross from price `p` to `new` at liquidity `l`.
pub open spec fn partial_out(from0: bool, l: int, p: int, new: int) -> Option<int> {
    if from0 {
        if p < new {
            None
        } else {
            Some(l * (p - new) / q96())
        }
    } else {
        if p == 0 || new == 0 || q192() / p < q192() / new {
            None
        } else {
            Some(l * (q192() / p - q192() / new) / q96())
        }
    }
}

/// Partial cross: the remaining input moves the price inside the range; the
/// swap ends there.
pub open spec fn partial_outcome(m: TradeModel) -> Outcome {
    let new = if m.from0 {
        price_from0_of(m.remaining, m.liquidity, m.x96price, true)
    } else {
        price_from1_of(m.remaining, m.liquidity, m.x96price, true)
    };
    match new {
        None => Outcome::Math(m),
        Some(np) => match partial_out(m.from0, m.liquidity, m.x96price, np) {
            None => Outcome::Math(m),
            Some(d) => if d >= modulus256() as int || m.amount_out + d >= modulus256() as int {
                Outcome::Math(m)
            } else {
                Outcome::Next(TradeModel { amount_out: m.amount_out + d, remaining: 0, x96price: np, ..m })
            },
        },
    }
}

/// Output of a full cross from price `p` to `np` at liquidity `l`.
pub open spec fn full_out(from0: bool, l: int, p: int, np: int) -> Option<int> {
    let diff = if from0 { np - p } else { p - np };
    if diff < 0 || l * diff >= modulus256() as int {
        None
    } else {
        Some(l * diff / q96())
    }
}

/// Full cross: the step's whole range is crossed; the price moves to the
/// next tick, liquidity takes its net delta and the swap goes on from it.
pub open spec fn full_outcome(m: TradeModel) -> Outcome {
    match full_out(m.from0, m.liquidity, m.x96price, m.step.next_price) {
        None => Outcome::Math(m),
        Some(out) => if m.amount_out + out >= modulus256() as int {
            Outcome::Math(m)
        } else {
            Outcome::Next(
                TradeModel {
                    amount_out: m.amount_out + out,
                    liquidity: crossed_liquidity(
                        m.liquidity,
                        m.step.next_tick.liquidity_net.unwrap() as int,
                        m.from0,
                    ),
                    x96price: m.step.next_price,
                    remaining: m.remaining - m.step.amount_possible,
                    tick: m.step.next_tick.tick as int,
                    ..m
                },
            )
        },
    }
}

/// One iteration of the swap loop.
pub open spec fn step_outcome(m: TradeModel, s: Seq<Tick>) -> Outcome {
    match start_outcome(m, s) {
        Outcome::Next(m3) => if m3.remaining < m3.step.amount_possible {
            match partial_outcome(m3) {
                Outcome::Next(m4) => Outcome::Done(m4),
                other => other,
            }
        } else {
            full_outcome(m3)
        },
        other => other,
    }
}

/// The swap loop run from `m` for at most `fuel` iterations: it ends when no
/// input remains, on a partial cross, or on a fault.
pub open spec fn run(m: TradeModel, s: Seq<Tick>, fuel: nat) -> Outcome
    decreases fuel,
{
    if m.remaining <= 0 || fuel == 0 {
        Outcome::Done(m)
    } else {
        match step_outcome(m, s) {
            Outcome::Next(m2) => run(m2, s, (fuel - 1) as nat),
            other => other,
        }
    }
}

/// The swap loop run from `m` to its end.
pub open spec fn run_to_end(m: TradeModel, s: Seq<Tick>) -> Outcome {
    run(m, s, (crosses_left(s, m.tick, m.from0) + 1) as nat)
}

/// Selects the next initialized tick from the state's tick, prices it and
/// computes the input needed to reach it.
pub fn step_start(trade_state: TradeState, ticks: &Ticks) -> (r: Result<TradeState, TradeError>)
    requires
        ticks.wf(),
    ensures
        outcome_of(r) == start_outcome(trade_state@, ticks@),
{
    let mut trade_state = trade_state;
    let ghost s = ticks@;
    let ghost t = trade_state.tick as int;
    let next_index = match ticks.get_tick_index(trade_state.tick) {
        Ok(i) => {
            proof {
                assert(splits_upto(s, t, i + 1));
                assert(splits_below(s, t, i as int));
                lemma_split_unique_upto(s, t, i + 1);
                lemma_split_unique_below(s, t, i as int);
            }
            if trade_state.from0 {
                if i >= ticks.len() - 1 {
                    return Err(TradeError::Tick(TickError::Overflow(trade_state)));
                }
                i + 1
            } else {
                if i == 0 {
                    return Err(TradeError::Tick(TickError::Underflow(trade_state)));
                }
                i - 1
            }
        },
        Err(i) => {
            proof {
                assert(splits_upto(s, t, i as int));
                assert(splits_below(s, t, i as int));
                lemma_split_unique_upto(s, t, i as int);
                lemma_split_unique_below(s, t, i as int);
            }
            if trade_state.from0 {
                if i >= ticks.len() {
                    return Err(TradeError::Tick(TickError::Overflow(trade_state)));
                }
                i
            } else {
                if i == 0 {
                    return Err(TradeError::Tick(TickError::Underflow(trade_state)));
                }
                i - 1
            }
        },
    };
    trade_state.step.next_tick_index = next_index;
    trade_state.step.next_tick = ticks.ticks[next_index];
    if trade_state.step.next_tick.liquidity_net.is_none() {
        return Err(TradeError::Tick(TickError::Unavailable(trade_state)));
    }
    trade_state.step.next_price = match price_from_tick(trade_state.step.next_tick.tick) {
        Some(p) => p,
        None => return Err(TradeError::Math(MathError::A(trade_state))),
    };
    trade_state.step.amount_possible = match compute_amount_possible(
        trade_state.from0,
        &trade_state.liquidity,
        &trade_state.x96price,
        &trade_state.step.next_price,
    ) {
        Some(a) => a,
        None => return Err(TradeError::Math(MathError::A(trade_state))),
    };
    Ok(trade_state)
}

/// 2^192 as a 512-bit integer.
fn q192_u512() -> (r: U512)
    ensures
        r.value() == q192(),
{
    U512 { limbs: [0, 0, 0, 1, 0, 0, 0, 0] }
}

/// `a * b`, where both are below 2^256 so that the product fits in 512 bits.
fn mul_512(a: U512, b: U512) -> (r: U512)
    requires
        a.value() < modulus256(),
        b.value() < modulus256(),
    ensures
        r.value() == a.value() * b.value(),
{
    proof {
        let m = modulus256();
        assert(a.value() * b.value() < m * m) by (nonlinear_arith)
            requires a.value() < m, b.value() < m;
    }
    match a.checked_mul(b) {
        Some(x) => x,
        None => a,
    }
}

/// Partial cross: the remaining input moves the price without reaching the
/// next tick; the output between the two prices is added and the swap ends.
pub fn handle_non_crossing_step(trade_state: TradeState) -> (r: Result<TradeState, TradeError>)
    ensures
        outcome_of(r) == partial_outcome(trade_state@),
{
    let mut trade_state = trade_state;
    let new_price = if trade_state.from0 {
        compute_price_from0(&trade_state.remaining, &trade_state.liquidity, &trade_state.x96price, true)
    } else {
        compute_price_from1(&trade_state.remaining, &trade_state.liquidity, &trade_state.x96price, true)
    };
    let new_price = match new_price {
        Some(p) => p,
        None => return Err(TradeError::Math(MathError::A(trade_state))),
    };
    let cur = trade_state.x96price.widen();
    let liq = trade_state.liquidity.widen();
    let new = new_price.widen();
    proof {
        trade_state.x96price.lemma_bound();
        trade_state.liquidity.lemma_bound();
        new_price.lemma_bound();
    }
    let delta = if trade_state.from0 {
        let diff = match cur.checked_sub(new) {
            Some(d) => d,
            None => return Err(TradeError::Math(MathError::A(trade_state))),
        };
        match mul_512(liq, diff).checked_div(q96_u512()) {
            Some(d) => d,
            None => return Err(TradeError::Math(MathError::A(trade_state))),
        }
    } else {
        let inv_curr = match q192_u512().checked_div(cur) {
            Some(x) => x,
            None => return Err(TradeError::Math(MathError::A(trade_state))),
        };
        let inv_new = match q192_u512().checked_div(new) {
            Some(x) => x,
            None => return Err(TradeError::Math(MathError::A(trade_state))),
        };
        let diff = match inv_curr.checked_sub(inv_new) {
            Some(d) => d,
            None => return Err(TradeError::Math(MathError::A(trade_state))),
        };
        proof {
            assert(inv_curr.value() <= q192()) by (nonlinear_arith)
                requires inv_curr.value() == q192() / (cur.value() as int), cur.value() > 0, q192() > 0;
            assert(q192() < modulus256());
        }
        match mul_512(liq, diff).checked_div(q96_u512()) {
            Some(d) => d,
            None => return Err(TradeError::Math(MathError::A(trade_state))),
        }
    };
    let delta = match delta.narrow() {
        Some(d) => d,
        None => return Err(TradeError::Math(MathError::A(trade_state))),
    };
    trade_state.amount_out = match trade_state.amount_out.checked_add(delta) {
        Some(x) => x,
        None => return Err(TradeError::Math(MathError::A(trade_state))),
    };
    trade_state.remaining = U256::zero();
    trade_state.x96price = new_price;
    Ok(trade_state)
}

/// Full cross: the output of the whole range is added, liquidity takes the
/// crossed tick's net delta, and price and tick move to the crossed tick.
pub fn handle_crossing_step(trade_state: TradeState) -> (r: Result<TradeState, TradeError>)
    requires
        trade_state.step.next_tick.liquidity_net is Some,
        trade_state@.step.amount_possible <= trade_state@.remaining,
    ensures
        outcome_of(r) == full_outcome(trade_state@),
{
    let mut trade_state = trade_state;
    let diff = if trade_state.from0 {
        trade_state.step.next_price.checked_sub(trade_state.x96price)
    } else {
        trade_state.x96price.checked_sub(trade_state.step.next_price)
    };
    let diff = match diff {
        Some(d) => d,
        None => return Err(TradeError::Math(MathError::A(trade_state))),
    };
    let out_cross = match trade_state.liquidity.checked_mul(diff) {
        Some(x) => match x.checked_div(q96_u256()) {
            Some(y) => y,
            None => return Err(TradeError::Math(MathError::A(trade_state))),
        },
        None => return Err(TradeError::Math(MathError::A(trade_state))),
    };
    trade_state.amount_out = match trade_state.amount_out.checked_add(out_cross) {
        Some(x) => x,
        None => return Err(TradeError::Math(MathError::A(trade_state))),
    };
    let net = match trade_state.step.next_tick.liquidity_net {
        Some(n) => n,
        None => 0,
    };
    trade_state.liquidity = cross_liquidity(trade_state.liquidity, net, trade_state.from0);
    trade_state.x96price = trade_state.step.next_price;
    trade_state.remaining = match trade_state.remaining.checked_sub(trade_state.step.amount_possible) {
        Some(x) => x,
        None => return Err(TradeError::Math(MathError::A(trade_state))),
    };
    trade_state.tick = trade_state.step.next_tick.tick;
    Ok(trade_state)
}

pub proof fn lemma_splits_exist(s: Seq<Tick>, t: int)
    requires
        strictly_sorted(s),
    ensures
        splits_below(s, t, lower_pos(s, t)),
        splits_upto(s, t, upper_pos(s, t)),
        0 <= lower_pos(s, t) <= upper_pos(s, t) <= s.len(),
    decreases s.len(),
{
    if s.len() == 0 {
        assert(splits_below(s, t, 0));
        assert(splits_upto(s, t, 0));
    } else {
        let p = s.drop_last();
        assert(strictly_sorted(p));
        lemma_splits_exist(p, t);
        let lo = lower_pos(p, t);
        let up = upper_pos(p, t);
        let x = s.last().tick as int;
        assert forall|j: int| 0 <= j < p.len() implies p[j] == s[j] by {}
        if x < t {
            assert(splits_below(s, t, s.len() as int));
        } else {
            assert forall|j: int| lo <= j < s.len() implies s[j].tick >= t by {
                if j < p.len() {
                    assert(p[j] == s[j]);
                }
            }
            assert forall|j: int| 0 <= j < lo implies s[j].tick < t by {
                assert(p[j] == s[j]);
            }
            assert(splits_below(s, t, lo));
        }
        if x <= t {
            assert(splits_upto(s, t, s.len() as int));
        } else {
            assert forall|j: int| up <= j < s.len() implies s[j].tick > t by {
                if j < p.len() {
                    assert(p[j] == s[j]);
                }
            }
            assert forall|j: int| 0 <= j < up implies s[j].tick <= t by {
                assert(p[j] == s[j]);
            }
            assert(splits_upto(s, t, up));
        }
    }
    let lo = lower_pos(s, t);
    let up = upper_pos(s, t);
    if lo > up {
        assert(s[up].tick > t);
        assert(s[up].tick < t);
    }
}

/// A full cross uses up one of the ticks left in the swap's direction.
pub proof fn lemma_cross_progress(m: TradeModel, s: Seq<Tick>)
    requires
        strictly_sorted(s),
        m.remaining > 0,
        step_outcome(m, s) is Next,
    ensures
        ({
            let m2 = step_outcome(m, s)->Next_0;
            &&& crosses_left(s, m.tick, m.from0) >= 1
            &&& m2.from0 == m.from0
            &&& crosses_left(s, m2.tick, m2.from0) == crosses_left(s, m.tick, m.from0) - 1
            &&& run_to_end(m, s) == run_to_end(m2, s)
        }),
{
    lemma_splits_exist(s, m.tick);
    let m3 = start_outcome(m, s)->Next_0;
    let m2 = step_outcome(m, s)->Next_0;
    let next = m3.step.next_tick_index;
    assert(m2.tick == s[next].tick);
    if m.from0 {
        assert(splits_upto(s, s[next].tick as int, next + 1));
        lemma_split_unique_upto(s, s[next].tick as int, next + 1);
    } else {
        assert(splits_below(s, s[next].tick as int, next));
        lemma_split_unique_below(s, s[next].tick as int, next);
    }
    let c = crosses_left(s, m.tick, m.from0);
    assert(run((m), s, (c + 1) as nat) == run(m2, s, c as nat));
}

/// Runs the swap loop from `trade_state` (a fresh state, or the state
/// carried by a fault once the missing data has been fetched) to its end.
pub fn retry(trade_state: TradeState, ticks: &Ticks) -> (r: Result<TradeState, TradeError>)
    requires
        ticks.wf(),
    ensures
        final_of(r) == run_to_end(trade_state@, ticks@),
{
    let mut ts = trade_state;
    proof {
        lemma_splits_exist(ticks@, ts.tick as int);
    }
    while !ts.remaining.is_zero()
        invariant
            ticks.wf(),
            run_to_end(ts@, ticks@) == run_to_end(trade_state@, ticks@),
            crosses_left(ticks@, ts.tick as int, ts.from0) >= 0,
        decreases crosses_left(ticks@, ts.tick as int, ts.from0),
    {
        let ghost m = ts@;
        let ghost c = crosses_left(ticks@, ts.tick as int, ts.from0);
        assert(run_to_end(m, ticks@) == run(m, ticks@, (c + 1) as nat));
        let started = match step_start(ts, ticks) {
            Ok(x) => x,
            Err(e) => return Err(e),
        };
        if started.remaining.lt(&started.step.amount_possible) {
            let r = handle_non_crossing_step(started);
            return r;
        }
        let crossed = handle_crossing_step(started);
        ts = match crossed {
            Ok(x) => x,
            Err(e) => return Err(e),
        };
        proof {
            lemma_cross_progress(m, ticks@);
        }
    }
    Ok(ts)
}

impl V3State {
    pub open spec fn wf(&self) -> bool {
        &&& self.ticks.wf()
        &&& self.bitmap.wf()
    }

    /// An empty pool state for ticks at multiples of `tick_spacing`: tick,
    /// liquidity and price zero, no tick and no word known.
    pub fn default(tick_spacing: i32) -> (r: V3State)
        requires
            tick_spacing > 0,
        ensures
            r.wf(),
            r.tick == 0,
            r.ticks@.len() == 0,
            r.ticks.tick_spacing == tick_spacing,
            r.liquidity.value() == 0,
            r.x96price.value() == 0,
            forall|pos: int| -0x8000 <= pos <= 0x7fff ==> #[trigger] r.bitmap.word_at(pos) is None,
    {
        V3State {
            tick: 0,
            ticks: Ticks::new(tick_spacing),
            bitmap: BitMap::new(tick_spacing, Vec::new()),
            liquidity: U256::zero(),
            x96price: U256::zero(),
        }
    }
}

/// The bitmap word positions read when a pool is synchronised: the word
/// holding the tick of `x96price`, and its neighbours where they exist.
pub fn sync_word_positions(x96price: U256, tick_spacing: i32) -> (r: Option<Vec<i16>>)
    requires
        tick_spacing > 0,
    ensures
        tick_at_sqrt_ratio(x96price.value()) is None ==> r is None,
        tick_at_sqrt_ratio(x96price.value()) is Some ==> r is Some && ({
            let pos = pos_of_tick(tick_at_sqrt_ratio(x96price.value()).unwrap(), tick_spacing as int);
            let ps = r->Some_0@;
            &&& forall|i: int| 0 <= i < ps.len() ==> pos - 1 <= #[trigger] ps[i] <= pos + 1
            &&& forall|p: int| pos - 1 <= p <= pos + 1 && -0x8000 <= p <= 0x7fff ==> #[trigger] ps.contains(p as i16)
            &&& forall|i: int, j: int| 0 <= i < j < ps.len() ==> ps[i] < ps[j]
        }),
{
    let tick = match tick_from_price(x96price) {
        Some(t) => t,
        None => return None,
    };
    let pos = word_index(normalize_tick(tick, tick_spacing));
    let mut out: Vec<i16> = Vec::new();
    if pos > i16::MIN {
        out.push(pos - 1);
    }
    out.push(pos);
    if pos < i16::MAX {
        out.push(pos + 1);
    }
    proof {
        let ps = out@;
        assert forall|p: int| pos - 1 <= p <= pos + 1 && -0x8000 <= p <= 0x7fff implies #[trigger] ps.contains(p as i16) by {
            if p == pos - 1 {
                assert(ps[0] == p);
            } else if p == pos {
                if pos > i16::MIN {
                    assert(ps[1] == p);
                } else {
                    assert(ps[0] == p);
                }
            } else {
                assert(ps[ps.len() - 1] == p);
            }
        }
    }
    Some(out)
}

/// Parts per million in which a pool fee is given.
pub const FEE_DENOMINATOR: u128 = 1_000_000;

/// The fee kept from `amount_in` at `fee_ppm` parts per million, floored.
pub open spec fn fee_of(amount_in: int, fee_ppm: int) -> int {
    amount_in * fee_ppm / 1_000_000
}

/// Whether a swap of `amount_in` at `fee_ppm` from square-root price `price`
/// can start: the fee computation does not overflow, the fee does not exceed
/// the input, and the price has a tick.
pub open spec fn start_ok(amount_in: int, fee_ppm: int, price: int) -> bool {
    &&& amount_in * fee_ppm < modulus256() as int
    &&& fee_of(amount_in, fee_ppm) <= amount_in
    &&& tick_at_sqrt_ratio(price as nat) is Some
}

/// The state a swap starts from.
pub open spec fn start_model(pool: &V3State, fee_ppm: int, amount_in: int, from0: bool) -> TradeModel {
    TradeModel {
        fee_amount: fee_of(amount_in, fee_ppm),
        amount_in,
        amount_out: 0,
        liquidity: pool.liquidity.value() as int,
        x96price: pool.x96price.value() as int,
        tick: tick_at_sqrt_ratio(pool.x96price.value()).unwrap(),
        remaining: amount_in - fee_of(amount_in, fee_ppm),
        from0,
        step: StepModel {
            amount_possible: 0,
            next_tick: Tick { tick: 0, liquidity_net: None },
            next_tick_index: 0,
            next_price: 0,
            delta: 0,
        },
    }
}

/// Builds the initial state of a swap: the fee is taken from the input and
/// the current tick is derived from the pool's price.
pub fn trade_start(pool: &V3State, fee: u32, amount_in: U256, from0: bool) -> (r: Result<
    TradeState,
    TradeError,
>)
    ensures
        start_ok(amount_in.value() as int, fee as int, pool.x96price.value() as int) ==> (r is Ok
            && r->Ok_0@ == start_model(pool, fee as int, amount_in.value() as int, from0)),
        !start_ok(amount_in.value() as int, fee as int, pool.x96price.value() as int) ==> r matches Err(
            TradeError::Math(_),
        ),
{
    let mut trade_state = TradeState {
        fee_amount: U256::zero(),
        amount_in,
        amount_out: U256::zero(),
        liquidity: pool.liquidity,
        x96price: pool.x96price,
        tick: pool.tick,
        remaining: amount_in,
        from0,
        step: TradeStep::empty(),
    };
    let fee_amount = match amount_in.checked_mul(U256::from_u128(fee as u128)) {
        Some(x) => match x.checked_div(U256::from_u128(FEE_DENOMINATOR)) {
            Some(y) => y,
            None => return Err(TradeError::Math(MathError::A(trade_state))),
        },
        None => return Err(TradeError::Math(MathError::A(trade_state))),
    };
    trade_state.remaining = match amount_in.checked_sub(fee_amount) {
        Some(x) => x,
        None => return Err(TradeError::Math(MathError::A(trade_state))),
    };
    trade_state.fee_amount = fee_amount;
    trade_state.tick = match tick_from_price(pool.x96price) {
        Some(t) => t,
        None => return Err(TradeError::Math(MathError::A(trade_state))),
    };
    Ok(trade_state)
}

/// Exact-input swap of `amount_in` (token0 when `from0`, else token1) against
/// the pool at `fee` parts per million. On success the state holds the fee,
/// the output and the final price and liquidity; a `Tick` fault carries the
/// state to resume from with `retry` once the missing data is in the pool.
pub fn trade(pool: &V3State, fee: u32, amount_in: U256, from0: bool) -> (r: Result<
    TradeState,
    TradeError,
>)
    requires
        pool.wf(),
    ensures
        start_ok(amount_in.value() as int, fee as int, pool.x96price.value() as int) ==> final_of(r)
            == run_to_end(start_model(pool, fee as int, amount_in.value() as int, from0), pool.ticks@),
        !start_ok(amount_in.value() as int, fee as int, pool.x96price.value() as int) ==> r matches Err(
            TradeError::Math(_),
        ),
{
    let trade_state = match trade_start(pool, fee, amount_in, from0) {
        Ok(s) => s,
        Err(e) => return Err(e),
    };
    retry(trade_state, &pool.ticks)
}

/// The model a swap outcome carries.
pub open spec fn outcome_model(o: Outcome) -> Option<TradeModel> {
    match o {
        Outcome::Next(m) => Some(m),
        Outcome::Done(m) => Some(m),
        Outcome::Overflow(m) => Some(m),
        Outcome::Underflow(m) => Some(m),
        Outcome::Unavailable(m) => Some(m),
        Outcome::Math(m) => Some(m),
        Outcome::Other => None,
    }
}

/// Input bookkeeping between a state `m` and a later state `m2` of the same
/// swap: input and fee are unchanged and the remaining input only shrinks, so
/// `amount_in == fee_amount + remaining + consumed` with
/// `consumed = m.remaining - m2.remaining >= 0` spent on crossings.
pub open spec fn conserves(m: TradeModel, m2: TradeModel) -> bool {
    &&& valid(m2)
    &&& m2.amount_in == m.amount_in
    &&& m2.fee_amount == m.fee_amount
    &&& m2.from0 == m.from0
    &&& 0 <= m2.remaining <= m.remaining
    &&& m2.amount_out >= m.amount_out
}

/// The amounts of a model are non-negative, as those of any `TradeState` are.
pub open spec fn valid(m: TradeModel) -> bool {
    &&& m.liquidity >= 0
    &&& m.x96price >= 0
    &&& m.remaining >= 0
    &&& m.amount_out >= 0
}

pub proof fn lemma_sqrt_ratio_nonneg(t: int)
    ensures
        sqrt_ratio_at(t) matches Some(v) ==> v >= 0,
{
    let abs = if t < 0 { -t } else { t };
    if abs <= crate::tick_math::MAX_TICK {
        let acc = crate::tick_math::ratio_after(abs as u32, 19) as int;
        if !(t > 0 && acc == 0) {
            let p = if t > 0 { (modulus256() - 1) / acc } else { acc };
            assert(p >= 0) by (nonlinear_arith)
                requires p == (if t > 0 { (modulus256() - 1) / acc } else { acc }), acc >= 0, modulus256() > 0, t > 0 ==> acc > 0;
            assert(p / 0x1_0000_0000int >= 0) by (nonlinear_arith)
                requires p >= 0;
        }
    }
}

/// One step of the swap keeps the input bookkeeping.
pub proof fn lemma_step_conserves(m: TradeModel, s: Seq<Tick>)
    requires
        valid(m),
        m.remaining > 0,
    ensures
        outcome_model(step_outcome(m, s)) is Some,
        conserves(m, outcome_model(step_outcome(m, s))->Some_0),
{
    match start_outcome(m, s) {
        Outcome::Next(m3) => {
            lemma_sqrt_ratio_nonneg(m3.step.next_tick.tick as int);
            if m3.remaining < m3.step.amount_possible {
                match partial_outcome(m3) {
                    Outcome::Next(m4) => {
                        let np = if m3.from0 {
                            price_from0_of(m3.remaining, m3.liquidity, m3.x96price, true)
                        } else {
                            price_from1_of(m3.remaining, m3.liquidity, m3.x96price, true)
                        };
                        let d = partial_out(m3.from0, m3.liquidity, m3.x96price, np->Some_0)->Some_0;
                        if m3.from0 {
                            let ql = (m3.liquidity * q96()) % (modulus256() as int);
                            assert(ql >= 0);
                            assert(ql / m3.x96price >= 0) by (nonlinear_arith)
                                requires ql >= 0, m3.x96price > 0;
                            let den = ql / m3.x96price + m3.remaining;
                            assert(np->Some_0 == ql / den);
                            assert(ql / den >= 0) by (nonlinear_arith)
                                requires ql >= 0, den > 0;
                            assert(d >= 0) by (nonlinear_arith)
                                requires
                                    d == m3.liquidity * (m3.x96price - np->Some_0) / q96(),
                                    m3.liquidity >= 0,
                                    m3.x96price >= np->Some_0,
                            ;
                        } else {
                            let a = q192() / m3.x96price;
                            let b = q192() / np->Some_0;
                            assert(d >= 0) by (nonlinear_arith)
                                requires d == m3.liquidity * (a - b) / q96(), m3.liquidity >= 0, a >= b;
                        }
                    },
                    _ => {},
                }
            } else {
                match full_outcome(m3) {
                    Outcome::Next(m4) => {
                        let diff = if m3.from0 { m3.step.next_price - m3.x96price } else { m3.x96price - m3.step.next_price };
                        assert(m3.liquidity * diff / q96() >= 0) by (nonlinear_arith)
                            requires m3.liquidity >= 0, diff >= 0;
                        let ap = m3.step.amount_possible;
                        assert(ap >= 0) by {
                            let o = amount_possible_of(m.from0, m.liquidity, m.x96price, m3.step.next_price);
                            if m.from0 {
                                let n = m.liquidity * (m3.step.next_price - m.x96price) * q96();
                                assert(n >= 0) by (nonlinear_arith)
                                    requires
                                        n == m.liquidity * (m3.step.next_price - m.x96price) * q96(),
                                        m.liquidity >= 0,
                                        m3.step.next_price > m.x96price,
                                        q96() > 0,
                                ;
                                assert(n / (m.x96price * m3.step.next_price) >= 0) by (nonlinear_arith)
                                    requires n >= 0, m.x96price > 0, m3.step.next_price > m.x96price;
                            } else {
                                assert(m.liquidity * (m.x96price - m3.step.next_price) / q96() >= 0) by (nonlinear_arith)
                                    requires m.liquidity >= 0, m.x96price > m3.step.next_price;
                            }
                        }
                    },
                    _ => {},
                }
            }
        },
        _ => {},
    }
}

/// The whole swap loop keeps the input bookkeeping, whatever its outcome.
pub proof fn lemma_run_conserves(m: TradeModel, s: Seq<Tick>, fuel: nat)
    requires
        valid(m),
    ensures
        outcome_model(run(m, s, fuel)) is Some,
        conserves(m, outcome_model(run(m, s, fuel))->Some_0),
    decreases fuel,
{
    if m.remaining > 0 && fuel > 0 {
        lemma_step_conserves(m, s);
        match step_outcome(m, s) {
            Outcome::Next(m2) => {
                lemma_run_conserves(m2, s, (fuel - 1) as nat);
            },
            _ => {},
        }
    }
}

} // verus!
