use uni_sim::bitmap::BitMap;
use uni_sim::engine::{trade, FetchError, MathError, V3State, TickError, TradeError, TradeState};
use uni_sim::hydration::{Action, Hydration, BACKOFF_SECS};
use uni_sim::ticks::{Tick, Ticks};
use uni_sim::v2::V2State;
use uni_sim::wide::U256;
use uni_sim::x96::compute_price_from0;

fn u(x: u128) -> U256 {
    U256::from_u128(x)
}

fn big(s: &str) -> U256 {
    U256 { limbs: alloy::primitives::U256::from_str_radix(s, 10).unwrap().into_limbs() }
}

fn pow2(n: usize) -> U256 {
    U256 { limbs: (alloy::primitives::U256::from(1u8) << n).into_limbs() }
}

fn pool(liquidity: U256, spacing: i32, ticks: Vec<Tick>) -> V3State {
    let mut store = Ticks::new(spacing);
    store.insert_many(ticks);
    V3State { tick: 0, ticks: store, bitmap: BitMap::new(spacing, vec![]), liquidity, x96price: pow2(96) }
}

/// A data source for tests: a fixed set of words and tick nets, or one that
/// always fails.
struct Source {
    words: Vec<(i16, U256)>,
    nets: Vec<(i32, i128)>,
    fail: bool,
    word_calls: Vec<i16>,
    tick_calls: usize,
    waits: usize,
}

impl Source {
    fn word(&mut self, pos: i16) -> Result<U256, FetchError> {
        self.word_calls.push(pos);
        if self.fail {
            return Err(FetchError { message: "unreachable node".to_string() });
        }
        Ok(self.words.iter().find(|w| w.0 == pos).map(|w| w.1).unwrap_or(U256::zero()))
    }

    fn tick(&mut self, t: i32) -> Result<i128, FetchError> {
        self.tick_calls += 1;
        if self.fail {
            return Err(FetchError { message: "unreachable node".to_string() });
        }
        match self.nets.iter().find(|n| n.0 == t) {
            Some(n) => Ok(n.1),
            None => Err(FetchError { message: "no such tick".to_string() }),
        }
    }
}

fn drive(pool: &mut V3State, src: &mut Source, fee: u32, amount_in: U256, from0: bool) -> Result<TradeState, TradeError> {
    let mut h = Hydration::new();
    let mut action = h.begin(pool, fee, amount_in, from0);
    loop {
        action = match action {
            Action::Done(s) => return Ok(s),
            Action::Fail(e) => return Err(e),
            Action::FetchWord(pos) => {
                let w = src.word(pos);
                h.on_word(pool, pos, w)
            }
            Action::FetchTicks(ts) => {
                let results: Vec<Result<i128, FetchError>> = ts.iter().map(|t| src.tick(*t)).collect();
                h.on_ticks(pool, results)
            }
            Action::Wait(secs) => {
                assert_eq!(secs, BACKOFF_SECS);
                src.waits += 1;
                h.on_wake()
            }
        };
    }
}

fn s1_pool(net: Option<i128>) -> V3State {
    pool(u(1_000_000_000_000_000_000), 60, vec![Tick { tick: 60, liquidity_net: net }])
}

#[test]
fn partial_cross_from0() {
    let p = s1_pool(Some(0));
    let s = trade(&p, 3000, u(1_000_000_000_000_000), true).unwrap();
    assert_eq!(s.fee_amount, u(3_000_000_000_000));
    assert_eq!(s.remaining, U256::zero());
    let new = compute_price_from0(&u(997_000_000_000_000), &u(1_000_000_000_000_000_000), &pow2(96), true).unwrap();
    assert_eq!(s.x96price, new);
    assert_eq!(new, big("79149250711305166342700278158"));
    assert!(s.x96price.to_u128().unwrap() < 1u128 << 96);
    assert_eq!(s.amount_out, u(996_006_981_039_903));
    assert_eq!(s.liquidity, u(1_000_000_000_000_000_000));
}

#[test]
fn unavailable_tick_is_hydrated() {
    let mut p = s1_pool(None);
    let first = trade(&p, 3000, u(1_000_000_000_000_000), true);
    assert!(matches!(first, Err(TradeError::Tick(TickError::Unavailable(_)))));
    let mut src = Source { words: vec![], nets: vec![(60, 0)], fail: false, word_calls: vec![], tick_calls: 0, waits: 0 };
    let s = drive(&mut p, &mut src, 3000, u(1_000_000_000_000_000), true).unwrap();
    let expected = trade(&s1_pool(Some(0)), 3000, u(1_000_000_000_000_000), true).unwrap();
    assert_eq!(s.amount_out, expected.amount_out);
    assert_eq!(s.x96price, expected.x96price);
    assert_eq!(s.fee_amount, expected.fee_amount);
    assert_eq!(src.tick_calls, 1);
    assert_eq!(p.ticks.get(0), Some(Tick { tick: 60, liquidity_net: Some(0) }));
}

#[test]
fn overflow_fetches_next_word() {
    let mut p = s1_pool(Some(0));
    let first = trade(&p, 3000, u(10_000_000_000_000_000), true);
    match first {
        Err(TradeError::Tick(TickError::Overflow(s))) => {
            assert_eq!(s.tick, 60);
            assert_eq!(s.remaining, u(6_974_645_044_089_220));
            assert_eq!(s.amount_out, u(3_004_354_062_741_925));
            // input = fee + remaining + what the crossing of tick 60 consumed
            assert_eq!(30_000_000_000_000u128 + 6_974_645_044_089_220 + 2_995_354_955_910_780, 10_000_000_000_000_000);
            assert_eq!(s.fee_amount, u(30_000_000_000_000));
        }
        _ => panic!("expected an overflow fault"),
    }
    // word 1 at spacing 60 marks tick (256 + 0) * 60
    let mut src = Source { words: vec![(1, u(1))], nets: vec![(15360, 0)], fail: false, word_calls: vec![], tick_calls: 0, waits: 0 };
    let s = drive(&mut p, &mut src, 3000, u(10_000_000_000_000_000), true).unwrap();
    assert_eq!(src.word_calls, vec![1]);
    assert_eq!(s.remaining, U256::zero());
    assert_eq!(s.amount_out, u(9_972_226_225_373_084));
    assert_eq!(s.x96price, big("78914140258118085175398429291"));
    assert_eq!(p.bitmap.get_word_from_pos(1, 60), Some(u(1)));
    assert_eq!(p.ticks.len(), 2);
}

#[test]
fn constant_product_trade() {
    let st = V2State { reserves0: u(1_000_000_000_000_000_000_000), reserves1: u(2_000_000_000_000_000_000_000) };
    let t = st.trade(u(1_000_000_000_000_000_000), 3000, true).unwrap();
    assert_eq!(t.fee_amount, u(3_000_000_000_000_000));
    let net: u128 = 997_000_000_000_000_000;
    let a = alloy::primitives::U256::from(net);
    let e = a * alloy::primitives::U256::from(2_000_000_000_000_000_000_000u128)
        / (alloy::primitives::U256::from(1_000_000_000_000_000_000_000u128) + a);
    let expected: u128 = e.to::<u128>();
    assert_eq!(t.amount_out, u(expected));
    assert_eq!(t.amount_out, u(1_992_013_962_079_806_432));
    assert_eq!(t.new_reserves0, u(1_000_000_000_000_000_000_000 + net));
    assert_eq!(t.new_reserves1, u(2_000_000_000_000_000_000_000 - expected));
}

#[test]
fn math_overflow_leaves_pool_unchanged() {
    let p = pool(pow2(255), 60, vec![Tick { tick: 60, liquidity_net: Some(0) }]);
    let r = trade(&p, 0, pow2(250), true);
    assert!(matches!(r, Err(TradeError::Math(MathError::A(_)))));
    assert_eq!(p.liquidity, pow2(255));
    assert_eq!(p.x96price, pow2(96));
    assert_eq!(p.ticks.get(0), Some(Tick { tick: 60, liquidity_net: Some(0) }));
}

#[test]
fn fetch_exhaustion_returns_fetch_error() {
    let mut p = s1_pool(None);
    let mut src = Source { words: vec![], nets: vec![], fail: true, word_calls: vec![], tick_calls: 0, waits: 0 };
    let r = drive(&mut p, &mut src, 3000, u(1_000_000_000_000_000), true);
    match r {
        Err(TradeError::Fetch(e)) => assert_eq!(e.message, "unreachable node"),
        _ => panic!("expected a fetch error"),
    }
    // three hydrations of two rounds each
    assert_eq!(src.tick_calls, 6);
    assert_eq!(src.waits, 3);
    assert_eq!(p.ticks.get(0), Some(Tick { tick: 60, liquidity_net: None }));
}
