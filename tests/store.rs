use uni_sim::bitmap::{collect_ticks_from_map, BitMap};
use uni_sim::engine::{sync_word_positions, trade, TickError, TradeError, V3State};
use uni_sim::hydration::{Action, Hydration};
use uni_sim::ticks::{Tick, Ticks};
use uni_sim::wide::U256;

fn u(x: u128) -> U256 {
    U256::from_u128(x)
}

fn tick(t: i32, n: Option<i128>) -> Tick {
    Tick { tick: t, liquidity_net: n }
}

#[test]
fn insert_many_keeps_order_and_merges() {
    let mut s = Ticks::new(10);
    s.insert_many(vec![tick(30, None), tick(-10, Some(4)), tick(10, None)]);
    s.insert_many(vec![tick(30, Some(7)), tick(10, None), tick(-10, None), tick(0, Some(1))]);
    let got: Vec<Tick> = (0..s.len()).map(|i| s.get(i).unwrap()).collect();
    assert_eq!(got, vec![tick(-10, Some(4)), tick(0, Some(1)), tick(10, None), tick(30, Some(7))]);
    assert_eq!(s.get(4), None);
}

#[test]
fn insert_many_twice_is_idempotent() {
    let batch = vec![tick(20, Some(3)), tick(-40, None), tick(20, None)];
    let mut a = Ticks::new(10);
    a.insert_many(batch.clone());
    let once = a.ticks.clone();
    a.insert_many(batch);
    assert_eq!(a.ticks, once);
}

#[test]
fn binary_search_positions() {
    let mut s = Ticks::new(10);
    s.insert_many(vec![tick(-20, Some(1)), tick(0, Some(1)), tick(40, Some(1))]);
    assert_eq!(s.get_tick_index(0), Ok(1));
    assert_eq!(s.get_tick_index(10), Err(2));
    assert_eq!(s.get_tick_index(-30), Err(0));
    assert_eq!(s.get_tick_index(50), Err(3));
}

#[test]
fn bitmap_words() {
    let mut b = BitMap::new(60, vec![(2, u(5)), (-3, u(1)), (2, u(9))]);
    assert_eq!(b.get_word_from_pos(2, 60), Some(u(9)));
    assert_eq!(b.get_word_from_pos(-3, 60), Some(u(1)));
    assert_eq!(b.get_word_from_pos(0, 60), None);
    assert_eq!(b.get_pos_from_tick(-1, 60), -1);
    assert_eq!(b.get_pos_from_tick(256 * 60, 60), 1);
    b.insert(i16::MIN, u(4), 60);
    b.insert(i16::MIN, u(4), 60);
    assert_eq!(b.get_word_from_pos(i16::MIN, 60), Some(u(4)));
    assert_eq!(b.get_word_from_tick(-1, 60), None);
    assert_eq!(BitMap::pos_to_idx(i16::MIN, 60), 0);
}

#[test]
fn ticks_from_words() {
    let words = vec![(1, u(1)), (-1, U256 { limbs: [0, 0, 0, 1 << 63] }), (0, u(0b110))];
    assert_eq!(collect_ticks_from_map(&words, 10), vec![-10, 10, 20, 2560]);
}

#[test]
fn sync_positions_around_price() {
    let q96 = u(1u128 << 96);
    assert_eq!(sync_word_positions(q96, 60), Some(vec![-1, 0, 1]));
    assert_eq!(sync_word_positions(U256::zero(), 60), None);
}

#[test]
fn default_state_is_empty() {
    let s = V3State::default(10);
    assert_eq!(s.tick, 0);
    assert_eq!(s.ticks.len(), 0);
    assert_eq!(s.liquidity, U256::zero());
    assert_eq!(s.bitmap.get_word_from_pos(0, 10), None);
}

fn two_tick_pool() -> V3State {
    let mut s = V3State::default(60);
    s.liquidity = u(1_000_000_000_000_000_000);
    s.x96price = u(1u128 << 96);
    s.ticks.insert_many(vec![tick(60, Some(-400_000_000_000_000_000)), tick(120, Some(0))]);
    s
}

#[test]
fn full_cross_updates_liquidity_then_overflows() {
    let p = two_tick_pool();
    match trade(&p, 3000, u(5_000_000_000_000_000), true) {
        Err(TradeError::Tick(TickError::Overflow(s))) => {
            assert_eq!(s.tick, 120);
            assert_eq!(s.liquidity, u(600_000_000_000_000_000));
            assert_eq!(s.remaining, u(197_815_361_329_892));
            assert_eq!(s.amount_out, u(4_812_382_186_387_668));
            assert_eq!(s.fee_amount, u(15_000_000_000_000));
        }
        _ => panic!("expected an overflow fault"),
    }
}

#[test]
fn selling_token1_crosses_downward() {
    let mut p = V3State::default(60);
    p.liquidity = u(1_000_000_000_000_000_000);
    p.x96price = u(1u128 << 96);
    p.ticks.insert_many(vec![tick(-120, Some(500_000_000_000_000_000)), tick(-60, Some(-100_000_000_000_000_000))]);
    let s = trade(&p, 3000, u(5_000_000_000_000_000), false).unwrap();
    assert_eq!(s.tick, -60);
    assert_eq!(s.liquidity, u(1_100_000_000_000_000_000));
    assert_eq!(s.amount_out, u(4_993_348_390_675_958));
    assert_eq!(s.x96price, U256 { limbs: alloy::primitives::U256::from_str_radix("79134151427664805110934248659", 10).unwrap().into_limbs() });
}

#[test]
fn underflow_asks_for_lower_word() {
    let mut p = V3State::default(60);
    p.liquidity = u(1_000_000_000_000_000_000);
    p.x96price = u(1u128 << 96);
    let mut h = Hydration::new();
    match h.begin(&p, 3000, u(1000), false) {
        Action::FetchWord(pos) => assert_eq!(pos, -1),
        other => panic!("unexpected {:?}", other),
    }
    assert_eq!(h.attempts, 1);
    match h.on_word(&mut p, -1, Ok(U256::zero())) {
        Action::FetchWord(pos) => assert_eq!(pos, -1),
        other => panic!("unexpected {:?}", other),
    }
    assert_eq!(p.bitmap.get_word_from_pos(-1, 60), Some(U256::zero()));
}

#[test]
fn start_errors_end_the_swap() {
    let mut p = V3State::default(60);
    let mut h = Hydration::new();
    match h.begin(&p, 3000, u(1000), true) {
        Action::Fail(TradeError::Math(_)) => {}
        other => panic!("unexpected {:?}", other),
    }
    p.x96price = u(1u128 << 96);
    match h.begin(&p, 2_000_000, u(1000), true) {
        Action::Fail(TradeError::Math(_)) => {}
        other => panic!("unexpected {:?}", other),
    }
}

#[test]
fn no_tick_below_underflows() {
    let mut p = V3State::default(60);
    p.liquidity = u(1_000_000_000_000_000_000);
    p.x96price = u(1u128 << 96);
    p.ticks.insert_many(vec![tick(60, Some(0))]);
    match trade(&p, 3000, u(1000), false) {
        Err(TradeError::Tick(TickError::Underflow(s))) => {
            assert_eq!(s.tick, 0);
            assert_eq!(s.remaining, u(997));
        }
        _ => panic!("expected an underflow fault"),
    }
}

#[test]
fn hydration_budget_is_three_resumes() {
    let mut p = V3State::default(60);
    p.liquidity = u(1_000_000_000_000_000_000);
    p.x96price = u(1u128 << 96);
    let mut h = Hydration::new();
    let mut action = h.begin(&p, 3000, u(1000), true);
    let mut words = 0;
    loop {
        action = match action {
            Action::FetchWord(pos) => {
                words += 1;
                h.on_word(&mut p, pos, Ok(U256::zero()))
            }
            Action::Fail(TradeError::Tick(TickError::Overflow(_))) => break,
            other => panic!("unexpected {:?}", other),
        };
    }
    assert_eq!(words, 3);
    assert_eq!(h.attempts, 3);
}
