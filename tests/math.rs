use alloy_sol_types::SolValue;
use uni_sim::bitmap::{extract_ticks_from_bitmap, next_left, next_right, normalize_tick, word_index};
use uni_sim::pool_id::V4Key;
use uni_sim::tick_math::{price_from_tick, tick_from_price};
use uni_sim::v2::{V2Pool, V2State};
use uni_sim::wide::U256;
use uni_sim::x96::{compute_amount_possible, compute_price_from0, compute_price_from1, cross_liquidity, update_liquidity};

fn u(x: u128) -> U256 {
    U256::from_u128(x)
}

fn big(s: &str) -> U256 {
    U256 { limbs: alloy::primitives::U256::from_str_radix(s, 10).unwrap().into_limbs() }
}

fn q96() -> U256 {
    u(1u128 << 96)
}

#[test]
fn price_at_tick_zero_is_one() {
    assert_eq!(price_from_tick(0), Some(q96()));
}

#[test]
fn price_at_range_ends() {
    assert_eq!(price_from_tick(-887272), Some(u(4295128739)));
    assert_eq!(price_from_tick(887272), Some(big("1461446703485210103287273052203988822378723970342")));
    assert_eq!(price_from_tick(887273), None);
    assert_eq!(price_from_tick(-887273), None);
    assert_eq!(price_from_tick(i32::MIN), None);
}

#[test]
fn price_at_sample_ticks() {
    assert_eq!(price_from_tick(60), Some(big("79466191966197645195421774833")));
    assert_eq!(price_from_tick(-60), Some(big("78990846045029531151608375686")));
    assert_eq!(price_from_tick(100), Some(big("79625275426524748796330556128")));
    assert_eq!(price_from_tick(-100000), Some(big("533968626430936354154228408")));
}

#[test]
fn price_is_monotone_on_samples() {
    let ticks = [-887272, -100000, -60, -1, 0, 1, 60, 100, 100000, 887272];
    for w in ticks.windows(2) {
        let a = price_from_tick(w[0]).unwrap();
        let b = price_from_tick(w[1]).unwrap();
        assert!(alloy::primitives::U256::from_limbs(a.limbs) <= alloy::primitives::U256::from_limbs(b.limbs));
    }
}

#[test]
fn tick_of_price() {
    assert_eq!(tick_from_price(q96()), Some(0));
    assert_eq!(tick_from_price(u(4295128739)), Some(-887272));
    assert_eq!(tick_from_price(big("1461446703485210103287273052203988822378723970341")), Some(887272));
    assert_eq!(tick_from_price(u(4295128738)), None);
    assert_eq!(tick_from_price(big("1461446703485210103287273052203988822378723970342")), None);
    assert_eq!(tick_from_price(big("79228162514264337593543950335")), Some(0));
    assert_eq!(tick_from_price(big("79228162514264337593543950337")), Some(-1));
}

#[test]
fn tick_price_round_trip_on_samples() {
    for t in [-887272, -100000, -60, -1, 0, 1, 60, 100, 100000, 887271] {
        let back = tick_from_price(price_from_tick(t).unwrap()).unwrap();
        assert!(back == t || back == t - 1, "tick {} came back as {}", t, back);
    }
}

#[test]
fn amount_possible_both_directions() {
    let l = u(1_000_000_000_000_000_000);
    let up = price_from_tick(60).unwrap();
    let down = price_from_tick(-60).unwrap();
    assert_eq!(compute_amount_possible(true, &l, &q96(), &up), Some(u(2_995_354_955_910_780)));
    assert_eq!(compute_amount_possible(false, &l, &q96(), &down), Some(u(2_995_354_955_910_780)));
    assert_eq!(compute_amount_possible(true, &l, &q96(), &q96()), None);
    assert_eq!(compute_amount_possible(true, &l, &up, &q96()), None);
    assert_eq!(compute_amount_possible(false, &l, &down, &q96()), None);
}

#[test]
fn price_steps() {
    let l = u(1_000_000_000_000_000_000);
    let a = u(1_000_000_000_000_000);
    assert_eq!(compute_price_from1(&a, &l, &q96(), true), Some(big("79307390676778601931137494286")));
    assert_eq!(compute_price_from1(&a, &l, &q96(), false), Some(big("79148934351750073255950406386")));
    assert_eq!(compute_price_from0(&a, &l, &q96(), false), Some(big("79307469984248586179723674010")));
    assert_eq!(compute_price_from1(&a, &U256::zero(), &q96(), true), None);
    assert_eq!(compute_price_from0(&a, &l, &U256::zero(), true), None);
}

#[test]
fn liquidity_updates() {
    assert_eq!(update_liquidity(u(100), 5), Some(u(105)));
    assert_eq!(update_liquidity(u(100), -5), Some(u(95)));
    assert_eq!(update_liquidity(u(100), -101), None);
    assert_eq!(update_liquidity(U256::max(), 1), None);
    assert_eq!(update_liquidity(u(0), i128::MIN), None);
}

#[test]
fn crossing_direction_of_liquidity() {
    assert_eq!(cross_liquidity(u(100), 7, true), u(107));
    assert_eq!(cross_liquidity(u(100), -7, true), u(93));
    assert_eq!(cross_liquidity(u(100), 7, false), u(93));
    assert_eq!(cross_liquidity(u(100), -7, false), u(107));
    assert_eq!(cross_liquidity(u(5), 7, false), U256::zero());
    assert_eq!(cross_liquidity(U256::max(), 7, true), U256::max());
}

#[test]
fn normalize_and_word() {
    assert_eq!(normalize_tick(61, 60), 1);
    assert_eq!(normalize_tick(-1, 60), -1);
    assert_eq!(normalize_tick(-60, 60), -1);
    assert_eq!(normalize_tick(-61, 60), -2);
    assert_eq!(word_index(255), 0);
    assert_eq!(word_index(256), 1);
    assert_eq!(word_index(-1), -1);
    assert_eq!(word_index(i32::MAX), i16::MAX);
    assert_eq!(word_index(i32::MIN), i16::MIN);
}

#[test]
fn ticks_of_a_word() {
    let w = U256 { limbs: [(1 << 0) | (1 << 5), 0, 0, 1 << 63] };
    assert_eq!(extract_ticks_from_bitmap(w, 1, 10), vec![2560, 2610, 5110]);
    assert_eq!(extract_ticks_from_bitmap(w, -1, 10), vec![-2560, -2510, -10]);
    assert_eq!(extract_ticks_from_bitmap(U256::zero(), 3, 10), Vec::<i32>::new());
}

#[test]
fn neighbouring_bits() {
    let w = U256 { limbs: [(1 << 3) | (1 << 9), 0, 0, 0] };
    assert_eq!(next_left(&w, &9), Some(3));
    assert_eq!(next_left(&w, &3), None);
    assert_eq!(next_right(&w, &3), Some(9));
    assert_eq!(next_right(&w, &9), None);
    assert_eq!(next_right(&w, &-5), Some(3));
    assert_eq!(next_left(&w, &500), Some(9));
}

#[test]
fn constant_product_edges() {
    let empty = V2State { reserves0: U256::zero(), reserves1: u(10) };
    assert!(empty.trade(u(5), 3000, true).is_none());
    assert!(empty.trade(u(5), 3000, false).is_none());
    let st = V2State { reserves0: u(1_000_000), reserves1: u(2_000_000) };
    assert!(st.trade(u(5), 2_000_000, true).is_none());
    let t = st.trade(u(1000), 3000, false).unwrap();
    assert_eq!(t.fee_amount, u(3));
    assert_eq!(t.amount_out, u(997 * 1_000_000 / (2_000_000 + 997)));
    assert_eq!(t.new_reserves1, u(2_000_997));
}

#[test]
fn fixed_fee_pool() {
    let p = V2Pool::new(
        "exchange".to_string(),
        "2".to_string(),
        3000,
        [1u8; 20],
        [2u8; 20],
        [3u8; 20],
        u(1_000_000),
        u(2_000_000),
    );
    let t = p.trade(u(1000), true).unwrap();
    assert_eq!(t.amount_out, u(997 * 2_000_000 / (1_000_000 + 997)));
    assert_eq!(p.get_price(), u(2));
}

#[test]
fn pool_id_matches_abi_encoding() {
    let key = V4Key { currency0: [0x11; 20], currency1: [0x22; 20], fee: 3000, tickspacing: -60, hooks: [0u8; 20] };
    let expected = (
        alloy::primitives::Address::from([0x11u8; 20]),
        alloy::primitives::Address::from([0x22u8; 20]),
        alloy::primitives::aliases::U24::from(3000u32),
        alloy::primitives::aliases::I24::try_from(-60i32).unwrap(),
        alloy::primitives::Address::from([0u8; 20]),
    )
        .abi_encode();
    assert_eq!(key.abi_encode(), expected);
    assert_eq!(key.pool_id(), alloy::primitives::keccak256(&expected).0);
    assert_ne!(key.pool_id().to_vec(), key.abi_encode()[..32].to_vec());
}
