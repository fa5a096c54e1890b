//! Q64.96 square-root-price arithmetic: how much input moves the price to a
//! given level, where a partial input moves it, and how in-range liquidity
//! changes when a tick is crossed.
use crate::wide::{modulus256, modulus512, U256, U512};
use vstd::arithmetic::power2::{lemma2_to64, lemma_pow2_adds, pow2};
use vstd::prelude::*;

verus! {

/// 2^96, the unit of a Q64.96 number.
pub open spec fn q96() -> int {
    0x1_0000_0000_0000_0000_0000_0000int
}

/// The value carried by an optional 256-bit result.
pub open spec fn opt_value(r: Option<U256>) -> Option<int> {
    match r {
        Some(x) => Some(x.value() as int),
        None => None,
    }
}

pub proof fn lemma_pow2_96()
    ensures
        pow2(96) == q96() as nat,
        pow2(32) == 0x1_0000_0000nat,
        pow2(64) == 0x1_0000_0000_0000_0000nat,
        pow2(128) == 0x1_0000_0000_0000_0000_0000_0000_0000_0000nat,
{
    lemma2_to64();
    lemma_pow2_adds(64, 32);
    lemma_pow2_adds(64, 64);
}

pub fn q96_u256() -> (r: U256)
    ensures
        r.value() == q96() as nat,
{
    U256 { limbs: [0, 0x1_0000_0000, 0, 0] }
}

pub fn q96_u512() -> (r: U512)
    ensures
        r.value() == q96() as nat,
{
    U512 { limbs: [0, 0x1_0000_0000, 0, 0, 0, 0, 0, 0] }
}

/// The input needed to move the square-root price from `cur` to `next` at
/// liquidity `l`: token0 (`from0`, price rising) or token1 (price falling).
pub open spec fn amount_possible_of(from0: bool, l: int, cur: int, next: int) -> Option<int> {
    if from0 {
        if next <= cur {
            None
        } else if l * (next - cur) * q96() >= modulus512() as int {
            None
        } else if cur == 0 {
            None
        } else if l * (next - cur) * q96() / (cur * next) >= modulus256() as int {
            None
        } else {
            Some(l * (next - cur) * q96() / (cur * next))
        }
    } else {
        if cur <= next {
            None
        } else if l * (cur - next) / q96() >= modulus256() as int {
            None
        } else {
            Some(l * (cur - next) / q96())
        }
    }
}

/// Maximum input that drives the square-root price from `current_sqrt_price`
/// to `next_sqrt_price` at liquidity `available_liquidity`, computed with
/// 512-bit intermediates. `None` on overflow or on a zero or reversed
/// differential.
pub fn compute_amount_possible(
    from0: bool,
    available_liquidity: &U256,
    current_sqrt_price: &U256,
    next_sqrt_price: &U256,
) -> (r: Option<U256>)
    ensures
        opt_value(r) == amount_possible_of(
            from0,
            available_liquidity.value() as int,
            current_sqrt_price.value() as int,
            next_sqrt_price.value() as int,
        ),
{
    let l = available_liquidity.widen();
    let cur = current_sqrt_price.widen();
    let nxt = next_sqrt_price.widen();
    let ghost (lv, cv, nv) = (l.value() as int, cur.value() as int, nxt.value() as int);
    proof {
        available_liquidity.lemma_bound();
        current_sqrt_price.lemma_bound();
        next_sqrt_price.lemma_bound();
    }
    if from0 {
        let diff = match nxt.checked_sub(cur) {
            Some(d) => d,
            None => return None,
        };
        if diff.value_is_zero() {
            return None;
        }
        let impact = match l.checked_mul(diff) {
            Some(x) => x,
            None => {
                proof {
                    let m = modulus256();
                    assert(lv * (nv - cv) < m * m) by (nonlinear_arith)
                        requires lv < m, nv - cv < m, nv > cv;
                }
                return None;
            },
        };
        let numerator = match impact.checked_mul(q96_u512()) {
            Some(x) => x,
            None => return None,
        };
        let denominator = match cur.checked_mul(nxt) {
            Some(x) => x,
            None => {
                proof {
                    let m = modulus256();
                    assert(cv * nv < m * m) by (nonlinear_arith)
                        requires 0 <= cv < m, 0 <= nv < m;
                }
                return None;
            },
        };
        let q = match numerator.checked_div(denominator) {
            Some(x) => x,
            None => {
                proof {
                    assert(cv * nv == 0);
                    assert(cv == 0) by (nonlinear_arith)
                        requires cv * nv == 0, nv > 0;
                }
                return None;
            },
        };
        proof {
            if cv == 0 {
                assert(cv * nv == 0);
            }
        }
        q.narrow()
    } else {
        let diff = match cur.checked_sub(nxt) {
            Some(d) => d,
            None => return None,
        };
        if diff.value_is_zero() {
            return None;
        }
        let numerator = match l.checked_mul(diff) {
            Some(x) => x,
            None => {
                proof {
                    let m = modulus256();
                    assert(lv * (cv - nv) < m * m) by (nonlinear_arith)
                        requires lv < m, cv - nv < m, cv > nv;
                }
                return None;
            },
        };
        let q = match numerator.checked_div(q96_u512()) {
            Some(x) => x,
            None => return None,
        };
        q.narrow()
    }
}

/// The square-root price after `amount` of token0 is applied at liquidity
/// `l` from price `p`: `(L·2^96 mod 2^256) / ((L·2^96 mod 2^256) / p ± amount)`.
pub open spec fn price_from0_of(amount: int, l: int, p: int, add: bool) -> Option<int> {
    let ql = (l * q96()) % (modulus256() as int);
    if p == 0 {
        None
    } else {
        let den = if add { ql / p + amount } else { ql / p - amount };
        if den < 0 || den >= modulus256() as int || den == 0 {
            None
        } else {
            Some(ql / den)
        }
    }
}

/// The square-root price after `amount` of token1 is applied at liquidity
/// `l` from price `p`: `p ± amount·2^96 / L`.
pub open spec fn price_from1_of(amount: int, l: int, p: int, add: bool) -> Option<int> {
    if amount * q96() >= modulus256() as int || l == 0 {
        None
    } else {
        let next = if add { p + amount * q96() / l } else { p - amount * q96() / l };
        if next < 0 || next >= modulus256() as int {
            None
        } else {
            Some(next)
        }
    }
}

/// `l + net`, where it stays within 0 and 2^256 - 1.
pub open spec fn liquidity_after(l: int, net: int) -> Option<int> {
    if 0 <= l + net < modulus256() as int {
        Some(l + net)
    } else {
        None
    }
}

/// Partial-cross step selling token0: the new square-root price after
/// `amount` enters at liquidity `available_liquidity`.
pub fn compute_price_from0(
    amount: &U256,
    available_liquidity: &U256,
    current_sqrt_price: &U256,
    add: bool,
) -> (r: Option<U256>)
    ensures
        opt_value(r) == price_from0_of(
            amount.value() as int,
            available_liquidity.value() as int,
            current_sqrt_price.value() as int,
            add,
        ),
{
    proof {
        lemma_pow2_96();
    }
    let q96_l = available_liquidity.shl(96);
    let scaled_liquidity = match q96_l.checked_div(*current_sqrt_price) {
        Some(x) => x,
        None => return None,
    };
    let denominator = if add {
        scaled_liquidity.checked_add(*amount)
    } else {
        scaled_liquidity.checked_sub(*amount)
    };
    match denominator {
        Some(d) => q96_l.checked_div(d),
        None => None,
    }
}

/// Partial-cross step selling token1: the new square-root price after
/// `amount` enters at liquidity `available_liquidity`.
pub fn compute_price_from1(
    amount: &U256,
    available_liquidity: &U256,
    current_sqrt_price: &U256,
    add: bool,
) -> (r: Option<U256>)
    ensures
        opt_value(r) == price_from1_of(
            amount.value() as int,
            available_liquidity.value() as int,
            current_sqrt_price.value() as int,
            add,
        ),
{
    let dy_q96 = match amount.checked_mul(q96_u256()) {
        Some(x) => x,
        None => return None,
    };
    let delta_sqrt = match dy_q96.checked_div(*available_liquidity) {
        Some(x) => x,
        None => return None,
    };
    if add {
        current_sqrt_price.checked_add(delta_sqrt)
    } else {
        current_sqrt_price.checked_sub(delta_sqrt)
    }
}

/// The magnitude of a signed 128-bit value, as a 256-bit integer.
pub fn magnitude(net: i128) -> (r: U256)
    ensures
        r.value() == if net < 0 { -net } else { net as int },
{
    if net < 0 {
        let m: u128 = (-(net + 1)) as u128 + 1;
        U256::from_u128(m)
    } else {
        U256::from_u128(net as u128)
    }
}

/// Adds the signed delta `liquidity_net` to `current_liquidity`; `None`
/// where the result would leave the 256-bit range.
pub fn update_liquidity(current_liquidity: U256, liquidity_net: i128) -> (r: Option<U256>)
    ensures
        opt_value(r) == liquidity_after(current_liquidity.value() as int, liquidity_net as int),
{
    let abs_net = magnitude(liquidity_net);
    if liquidity_net < 0 {
        current_liquidity.checked_sub(abs_net)
    } else {
        current_liquidity.checked_add(abs_net)
    }
}

/// In-range liquidity after crossing a tick whose net delta is `net`:
/// selling token0 adds a positive delta and removes a negative one, selling
/// token1 the reverse; the result saturates at 0 and 2^256 - 1.
pub open spec fn crossed_liquidity(l: int, net: int, from0: bool) -> int {
    let d = if from0 { net } else { -net };
    if l + d < 0 {
        0
    } else if l + d >= modulus256() as int {
        modulus256() - 1
    } else {
        l + d
    }
}

/// Liquidity after crossing a tick with net delta `net` in the direction
/// `from0`, saturating at both ends.
pub fn cross_liquidity(liquidity: U256, net: i128, from0: bool) -> (r: U256)
    ensures
        r.value() as int == crossed_liquidity(liquidity.value() as int, net as int, from0),
{
    let abs_net = magnitude(net);
    if (from0 && net > 0) || (!from0 && net < 0) {
        liquidity.saturating_add(abs_net)
    } else {
        liquidity.saturating_sub(abs_net)
    }
}

/// Crossing a tick with net liquidity `+k` while selling token0 adds `k` to
/// in-range liquidity and `-k` removes it; selling token1 the signs invert.
pub proof fn lemma_cross_direction(l: int, k: int)
    requires
        0 <= k,
        0 <= l - k,
        l + k < modulus256() as int,
    ensures
        crossed_liquidity(l, k, true) == l + k,
        crossed_liquidity(l, -k, true) == l - k,
        crossed_liquidity(l, k, false) == l - k,
        crossed_liquidity(l, -k, false) == l + k,
{
}

} // verus!
