//! The constant-product (x·y = k) pool.
use crate::wide::{modulus256, U256};
use vstd::prelude::*;

verus! {

/// Reserves of a constant-product pool.
#[derive(Clone, Copy, Debug)]
pub struct V2State {
    pub reserves0: U256,
    pub reserves1: U256,
}

/// The result of a constant-product swap.
#[derive(Clone, Copy, Debug)]
pub struct V2Trade {
    pub fee_amount: U256,
    pub amount_in: U256,
    pub amount_out: U256,
    pub from0: bool,
    pub new_price: U256,
    pub new_reserves0: U256,
    pub new_reserves1: U256,
}

/// Identity of a constant-product pool.
#[derive(Clone, Copy, Debug, PartialEq, Eq)]
pub struct V2Key {
    pub fee: u32,
    pub address: [u8; 20],
    pub token0: [u8; 20],
    pub token1: [u8; 20],
}

/// A constant-product pool with its identity.
#[derive(Clone, Debug)]
pub struct V2Pool {
    pub address: [u8; 20],
    pub token0: [u8; 20],
    pub token1: [u8; 20],
    pub exchange: String,
    pub version: String,
    pub fee: u32,
    pub reserves0: U256,
    pub reserves1: U256,
}

/// 10^18, the scale of a constant-product price.
pub open spec fn price_scale() -> int {
    1_000_000_000_000_000_000
}

/// Whether a swap of `amount_in` against reserves `(r_in, r_out)`, keeping
/// `keep` thousandths of the input, succeeds: no reserve is zero and no step
/// leaves 256 bits.
pub open spec fn swap_ok(amount_in: int, keep: int, r_in: int, r_out: int) -> bool {
    let m = modulus256() as int;
    let net = amount_in * keep / 1000;
    let out = net * r_out / (r_in + net);
    &&& r_in > 0
    &&& r_out > 0
    &&& amount_in * keep < m
    &&& net * r_out < m
    &&& r_in + net < m
    &&& (r_out - out) * price_scale() < m
}

/// Whether `t` is the swap of `amount_in` against reserves `(r_in, r_out)`
/// keeping `keep` thousandths of the input: the output is
/// `net · r_out / (r_in + net)` and the price is the new output reserve per
/// unit of the new input reserve, scaled by 10^18.
pub open spec fn swap_result(t: V2Trade, amount_in: int, keep: int, r_in: int, r_out: int, from0: bool) -> bool {
    let net = amount_in * keep / 1000;
    let out = net * r_out / (r_in + net);
    let new_in = r_in + net;
    let new_out = r_out - out;
    &&& t.amount_in.value() == amount_in
    &&& t.fee_amount.value() == amount_in - net
    &&& t.amount_out.value() == out
    &&& t.from0 == from0
    &&& t.new_price.value() == new_out * price_scale() / new_in
    &&& (if from0 {
        t.new_reserves0.value() == new_in && t.new_reserves1.value() == new_out
    } else {
        t.new_reserves0.value() == new_out && t.new_reserves1.value() == new_in
    })
}

/// Swap against reserves `(reserve_in, reserve_out)` keeping `keep`
/// thousandths of the input after the fee.
fn swap(amount_in: U256, keep: u32, reserve_in: U256, reserve_out: U256, from0: bool) -> (r: Option<V2Trade>)
    requires
        keep <= 1000,
    ensures
        r is Some <==> swap_ok(amount_in.value() as int, keep as int, reserve_in.value() as int, reserve_out.value() as int),
        r is Some ==> swap_result(r->Some_0, amount_in.value() as int, keep as int, reserve_in.value() as int,
            reserve_out.value() as int, from0),
{
    if reserve_in.is_zero() || reserve_out.is_zero() {
        return None;
    }
    let amount_in_less_fee = match amount_in.checked_mul(U256::from_u128(keep as u128)) {
        Some(x) => match x.checked_div(U256::from_u128(1000)) {
            Some(y) => y,
            None => return None,
        },
        None => return None,
    };
    let ghost a = amount_in.value() as int;
    let ghost net = amount_in_less_fee.value() as int;
    proof {
        assert(net <= a) by (nonlinear_arith)
            requires net == a * keep / 1000, 0 <= keep <= 1000, a >= 0;
    }
    let numerator = match amount_in_less_fee.checked_mul(reserve_out) {
        Some(x) => x,
        None => return None,
    };
    let denominator = match reserve_in.checked_add(amount_in_less_fee) {
        Some(x) => x,
        None => return None,
    };
    let amount_out = match numerator.checked_div(denominator) {
        Some(x) => x,
        None => return None,
    };
    proof {
        let n = net;
        let ro = reserve_out.value() as int;
        let d = denominator.value() as int;
        assert(n * ro / d <= ro) by (nonlinear_arith)
            requires d >= n, n >= 0, ro >= 0, d > 0;
    }
    let new_reserve_in = denominator;
    let new_reserve_out = match reserve_out.checked_sub(amount_out) {
        Some(x) => x,
        None => return None,
    };
    let new_price = match new_reserve_out.checked_mul(U256::from_u128(1_000_000_000_000_000_000)) {
        Some(x) => match x.checked_div(new_reserve_in) {
            Some(y) => y,
            None => return None,
        },
        None => return None,
    };
    let fee_amount = match amount_in.checked_sub(amount_in_less_fee) {
        Some(x) => x,
        None => return None,
    };
    let (new_reserves0, new_reserves1) = if from0 {
        (new_reserve_in, new_reserve_out)
    } else {
        (new_reserve_out, new_reserve_in)
    };
    Some(V2Trade { fee_amount, amount_in, amount_out, from0, new_price, new_reserves0, new_reserves1 })
}

/// The input reserve and the output reserve of a swap in direction `from0`.
pub open spec fn reserves_for(r0: U256, r1: U256, from0: bool) -> (int, int) {
    if from0 {
        (r0.value() as int, r1.value() as int)
    } else {
        (r1.value() as int, r0.value() as int)
    }
}

impl V2State {
    /// Constant-product swap with the fee given in parts per million and
    /// applied as `(1000 - fee / 1000)` thousandths of the input. `None` when a
    /// reserve is zero, when `fee / 1000` exceeds 1000, or on overflow.
    pub fn trade(&self, amount_in: U256, fee: u32, from0: bool) -> (r: Option<V2Trade>)
        ensures
            ({
                let (r_in, r_out) = reserves_for(self.reserves0, self.reserves1, from0);
                let keep = 1000 - fee / 1000;
                &&& r is Some <==> (keep >= 0 && swap_ok(amount_in.value() as int, keep, r_in, r_out))
                &&& r is Some ==> swap_result(r->Some_0, amount_in.value() as int, keep, r_in, r_out, from0)
            }),
    {
        let sfee = fee / 1000;
        if sfee > 1000 {
            return None;
        }
        let (reserve_in, reserve_out) = if from0 {
            (self.reserves0, self.reserves1)
        } else {
            (self.reserves1, self.reserves0)
        };
        swap(amount_in, 1000 - sfee, reserve_in, reserve_out, from0)
    }
}

impl V2Pool {
    pub fn new(
        exchange: String,
        version: String,
        fee: u32,
        address: [u8; 20],
        token0: [u8; 20],
        token1: [u8; 20],
        reserves0: U256,
        reserves1: U256,
    ) -> (r: V2Pool)
        ensures
            r.fee == fee,
            r.reserves0 == reserves0,
            r.reserves1 == reserves1,
            r.exchange == exchange,
            r.version == version,
            r.address == address,
            r.token0 == token0,
            r.token1 == token1,
    {
        V2Pool { address, token0, token1, exchange, version, fee, reserves0, reserves1 }
    }

    /// The spot price `reserves1 / reserves0`, floored; zero when `reserves0`
    /// is zero.
    pub fn get_price(&self) -> (r: U256)
        ensures
            self.reserves0.value() > 0 ==> r.value() == self.reserves1.value() / self.reserves0.value(),
            self.reserves0.value() == 0 ==> r.value() == 0,
    {
        match self.reserves1.checked_div(self.reserves0) {
            Some(p) => p,
            None => U256::zero(),
        }
    }

    /// Constant-product swap at the fixed 0.3% fee: 997 thousandths of the
    /// input enter the pool.
    pub fn trade(&self, amount_in: U256, from0: bool) -> (r: Option<V2Trade>)
        ensures
            ({
                let (r_in, r_out) = reserves_for(self.reserves0, self.reserves1, from0);
                &&& r is Some <==> swap_ok(amount_in.value() as int, 997, r_in, r_out)
                &&& r is Some ==> swap_result(r->Some_0, amount_in.value() as int, 997, r_in, r_out, from0)
            }),
    {
        let (reserve_in, reserve_out) = if from0 {
            (self.reserves0, self.reserves1)
        } else {
            (self.reserves1, self.reserves0)
        };
        swap(amount_in, 997, reserve_in, reserve_out, from0)
    }
}

} // verus!
