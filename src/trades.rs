//! The result of a swap on either kind of pool.
use crate::engine::TradeState;
use crate::v2::V2Trade;
use vstd::prelude::*;

verus! {

/// A finished swap: constant-product or concentrated-liquidity.
#[derive(Clone, Copy, Debug)]
pub enum UniTrade {
    V2(V2Trade),
    V3(TradeState),
}

impl From<TradeState> for UniTrade {
    fn from(value: TradeState) -> (r: UniTrade)
        ensures
            r == UniTrade::V3(value),
    {
        UniTrade::V3(value)
    }
}

impl vstd::std_specs::convert::FromSpecImpl<TradeState> for UniTrade {
    open spec fn obeys_from_spec() -> bool {
        true
    }

    open spec fn from_spec(v: TradeState) -> UniTrade {
        UniTrade::V3(v)
    }
}

impl From<V2Trade> for UniTrade {
    fn from(value: V2Trade) -> (r: UniTrade)
        ensures
            r == UniTrade::V2(value),
    {
        UniTrade::V2(value)
    }
}

impl vstd::std_specs::convert::FromSpecImpl<V2Trade> for UniTrade {
    open spec fn obeys_from_spec() -> bool {
        true
    }

    open spec fn from_spec(v: V2Trade) -> UniTrade {
        UniTrade::V2(v)
    }
}

} // verus!
