//! Off-chain simulation of exact-input swaps on concentrated-liquidity pools
//! and on constant-product pools.
//!
//! - `wide`: 256- and 512-bit unsigned integers.
//! - `x96`, `tick_math`: Q64.96 square-root-price arithmetic and the
//!   tick/price conversions.
//! - `ticks`, `bitmap`: the ordered tick store and the word-addressed bitmap
//!   of initialized ticks.
//! - `engine`: the swap loop, with a model of each step that the code is
//!   proved against.
//! - `hydration`: fetching missing words and ticks during a swap, and
//!   resuming it.
//! - `v2`: the constant-product pool; `pool_id`: singleton-manager pool keys.

pub mod wide;
pub mod x96;
pub mod tick_math;
pub mod ticks;
pub mod bitmap;
pub mod engine;
pub mod v2;
pub mod hydration;
pub mod trades;
pub mod pool_id;
