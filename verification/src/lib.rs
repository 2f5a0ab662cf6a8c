//! Core arithmetic of a concentrated-liquidity market maker: fixed-point
//! primitives, the tick/price oracle, liquidity and price transitions, the
//! swap-step kernel, tick-array storage in its two layouts, and the quoter.

pub mod account;
pub mod address;
pub mod error;
pub mod wide;
pub mod full_math;
pub mod liquidity_math;
pub mod sqrt_price_math;
pub mod swap_math;
pub mod swap_laws;
pub mod amount_laws;
pub mod tick_math;
pub mod tick_laws;
pub mod tick;
pub mod tick_array;
pub mod dyn_tick_array;
pub mod layout;
pub mod tick_array_data;
pub mod tick_array_map;
pub mod container;
pub mod loader;
pub mod system;
pub mod test_account_utils;
pub mod pool;
pub mod tick_array_bitmap;
pub mod fee;
pub mod quote;
pub mod quote_laws;
pub mod start_indexes;
pub mod swap_tick_arrays;
pub mod position;
pub mod increase_liquidity;
pub mod growth_laws;
