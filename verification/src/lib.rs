//! Core logic of a desk calculator with a currency-conversion helper.
//!
//! Numbers are exact fixed-point values in micro-units (one millionth of a
//! unit), so every arithmetic step has a precise mathematical contract.
//! The calculator is an input/evaluation state machine; the converter is a
//! pure read of a rate table; the rate fetcher's decisions (endpoint
//! fallback, payload normalization) are verified here while the network
//! round trip itself lives with the caller.

pub mod calculator;
pub mod fetch;
pub mod fixed;
pub mod rates;
pub mod text;

use vstd::prelude::*;

verus! {

} // verus!
