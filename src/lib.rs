//! Streaming relative strength: a bounded recent-price window per asset, the
//! indicator computed over it exactly, and a registry of subscriber
//! connections that drops those a send fails on.
use vstd::prelude::*;

pub mod pipeline;
pub mod registry;
pub mod rsi;
pub mod window;

verus! {

} // verus!
