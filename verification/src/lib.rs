//! Transaction dispatch core: fee tiers, compute-unit estimation,
//! size-bounded instruction packing, and a bounded-retry schedule.

pub mod backoff;
pub mod estimate;
pub mod fees;
pub mod filter;
pub mod packing;
