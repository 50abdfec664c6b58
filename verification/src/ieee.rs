//! IEEE 754 binary32 arithmetic on bit patterns.

pub mod model;
pub mod rounding;
pub mod exact;
pub mod order;
pub mod root;
pub mod single;
pub mod equality;
pub mod facts;
