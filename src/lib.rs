//! A median heap: keeps the running median of a stream of integers in two
//! ordered partitions, optionally bounded in size.

pub mod average_with;
pub mod median_heap;
mod partition;
pub mod rank;
pub mod sequence;
pub mod takeover;

pub use average_with::AverageWith;
pub use median_heap::{Median, MedianHeap};
