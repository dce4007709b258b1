//! Fixed-capacity collections that never allocate past their declared size: a bounded vector
//! and a single-producer / single-consumer ring buffer.

mod sealed;
pub mod spsc;
pub mod vec;

pub use vec::{IntoIter, Vec};
