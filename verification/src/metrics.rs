//! The four metric kinds an accumulator can have.

pub mod counter;
pub mod gauge;
pub mod histogram;
pub mod summary;

pub use counter::Counter;
pub use gauge::Gauge;
pub use histogram::Histogram;
pub use summary::Summary;
