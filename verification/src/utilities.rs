pub mod clock;
pub mod logging;
pub mod priority_queue;
pub mod rate_limiter;
pub mod sync;
pub mod threading;
