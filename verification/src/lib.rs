//! Verified core of a Solana block cacher: batching of slot ranges, ordered
//! hand-over of block batches to the writer, rate limiting and the choice of
//! the number of worker threads.
pub mod arguments;
pub mod model;
pub mod utilities;
pub mod networking;
pub mod services;
