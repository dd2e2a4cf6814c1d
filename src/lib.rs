//! Speech segmentation and throttled delivery of translated speech.
//!
//! Audio samples are carried as IEEE-754 single-precision bit patterns and
//! times as milliseconds, so that every decision of the pipeline is made on
//! integers and proved.
pub mod gate;
pub mod limiter;
pub mod chunks;
pub mod segmenter;
pub mod osc;
pub mod pipeline;
