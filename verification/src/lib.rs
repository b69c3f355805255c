//! A manual image-labeling tool's core: a read-ahead prefetch pipeline that
//! decouples slow file reading and image decoding from the interactive
//! display loop.
//!
//! The pipeline keeps a bounded window of decoded-or-decoding items ahead of
//! the consumer, hands decode work out to background workers, and delivers
//! items strictly in the original path order through a reorder buffer keyed
//! by dispatch position.

pub mod category;
pub mod config;
pub mod decode;
pub mod prefetch;
pub mod progression;
