//! A rotating savings circle: a fixed group of members each pay a fixed
//! amount per cycle, and each cycle one member, in list order, receives the
//! whole pool. The library decides what the stored state becomes and which
//! transfers must accompany each step; moving value and storing records is
//! left to the caller.

pub mod circle;
pub mod contract;
pub mod error;
pub mod laws;
