//! A streaming line sorter: lines arrive one at a time, are kept in sorted
//! order by a numeric key, and a bounded preview of the current order is
//! rendered periodically while the full order is emitted at the end.
//!
//! Sort keys are held as 64-bit patterns whose unsigned order is the total
//! order on the key values; line text is held as raw bytes, ordered
//! lexicographically, matching the byte order of UTF-8 strings.

pub mod engine;
pub mod order;
pub mod parser;
pub mod screen;
pub mod store;
