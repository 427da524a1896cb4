//! The binary data-item format in which transactions travel: a tree model of
//! data items, the canonical writer and the reader, with their round-trip laws.

pub mod decode;
pub mod encode;
pub mod head;
pub mod item;
pub mod laws;
pub mod span;
