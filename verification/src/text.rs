//! The text form of data items: JSON without white space.
//!
//! Unsigned and negative integers are numbers, arrays are arrays, `false`,
//! `true` and `null` are themselves, and text of printable ASCII without
//! quote or backslash is a string. What JSON has no form for is an object
//! with one member: `{"bytes":"<hex>"}`, `{"text":"<hex of the UTF-8>"}`,
//! `{"map":[[key,value],...]}`, `{"tag":[number,item]}` and
//! `{"simple":number}`.

pub mod grammar;
pub mod laws;
pub mod read;
pub mod write;
