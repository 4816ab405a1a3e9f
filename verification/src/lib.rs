//! Daily logic-puzzle content: constraint variants and their wire encoding,
//! clue digging under a uniqueness oracle, solve checking, and the
//! publication lifecycle with usage counters.

pub mod book;
pub mod codec;
pub mod dig;
pub mod each;
pub mod json;
pub mod lifecycle;
pub mod payload;
pub mod shuffle;
pub mod solve;
pub mod stats;
pub mod text;
pub mod variant;
pub mod wire;
