//! A string that keeps short text inline and moves to the heap only when it must.
//!
//! `cute_string` holds the two types: `MiniString`, a fixed buffer for text of
//! up to thirty bytes, and `CuteString`, which is either such a buffer or a
//! heap `String`. Both are modelled by the text they hold, a `Seq<char>`.
//! `text` holds what is needed about UTF-8 to relate that text to its bytes.

pub mod cute_string;
pub mod text;
