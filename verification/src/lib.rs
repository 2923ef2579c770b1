//! Codec for escaped localisation text.
//!
//! Encoded text is plain ASCII in which every other character is written as
//! one or two escapes: the marker `U+0001` followed by the four hexadecimal
//! digits of a UTF-16 code unit. [`encode_string`] writes that form and
//! [`decode_string`] reads it back; `laws` holds what is proved of the two
//! together.

pub mod config;
pub mod decode;
pub mod encode;
pub mod hex;
pub mod laws;
pub mod lines;
mod machine;
pub mod text;
pub mod utf16;

pub use config::{decode, destination, encode, output_suffix, Config, Destination, Output};
pub use decode::{decode_string, DecodeError};
pub use encode::{encode_string, EncodeError, MARKER};
pub use lines::{decode_lines, encode_lines};
