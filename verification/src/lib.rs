//! Decoder and encoder for the SWIFT MT wire format: brace-delimited
//! top-level blocks framed from a character cursor, fixed-width basic and
//! application headers, and tag-dictionary user header and trailer blocks
//! that keep unknown tags for lossless re-encoding.

pub mod application_header;
pub mod basic_header;
pub mod datetime;
pub mod definition;
pub mod digits;
pub mod strutil;
pub mod string_parser;
pub mod swift_mt_parser;
pub mod tag_blocks;
pub mod tag_fields;
