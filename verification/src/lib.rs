//! Dumps the bytes of a file in hexadecimal, decimal, octal and binary, each
//! line followed by the bytes themselves as text.
//!
//! The library computes the text of a dump from the bytes of the input; the
//! caller reads the input and writes the text out. The input is taken as
//! bytes, whatever text they spell: a chunk may end in the middle of a
//! character that takes several bytes.
//!
//! - [`mode`]: the four bases and what each fixes: chunk size, field width,
//!   fill character and name.
//! - [`chunk`]: cutting the input into chunks.
//! - [`render`]: the line of one chunk.
//! - [`dump`]: the text of a pass, of all passes, and of what a display type
//!   selects.

pub mod mode;
pub mod chunk;
pub mod render;
pub mod dump;
