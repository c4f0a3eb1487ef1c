//! CRLF-delimited line framing over buffered byte streams.
//!
//! A line is a run of content bytes terminated by the two-byte sequence
//! CR (0x0D) LF (0x0A); the final line of a stream may lack the terminator.
//! The reader scans a refillable window for the next terminator, decodes the
//! content as UTF-8 and reports how many raw bytes it consumed; the writer
//! frames a payload with the terminator and flushes it to its sink.

pub mod errors;
pub mod framing;
pub mod reader;
mod text;
pub mod writer;
