//! A verified codec for the Open Sound Control (OSC) wire format.
//!
//! Messages carry an address string and an ordered list of typed arguments
//! (string, 32-bit integer, 32-bit float, blob). Encoding and decoding are
//! specified exactly at the byte level and proved against that specification,
//! including the 4-byte alignment padding for strings and the length-prefixed
//! (unpadded) blob framing.

pub mod laws;
pub mod reader;
pub mod types;
pub mod utf8;
pub mod wire;
pub mod writer;

pub use reader::OscReader;
pub use types::OscMessage;
pub use types::OscType;
pub use types::get_type_tag;
pub use utf8::is_valid_utf8;
pub use utf8::utf8_valid;
pub use wire::OscError;
pub use writer::OscWriter;
