//! A resynchronizing byte-stream framing protocol: checksum, frame builder and
//! stream parser.
//!
//! - `checksum`: CRC-16 (reflected polynomial 0xA001, initial value 0xFFFF).
//! - `wire`: the frame layout and its constants.
//! - `builder`: outgoing frames (plain, acknowledgement, error, data).
//! - `parser`: the stream buffer and frame extraction with resynchronization.
//! - `stream`: the fixed-capacity vectors of the `heapless` crate it relies on.
//! - `laws`: properties relating the builder, the buffer policy and the parser.

pub mod builder;
pub mod checksum;
pub mod laws;
pub mod parser;
pub mod stream;
pub mod wire;

pub use builder::{build_ack, build_data, build_err, build_frame};
pub use checksum::crc16_modbus;
pub use parser::{Frame, ParseError, Parser};
pub use wire::{MAX_FRAME, MAX_PAYLOAD, STREAM_BUF_CAP, STX};
