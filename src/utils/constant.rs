use vstd::prelude::*;

verus! {

/// Padding frame: one byte, ignored by the receiver.
pub const PADDING_FRAME: u8 = 0x00;
/// Ping frame: one byte, answered with an ACK.
pub const PING_FRAME: u8 = 0x01;
/// Stream data frame that is not the last chunk.
pub const STREAM_FRAME: u8 = 0x02;
/// Stream data frame carrying the last chunk of what was queued.
pub const STREAM_FRAME_FIN: u8 = 0x03;
/// Acknowledgement frame.
pub const ACK_FRAME: u8 = 0x04;
/// Reserved codepoint, not implemented.
pub const NEW_TOKEN_FRAME: u8 = 0x05;
/// Reserved codepoint, not implemented.
pub const CONNECTION_RESET_FRAME: u8 = 0x06;
/// Reserved codepoint, not implemented.
pub const NEW_ADDRESS_FRAME: u8 = 0x07;
/// Reserved codepoint, not implemented.
pub const REMOVE_ADDRESS_FRAME: u8 = 0x08;
/// Reserved codepoint, not implemented.
pub const STREAM_CHANGE_FRAME: u8 = 0x09;

/// Largest TLS plaintext fragment.
pub const MAX_FRAGMENT_LEN: usize = 16384;
/// Headroom left for the TLS record overhead.
pub const RECORD_OVERHEAD: usize = 3325;
/// Upper bound on the length of an assembled record.
pub const MAX_RECORD_SIZE: usize = MAX_FRAGMENT_LEN - RECORD_OVERHEAD;
/// Length of the trailer of a stream frame: length, offset, stream id, type.
pub const STREAM_HEADER_SIZE: usize = 15;
/// Largest payload of a stream frame that fills a record alone.
pub const MAX_STREAM_DATA_SIZE: usize = MAX_RECORD_SIZE - STREAM_HEADER_SIZE;
/// Smallest budget worth a stream frame: a header and one byte of payload.
pub const MIN_STREAM_DATA_SIZE: usize = STREAM_HEADER_SIZE + 1;
/// Length of an ACK frame: sequence number, connection id, type.
pub const ACK_FRAME_SIZE: usize = 13;

} // verus!
