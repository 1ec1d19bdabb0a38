use vstd::prelude::*;

verus! {

/// Errors of the TCPLS framing layer.
#[derive(Debug, PartialEq, Eq, Structural, Clone, Copy)]
pub enum Error {
    /// The buffer has not enough room to accept a new frame.
    NotEnoughPlace,
    /// The buffer with the frame to read is empty.
    EmptyBuffer,
    /// An unknown or reserved frame type was found in a record.
    UnknownTcplsType,
    /// No stream has the requested id.
    StreamNotFound,
    /// A slice handed to an integer decoder does not have the decoder's width,
    /// or a frame in a record is truncated.
    BadSliceLength,
    /// An assembled record is not between 1 and `MAX_RECORD_SIZE` bytes long.
    UnexpectedRecordSize,
}

} // verus!
