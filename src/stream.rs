//! One TCPLS stream: a send buffer cut into stream frames, and a receive
//! buffer filled from the stream frames of incoming records.

use vstd::prelude::*;

use crate::utils::constant::{STREAM_FRAME, STREAM_FRAME_FIN, STREAM_HEADER_SIZE};
use crate::utils::conversion::{
    append_bytes, be16, be32, be64, push_be16, push_be32, push_be64, slice_to_u16, slice_to_u64,
    u16_of, u64_of,
};

verus! {

/// Length of the offset field of a stream frame.
pub const OFFSET_SIZE: usize = 8;
/// Length of the length field of a stream frame.
pub const LENGTH_SIZE: usize = 2;

/// What a stream holds.
pub ghost struct StreamModel {
    pub id: u32,
    /// Offset carried by the last stream frame received.
    pub rcv_offset: u64,
    /// Number of bytes of `snd` already cut into frames.
    pub snd_offset: u64,
    /// Bytes queued for sending.
    pub snd: Seq<u8>,
    /// Bytes received, in the order the frames were read.
    pub rcv: Seq<u8>,
}

/// Wire form of a stream frame: payload, then its length, the stream offset
/// of its first byte, the stream id, and the type byte.
pub open spec fn stream_frame(payload: Seq<u8>, offset: u64, id: u32, fin: bool) -> Seq<u8> {
    payload + be16(payload.len() as u16) + be64(offset) + be32(id) + seq![
        if fin {
            STREAM_FRAME_FIN
        } else {
            STREAM_FRAME
        },
    ]
}

/// The send offset stays within the send buffer, whose length fits 64 bits.
pub open spec fn model_wf(s: StreamModel) -> bool {
    s.snd_offset <= s.snd.len() <= u64::MAX
}

/// Number of queued bytes not yet cut into frames.
pub open spec fn remaining(s: StreamModel) -> int {
    s.snd.len() - s.snd_offset
}

/// Whether the next frame for `budget` bytes carries all that remains.
pub open spec fn chunk_is_last(s: StreamModel, budget: nat) -> bool {
    remaining(s) + STREAM_HEADER_SIZE <= budget
}

/// Payload length of the next frame for `budget` bytes.
pub open spec fn chunk_len(s: StreamModel, budget: nat) -> int {
    if chunk_is_last(s, budget) {
        remaining(s)
    } else {
        budget - STREAM_HEADER_SIZE
    }
}

/// Payload of the next frame for `budget` bytes.
pub open spec fn chunk(s: StreamModel, budget: nat) -> Seq<u8> {
    s.snd.subrange(s.snd_offset as int, s.snd_offset + chunk_len(s, budget))
}

/// The next frame for `budget` bytes.
pub open spec fn next_frame(s: StreamModel, budget: nat) -> Seq<u8> {
    stream_frame(chunk(s, budget), s.snd_offset, s.id, chunk_is_last(s, budget))
}

/// The stream once the next frame for `budget` bytes is cut.
pub open spec fn after_frame(s: StreamModel, budget: nat) -> StreamModel {
    StreamModel { snd_offset: (s.snd_offset + chunk_len(s, budget)) as u64, ..s }
}

/// A budget with which a frame carries at least one byte and its length fits
/// the 16-bit length field.
pub open spec fn valid_budget(budget: nat) -> bool {
    STREAM_HEADER_SIZE + 1 <= budget <= STREAM_HEADER_SIZE + 0xffff
}

/// Whether `data` ends with an offset field preceded by a length field, and
/// that many payload bytes before them.
pub open spec fn holds_stream_frame(data: Seq<u8>) -> bool {
    &&& data.len() >= OFFSET_SIZE + LENGTH_SIZE
    &&& data.len() >= OFFSET_SIZE + LENGTH_SIZE + frame_data_len(data)
}

/// Offset field at the end of `data`.
pub open spec fn frame_offset(data: Seq<u8>) -> u64 {
    u64_of(data.subrange(data.len() - OFFSET_SIZE, data.len() as int))
}

/// Length field before the offset field at the end of `data`.
pub open spec fn frame_data_len(data: Seq<u8>) -> u16 {
    u16_of(
        data.subrange(
            data.len() - OFFSET_SIZE - LENGTH_SIZE,
            data.len() - OFFSET_SIZE,
        ),
    )
}

/// Payload bytes before the length field at the end of `data`.
pub open spec fn frame_data(data: Seq<u8>) -> Seq<u8> {
    let end = data.len() - OFFSET_SIZE - LENGTH_SIZE;
    data.subrange(end - frame_data_len(data), end)
}

/// Number of bytes of a stream frame at the end of `data`, type and id excluded.
pub open spec fn frame_consumed(data: Seq<u8>) -> int {
    frame_data_len(data) + OFFSET_SIZE + LENGTH_SIZE
}

/// The stream once it has read the stream frame at the end of `data`.
pub open spec fn after_read(s: StreamModel, data: Seq<u8>) -> StreamModel {
    StreamModel { rcv_offset: frame_offset(data), rcv: s.rcv + frame_data(data), ..s }
}

/// Concatenation of the payloads of the frames cut from `s` with `budget`
/// bytes each, until nothing remains.
pub open spec fn drained(s: StreamModel, budget: nat) -> Seq<u8>
    decreases remaining(s),
{
    if remaining(s) <= 0 || !valid_budget(budget) || !model_wf(s) {
        Seq::empty()
    } else {
        chunk(s, budget) + drained(after_frame(s, budget), budget)
    }
}

/// The stream once every frame is cut from `s` with `budget` bytes each.
pub open spec fn drained_state(s: StreamModel, budget: nat) -> StreamModel
    decreases remaining(s),
{
    if remaining(s) <= 0 || !valid_budget(budget) || !model_wf(s) {
        s
    } else {
        drained_state(after_frame(s, budget), budget)
    }
}

/// Cutting frames from a stream until none is left hands out exactly the
/// bytes that were queued and not yet sent, in order, and leaves the send
/// offset at the end of the send buffer.
pub proof fn lemma_drain_sends_all(s: StreamModel, budget: nat)
    requires
        model_wf(s),
        valid_budget(budget),
    ensures
        drained(s, budget) == s.snd.subrange(s.snd_offset as int, s.snd.len() as int),
        drained_state(s, budget).snd_offset == s.snd.len(),
        drained_state(s, budget).snd == s.snd,
        drained_state(s, budget).rcv == s.rcv,
    decreases remaining(s),
{
    if remaining(s) > 0 {
        let t = after_frame(s, budget);
        lemma_drain_sends_all(t, budget);
        assert(drained(s, budget) =~= s.snd.subrange(s.snd_offset as int, s.snd.len() as int));
    } else {
        assert(s.snd.subrange(s.snd_offset as int, s.snd.len() as int) =~= Seq::<u8>::empty());
    }
}

/// Data queued on a stream that had sent all it held comes out of the
/// frames cut from it, whole and in order, and the send offset ends past it.
pub proof fn lemma_appended_data_is_sent(s: StreamModel, d: Seq<u8>, budget: nat)
    requires
        s.snd_offset == s.snd.len(),
        s.snd.len() + d.len() <= u64::MAX,
        valid_budget(budget),
    ensures
        drained(StreamModel { snd: s.snd + d, ..s }, budget) == d,
        drained_state(StreamModel { snd: s.snd + d, ..s }, budget).snd_offset == s.snd.len()
            + d.len(),
{
    let t = StreamModel { snd: s.snd + d, ..s };
    lemma_drain_sends_all(t, budget);
    assert(t.snd.subrange(t.snd_offset as int, t.snd.len() as int) =~= d);
}

/// A TCPLS stream with its send and receive buffers.
#[derive(Debug)]
pub struct TcplsStream {
    stream_id: u32,
    rcv_offset: u64,
    snd_offset: u64,
    snd_data: Vec<u8>,
    rcv_data: Vec<u8>,
}

impl View for TcplsStream {
    type V = StreamModel;

    closed spec fn view(&self) -> StreamModel {
        StreamModel {
            id: self.stream_id,
            rcv_offset: self.rcv_offset,
            snd_offset: self.snd_offset,
            snd: self.snd_data@,
            rcv: self.rcv_data@,
        }
    }
}

impl TcplsStream {
    /// Frames never run past the queued bytes.
    pub open spec fn wf(&self) -> bool {
        model_wf(self@)
    }

    /// Creates a stream with nothing to send and `r_data` as received bytes.
    pub fn new(stream_id: u32, r_data: Vec<u8>) -> (s: Self)
        ensures
            s.wf(),
            s@ == (StreamModel {
                id: stream_id,
                rcv_offset: 0,
                snd_offset: 0,
                snd: Seq::empty(),
                rcv: r_data@,
            }),
    {
        TcplsStream {
            stream_id,
            rcv_offset: 0,
            snd_offset: 0,
            snd_data: Vec::new(),
            rcv_data: r_data,
        }
    }

    /// Reads the stream frame that ends `new_data`, whose type byte and
    /// stream id were already taken off, and returns the number of bytes it
    /// took: payload, length and offset.
    pub fn read_stream_frame(&mut self, new_data: &[u8]) -> (consumed: usize)
        requires
            old(self).wf(),
            holds_stream_frame(new_data@),
        ensures
            final(self).wf(),
            final(self)@ == after_read(old(self)@, new_data@),
            consumed == frame_consumed(new_data@),
    {
        let mut cursor: usize = new_data.len();
        let offset_bytes = vstd::slice::slice_subrange(new_data, cursor - OFFSET_SIZE, cursor);
        let stream_offset = slice_to_u64(offset_bytes).unwrap();
        cursor = cursor - OFFSET_SIZE;
        self.rcv_offset = stream_offset;
        let len_bytes = vstd::slice::slice_subrange(new_data, cursor - LENGTH_SIZE, cursor);
        let stream_len = slice_to_u16(len_bytes).unwrap();
        cursor = cursor - LENGTH_SIZE;
        let payload = vstd::slice::slice_subrange(new_data, cursor - stream_len as usize, cursor);
        append_bytes(&mut self.rcv_data, payload);
        stream_len as usize + OFFSET_SIZE + LENGTH_SIZE
    }

    /// Cuts the next frame from the queued bytes, at most `max_size` bytes
    /// long: a `STREAM` frame when what remains does not fit, else a
    /// `STREAM_FIN` frame with all of it. `None` when nothing remains.
    pub fn create_stream_frame(&mut self, max_size: usize) -> (r: Option<Vec<u8>>)
        requires
            old(self).wf(),
            valid_budget(max_size as nat),
        ensures
            final(self).wf(),
            r is Some <==> remaining(old(self)@) > 0,
            r is None ==> final(self)@ == old(self)@,
            r is Some ==> {
                &&& r->0@ == next_frame(old(self)@, max_size as nat)
                &&& final(self)@ == after_frame(old(self)@, max_size as nat)
                &&& r->0@.len() <= max_size
            },
    {
        if self.snd_data.len() as u64 <= self.snd_offset {
            return None;
        }
        let ghost s = self@;
        let start = self.snd_offset as usize;
        let mut typ: u8 = STREAM_FRAME;
        let end: usize;
        if self.snd_data.len() - start > max_size - STREAM_HEADER_SIZE {
            end = start + (max_size - STREAM_HEADER_SIZE);
        } else {
            end = self.snd_data.len();
            typ = STREAM_FRAME_FIN;
        }
        let mut frame: Vec<u8> = Vec::new();
        append_bytes(&mut frame, vstd::slice::slice_subrange(self.snd_data.as_slice(), start, end));
        let cp_len = (end - start) as u16;
        self.add_meta_data_to_frame(&mut frame, cp_len, typ);
        self.snd_offset = self.snd_offset + cp_len as u64;
        assert(frame@ =~= next_frame(s, max_size as nat));
        Some(frame)
    }

    /// Appends the trailer of a stream frame: length, offset, id and type.
    fn add_meta_data_to_frame(&self, frame: &mut Vec<u8>, len: u16, type_value: u8)
        ensures
            final(frame)@ == old(frame)@ + be16(len) + be64(self@.snd_offset) + be32(self@.id)
                + seq![type_value],
    {
        push_be16(frame, len);
        push_be64(frame, self.snd_offset);
        push_be32(frame, self.stream_id);
        frame.push(type_value);
        assert(final(frame)@ =~= old(frame)@ + be16(len) + be64(self@.snd_offset) + be32(self@.id)
            + seq![type_value]);
    }

    /// The bytes received so far.
    pub fn get_stream_data(&self) -> (r: &[u8])
        ensures
            r@ == self@.rcv,
    {
        self.rcv_data.as_slice()
    }

    /// Queues `data` for sending.
    pub fn add_data_to_send(&mut self, data: &[u8])
        requires
            old(self).wf(),
        ensures
            final(self).wf(),
            final(self)@ == (StreamModel { snd: old(self)@.snd + data@, ..old(self)@ }),
    {
        append_bytes(&mut self.snd_data, data);
    }

    /// Whether some queued bytes are not yet cut into frames.
    pub fn has_data_to_send(&self) -> (r: bool)
        ensures
            r == (remaining(self@) > 0),
    {
        (self.snd_data.len() as u64) > self.snd_offset
    }

    /// The stream id.
    pub fn get_id(&self) -> (r: u32)
        ensures
            r == self@.id,
    {
        self.stream_id
    }

    /// Length of the send buffer.
    pub fn get_len_snd_buf(&self) -> (r: usize)
        ensures
            r == self@.snd.len(),
    {
        self.snd_data.len()
    }

    /// Length of the receive buffer.
    pub fn get_len_recv_buf(&self) -> (r: usize)
        ensures
            r == self@.rcv.len(),
    {
        self.rcv_data.len()
    }

    /// Number of queued bytes already cut into frames.
    pub fn get_snd_offset(&self) -> (r: u64)
        ensures
            r == self@.snd_offset,
    {
        self.snd_offset
    }

    /// Offset carried by the last stream frame received.
    pub fn get_rcv_offset(&self) -> (r: u64)
        ensures
            r == self@.rcv_offset,
    {
        self.rcv_offset
    }
}

/// Collects the bytes a new stream is to send, then builds it.
pub struct TcplsStreamBuilder {
    stream_id: u32,
    snd_data: Vec<u8>,
}

impl View for TcplsStreamBuilder {
    /// The stream id and the bytes collected.
    type V = (u32, Seq<u8>);

    closed spec fn view(&self) -> (u32, Seq<u8>) {
        (self.stream_id, self.snd_data@)
    }
}

impl TcplsStreamBuilder {
    /// Starts a builder for stream `stream_id` with no bytes.
    pub fn new(stream_id: u32) -> (b: Self)
        ensures
            b@ == (stream_id, Seq::<u8>::empty()),
    {
        TcplsStreamBuilder { stream_id, snd_data: Vec::new() }
    }

    /// Adds `data` after the bytes collected so far.
    pub fn add_data(&mut self, data: &[u8])
        ensures
            final(self)@ == (old(self)@.0, old(self)@.1 + data@),
    {
        append_bytes(&mut self.snd_data, data);
    }

    /// The stream, with the collected bytes queued and nothing sent or received.
    pub fn build(self) -> (s: TcplsStream)
        ensures
            s.wf(),
            s@ == (StreamModel {
                id: self@.0,
                rcv_offset: 0,
                snd_offset: 0,
                snd: self@.1,
                rcv: Seq::empty(),
            }),
    {
        // a vector's length is a usize
        let _len: usize = self.snd_data.len();
        TcplsStream {
            stream_id: self.stream_id,
            rcv_offset: 0,
            snd_offset: 0,
            snd_data: self.snd_data,
            rcv_data: Vec::new(),
        }
    }
}

} // verus!
