//! A TCPLS connection: the stream registry, record assembly, the reverse
//! scan that dispatches the frames of a received record, and ACK staging.

use vstd::prelude::*;
use vstd::string::StringExecFns;

use crate::error::Error;
use crate::frame::{ack_fields, ack_frame};
use crate::stream::{
    after_frame, after_read, frame_consumed, holds_stream_frame, model_wf, next_frame, remaining,
    StreamModel, TcplsStream, TcplsStreamBuilder, LENGTH_SIZE, OFFSET_SIZE,
};
use crate::utils::constant::{
    ACK_FRAME, ACK_FRAME_SIZE, CONNECTION_RESET_FRAME, MAX_RECORD_SIZE, MIN_STREAM_DATA_SIZE,
    NEW_ADDRESS_FRAME, NEW_TOKEN_FRAME, PADDING_FRAME, PING_FRAME, REMOVE_ADDRESS_FRAME,
    STREAM_CHANGE_FRAME, STREAM_FRAME, STREAM_FRAME_FIN,
};
use crate::utils::conversion::{
    append_bytes, push_be32, push_be64, slice_to_u16, slice_to_u32, slice_to_u64, u32_of,
};
use crate::utils::text::{decimal, push_decimal};

verus! {

/// Length of the stream id field of a stream frame.
pub const STREAM_ID_SIZE: usize = 4;

/// Which side of the TLS session a connection stands on.
#[derive(Debug, Clone, Copy, PartialEq, Eq, Structural)]
pub enum Role {
    Client,
    Server,
}

/// What a connection holds.
pub ghost struct ConnModel {
    pub conn_id: u32,
    /// Registry keys, in the order they were first registered.
    pub keys: Seq<u32>,
    /// The stream registered under each key.
    pub streams: Seq<StreamModel>,
    pub last_stream_id_created: u32,
    /// ACK frames staged for the next record.
    pub ctrl: Seq<u8>,
    /// Last TLS record sequence number sent, echoed in the ACKs staged.
    pub internal_seq: u64,
    pub ack_received: bool,
    pub role: Role,
    pub last_stream_processed: u32,
    /// Sequence number carried by the last ACK received.
    pub seq_received: u64,
}

/// Whether `key` is registered in `keys`.
pub open spec fn has_key(keys: Seq<u32>, key: u32) -> bool {
    exists|i: int| 0 <= i < keys.len() && keys[i] == key
}

/// Position of `key` in `keys`, or -1.
pub open spec fn key_index(keys: Seq<u32>, key: u32) -> int {
    if has_key(keys, key) {
        choose|i: int| 0 <= i < keys.len() && keys[i] == key
    } else {
        -1
    }
}

/// Registry keys are unique and every stream is well formed; the streams
/// that the bookkeeping names exist, and the staged ACKs fit a record.
pub open spec fn conn_wf(c: ConnModel) -> bool {
    &&& c.keys.len() == c.streams.len()
    &&& forall|i: int, j: int|
        0 <= i < c.keys.len() && 0 <= j < c.keys.len() && i != j ==> c.keys[i] != c.keys[j]
    &&& forall|i: int| 0 <= i < c.streams.len() ==> model_wf(#[trigger] c.streams[i])
    &&& has_key(c.keys, 0)
    &&& has_key(c.keys, c.last_stream_id_created)
    &&& has_key(c.keys, c.last_stream_processed)
    &&& c.ctrl.len() <= MAX_RECORD_SIZE
    &&& acks_only(c.ctrl)
}

/// `ctrl` is a run of whole ACK frames.
pub open spec fn acks_only(ctrl: Seq<u8>) -> bool
    decreases ctrl.len(),
{
    if ctrl.len() == 0 {
        true
    } else {
        &&& ctrl.len() >= ACK_FRAME_SIZE
        &&& ctrl.last() == ACK_FRAME
        &&& acks_only(ctrl.subrange(0, ctrl.len() - ACK_FRAME_SIZE))
    }
}

/// The connection once it has staged an ACK, if one more fits a record.
pub open spec fn stage_ack(c: ConnModel) -> ConnModel {
    if c.ctrl.len() + ACK_FRAME_SIZE <= MAX_RECORD_SIZE {
        ConnModel { ctrl: c.ctrl + ack_frame(c.internal_seq, c.conn_id), ..c }
    } else {
        c
    }
}

/// Whether some stream has bytes not yet cut into frames.
pub open spec fn any_data(ss: Seq<StreamModel>) -> bool {
    exists|i: int| 0 <= i < ss.len() && remaining(#[trigger] ss[i]) > 0
}

/// Record assembly over the streams `ss`, in registry order, with `reserved`
/// bytes of the record kept for the staged ACKs: the stream frames cut, and
/// the streams afterwards. A stream with bytes left gets a frame as long as
/// more than `MIN_STREAM_DATA_SIZE` bytes of the record are free.
pub open spec fn assemble(ss: Seq<StreamModel>, reserved: nat) -> (Seq<u8>, Seq<StreamModel>)
    decreases ss.len(),
{
    if ss.len() == 0 {
        (Seq::empty(), Seq::empty())
    } else {
        let (rec, done) = assemble(ss.drop_last(), reserved);
        let s = ss.last();
        let space = MAX_RECORD_SIZE - reserved - rec.len();
        if remaining(s) > 0 && space > MIN_STREAM_DATA_SIZE {
            (rec + next_frame(s, space as nat), done.push(after_frame(s, space as nat)))
        } else {
            (rec, done.push(s))
        }
    }
}

/// The record handed to TLS: the stream frames, then the staged ACKs; a
/// single padding byte when there is nothing to send.
pub open spec fn record_of(c: ConnModel) -> Seq<u8> {
    let out = assemble(c.streams, c.ctrl.len()).0 + c.ctrl;
    if out.len() == 0 {
        seq![PADDING_FRAME]
    } else {
        out
    }
}

/// The connection once its next record is assembled.
pub open spec fn after_record(c: ConnModel) -> ConnModel {
    ConnModel { streams: assemble(c.streams, c.ctrl.len()).1, ctrl: Seq::empty(), ..c }
}

/// A frame found by the reverse scan of a record.
#[derive(Debug, Clone, Copy, PartialEq, Eq, Structural)]
pub enum ParsedFrame {
    Padding,
    Ping,
    Ack { highest_record_seq: u64, conn_id: u32 },
    /// A stream frame; the bytes handed to the stream are those of the
    /// record before `end`, where the frame's stream id starts.
    Stream { stream_id: u32, end: usize },
}

/// The frame whose type byte is at `end - 1` in record `p`, with the number
/// of bytes it spans; or why none can be read there.
pub open spec fn frame_at(p: Seq<u8>, end: int) -> Result<(ParsedFrame, int), Error> {
    let tag = p[end - 1];
    if tag == PADDING_FRAME {
        Ok((ParsedFrame::Padding, 1))
    } else if tag == PING_FRAME {
        Ok((ParsedFrame::Ping, 1))
    } else if tag == ACK_FRAME {
        if end >= ACK_FRAME_SIZE {
            let (seq, id) = ack_fields(p.subrange(end - ACK_FRAME_SIZE, end));
            Ok((ParsedFrame::Ack { highest_record_seq: seq, conn_id: id }, ACK_FRAME_SIZE as int))
        } else {
            Err(Error::BadSliceLength)
        }
    } else if tag == STREAM_FRAME || tag == STREAM_FRAME_FIN {
        if end >= STREAM_ID_SIZE + 1 && holds_stream_frame(p.subrange(0, end - STREAM_ID_SIZE - 1)) {
            let id = u32_of(p.subrange(end - STREAM_ID_SIZE - 1, end - 1));
            let data_end = end - STREAM_ID_SIZE - 1;
            Ok(
                (
                    ParsedFrame::Stream { stream_id: id, end: data_end as usize },
                    frame_consumed(p.subrange(0, data_end)) + STREAM_ID_SIZE + 1,
                ),
            )
        } else {
            Err(Error::BadSliceLength)
        }
    } else {
        Err(Error::UnknownTcplsType)
    }
}

/// The frames of `p[..end]`, read from the end toward the start; or the
/// first error met on the way.
pub open spec fn parse_from(p: Seq<u8>, end: int) -> Result<Seq<ParsedFrame>, Error>
    decreases end,
{
    if end <= 0 {
        Ok(Seq::empty())
    } else {
        match frame_at(p, end) {
            Err(e) => Err(e),
            Ok((f, n)) => if n <= 0 || n > end {
                Err(Error::BadSliceLength)
            } else {
                match parse_from(p, end - n) {
                    Ok(rest) => Ok(seq![f] + rest),
                    Err(e) => Err(e),
                }
            },
        }
    }
}

/// The frames of record `p`, last frame first.
pub open spec fn parse_record(p: Seq<u8>) -> Result<Seq<ParsedFrame>, Error> {
    parse_from(p, p.len() as int)
}

/// A stream created on receipt of a frame for an unknown id.
pub open spec fn fresh_stream(id: u32) -> StreamModel {
    StreamModel { id, rcv_offset: 0, snd_offset: 0, snd: Seq::empty(), rcv: Seq::empty() }
}

/// The connection once stream `id` (created if unknown) has read the stream
/// frame at the end of `data`.
pub open spec fn receive_on(c: ConnModel, id: u32, data: Seq<u8>) -> ConnModel {
    if has_key(c.keys, id) {
        let k = key_index(c.keys, id);
        ConnModel {
            streams: c.streams.update(k, after_read(c.streams[k], data)),
            last_stream_processed: id,
            ..c
        }
    } else {
        ConnModel {
            keys: c.keys.push(id),
            streams: c.streams.push(after_read(fresh_stream(id), data)),
            last_stream_processed: id,
            ..c
        }
    }
}

/// The connection once it has handled frame `f` of record `p`.
pub open spec fn apply_frame(c: ConnModel, f: ParsedFrame, p: Seq<u8>) -> ConnModel {
    match f {
        ParsedFrame::Padding => c,
        ParsedFrame::Ping => stage_ack(c),
        ParsedFrame::Ack { highest_record_seq, conn_id } => ConnModel {
            ack_received: true,
            seq_received: highest_record_seq,
            ..c
        },
        ParsedFrame::Stream { stream_id, end } => receive_on(c, stream_id, p.subrange(0, end as int)),
    }
}

/// The connection once it has handled the frames `fs` of record `p`, in order.
pub open spec fn apply_frames(c: ConnModel, fs: Seq<ParsedFrame>, p: Seq<u8>) -> ConnModel
    decreases fs.len(),
{
    if fs.len() == 0 {
        c
    } else {
        apply_frame(apply_frames(c, fs.drop_last(), p), fs.last(), p)
    }
}

/// `r` with the frames `acc` put in front of its frames.
pub open spec fn prepend(acc: Seq<ParsedFrame>, r: Result<Seq<ParsedFrame>, Error>) -> Result<
    Seq<ParsedFrame>,
    Error,
> {
    match r {
        Ok(rest) => Ok(acc + rest),
        Err(e) => Err(e),
    }
}

proof fn lemma_prepend_push(acc: Seq<ParsedFrame>, f: ParsedFrame, r: Result<Seq<ParsedFrame>, Error>)
    ensures
        prepend(acc, prepend(seq![f], r)) == prepend(acc.push(f), r),
{
    if let Ok(rest) = r {
        assert(acc + (seq![f] + rest) =~= acc.push(f) + rest);
    }
}

/// A stream frame of `p` points at bytes of `p` that hold one.
pub open spec fn frame_in_record(f: ParsedFrame, p: Seq<u8>) -> bool {
    match f {
        ParsedFrame::Stream { stream_id, end } => end <= p.len() && holds_stream_frame(
            p.subrange(0, end as int),
        ),
        _ => true,
    }
}

/// One line of the per-stream report: its id and a buffer length.
pub open spec fn stream_line(id: u32, verb: Seq<char>, len: nat) -> Seq<char> {
    "\nStream "@ + decimal(id as nat) + verb + decimal(len) + " bytes.\n"@
}

/// The per-stream report on the receive buffers (`sent` false) or the send
/// buffers (`sent` true), in registry order.
pub open spec fn streams_report(ss: Seq<StreamModel>, sent: bool) -> Seq<char>
    decreases ss.len(),
{
    if ss.len() == 0 {
        Seq::empty()
    } else {
        let s = ss.last();
        streams_report(ss.drop_last(), sent) + if sent {
            stream_line(s.id, " sent "@, s.snd.len())
        } else {
            stream_line(s.id, " received "@, s.rcv.len())
        }
    }
}

/// Manages the TCPLS layer above one TLS session.
#[derive(Debug)]
pub struct TcplsConnection {
    conn_id: u32,
    ids: Vec<u32>,
    streams: Vec<TcplsStream>,
    last_stream_id_created: u32,
    ctrl_buf: Vec<u8>,
    internal_highest_record_sequence: u64,
    ack_received: bool,
    role: Role,
    last_stream_processed: u32,
    highest_record_sequence_received: u64,
}

impl View for TcplsConnection {
    type V = ConnModel;

    closed spec fn view(&self) -> ConnModel {
        ConnModel {
            conn_id: self.conn_id,
            keys: self.ids@,
            streams: self.streams@.map_values(|s: TcplsStream| s@),
            last_stream_id_created: self.last_stream_id_created,
            ctrl: self.ctrl_buf@,
            internal_seq: self.internal_highest_record_sequence,
            ack_received: self.ack_received,
            role: self.role,
            last_stream_processed: self.last_stream_processed,
            seq_received: self.highest_record_sequence_received,
        }
    }
}

impl TcplsConnection {
    /// The registry and bookkeeping are consistent.
    pub open spec fn wf(&self) -> bool {
        conn_wf(self@)
    }

    /// A connection with stream 0, empty, as its only stream.
    pub fn new(conn_id: u32, role: Role) -> (c: Self)
        ensures
            c.wf(),
            c@ == (ConnModel {
                conn_id,
                keys: seq![0u32],
                streams: seq![
                    StreamModel {
                        id: 0,
                        rcv_offset: 0,
                        snd_offset: 0,
                        snd: Seq::empty(),
                        rcv: Seq::empty(),
                    },
                ],
                last_stream_id_created: 0,
                ctrl: Seq::empty(),
                internal_seq: 0,
                ack_received: false,
                role,
                last_stream_processed: 0,
                seq_received: 0,
            }),
    {
        let stream0 = TcplsStreamBuilder::new(0).build();
        let mut ids: Vec<u32> = Vec::new();
        ids.push(0);
        let mut streams: Vec<TcplsStream> = Vec::new();
        streams.push(stream0);
        let c = TcplsConnection {
            conn_id,
            ids,
            streams,
            last_stream_id_created: 0,
            ctrl_buf: Vec::new(),
            internal_highest_record_sequence: 0,
            ack_received: false,
            role,
            last_stream_processed: 0,
            highest_record_sequence_received: 0,
        };
        assert(c@.streams =~= seq![stream0@]);
        assert(c@.keys[0] == 0u32);
        c
    }

    /// Position of the stream registered under `id`.
    fn find_stream(&self, id: u32) -> (r: Option<usize>)
        requires
            self.wf(),
        ensures
            r is None <==> !has_key(self@.keys, id),
            r is Some ==> r->0 == key_index(self@.keys, id) && r->0 < self.streams@.len(),
    {
        let mut i: usize = 0;
        while i < self.ids.len()
            invariant
                self.wf(),
                0 <= i <= self@.keys.len(),
                forall|j: int| 0 <= j < i ==> self@.keys[j] != id,
            decreases self@.keys.len() - i,
        {
            if self.ids[i] == id {
                assert(has_key(self@.keys, id));
                assert(self@.keys[key_index(self@.keys, id)] == id);
                return Some(i);
            }
            i = i + 1;
        }
        None
    }

    /// Queues `data` on stream 0.
    pub fn set_data(&mut self, data: &[u8])
        requires
            old(self).wf(),
        ensures
            final(self).wf(),
            ({
                let k = key_index(old(self)@.keys, 0);
                final(self)@ == (ConnModel {
                    streams: old(self)@.streams.update(
                        k,
                        StreamModel { snd: old(self)@.streams[k].snd + data@, ..old(self)@.streams[k] },
                    ),
                    ..old(self)@
                })
            }),
    {
        let i = self.find_stream(0).unwrap();
        self.streams[i].add_data_to_send(data);
        assert(self@.streams =~= old(self)@.streams.update(
            i as int,
            StreamModel { snd: old(self)@.streams[i as int].snd + data@, ..old(self)@.streams[i as int] },
        ));
    }
    /// Assembles the next record: a frame from each stream with bytes left,
    /// in registry order, while the record has room, then the staged ACKs,
    /// which are cleared. Never longer than `MAX_RECORD_SIZE`.
    pub fn create_record(&mut self) -> (r: Result<Vec<u8>, Error>)
        requires
            old(self).wf(),
        ensures
            final(self).wf(),
            r is Ok,
            r->Ok_0@ == record_of(old(self)@),
            1 <= r->Ok_0@.len() <= MAX_RECORD_SIZE,
            final(self)@ == after_record(old(self)@),
    {
        let ghost old_streams = old(self)@.streams;
        let reserved = self.ctrl_buf.len();
        let mut record: Vec<u8> = Vec::new();
        let mut i: usize = 0;
        while i < self.streams.len()
            invariant
                old(self).wf(),
                reserved == old(self)@.ctrl.len(),
                0 <= i <= self@.streams.len(),
                self@.streams.len() == old_streams.len(),
                self@ == (ConnModel { streams: self@.streams, ..old(self)@ }),
                record@.len() + reserved <= MAX_RECORD_SIZE,
                (record@, self@.streams.take(i as int)) == assemble(old_streams.take(i as int), reserved as nat),
                forall|j: int| i <= j < old_streams.len() ==> #[trigger] self@.streams[j] == old_streams[j],
                forall|j: int| 0 <= j < self@.streams.len() ==> model_wf(#[trigger] self@.streams[j]),
                forall|j: int| 0 <= j < self@.streams.len() ==> (#[trigger] self@.streams[j]).id == old_streams[j].id,
            decreases old_streams.len() - i,
        {
            let ghost rec0 = record@;
            let ghost done0 = self@.streams.take(i as int);
            let ghost s = old_streams[i as int];
            assert(old_streams.take(i as int + 1).drop_last() =~= old_streams.take(i as int));
            assert(self@.streams[i as int] == self.streams@[i as int]@);
            assert(self.streams@[i as int].wf());
            let ghost pre = self@.streams;
            let space_left = MAX_RECORD_SIZE - reserved - record.len();
            if self.streams[i].has_data_to_send() && space_left > MIN_STREAM_DATA_SIZE {
                let frame = self.streams[i].create_stream_frame(space_left);
                if let Some(f) = frame {
                    append_bytes(&mut record, f.as_slice());
                }
                assert(self@.streams[i as int] == after_frame(s, space_left as nat));
                assert(self@.streams =~= pre.update(i as int, self@.streams[i as int]));
            }
            assert(self@.streams.take(i as int + 1) =~= done0.push(self@.streams[i as int]));
            i = i + 1;
        }
        assert(old_streams.take(i as int) =~= old_streams);
        assert(self@.streams.take(i as int) =~= self@.streams);
        if record.len() + self.ctrl_buf.len() <= MAX_RECORD_SIZE {
            append_bytes(&mut record, self.ctrl_buf.as_slice());
            self.ctrl_buf.clear();
        }
        assert(self@ == after_record(old(self)@));
        if record.len() == 0 {
            let mut pad: Vec<u8> = Vec::new();
            pad.push(PADDING_FRAME);
            assert(pad@ =~= seq![PADDING_FRAME]);
            Ok(pad)
        } else if record.len() <= MAX_RECORD_SIZE {
            Ok(record)
        } else {
            Err(Error::UnexpectedRecordSize)
        }
    }

    /// Handles one TLS plaintext record: reads its frames from the last
    /// byte toward the first, then handles them in that order. A ping
    /// stages an ACK, an ACK records its sequence number, a stream frame
    /// goes to its stream (created if unknown). A record with a reserved or
    /// unknown type byte, or a truncated frame, is refused whole and leaves
    /// the connection as it was.
    pub fn process_record(&mut self, payload: &Vec<u8>) -> (r: Result<(), Error>)
        requires
            old(self).wf(),
        ensures
            final(self).wf(),
            match parse_record(payload@) {
                Err(e) => r == Err::<(), Error>(e) && final(self)@ == old(self)@,
                Ok(fs) => r == Ok::<(), Error>(()) && final(self)@ == apply_frames(
                    old(self)@,
                    fs,
                    payload@,
                ),
            },
    {
        let ghost p = payload@;
        let mut frames: Vec<ParsedFrame> = Vec::new();
        let mut i: usize = payload.len();
        while i > 0
            invariant
                self.wf(),
                self@ == old(self)@,
                0 <= i <= p.len(),
                p == payload@,
                forall|j: int|
                    0 <= j < frames@.len() ==> frame_in_record(#[trigger] frames@[j], p),
                parse_record(p) == prepend(frames@, parse_from(p, i as int)),
            decreases i,
        {
            match Self::read_frame(payload, i) {
                Err(e) => {
                    return Err(e);
                },
                Ok((f, consumed)) => {
                    let ghost before = frames@;
                    frames.push(f);
                    assert(parse_from(p, i as int) == prepend(seq![f], parse_from(p, (i - consumed) as int)));
                    proof {
                        lemma_prepend_push(before, f, parse_from(p, (i - consumed) as int));
                    }
                    i = i - consumed;
                },
            }
        }
        assert(frames@ + Seq::<ParsedFrame>::empty() =~= frames@);
        let mut k: usize = 0;
        while k < frames.len()
            invariant
                self.wf(),
                p == payload@,
                parse_record(p) == Ok::<Seq<ParsedFrame>, Error>(frames@),
                0 <= k <= frames@.len(),
                self@ == apply_frames(old(self)@, frames@.take(k as int), p),
                forall|j: int|
                    0 <= j < frames@.len() ==> frame_in_record(#[trigger] frames@[j], p),
            decreases frames@.len() - k,
        {
            assert(frames@.take(k as int + 1).drop_last() =~= frames@.take(k as int));
            self.process_frame(payload, frames[k]);
            k = k + 1;
        }
        assert(frames@.take(k as int) =~= frames@);
        Ok(())
    }

    /// Reads the frame whose type byte is at `end - 1`, and the number of
    /// bytes it spans.
    fn read_frame(payload: &Vec<u8>, end: usize) -> (r: Result<(ParsedFrame, usize), Error>)
        requires
            1 <= end <= payload@.len(),
        ensures
            match r {
                Ok((f, n)) => frame_at(payload@, end as int) == Ok::<(ParsedFrame, int), Error>(
                    (f, n as int),
                ) && 1 <= n <= end && frame_in_record(f, payload@),
                Err(e) => frame_at(payload@, end as int) == Err::<(ParsedFrame, int), Error>(e),
            },
    {
        let tag = payload[end - 1];
        if tag == PADDING_FRAME {
            Ok((ParsedFrame::Padding, 1))
        } else if tag == PING_FRAME {
            Ok((ParsedFrame::Ping, 1))
        } else if tag == ACK_FRAME {
            if end >= ACK_FRAME_SIZE {
                let (seq, id) = Self::read_ack(payload, end);
                Ok((ParsedFrame::Ack { highest_record_seq: seq, conn_id: id }, ACK_FRAME_SIZE))
            } else {
                Err(Error::BadSliceLength)
            }
        } else if tag == STREAM_FRAME || tag == STREAM_FRAME_FIN {
            if end < STREAM_ID_SIZE + 1 + OFFSET_SIZE + LENGTH_SIZE {
                return Err(Error::BadSliceLength);
            }
            let data_end = end - STREAM_ID_SIZE - 1;
            let len_bytes = vstd::slice::slice_subrange(
                payload.as_slice(),
                data_end - OFFSET_SIZE - LENGTH_SIZE,
                data_end - OFFSET_SIZE,
            );
            let data_len = slice_to_u16(len_bytes).unwrap() as usize;
            if data_end - OFFSET_SIZE - LENGTH_SIZE < data_len {
                return Err(Error::BadSliceLength);
            }
            let id_bytes = vstd::slice::slice_subrange(payload.as_slice(), data_end, end - 1);
            let id = slice_to_u32(id_bytes).unwrap();
            proof {
                let d = payload@.subrange(0, data_end as int);
                assert(d.subrange(d.len() - OFFSET_SIZE - LENGTH_SIZE, d.len() - OFFSET_SIZE)
                    =~= len_bytes@);
            }
            Ok(
                (
                    ParsedFrame::Stream { stream_id: id, end: data_end },
                    data_len + OFFSET_SIZE + LENGTH_SIZE + STREAM_ID_SIZE + 1,
                ),
            )
        } else if tag == NEW_TOKEN_FRAME || tag == CONNECTION_RESET_FRAME || tag == NEW_ADDRESS_FRAME
            || tag == REMOVE_ADDRESS_FRAME || tag == STREAM_CHANGE_FRAME {
            // reserved codepoints are not implemented: fatal
            Err(Error::UnknownTcplsType)
        } else {
            Err(Error::UnknownTcplsType)
        }
    }

    /// Reads the sequence number and connection id of the ACK frame whose
    /// type byte is at `end - 1`.
    fn read_ack(payload: &Vec<u8>, end: usize) -> (r: (u64, u32))
        requires
            ACK_FRAME_SIZE <= end <= payload@.len(),
        ensures
            r == ack_fields(payload@.subrange(end - ACK_FRAME_SIZE, end as int)),
    {
        let start = end - ACK_FRAME_SIZE;
        let conn_id = slice_to_u32(vstd::slice::slice_subrange(payload.as_slice(), end - 5, end - 1)).unwrap();
        let seq = slice_to_u64(vstd::slice::slice_subrange(payload.as_slice(), start, end - 5)).unwrap();
        proof {
            let a = payload@.subrange(start as int, end as int);
            assert(a.subrange(0, 8) =~= payload@.subrange(start as int, end - 5));
            assert(a.subrange(8, 12) =~= payload@.subrange(end - 5, end - 1));
        }
        (seq, conn_id)
    }

    /// Handles one frame of record `payload`.
    fn process_frame(&mut self, payload: &Vec<u8>, f: ParsedFrame)
        requires
            old(self).wf(),
            frame_in_record(f, payload@),
        ensures
            final(self).wf(),
            final(self)@ == apply_frame(old(self)@, f, payload@),
    {
        match f {
            ParsedFrame::Padding => {},
            ParsedFrame::Ping => {
                self.add_ack_frame();
            },
            ParsedFrame::Ack { highest_record_seq, conn_id: _ } => {
                self.ack_received = true;
                self.highest_record_sequence_received = highest_record_seq;
            },
            ParsedFrame::Stream { stream_id, end } => {
                self.recv_stream_frame(payload, stream_id, end);
            },
        }
    }

    /// Hands the stream frame that ends at `end` to stream `stream_id`,
    /// created if unknown, and returns the number of bytes it read.
    fn recv_stream_frame(&mut self, payload: &Vec<u8>, stream_id: u32, end: usize) -> (consumed: usize)
        requires
            old(self).wf(),
            end <= payload@.len(),
            holds_stream_frame(payload@.subrange(0, end as int)),
        ensures
            final(self).wf(),
            final(self)@ == receive_on(old(self)@, stream_id, payload@.subrange(0, end as int)),
            consumed == frame_consumed(payload@.subrange(0, end as int)),
    {
        let data = vstd::slice::slice_subrange(payload.as_slice(), 0, end);
        let i = match self.find_stream(stream_id) {
            Some(i) => i,
            None => {
                self.ids.push(stream_id);
                self.streams.push(TcplsStream::new(stream_id, Vec::new()));
                proof {
                    assert(self@.keys[self@.keys.len() - 1] == stream_id);
                    assert forall|k: u32| has_key(old(self)@.keys, k) implies has_key(self@.keys, k) by {
                        let j = choose|j: int| 0 <= j < old(self)@.keys.len() && old(self)@.keys[j] == k;
                        assert(self@.keys[j] == k);
                    }
                    assert(self@.streams =~= old(self)@.streams.push(fresh_stream(stream_id)));
                    assert(has_key(self@.keys, stream_id));
                    assert(key_index(self@.keys, stream_id) == self@.keys.len() - 1);
                }
                self.streams.len() - 1
            },
        };
        let ghost pre = self@.streams;
        self.last_stream_processed = stream_id;
        let consumed = self.streams[i].read_stream_frame(data);
        assert(self@.streams =~= pre.update(i as int, after_read(pre[i as int], data@)));
        proof {
            if !has_key(old(self)@.keys, stream_id) {
                assert(self@.streams =~= old(self)@.streams.push(
                    after_read(fresh_stream(stream_id), data@),
                ));
            }
        }
        consumed
    }

    /// The id, receive offset and receive buffer length of the stream that
    /// read the last stream frame.
    pub fn get_last_stream_processed_info(&self) -> (r: String)
        requires
            self.wf(),
        ensures
            ({
                let s = self@.streams[key_index(self@.keys, self@.last_stream_processed)];
                r@ == "Stream ID: "@ + decimal(s.id as nat) + "\n                  offset: "@
                    + decimal(s.rcv_offset as nat) + "\n                  current length: "@
                    + decimal(s.rcv.len())
            }),
    {
        let i = self.find_stream(self.last_stream_processed).unwrap();
        let stream = &self.streams[i];
        let mut info = String::from_str("Stream ID: ");
        push_decimal(&mut info, stream.get_id() as u64);
        info.append("\n                  offset: ");
        push_decimal(&mut info, stream.get_rcv_offset());
        info.append("\n                  current length: ");
        push_decimal(&mut info, stream.get_len_recv_buf() as u64);
        info
    }

    /// The sequence number carried by the last ACK received.
    pub fn get_last_ack_info(&self) -> (r: String)
        ensures
            r@ == "Highest record sequence received: "@ + decimal(self@.seq_received as nat),
    {
        let mut info = String::from_str("Highest record sequence received: ");
        push_decimal(&mut info, self.highest_record_sequence_received);
        info
    }

    /// A line per stream with its id and the number of bytes it received.
    pub fn get_streams_received_info(&self) -> (r: String)
        ensures
            r@ == streams_report(self@.streams, false),
    {
        self.streams_info(false)
    }

    /// A line per stream with its id and the number of bytes it queued.
    pub fn get_streams_sent_info(&self) -> (r: String)
        ensures
            r@ == streams_report(self@.streams, true),
    {
        self.streams_info(true)
    }

    fn streams_info(&self, sent: bool) -> (r: String)
        ensures
            r@ == streams_report(self@.streams, sent),
    {
        let mut info = String::new();
        let mut i: usize = 0;
        while i < self.streams.len()
            invariant
                0 <= i <= self@.streams.len(),
                info@ == streams_report(self@.streams.take(i as int), sent),
            decreases self@.streams.len() - i,
        {
            let stream = &self.streams[i];
            assert(self@.streams[i as int] == stream@);
            assert(self@.streams.take(i as int + 1).drop_last() =~= self@.streams.take(i as int));
            let ghost before = info@;
            info.append("\nStream ");
            push_decimal(&mut info, stream.get_id() as u64);
            if sent {
                info.append(" sent ");
                push_decimal(&mut info, stream.get_len_snd_buf() as u64);
            } else {
                info.append(" received ");
                push_decimal(&mut info, stream.get_len_recv_buf() as u64);
            }
            info.append(" bytes.\n");
            assert(info@ =~= before + if sent {
                stream_line(stream@.id, " sent "@, stream@.snd.len())
            } else {
                stream_line(stream@.id, " received "@, stream@.rcv.len())
            });
            i = i + 1;
        }
        assert(self@.streams.take(i as int) =~= self@.streams);
        info
    }

    /// Registers `n_stream` under `id`, replacing the stream already under
    /// that id in its place, and remembers `id` as the last stream created.
    pub fn attach_stream(&mut self, n_stream: TcplsStream, id: u32)
        requires
            old(self).wf(),
            n_stream.wf(),
        ensures
            final(self).wf(),
            final(self)@ == (if has_key(old(self)@.keys, id) {
                ConnModel {
                    streams: old(self)@.streams.update(key_index(old(self)@.keys, id), n_stream@),
                    last_stream_id_created: id,
                    ..old(self)@
                }
            } else {
                ConnModel {
                    keys: old(self)@.keys.push(id),
                    streams: old(self)@.streams.push(n_stream@),
                    last_stream_id_created: id,
                    ..old(self)@
                }
            }),
    {
        let ghost m = n_stream@;
        match self.find_stream(id) {
            Some(i) => {
                self.streams.set(i, n_stream);
                assert(self@.streams =~= old(self)@.streams.update(i as int, m));
            },
            None => {
                self.ids.push(id);
                self.streams.push(n_stream);
                assert(self@.streams =~= old(self)@.streams.push(m));
                assert(self@.keys[self@.keys.len() - 1] == id);
                assert forall|k: u32| has_key(old(self)@.keys, k) implies has_key(self@.keys, k) by {
                    let j = choose|j: int| 0 <= j < old(self)@.keys.len() && old(self)@.keys[j] == k;
                    assert(self@.keys[j] == k);
                }
            },
        }
        self.last_stream_id_created = id;
    }

    /// The connection id.
    pub fn get_id(&self) -> (r: u32)
        ensures
            r == self@.conn_id,
    {
        self.conn_id
    }

    /// Whether some stream has bytes not yet cut into frames.
    pub fn has_data(&self) -> (r: bool)
        requires
            self.wf(),
        ensures
            r == any_data(self@.streams),
    {
        let mut ans: bool = false;
        let mut i: usize = 0;
        while i < self.streams.len()
            invariant
                0 <= i <= self@.streams.len(),
                ans == exists|j: int| 0 <= j < i && remaining(#[trigger] self@.streams[j]) > 0,
            decreases self@.streams.len() - i,
        {
            let has = self.streams[i].has_data_to_send();
            assert(self@.streams[i as int] == self.streams@[i as int]@);
            ans = ans || has;
            i = i + 1;
        }
        ans
    }

    /// Records the sequence number of the last TLS record sent; the ACKs
    /// staged from now on carry it.
    pub fn update_tls_seq(&mut self, tls_seq: u64)
        requires
            old(self).wf(),
        ensures
            final(self).wf(),
            final(self)@ == (ConnModel { internal_seq: tls_seq, ..old(self)@ }),
    {
        self.internal_highest_record_sequence = tls_seq;
    }

    /// The sequence number of the last TLS record sent.
    pub fn get_highest_tls_record_seq(&self) -> (r: u64)
        ensures
            r == self@.internal_seq,
    {
        self.internal_highest_record_sequence
    }

    /// Stages an ACK for the last TLS record sent, unless the staged ACKs
    /// would no longer fit a record: then the ACK is dropped.
    pub fn add_ack_frame(&mut self)
        requires
            old(self).wf(),
        ensures
            final(self).wf(),
            final(self)@ == stage_ack(old(self)@),
    {
        if self.ctrl_buf.len() + ACK_FRAME_SIZE <= MAX_RECORD_SIZE {
            push_be64(&mut self.ctrl_buf, self.internal_highest_record_sequence);
            push_be32(&mut self.ctrl_buf, self.conn_id);
            self.ctrl_buf.push(ACK_FRAME);
            assert(self@.ctrl =~= old(self)@.ctrl + ack_frame(old(self)@.internal_seq, old(self)@.conn_id));
            assert(self@.ctrl.subrange(0, self@.ctrl.len() - ACK_FRAME_SIZE) =~= old(self)@.ctrl);
        }
    }

    /// The bytes received on stream `id`.
    pub fn get_stream_data(&self, id: u32) -> (r: Result<&[u8], Error>)
        requires
            self.wf(),
        ensures
            r is Err <==> !has_key(self@.keys, id),
            r is Err ==> r == Err::<&[u8], Error>(Error::StreamNotFound),
            r is Ok ==> r->Ok_0@ == self@.streams[key_index(self@.keys, id)].rcv,
    {
        match self.find_stream(id) {
            Some(i) => Ok(self.streams[i].get_stream_data()),
            None => Err(Error::StreamNotFound),
        }
    }

    /// Queues `data` on the stream attached last (stream 0 before any).
    pub fn set_stream_data(&mut self, data: &[u8])
        requires
            old(self).wf(),
        ensures
            final(self).wf(),
            ({
                let k = key_index(old(self)@.keys, old(self)@.last_stream_id_created);
                final(self)@ == (ConnModel {
                    streams: old(self)@.streams.update(
                        k,
                        StreamModel { snd: old(self)@.streams[k].snd + data@, ..old(self)@.streams[k] },
                    ),
                    ..old(self)@
                })
            }),
    {
        let i = self.find_stream(self.last_stream_id_created).unwrap();
        self.streams[i].add_data_to_send(data);
        assert(self@.streams =~= old(self)@.streams.update(
            i as int,
            StreamModel { snd: old(self)@.streams[i as int].snd + data@, ..old(self)@.streams[i as int] },
        ));
    }

    /// Each registry key with the length of its stream's send buffer, in
    /// registry order.
    pub fn dbg_streams(&self) -> (r: Vec<(u32, usize)>)
        requires
            self.wf(),
        ensures
            r@.len() == self@.keys.len(),
            forall|i: int|
                0 <= i < r@.len() ==> #[trigger] r@[i] == (self@.keys[i], self@.streams[i].snd.len() as usize),
    {
        let mut r: Vec<(u32, usize)> = Vec::new();
        let mut i: usize = 0;
        while i < self.streams.len()
            invariant
                self.wf(),
                0 <= i <= self@.streams.len(),
                r@.len() == i,
                forall|j: int|
                    0 <= j < i ==> #[trigger] r@[j] == (self@.keys[j], self@.streams[j].snd.len() as usize),
            decreases self@.streams.len() - i,
        {
            r.push((self.ids[i], self.streams[i].get_len_snd_buf()));
            i = i + 1;
        }
        r
    }

    /// Flips the flag that tells an ACK was received.
    pub fn inv_ack(&mut self)
        requires
            old(self).wf(),
        ensures
            final(self).wf(),
            final(self)@ == (ConnModel { ack_received: !old(self)@.ack_received, ..old(self)@ }),
    {
        self.ack_received = !self.ack_received;
    }

    /// Whether an ACK was received (as last flipped by `inv_ack`).
    pub fn has_received_ack(&self) -> (r: bool)
        ensures
            r == self@.ack_received,
    {
        self.ack_received
    }

    /// The role of this side of the session.
    pub fn get_role(self) -> (r: Role)
        ensures
            r == self@.role,
    {
        self.role
    }
}

} // verus!
