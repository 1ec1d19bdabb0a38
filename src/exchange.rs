//! What one peer's records do at the other peer: a record that
//! `create_record` assembles is read whole by `process_record`, and each
//! stream of the receiver grows by the payload that the record carries for it.

use vstd::prelude::*;

use crate::connection::{
    acks_only, apply_frames, assemble, conn_wf, frame_at, frame_in_record, has_key, key_index,
    parse_from, parse_record, receive_on, record_of, ConnModel, ParsedFrame,
};
use crate::stream::{
    chunk, chunk_len, frame_data, frame_data_len, holds_stream_frame, model_wf, next_frame,
    remaining, StreamModel,
};
use crate::utils::constant::{
    ACK_FRAME_SIZE, MAX_RECORD_SIZE, MIN_STREAM_DATA_SIZE, PADDING_FRAME, STREAM_HEADER_SIZE,
};
use crate::utils::conversion::{be16, be32, lemma_u16_round_trip, lemma_u32_round_trip};

verus! {

/// Length of what the stream registered under `id` has received; 0 when no
/// stream is registered under `id`.
pub open spec fn rcv_len(c: ConnModel, id: u32) -> nat {
    if has_key(c.keys, id) {
        c.streams[key_index(c.keys, id)].rcv.len()
    } else {
        0
    }
}

/// Payload bytes that frame `f` of record `p` carries for stream `id`.
pub open spec fn frame_bytes_for(f: ParsedFrame, p: Seq<u8>, id: u32) -> nat {
    match f {
        ParsedFrame::Stream { stream_id, end } => if stream_id == id {
            frame_data_len(p.subrange(0, end as int)) as nat
        } else {
            0
        },
        _ => 0,
    }
}

/// Payload bytes that the frames `fs` of record `p` carry for stream `id`.
pub open spec fn stream_bytes(fs: Seq<ParsedFrame>, p: Seq<u8>, id: u32) -> nat
    decreases fs.len(),
{
    if fs.len() == 0 {
        0
    } else {
        stream_bytes(fs.drop_last(), p, id) + frame_bytes_for(fs.last(), p, id)
    }
}

/// Payload bytes that record assembly over `ss`, with `reserved` bytes kept
/// for ACKs, cuts from the streams whose id is `id`.
pub open spec fn sent_bytes(ss: Seq<StreamModel>, reserved: nat, id: u32) -> nat
    decreases ss.len(),
{
    if ss.len() == 0 {
        0
    } else {
        let rec = assemble(ss.drop_last(), reserved).0;
        let s = ss.last();
        let space = MAX_RECORD_SIZE - reserved - rec.len();
        sent_bytes(ss.drop_last(), reserved, id) + if remaining(s) > 0 && space
            > MIN_STREAM_DATA_SIZE && s.id == id {
            chunk_len(s, space as nat) as nat
        } else {
            0
        }
    }
}

/// Registry keys are unique and name one stream each.
pub open spec fn registry_ok(c: ConnModel) -> bool {
    &&& c.keys.len() == c.streams.len()
    &&& forall|i: int, j: int|
        0 <= i < c.keys.len() && 0 <= j < c.keys.len() && i != j ==> c.keys[i] != c.keys[j]
}

proof fn lemma_stream_bytes_concat(a: Seq<ParsedFrame>, b: Seq<ParsedFrame>, p: Seq<u8>, id: u32)
    ensures
        stream_bytes(a + b, p, id) == stream_bytes(a, p, id) + stream_bytes(b, p, id),
    decreases b.len(),
{
    if b.len() > 0 {
        lemma_stream_bytes_concat(a, b.drop_last(), p, id);
        assert((a + b).drop_last() =~= a + b.drop_last());
    } else {
        assert(a + b =~= a);
    }
}

proof fn lemma_stream_bytes_front(f: ParsedFrame, rest: Seq<ParsedFrame>, p: Seq<u8>, id: u32)
    ensures
        stream_bytes(seq![f] + rest, p, id) == frame_bytes_for(f, p, id) + stream_bytes(rest, p, id),
{
    lemma_stream_bytes_concat(seq![f], rest, p, id);
    assert(seq![f].drop_last() =~= Seq::<ParsedFrame>::empty());
    assert(seq![f].last() == f);
    assert(stream_bytes(seq![f].drop_last(), p, id) == 0);
    assert(stream_bytes(seq![f], p, id) == frame_bytes_for(f, p, id));
}

/// Every frame of a record that parses points at a whole stream frame.
proof fn lemma_parsed_frames_in_record(p: Seq<u8>, end: int)
    requires
        end <= p.len() <= usize::MAX,
        parse_from(p, end) is Ok,
    ensures
        forall|j: int|
            0 <= j < parse_from(p, end)->Ok_0.len() ==> frame_in_record(
                #[trigger] parse_from(p, end)->Ok_0[j],
                p,
            ),
    decreases end,
{
    if end > 0 {
        let (f, n) = frame_at(p, end)->Ok_0;
        lemma_parsed_frames_in_record(p, end - n);
        let rest = parse_from(p, end - n)->Ok_0;
        let fs = parse_from(p, end)->Ok_0;
        assert(fs == seq![f] + rest);
        assert forall|j: int| 0 <= j < fs.len() implies frame_in_record(#[trigger] fs[j], p) by {
            if j > 0 {
                assert(fs[j] == rest[j - 1]);
            }
        }
    }
}

/// A run of ACK frames after a part that parses parses too, and carries no
/// stream payload.
proof fn lemma_parse_acks(p: Seq<u8>, start: int, ctrl: Seq<u8>, id: u32)
    requires
        0 <= start,
        start + ctrl.len() <= p.len(),
        p.subrange(start, start + ctrl.len()) == ctrl,
        acks_only(ctrl),
        parse_from(p, start) is Ok,
    ensures
        parse_from(p, start + ctrl.len()) is Ok,
        stream_bytes(parse_from(p, start + ctrl.len())->Ok_0, p, id) == stream_bytes(
            parse_from(p, start)->Ok_0,
            p,
            id,
        ),
    decreases ctrl.len(),
{
    if ctrl.len() > 0 {
        let inner = ctrl.subrange(0, ctrl.len() - ACK_FRAME_SIZE);
        assert(p.subrange(start, start + inner.len()) =~= inner);
        lemma_parse_acks(p, start, inner, id);
        let end = start + ctrl.len();
        assert(p[end - 1] == ctrl[ctrl.len() - 1]);
        let (f, n) = frame_at(p, end)->Ok_0;
        assert(n == ACK_FRAME_SIZE);
        lemma_stream_bytes_front(f, parse_from(p, end - n)->Ok_0, p, id);
    }
}

/// The stream frame cut from `s` with budget `b`, found at `r0` in `p`,
/// parses back from its end to a frame of stream `s.id` with the payload
/// length that was cut.
proof fn lemma_frame_parses(p: Seq<u8>, r0: int, s: StreamModel, b: nat)
    requires
        model_wf(s),
        remaining(s) > 0,
        STREAM_HEADER_SIZE < b <= MAX_RECORD_SIZE,
        0 <= r0,
        r0 + next_frame(s, b).len() <= p.len() <= usize::MAX,
        p.subrange(r0, r0 + next_frame(s, b).len()) == next_frame(s, b),
    ensures
        next_frame(s, b).len() == chunk_len(s, b) + STREAM_HEADER_SIZE <= b,
        ({
            let end = r0 + next_frame(s, b).len();
            &&& frame_at(p, end) == Ok::<(ParsedFrame, int), crate::error::Error>(
                (ParsedFrame::Stream { stream_id: s.id, end: (end - 5) as usize }, end - r0),
            )
            &&& ((end - 5) as usize) as int == end - 5
            &&& holds_stream_frame(p.subrange(0, end - 5))
            &&& frame_data_len(p.subrange(0, end - 5)) == chunk_len(s, b)
        }),
{
    let frame = next_frame(s, b);
    let n = chunk_len(s, b);
    assert(chunk(s, b).len() == n);
    assert(frame.len() == n + STREAM_HEADER_SIZE);
    let end = r0 + frame.len();
    let data = p.subrange(0, end - 5);
    assert(data.subrange(data.len() - 10, data.len() - 8) =~= be16(n as u16)) by {
        assert(data.subrange(data.len() - 10, data.len() - 8) =~= p.subrange(r0 + n, r0 + n + 2));
        assert(p.subrange(r0 + n, r0 + n + 2) =~= frame.subrange(n, n + 2));
    }
    lemma_u16_round_trip(n as u16, be16(n as u16));
    assert(frame_data_len(data) == n);
    assert(p.subrange(end - 5, end - 1) =~= be32(s.id)) by {
        assert(p.subrange(end - 5, end - 1) =~= frame.subrange(n + 10, n + 14));
    }
    lemma_u32_round_trip(s.id, be32(s.id));
    assert(p[end - 1] == frame[frame.len() - 1]);
}

/// The stream frames that record assembly cuts parse back, and carry for
/// each id the payload bytes cut from the streams with that id.
proof fn lemma_parse_streams(p: Seq<u8>, ss: Seq<StreamModel>, reserved: nat, id: u32)
    requires
        forall|i: int| 0 <= i < ss.len() ==> model_wf(#[trigger] ss[i]),
        reserved <= MAX_RECORD_SIZE,
        assemble(ss, reserved).0.len() <= p.len() <= usize::MAX,
        p.subrange(0, assemble(ss, reserved).0.len() as int) == assemble(ss, reserved).0,
    ensures
        assemble(ss, reserved).0.len() + reserved <= MAX_RECORD_SIZE,
        parse_from(p, assemble(ss, reserved).0.len() as int) is Ok,
        stream_bytes(parse_from(p, assemble(ss, reserved).0.len() as int)->Ok_0, p, id)
            == sent_bytes(ss, reserved, id),
        sent_bytes(ss, reserved, id) <= assemble(ss, reserved).0.len(),
    decreases ss.len(),
{
    if ss.len() == 0 {
        return;
    }
    let prev = ss.drop_last();
    let rec0 = assemble(prev, reserved).0;
    let r0 = rec0.len() as int;
    let s = ss.last();
    let space = MAX_RECORD_SIZE - reserved - rec0.len();
    assert forall|i: int| 0 <= i < prev.len() implies model_wf(#[trigger] prev[i]) by {
        assert(prev[i] == ss[i]);
    }
    assert(model_wf(ss[ss.len() - 1]));
    if remaining(s) > 0 && space > MIN_STREAM_DATA_SIZE {
        let b = space as nat;
        let frame = next_frame(s, b);
        assert(assemble(ss, reserved).0 == rec0 + frame);
        assert(p.subrange(0, r0) =~= rec0) by {
            assert(p.subrange(0, r0) =~= (rec0 + frame).subrange(0, r0));
        }
        lemma_parse_streams(p, prev, reserved, id);
        let end = r0 + frame.len();
        assert(p.subrange(r0, end) =~= frame) by {
            assert(p.subrange(r0, end) =~= (rec0 + frame).subrange(r0, end));
        }
        lemma_frame_parses(p, r0, s, b);
        let (f, m) = frame_at(p, end)->Ok_0;
        lemma_stream_bytes_front(f, parse_from(p, r0)->Ok_0, p, id);
    } else {
        assert(assemble(ss, reserved).0 == rec0);
        lemma_parse_streams(p, prev, reserved, id);
    }
}

/// Handling frames grows the receive buffer of each registry key by the
/// payload that the frames carry for that id, and keeps keys unique.
proof fn lemma_apply_growth(c: ConnModel, fs: Seq<ParsedFrame>, p: Seq<u8>, id: u32)
    requires
        registry_ok(c),
        forall|j: int| 0 <= j < fs.len() ==> frame_in_record(#[trigger] fs[j], p),
    ensures
        registry_ok(apply_frames(c, fs, p)),
        rcv_len(apply_frames(c, fs, p), id) == rcv_len(c, id) + stream_bytes(fs, p, id),
    decreases fs.len(),
{
    if fs.len() == 0 {
        return;
    }
    let prev = fs.drop_last();
    assert forall|j: int| 0 <= j < prev.len() implies frame_in_record(#[trigger] prev[j], p) by {
        assert(prev[j] == fs[j]);
    }
    lemma_apply_growth(c, prev, p, id);
    let c1 = apply_frames(c, prev, p);
    let f = fs.last();
    assert(frame_in_record(fs[fs.len() - 1], p));
    match f {
        ParsedFrame::Stream { stream_id, end } => {
            let data = p.subrange(0, end as int);
            lemma_receive_growth(c1, stream_id, data, id);
        },
        _ => {},
    }
}

proof fn lemma_receive_growth(c: ConnModel, sid: u32, data: Seq<u8>, id: u32)
    requires
        registry_ok(c),
        holds_stream_frame(data),
    ensures
        registry_ok(receive_on(c, sid, data)),
        rcv_len(receive_on(c, sid, data), id) == rcv_len(c, id) + if sid == id {
            frame_data_len(data) as nat
        } else {
            0
        },
{
    let c2 = receive_on(c, sid, data);
    assert(frame_data(data).len() == frame_data_len(data));
    if has_key(c.keys, sid) {
        let k = key_index(c.keys, sid);
        assert(c.keys[k] == sid);
        if has_key(c.keys, id) {
            let i = key_index(c.keys, id);
            assert(c.keys[i] == id);
        }
    } else {
        let n = c.keys.len() as int;
        assert(c2.keys[n] == sid);
        assert(has_key(c2.keys, sid));
        let k2 = key_index(c2.keys, sid);
        assert(k2 == n);
        if id != sid {
            assert(has_key(c2.keys, id) == has_key(c.keys, id)) by {
                if has_key(c2.keys, id) {
                    let j = choose|j: int| 0 <= j < c2.keys.len() && c2.keys[j] == id;
                    assert(c.keys[j] == id);
                }
                if has_key(c.keys, id) {
                    let j = choose|j: int| 0 <= j < c.keys.len() && c.keys[j] == id;
                    assert(c2.keys[j] == id);
                }
            }
            if has_key(c.keys, id) {
                let i2 = key_index(c2.keys, id);
                let i = key_index(c.keys, id);
                assert(c2.keys[i] == id);
                assert(i2 == i);
            }
        }
    }
}

/// Record assembly leaves room for the reserved bytes.
proof fn lemma_assemble_len(ss: Seq<StreamModel>, reserved: nat)
    requires
        forall|i: int| 0 <= i < ss.len() ==> model_wf(#[trigger] ss[i]),
        reserved <= MAX_RECORD_SIZE,
    ensures
        assemble(ss, reserved).0.len() + reserved <= MAX_RECORD_SIZE,
    decreases ss.len(),
{
    if ss.len() > 0 {
        let prev = ss.drop_last();
        assert forall|i: int| 0 <= i < prev.len() implies model_wf(#[trigger] prev[i]) by {
            assert(prev[i] == ss[i]);
        }
        lemma_assemble_len(prev, reserved);
        let s = ss.last();
        let space = MAX_RECORD_SIZE - reserved - assemble(prev, reserved).0.len();
        if remaining(s) > 0 && space > MIN_STREAM_DATA_SIZE {
            assert(chunk(s, space as nat).len() == chunk_len(s, space as nat));
        }
    }
}

/// A record that a well-formed connection assembles is read whole by any
/// well-formed peer, and the stream registered at the peer under each id
/// grows by exactly the payload bytes that the record carries for that id.
pub proof fn lemma_record_is_delivered(sender: ConnModel, receiver: ConnModel, id: u32)
    requires
        conn_wf(sender),
        conn_wf(receiver),
    ensures
        parse_record(record_of(sender)) is Ok,
        rcv_len(
            apply_frames(receiver, parse_record(record_of(sender))->Ok_0, record_of(sender)),
            id,
        ) == rcv_len(receiver, id) + sent_bytes(sender.streams, sender.ctrl.len(), id),
{
    let reserved = sender.ctrl.len();
    let rec = assemble(sender.streams, reserved).0;
    let out = rec + sender.ctrl;
    let p = record_of(sender);
    lemma_assemble_len(sender.streams, reserved);
    if out.len() == 0 {
        assert(rec.len() == 0);
        assert(out.subrange(0, 0) =~= rec);
        lemma_parse_streams(out, sender.streams, reserved, id);
        assert(p == seq![PADDING_FRAME]);
        assert(parse_from(p, 0) == Ok::<Seq<ParsedFrame>, crate::error::Error>(Seq::empty()));
        assert(frame_at(p, 1) == Ok::<(ParsedFrame, int), crate::error::Error>((ParsedFrame::Padding, 1)));
        let fs = parse_record(p)->Ok_0;
        assert(fs =~= seq![ParsedFrame::Padding]);
        lemma_stream_bytes_front(ParsedFrame::Padding, Seq::empty(), p, id);
        lemma_parsed_frames_in_record(p, p.len() as int);
        lemma_apply_growth(receiver, fs, p, id);
    } else {
        assert(p == out);
        assert(p.subrange(0, rec.len() as int) =~= rec);
        lemma_parse_streams(p, sender.streams, reserved, id);
        assert(p.subrange(rec.len() as int, (rec.len() + reserved) as int) =~= sender.ctrl);
        lemma_parse_acks(p, rec.len() as int, sender.ctrl, id);
        assert(rec.len() + reserved == p.len());
        lemma_parsed_frames_in_record(p, p.len() as int);
        lemma_apply_growth(receiver, parse_record(p)->Ok_0, p, id);
    }
}

} // verus!
