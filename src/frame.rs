//! Single-byte frames and the ACK frame, with their wire encodings.

use vstd::prelude::*;

use crate::utils::constant::{ACK_FRAME, ACK_FRAME_SIZE, PADDING_FRAME, PING_FRAME};
use crate::utils::conversion::{
    be32, be64, lemma_u32_round_trip, lemma_u64_round_trip, push_be32, push_be64, slice_to_u32,
    slice_to_u64, u32_of, u64_of,
};

verus! {

/// Type tag of a frame, as far as this module encodes frames.
#[derive(Debug, Clone, Copy, PartialEq, Eq, Structural)]
pub enum TcplsFrameType {
    Padding,
    Ping,
    Ack,
    /// Any other tag byte.
    Unknown(u8),
}

/// The type that a tag byte stands for.
pub open spec fn frame_type_of(b: u8) -> TcplsFrameType {
    if b == PADDING_FRAME {
        TcplsFrameType::Padding
    } else if b == PING_FRAME {
        TcplsFrameType::Ping
    } else if b == ACK_FRAME {
        TcplsFrameType::Ack
    } else {
        TcplsFrameType::Unknown(b)
    }
}

impl TcplsFrameType {
    /// The tag byte of this type.
    pub open spec fn byte(self) -> u8 {
        match self {
            TcplsFrameType::Padding => PADDING_FRAME,
            TcplsFrameType::Ping => PING_FRAME,
            TcplsFrameType::Ack => ACK_FRAME,
            TcplsFrameType::Unknown(b) => b,
        }
    }

    /// The type that the tag byte `b` stands for.
    pub fn from_u8(b: u8) -> (t: TcplsFrameType)
        ensures
            t == frame_type_of(b),
            t.byte() == b,
    {
        if b == PADDING_FRAME {
            TcplsFrameType::Padding
        } else if b == PING_FRAME {
            TcplsFrameType::Ping
        } else if b == ACK_FRAME {
            TcplsFrameType::Ack
        } else {
            TcplsFrameType::Unknown(b)
        }
    }

    /// The tag byte of this type.
    pub fn get_u8(&self) -> (r: u8)
        ensures
            r == self.byte(),
    {
        match self {
            TcplsFrameType::Padding => PADDING_FRAME,
            TcplsFrameType::Ping => PING_FRAME,
            TcplsFrameType::Ack => ACK_FRAME,
            TcplsFrameType::Unknown(b) => *b,
        }
    }
}

/// Wire form of an ACK frame: the highest record sequence number, the
/// connection id, and the type byte.
pub open spec fn ack_frame(highest_record_seq: u64, conn_id: u32) -> Seq<u8> {
    be64(highest_record_seq) + be32(conn_id) + seq![ACK_FRAME]
}

/// Sequence number and connection id of the ACK frame held in `b`.
pub open spec fn ack_fields(b: Seq<u8>) -> (u64, u32) {
    (u64_of(b.subrange(0, 8)), u32_of(b.subrange(8, 12)))
}

/// An ACK frame is 13 bytes long, ends with the ACK type byte, and gives
/// back the sequence number and connection id it was made from.
pub proof fn lemma_ack_frame_shape(highest_record_seq: u64, conn_id: u32)
    ensures
        ack_frame(highest_record_seq, conn_id).len() == ACK_FRAME_SIZE,
        ack_frame(highest_record_seq, conn_id).last() == ACK_FRAME,
        ack_fields(ack_frame(highest_record_seq, conn_id)) == (highest_record_seq, conn_id),
{
    let f = ack_frame(highest_record_seq, conn_id);
    assert(f.subrange(0, 8) =~= be64(highest_record_seq));
    assert(f.subrange(8, 12) =~= be32(conn_id));
    lemma_u64_round_trip(highest_record_seq, be64(highest_record_seq));
    lemma_u32_round_trip(conn_id, be32(conn_id));
}

/// A frame made of its type byte alone.
#[derive(Debug, Clone, Copy)]
pub struct Frame {
    pub typ: TcplsFrameType,
}

impl Frame {
    /// Appends the frame's type byte.
    pub fn encode(&self, bytes: &mut Vec<u8>)
        ensures
            final(bytes)@ == old(bytes)@.push(self.typ.byte()),
    {
        bytes.push(self.typ.get_u8());
    }

    /// Reads the frame whose type byte ends `bytes`; `None` when `bytes` is empty.
    pub fn read(bytes: &[u8]) -> (r: Option<Frame>)
        ensures
            r is None <==> bytes@.len() == 0,
            r is Some ==> r->0.typ == frame_type_of(bytes@.last()),
    {
        if bytes.len() == 0 {
            None
        } else {
            Some(Frame { typ: TcplsFrameType::from_u8(bytes[bytes.len() - 1]) })
        }
    }

    /// The ACK frame that answers a ping, carrying the given highest record
    /// sequence number and connection id.
    pub fn ack_a_ping(_typ: TcplsFrameType, highest_record_seq_recv: u64, conn_id: u32) -> (a:
        AckFrame)
        ensures
            a@ == (highest_record_seq_recv, conn_id),
    {
        AckFrame::new(highest_record_seq_recv, conn_id)
    }
}

/// An acknowledgement of the records received up to a sequence number.
#[derive(Debug, Clone, Copy)]
pub struct AckFrame {
    typ: TcplsFrameType,
    highest_record_seq_recv: u64,
    conn_id: u32,
}

impl View for AckFrame {
    /// The highest record sequence number and the connection id.
    type V = (u64, u32);

    closed spec fn view(&self) -> (u64, u32) {
        (self.highest_record_seq_recv, self.conn_id)
    }
}

impl AckFrame {
    /// The ACK frame for `highest_record_seq_recv` on connection `conn_id`.
    pub fn new(highest_record_seq_recv: u64, conn_id: u32) -> (a: AckFrame)
        ensures
            a@ == (highest_record_seq_recv, conn_id),
    {
        AckFrame { typ: TcplsFrameType::Ack, highest_record_seq_recv, conn_id }
    }

    /// Appends the frame's wire form.
    pub fn encode(&self, bytes: &mut Vec<u8>)
        ensures
            final(bytes)@ == old(bytes)@ + ack_frame(self@.0, self@.1),
    {
        push_be64(bytes, self.highest_record_seq_recv);
        push_be32(bytes, self.conn_id);
        bytes.push(ACK_FRAME);
        assert(final(bytes)@ =~= old(bytes)@ + ack_frame(self@.0, self@.1));
    }

    /// The frame's wire form.
    pub fn get_encoding(&self) -> (r: Vec<u8>)
        ensures
            r@ == ack_frame(self@.0, self@.1),
    {
        let mut bytes: Vec<u8> = Vec::new();
        self.encode(&mut bytes);
        assert(bytes@ =~= ack_frame(self@.0, self@.1));
        bytes
    }

    /// Reads an ACK frame that fills `bytes` exactly.
    pub fn read_bytes(bytes: &[u8]) -> (r: Option<AckFrame>)
        ensures
            r is Some <==> (bytes@.len() == ACK_FRAME_SIZE && bytes@.last() == ACK_FRAME),
            r is Some ==> r->0@ == ack_fields(bytes@),
    {
        if bytes.len() != ACK_FRAME_SIZE || bytes[ACK_FRAME_SIZE - 1] != ACK_FRAME {
            return None;
        }
        let seq = slice_to_u64(vstd::slice::slice_subrange(bytes, 0, 8));
        let id = slice_to_u32(vstd::slice::slice_subrange(bytes, 8, 12));
        match (seq, id) {
            (Ok(s), Ok(c)) => Some(AckFrame::new(s, c)),
            _ => None,
        }
    }
}

/// Reading the wire form of an ACK frame gives the frame back.
pub proof fn lemma_ack_round_trip(a: AckFrame)
    ensures
        ack_fields(ack_frame(a@.0, a@.1)) == a@,
        ack_frame(a@.0, a@.1).len() == ACK_FRAME_SIZE,
        ack_frame(a@.0, a@.1).last() == ACK_FRAME,
{
    lemma_ack_frame_shape(a@.0, a@.1);
}

} // verus!
