use tcpls::connection::{Role, TcplsConnection};
use tcpls::error::Error;
use tcpls::frame::{AckFrame, Frame, TcplsFrameType};
use tcpls::stream::{TcplsStream, TcplsStreamBuilder};
use tcpls::utils::constant::{
    ACK_FRAME, MAX_RECORD_SIZE, MAX_STREAM_DATA_SIZE, MIN_STREAM_DATA_SIZE, PING_FRAME,
    STREAM_FRAME, STREAM_FRAME_FIN, STREAM_HEADER_SIZE,
};
use tcpls::utils::conversion::{slice_to_u16, slice_to_u32, slice_to_u64};

fn pattern(len: usize) -> Vec<u8> {
    (0..len).map(|i| (i * 7 + 3) as u8).collect()
}

fn stream_frame(payload: &[u8], offset: u64, id: u32, typ: u8) -> Vec<u8> {
    let mut f = payload.to_vec();
    f.extend_from_slice(&(payload.len() as u16).to_be_bytes());
    f.extend_from_slice(&offset.to_be_bytes());
    f.extend_from_slice(&id.to_be_bytes());
    f.push(typ);
    f
}

#[test]
fn constants_have_their_values() {
    assert_eq!(MAX_RECORD_SIZE, 13059);
    assert_eq!(STREAM_HEADER_SIZE, 15);
    assert_eq!(MAX_STREAM_DATA_SIZE, 13044);
    assert_eq!(MIN_STREAM_DATA_SIZE, 16);
}

#[test]
fn integers_round_trip_through_big_endian_bytes() {
    for v in [0u16, 1, 0x1234, 0xfffe, u16::MAX] {
        assert_eq!(slice_to_u16(&v.to_be_bytes()), Ok(v));
    }
    for v in [0u32, 1, 0x1234_5678, u32::MAX] {
        assert_eq!(slice_to_u32(&v.to_be_bytes()), Ok(v));
    }
    for v in [0u64, 1, 0x0102_0304_0506_0708, u64::MAX] {
        assert_eq!(slice_to_u64(&v.to_be_bytes()), Ok(v));
    }
}

#[test]
fn wrong_widths_are_refused() {
    assert_eq!(slice_to_u32(&[0x00, 0x01, 0x02]), Err(Error::BadSliceLength));
    assert_eq!(slice_to_u16(&[]), Err(Error::BadSliceLength));
    assert_eq!(slice_to_u16(&[1, 2, 3]), Err(Error::BadSliceLength));
    assert_eq!(slice_to_u32(&[1, 2, 3, 4, 5]), Err(Error::BadSliceLength));
    assert_eq!(slice_to_u64(&[1, 2, 3, 4]), Err(Error::BadSliceLength));
    assert_eq!(slice_to_u64(&[0; 9]), Err(Error::BadSliceLength));
}

#[test]
fn draining_a_stream_hands_out_all_its_bytes() {
    let data = pattern(1000);
    for budget in [MIN_STREAM_DATA_SIZE, 17, 100, 1015, 1016, MAX_RECORD_SIZE] {
        let mut s = TcplsStream::new(6, Vec::new());
        s.add_data_to_send(&data);
        let mut out = Vec::new();
        let mut offset = 0u64;
        while let Some(frame) = s.create_stream_frame(budget) {
            assert!(frame.len() <= budget);
            let n = frame.len() - STREAM_HEADER_SIZE;
            assert_eq!(&frame[n + 2..n + 10], &offset.to_be_bytes());
            out.extend_from_slice(&frame[..n]);
            offset += n as u64;
        }
        assert_eq!(out, data);
        assert_eq!(s.get_snd_offset(), 1000);
        assert!(!s.has_data_to_send());
    }
}

#[test]
fn exhausted_stream_gives_no_frame() {
    let mut s = TcplsStream::new(1, Vec::new());
    assert_eq!(s.create_stream_frame(MAX_RECORD_SIZE), None);
    s.add_data_to_send(&[9, 8, 7]);
    assert!(s.has_data_to_send());
    assert_eq!(s.create_stream_frame(MAX_RECORD_SIZE), Some(stream_frame(&[9, 8, 7], 0, 1, STREAM_FRAME_FIN)));
    assert_eq!(s.create_stream_frame(MAX_RECORD_SIZE), None);
    s.add_data_to_send(&[6]);
    assert_eq!(s.create_stream_frame(MAX_RECORD_SIZE), Some(stream_frame(&[6], 3, 1, STREAM_FRAME_FIN)));
}

#[test]
fn smallest_budget_carries_one_byte() {
    let mut s = TcplsStream::new(2, Vec::new());
    s.add_data_to_send(&[1, 2]);
    assert_eq!(s.create_stream_frame(MIN_STREAM_DATA_SIZE), Some(stream_frame(&[1], 0, 2, STREAM_FRAME)));
    assert_eq!(s.create_stream_frame(MIN_STREAM_DATA_SIZE), Some(stream_frame(&[2], 1, 2, STREAM_FRAME_FIN)));
}

#[test]
fn stream_reads_the_frame_at_the_end() {
    let mut s = TcplsStream::new(3, vec![1]);
    let mut input = vec![0xAA, 0xBB];
    input.extend_from_slice(&[5, 6, 7]);
    input.extend_from_slice(&3u16.to_be_bytes());
    input.extend_from_slice(&42u64.to_be_bytes());
    assert_eq!(s.read_stream_frame(&input), 13);
    assert_eq!(s.get_stream_data(), &[1, 5, 6, 7]);
    assert_eq!(s.get_rcv_offset(), 42);
    assert_eq!(s.get_len_recv_buf(), 4);
    assert_eq!(s.get_id(), 3);
}

#[test]
fn builder_queues_its_data() {
    let mut b = TcplsStreamBuilder::new(9);
    b.add_data(&[1, 2]);
    b.add_data(&[3]);
    let mut s = b.build();
    assert_eq!(s.get_id(), 9);
    assert_eq!(s.get_len_snd_buf(), 3);
    assert_eq!(s.get_snd_offset(), 0);
    assert_eq!(s.get_rcv_offset(), 0);
    assert_eq!(s.get_len_recv_buf(), 0);
    assert_eq!(s.create_stream_frame(MAX_RECORD_SIZE), Some(stream_frame(&[1, 2, 3], 0, 9, STREAM_FRAME_FIN)));
}

#[test]
fn ack_frame_is_thirteen_bytes_ending_with_its_type() {
    let a = AckFrame::new(0x0102_0304_0506_0708, 0x0a0b_0c0d);
    let enc = a.get_encoding();
    assert_eq!(enc.len(), 13);
    assert_eq!(*enc.last().unwrap(), ACK_FRAME);
    assert_eq!(enc, vec![1, 2, 3, 4, 5, 6, 7, 8, 0x0a, 0x0b, 0x0c, 0x0d, 0x04]);
    let back = AckFrame::read_bytes(&enc).unwrap();
    assert_eq!(back.get_encoding(), enc);
    assert!(AckFrame::read_bytes(&enc[1..]).is_none());
    let mut bad = enc.clone();
    bad[12] = 0x05;
    assert!(AckFrame::read_bytes(&bad).is_none());
    let b = Frame::ack_a_ping(TcplsFrameType::Ping, 7, 0);
    assert_eq!(b.get_encoding(), vec![0, 0, 0, 0, 0, 0, 0, 7, 0, 0, 0, 0, 4]);
}

#[test]
fn single_byte_frames_encode_their_type() {
    let mut out = vec![9];
    Frame { typ: TcplsFrameType::Ping }.encode(&mut out);
    Frame { typ: TcplsFrameType::Padding }.encode(&mut out);
    assert_eq!(out, vec![9, 1, 0]);
    assert_eq!(Frame::read(&[7, 1]).unwrap().typ, TcplsFrameType::Ping);
    assert_eq!(Frame::read(&[4]).unwrap().typ, TcplsFrameType::Ack);
    assert_eq!(Frame::read(&[0xFE]).unwrap().typ, TcplsFrameType::Unknown(0xFE));
    assert!(Frame::read(&[]).is_none());
    assert_eq!(TcplsFrameType::from_u8(0).get_u8(), 0);
}

#[test]
fn ping_is_answered_with_an_ack() {
    let mut server = TcplsConnection::new(0, Role::Server);
    let mut client = TcplsConnection::new(0, Role::Client);
    server.update_tls_seq(7);
    assert_eq!(server.get_highest_tls_record_seq(), 7);
    assert_eq!(server.process_record(&vec![PING_FRAME]), Ok(()));
    let record = server.create_record().unwrap();
    assert_eq!(record, vec![0, 0, 0, 0, 0, 0, 0, 7, 0, 0, 0, 0, 0x04]);
    assert!(!client.has_received_ack());
    assert_eq!(client.process_record(&record), Ok(()));
    assert!(client.has_received_ack());
    assert_eq!(client.get_last_ack_info(), "Highest record sequence received: 7");
    client.inv_ack();
    assert!(!client.has_received_ack());
}

#[test]
fn small_stream_is_sent_in_one_fin_frame() {
    let mut client = TcplsConnection::new(0, Role::Client);
    let mut server = TcplsConnection::new(0, Role::Server);
    client.set_data(&[0x41, 0x42, 0x43]);
    assert!(client.has_data());
    let record = client.create_record().unwrap();
    assert_eq!(
        record,
        vec![0x41, 0x42, 0x43, 0, 3, 0, 0, 0, 0, 0, 0, 0, 0, 0, 0, 0, 0, 0x03]
    );
    assert!(!client.has_data());
    assert_eq!(server.process_record(&record), Ok(()));
    assert_eq!(server.get_stream_data(0).unwrap(), &[0x41, 0x42, 0x43]);
}

#[test]
fn long_stream_is_cut_in_two_records() {
    let mut client = TcplsConnection::new(0, Role::Client);
    let mut server = TcplsConnection::new(0, Role::Server);
    let data = pattern(MAX_STREAM_DATA_SIZE + 100);
    client.set_data(&data);
    let first = client.create_record().unwrap();
    assert_eq!(first, stream_frame(&data[..MAX_STREAM_DATA_SIZE], 0, 0, STREAM_FRAME));
    assert_eq!(first.len(), MAX_RECORD_SIZE);
    let second = client.create_record().unwrap();
    assert_eq!(
        second,
        stream_frame(&data[MAX_STREAM_DATA_SIZE..], MAX_STREAM_DATA_SIZE as u64, 0, STREAM_FRAME_FIN)
    );
    assert_eq!(server.process_record(&first), Ok(()));
    assert_eq!(server.process_record(&second), Ok(()));
    assert_eq!(server.get_stream_data(0).unwrap(), &data[..]);
    assert_eq!(client.create_record().unwrap(), vec![0]);
}

#[test]
fn unknown_stream_id_creates_the_stream() {
    let mut server = TcplsConnection::new(0, Role::Server);
    assert_eq!(server.get_stream_data(4), Err(Error::StreamNotFound));
    let record = stream_frame(&[1, 2, 3, 4, 5], 0, 4, STREAM_FRAME);
    assert_eq!(server.process_record(&record), Ok(()));
    assert_eq!(server.get_stream_data(4).unwrap(), &[1, 2, 3, 4, 5]);
    assert_eq!(
        server.get_last_stream_processed_info(),
        "Stream ID: 4\n                  offset: 0\n                  current length: 5"
    );
}

#[test]
fn unknown_and_reserved_types_are_refused() {
    let mut server = TcplsConnection::new(0, Role::Server);
    assert_eq!(server.process_record(&vec![0xFE]), Err(Error::UnknownTcplsType));
    for t in 0x05u8..=0x09 {
        assert_eq!(server.process_record(&vec![PING_FRAME, t]), Err(Error::UnknownTcplsType));
    }
    // a refused record stages nothing
    assert_eq!(server.create_record().unwrap(), vec![0]);
}

#[test]
fn truncated_frames_are_refused() {
    let mut server = TcplsConnection::new(0, Role::Server);
    assert_eq!(server.process_record(&vec![0, 0, 0x04]), Err(Error::BadSliceLength));
    assert_eq!(server.process_record(&vec![0x02]), Err(Error::BadSliceLength));
    let mut record = stream_frame(&[1, 2, 3], 0, 2, STREAM_FRAME_FIN);
    record.remove(0);
    assert_eq!(server.process_record(&record), Err(Error::BadSliceLength));
    assert_eq!(server.get_stream_data(2), Err(Error::StreamNotFound));
}

#[test]
fn stream_frame_then_ping_is_dispatched_back_to_front() {
    let mut server = TcplsConnection::new(0, Role::Server);
    let mut record = stream_frame(b"abc", 0, 2, STREAM_FRAME);
    record.push(PING_FRAME);
    assert_eq!(server.process_record(&record), Ok(()));
    assert_eq!(server.get_stream_data(2).unwrap(), b"abc");
    // exactly one ACK was staged
    assert_eq!(server.create_record().unwrap(), vec![0, 0, 0, 0, 0, 0, 0, 0, 0, 0, 0, 0, 4]);
}

#[test]
fn empty_record_and_padding_change_nothing() {
    let mut server = TcplsConnection::new(3, Role::Server);
    assert_eq!(server.process_record(&vec![]), Ok(()));
    assert_eq!(server.process_record(&vec![0, 0, 0]), Ok(()));
    assert_eq!(server.create_record().unwrap(), vec![0]);
    assert_eq!(server.get_id(), 3);
}

#[test]
fn acks_beyond_a_record_are_dropped() {
    let mut server = TcplsConnection::new(1, Role::Server);
    assert_eq!(server.process_record(&vec![PING_FRAME; 1100]), Ok(()));
    let record = server.create_record().unwrap();
    assert_eq!(record.len(), (MAX_RECORD_SIZE / 13) * 13);
    assert_eq!(server.create_record().unwrap(), vec![0]);
}

#[test]
fn records_carry_every_stream_to_the_peer() {
    let mut client = TcplsConnection::new(5, Role::Client);
    let mut server = TcplsConnection::new(5, Role::Server);
    let a = pattern(3000);
    let b = pattern(12000);
    client.set_data(&a);
    let mut builder = TcplsStreamBuilder::new(2);
    builder.add_data(&b);
    client.attach_stream(builder.build(), 2);
    client.set_stream_data(&[1, 2, 3]);
    assert_eq!(server.process_record(&vec![PING_FRAME]), Ok(()));
    let ack = server.create_record().unwrap();
    assert_eq!(client.process_record(&ack), Ok(()));
    let mut rounds = 0;
    while client.has_data() {
        let record = client.create_record().unwrap();
        assert!(record.len() <= MAX_RECORD_SIZE);
        assert_eq!(server.process_record(&record), Ok(()));
        rounds += 1;
    }
    assert_eq!(rounds, 2);
    let mut b3 = b.clone();
    b3.extend_from_slice(&[1, 2, 3]);
    assert_eq!(server.get_stream_data(0).unwrap(), &a[..]);
    assert_eq!(server.get_stream_data(2).unwrap(), &b3[..]);
    assert_eq!(
        server.get_streams_received_info(),
        "\nStream 0 received 3000 bytes.\n\nStream 2 received 12003 bytes.\n"
    );
    assert_eq!(
        client.get_streams_sent_info(),
        "\nStream 0 sent 3000 bytes.\n\nStream 2 sent 12003 bytes.\n"
    );
    assert_eq!(client.dbg_streams(), vec![(0, 3000), (2, 12003)]);
}

#[test]
fn attaching_under_a_known_id_replaces_the_stream() {
    let mut c = TcplsConnection::new(0, Role::Client);
    c.set_data(&[1]);
    let mut builder = TcplsStreamBuilder::new(0);
    builder.add_data(&[2, 2]);
    c.attach_stream(builder.build(), 0);
    assert_eq!(c.dbg_streams(), vec![(0, 2)]);
    assert_eq!(c.create_record().unwrap(), stream_frame(&[2, 2], 0, 0, STREAM_FRAME_FIN));
    assert_eq!(c.get_role(), Role::Client);
}
