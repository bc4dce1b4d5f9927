use std::io::Read;

use bytes::BytesMut;
use tunnel_protocol::clientbound::CStatusResponse;
use tunnel_protocol::decode::{parse_frame, PacketDecoder, PacketFrame};
use tunnel_protocol::encode::{
    encode_packet, encode_packet_compressed, frame_deflated, frame_plain, frame_stored,
    PacketEncoder, PacketWriter, WritePacket,
};
use tunnel_protocol::serverbound::{SEncryptionResponse, SPingRequest, SStatusRequest};
use tunnel_protocol::varint::VarInt;
use tunnel_protocol::{CompressionThreshold, DecodeError, EncodeError, Packet, MAX_PACKET_SIZE};

fn varint(n: i32) -> Vec<u8> {
    let mut out = Vec::new();
    VarInt(n).encode(&mut out);
    out
}

fn status(len: usize) -> CStatusResponse {
    CStatusResponse { json: "abcdefghij".chars().cycle().take(len).collect() }
}

fn zlib(data: &[u8]) -> Vec<u8> {
    let mut out = Vec::new();
    flate2::bufread::ZlibEncoder::new(data, flate2::Compression::new(4))
        .read_to_end(&mut out)
        .unwrap();
    out
}

fn unzlib(data: &[u8]) -> Vec<u8> {
    let mut out = Vec::new();
    flate2::bufread::ZlibDecoder::new(data).read_to_end(&mut out).unwrap();
    out
}

fn frames_of(dec: &mut PacketDecoder) -> Vec<(i32, Vec<u8>)> {
    let mut out = Vec::new();
    while let Some(PacketFrame { id, body }) = dec.try_next_packet().unwrap() {
        out.push((id, body.to_vec()));
    }
    out
}

#[test]
fn empty_status_request_without_compression() {
    let mut buf = Vec::new();
    encode_packet(&mut buf, &SStatusRequest {}).unwrap();
    assert_eq!(buf, vec![0x01, 0x00]);
}

#[test]
fn encode_packet_appends() {
    let mut buf = vec![0xEE];
    encode_packet(&mut buf, &SPingRequest { payload: 1 }).unwrap();
    assert_eq!(buf, vec![0xEE, 9, 0x01, 0, 0, 0, 0, 0, 0, 0, 1]);
}

#[test]
fn stored_frame_at_or_under_the_threshold() {
    let pkt = status(8);
    let mut data = vec![CStatusResponse::ID as u8, 8];
    data.extend_from_slice(b"abcdefgh");
    assert_eq!(data.len(), 10);

    let mut buf = Vec::new();
    encode_packet_compressed(&mut buf, &pkt, 256).unwrap();
    let mut want = varint(11);
    want.extend_from_slice(&varint(0));
    want.extend_from_slice(&data);
    assert_eq!(buf, want);

    let mut at = Vec::new();
    encode_packet_compressed(&mut at, &pkt, 10).unwrap();
    assert_eq!(at, want);
}

#[test]
fn deflated_frame_over_the_threshold() {
    let pkt = status(38);
    let mut data = vec![CStatusResponse::ID as u8, 38];
    data.extend_from_slice(pkt.json.as_bytes());
    assert_eq!(data.len(), 40);

    let mut buf = Vec::new();
    encode_packet_compressed(&mut buf, &pkt, 8).unwrap();
    let z = zlib(&data);
    let mut want = varint((VarInt(40).written_size() + z.len()) as i32);
    want.extend_from_slice(&varint(40));
    want.extend_from_slice(&z);
    assert_eq!(buf, want);
    assert_eq!(buf[0] as usize, 1 + z.len());
    assert_eq!(unzlib(&buf[2..]), data);
}

#[test]
fn threshold_zero_compresses_every_packet() {
    let mut buf = Vec::new();
    encode_packet_compressed(&mut buf, &SStatusRequest {}, 0).unwrap();
    let z = zlib(&[0x00]);
    let mut want = varint((1 + z.len()) as i32);
    want.push(1);
    want.extend_from_slice(&z);
    assert_eq!(buf, want);
}

#[test]
fn one_over_the_threshold_compresses() {
    let pkt = status(8);
    let mut buf = Vec::new();
    encode_packet_compressed(&mut buf, &pkt, 9).unwrap();
    assert_eq!(buf[1], 10);
    assert_ne!(buf[1], 0);
}

#[test]
fn frame_plain_puts_the_length_in_front() {
    let mut buf = vec![1, 2, 3, 4, 5];
    frame_plain(&mut buf, 2).unwrap();
    assert_eq!(buf, vec![1, 2, 3, 3, 4, 5]);
    let mut empty = vec![7];
    frame_plain(&mut empty, 1).unwrap();
    assert_eq!(empty, vec![7, 0]);
}

#[test]
fn frame_stored_puts_length_and_marker_in_front() {
    let mut buf = vec![1, 2, 3, 4, 5];
    frame_stored(&mut buf, 2).unwrap();
    assert_eq!(buf, vec![1, 2, 4, 0, 3, 4, 5]);
}

#[test]
fn frame_deflated_replaces_the_data() {
    let mut buf = vec![1, 2, 3, 4, 5];
    frame_deflated(&mut buf, 2, Some(vec![0xAA, 0xBB])).unwrap();
    assert_eq!(buf, vec![1, 2, 3, 3, 0xAA, 0xBB]);
}

#[test]
fn frame_deflated_without_a_compressed_form() {
    let mut buf = vec![1, 2, 3];
    assert_eq!(frame_deflated(&mut buf, 0, None), Err(EncodeError::CompressionFailed));
    assert_eq!(buf, vec![1, 2, 3]);
}

#[test]
fn frame_deflated_refuses_a_long_compressed_form() {
    let mut buf = vec![1, 2, 3];
    let z = vec![0u8; MAX_PACKET_SIZE as usize];
    assert_eq!(frame_deflated(&mut buf, 0, Some(z)), Err(EncodeError::PacketTooLarge));
    assert_eq!(buf, vec![1, 2, 3]);
    let fits = vec![0u8; MAX_PACKET_SIZE as usize - 1];
    assert_eq!(frame_deflated(&mut buf, 0, Some(fits)), Ok(()));
    assert_eq!(buf.len(), 4 + 1 + (MAX_PACKET_SIZE as usize - 1));
    assert_eq!(&buf[..5], &[0x80, 0x80, 0x80, 0x01, 3]);
}

#[test]
fn largest_plain_frame_and_one_more() {
    let mut buf = vec![0u8; MAX_PACKET_SIZE as usize];
    assert_eq!(frame_plain(&mut buf, 0), Ok(()));
    assert_eq!(buf.len(), MAX_PACKET_SIZE as usize + 4);
    let mut over = vec![0u8; MAX_PACKET_SIZE as usize + 1];
    assert_eq!(frame_plain(&mut over, 0), Err(EncodeError::PacketTooLarge));
    assert_eq!(over.len(), MAX_PACKET_SIZE as usize + 1);
}

#[test]
fn largest_stored_frame_and_one_more() {
    let mut buf = vec![0u8; MAX_PACKET_SIZE as usize - 1];
    assert_eq!(frame_stored(&mut buf, 0), Ok(()));
    let mut over = vec![0u8; MAX_PACKET_SIZE as usize];
    assert_eq!(frame_stored(&mut over, 0), Err(EncodeError::PacketTooLarge));
}

#[test]
fn oversize_packet_is_refused_on_encode() {
    let pkt = SEncryptionResponse {
        shared_secret: vec![7u8; MAX_PACKET_SIZE as usize],
        verify_token: Vec::new(),
    };
    let mut buf = Vec::new();
    assert_eq!(encode_packet(&mut buf, &pkt), Err(EncodeError::PacketTooLarge));

    let mut kept = vec![1u8, 2, 3];
    let mut w = PacketWriter::new(&mut kept, CompressionThreshold(-1));
    assert_eq!(w.write_packet_fallible(&pkt), Err(EncodeError::PacketTooLarge));
    assert_eq!(kept, vec![1, 2, 3]);

    let mut enc = PacketEncoder::new();
    enc.append_bytes(&[5]);
    assert_eq!(enc.append_packet(&pkt), Err(EncodeError::PacketTooLarge));
    assert_eq!(&enc.take()[..], &[5]);
}

#[test]
fn oversize_length_is_refused_on_decode() {
    let mut bytes = varint(MAX_PACKET_SIZE + 1);
    bytes.extend_from_slice(&[0; 16]);
    assert!(matches!(
        parse_frame(CompressionThreshold(-1), &bytes),
        Err(DecodeError::PacketTooLarge)
    ));
    let negative = varint(-1);
    assert!(matches!(
        parse_frame(CompressionThreshold(-1), &negative),
        Err(DecodeError::PacketTooLarge)
    ));
    let mut dec = PacketDecoder::new();
    dec.queue_slice(&bytes);
    assert!(matches!(dec.try_next_packet(), Err(DecodeError::PacketTooLarge)));
}

#[test]
fn largest_length_is_accepted_on_decode() {
    let mut bytes = varint(MAX_PACKET_SIZE);
    bytes.push(0x05);
    assert!(matches!(parse_frame(CompressionThreshold(-1), &bytes), Ok(None)));
    bytes.extend(std::iter::repeat(1u8).take(MAX_PACKET_SIZE as usize - 1));
    let (frame, used) = parse_frame(CompressionThreshold(-1), &bytes).unwrap().unwrap();
    assert_eq!(frame.id, 5);
    assert_eq!(frame.body.len(), MAX_PACKET_SIZE as usize - 1);
    assert_eq!(used, bytes.len());
}

#[test]
fn length_prefix_over_five_bytes_is_fatal() {
    let bytes = [0x80, 0x80, 0x80, 0x80, 0x80, 0x01];
    assert!(matches!(
        parse_frame(CompressionThreshold(-1), &bytes),
        Err(DecodeError::VarIntTooLarge)
    ));
}

#[test]
fn parse_frame_waits_for_the_whole_frame() {
    assert!(matches!(parse_frame(CompressionThreshold(-1), &[]), Ok(None)));
    assert!(matches!(parse_frame(CompressionThreshold(-1), &[0x80]), Ok(None)));
    assert!(matches!(parse_frame(CompressionThreshold(-1), &[3, 1, 2]), Ok(None)));
    let (frame, used) = parse_frame(CompressionThreshold(-1), &[3, 1, 2, 3, 9]).unwrap().unwrap();
    assert_eq!((frame.id, frame.body.to_vec(), used), (1, vec![2, 3], 4));
}

#[test]
fn frame_without_an_id_is_an_error() {
    assert!(matches!(
        parse_frame(CompressionThreshold(-1), &[0]),
        Err(DecodeError::UnexpectedEnd)
    ));
    assert!(matches!(
        parse_frame(CompressionThreshold(5), &[1, 0]),
        Err(DecodeError::UnexpectedEnd)
    ));
    assert!(matches!(
        parse_frame(CompressionThreshold(5), &[0]),
        Err(DecodeError::UnexpectedEnd)
    ));
}

#[test]
fn stored_frame_reads_back() {
    let (frame, used) = parse_frame(CompressionThreshold(100), &[3, 0, 7, 9]).unwrap().unwrap();
    assert_eq!((frame.id, frame.body.to_vec(), used), (7, vec![9], 4));
}

#[test]
fn deflated_frame_with_a_wrong_length_is_an_error() {
    let data = vec![4u8; 40];
    let z = zlib(&data);
    for declared in [39, 41] {
        let mut bytes = varint((1 + z.len()) as i32);
        bytes.extend_from_slice(&varint(declared));
        bytes.extend_from_slice(&z);
        assert!(matches!(
            parse_frame(CompressionThreshold(0), &bytes),
            Err(DecodeError::DecompressionFailed)
        ));
    }
    let mut bytes = varint((1 + z.len()) as i32);
    bytes.extend_from_slice(&varint(40));
    bytes.extend_from_slice(&z);
    let (frame, _) = parse_frame(CompressionThreshold(0), &bytes).unwrap().unwrap();
    assert_eq!((frame.id, frame.body.to_vec()), (4, vec![4u8; 39]));
}

#[test]
fn deflated_frame_with_garbage_is_an_error() {
    let bytes = [4, 10, 1, 2, 3];
    assert!(matches!(
        parse_frame(CompressionThreshold(0), &bytes),
        Err(DecodeError::DecompressionFailed)
    ));
}

#[test]
fn negative_data_length_is_an_error() {
    let mut bytes = vec![6];
    bytes.extend_from_slice(&varint(-1));
    bytes.push(0);
    assert!(matches!(
        parse_frame(CompressionThreshold(0), &bytes),
        Err(DecodeError::NegativeLength)
    ));
}

#[test]
fn round_trip_without_compression() {
    let mut enc = PacketEncoder::new();
    let mut dec = PacketDecoder::new();
    enc.append_packet(&SStatusRequest {}).unwrap();
    enc.append_packet(&SPingRequest { payload: -2 }).unwrap();
    enc.append_packet(&status(300)).unwrap();
    dec.queue_bytes(enc.take());
    let frames = frames_of(&mut dec);
    assert_eq!(frames.len(), 3);
    assert_eq!(frames[0], (0, vec![]));
    assert_eq!(frames[1], (1, vec![0xFF, 0xFF, 0xFF, 0xFF, 0xFF, 0xFF, 0xFF, 0xFE]));
    assert_eq!(frames[2].0, 0);
    let mut body = varint(300);
    body.extend_from_slice(status(300).json.as_bytes());
    assert_eq!(frames[2].1, body);
}

#[test]
fn round_trip_under_every_threshold() {
    for threshold in [-1, 0, 1, 8, 9, 10, 11, 40, 255, 256, 100_000] {
        let mut enc = PacketEncoder::new();
        let mut dec = PacketDecoder::new();
        enc.set_compression(CompressionThreshold(threshold));
        dec.set_compression(CompressionThreshold(threshold));
        let mut want = Vec::new();
        for len in [0usize, 1, 7, 8, 9, 38, 253, 254, 1000, 70_000] {
            let pkt = status(len);
            enc.append_packet(&pkt).unwrap();
            let mut body = varint(pkt.json.len() as i32);
            body.extend_from_slice(pkt.json.as_bytes());
            want.push((CStatusResponse::ID, body));
        }
        dec.queue_bytes(enc.take());
        assert_eq!(frames_of(&mut dec), want, "threshold {threshold}");
    }
}

#[test]
fn chunked_feed_gives_the_same_frames() {
    for threshold in [-1, 16] {
        let mut enc = PacketEncoder::new();
        enc.set_compression(CompressionThreshold(threshold));
        for len in [0usize, 3, 40, 500] {
            enc.append_packet(&status(len)).unwrap();
            enc.append_packet(&SPingRequest { payload: len as i64 }).unwrap();
        }
        let stream = enc.take().to_vec();

        let mut whole = PacketDecoder::new();
        whole.set_compression(CompressionThreshold(threshold));
        whole.queue_slice(&stream);
        let want = frames_of(&mut whole);
        assert_eq!(want.len(), 8);

        for chunk in [1usize, 2, 3, 7, 64, stream.len()] {
            let mut dec = PacketDecoder::new();
            dec.set_compression(CompressionThreshold(threshold));
            let mut got = Vec::new();
            for piece in stream.chunks(chunk) {
                dec.queue_slice(piece);
                got.extend(frames_of(&mut dec));
            }
            assert_eq!(got, want, "threshold {threshold}, pieces of {chunk}");
        }
    }
}

#[test]
fn prepend_packet_goes_in_front() {
    let mut enc = PacketEncoder::new();
    enc.append_packet(&SPingRequest { payload: 5 }).unwrap();
    enc.prepend_packet(&SStatusRequest {}).unwrap();
    let got = enc.take().to_vec();

    let mut want = Vec::new();
    encode_packet(&mut want, &SStatusRequest {}).unwrap();
    encode_packet(&mut want, &SPingRequest { payload: 5 }).unwrap();
    assert_eq!(got, want);
}

#[test]
fn prepend_packet_into_an_empty_encoder() {
    let mut enc = PacketEncoder::new();
    enc.prepend_packet(&SStatusRequest {}).unwrap();
    assert_eq!(&enc.take()[..], &[1, 0]);
}

#[test]
fn take_and_clear_leave_nothing_staged() {
    let mut enc = PacketEncoder::new();
    enc.append_bytes(&[1, 2, 3]);
    assert_eq!(&enc.take()[..], &[1, 2, 3]);
    assert_eq!(enc.take().len(), 0);
    enc.append_bytes(&[4]);
    enc.clear();
    assert_eq!(enc.take().len(), 0);
}

#[test]
fn packet_writer_follows_its_threshold() {
    let mut plain = Vec::new();
    PacketWriter::new(&mut plain, CompressionThreshold(-1)).write_packet(&SStatusRequest {});
    assert_eq!(plain, vec![1, 0]);

    let mut stored = Vec::new();
    PacketWriter::new(&mut stored, CompressionThreshold(64)).write_packet(&SStatusRequest {});
    assert_eq!(stored, vec![2, 0, 0]);

    let mut raw = vec![1u8];
    PacketWriter::new(&mut raw, CompressionThreshold(64)).write_packet_bytes(&[2, 3]);
    assert_eq!(raw, vec![1, 2, 3]);
}

#[test]
fn write_packet_drops_an_error() {
    let pkt = SEncryptionResponse {
        shared_secret: vec![7u8; MAX_PACKET_SIZE as usize],
        verify_token: Vec::new(),
    };
    let mut buf = vec![9u8];
    PacketWriter::new(&mut buf, CompressionThreshold(-1)).write_packet(&pkt);
    assert_eq!(buf, vec![9]);
}

#[test]
fn encoder_as_a_packet_writer() {
    let mut enc = PacketEncoder::new();
    enc.write_packet(&SStatusRequest {});
    enc.write_packet_bytes(&[0xAB]);
    enc.write_packet_fallible(&SStatusRequest {}).unwrap();
    assert_eq!(&enc.take()[..], &[1, 0, 0xAB, 1, 0]);
}

#[test]
fn decoder_hands_capacity_out_and_takes_it_back() {
    let mut dec = PacketDecoder::new();
    dec.reserve(64);
    let mut room = dec.take_capacity();
    assert_eq!(room.len(), 0);
    assert!(room.capacity() >= 64);
    room.extend_from_slice(&[1, 0]);
    dec.queue_bytes(room);
    let frames = frames_of(&mut dec);
    assert_eq!(frames, vec![(0, vec![])]);
    dec.queue_bytes(BytesMut::from(&[2u8, 7, 1][..]));
    assert_eq!(frames_of(&mut dec), vec![(7, vec![1])]);
}

#[test]
fn an_error_leaves_the_bytes_in_place() {
    let mut dec = PacketDecoder::new();
    dec.queue_slice(&[0]);
    assert!(matches!(dec.try_next_packet(), Err(DecodeError::UnexpectedEnd)));
    assert!(matches!(dec.try_next_packet(), Err(DecodeError::UnexpectedEnd)));
}

#[test]
fn encoder_stages_the_deflated_frame() {
    let pkt = status(38);
    let mut data = vec![CStatusResponse::ID as u8, 38];
    data.extend_from_slice(pkt.json.as_bytes());
    assert_eq!(data.len(), 40);

    let mut enc = PacketEncoder::new();
    enc.set_compression(CompressionThreshold(8));
    assert_eq!(enc.append_packet(&pkt), Ok(()));
    let staged = enc.take().to_vec();

    let z = zlib(&data);
    let mut want = varint((1 + z.len()) as i32);
    want.push(0x28);
    want.extend_from_slice(&z);
    assert_eq!(staged, want);
    assert_eq!(unzlib(&staged[2..]), data);
    assert_eq!(staged[0] as usize, VarInt(40).written_size() + z.len());
}

#[test]
fn default_encoder_is_a_new_encoder() {
    let mut enc = PacketEncoder::default();
    assert_eq!(enc.take().len(), 0);
    assert!(!enc.is_encrypted());
    enc.append_packet(&status(300)).unwrap();
    let mut plain = Vec::new();
    encode_packet(&mut plain, &status(300)).unwrap();
    assert_eq!(enc.take().to_vec(), plain);
}
