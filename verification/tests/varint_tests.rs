use tunnel_protocol::varint::{VarInt, VarIntDecodeError};

fn encoded(n: i32) -> Vec<u8> {
    let mut out = Vec::new();
    VarInt(n).encode(&mut out);
    out
}

#[test]
fn written_size_at_the_edges() {
    assert_eq!(VarInt(0).written_size(), 1);
    assert_eq!(VarInt(127).written_size(), 1);
    assert_eq!(VarInt(128).written_size(), 2);
    assert_eq!(VarInt(16_383).written_size(), 2);
    assert_eq!(VarInt(16_384).written_size(), 3);
    assert_eq!(VarInt(2_097_151).written_size(), 3);
    assert_eq!(VarInt(2_097_152).written_size(), 4);
    assert_eq!(VarInt(268_435_455).written_size(), 4);
    assert_eq!(VarInt(268_435_456).written_size(), 5);
    assert_eq!(VarInt(i32::MAX).written_size(), 5);
    assert_eq!(VarInt(-1).written_size(), 5);
    assert_eq!(VarInt(i32::MIN).written_size(), 5);
}

#[test]
fn encode_known_values() {
    assert_eq!(encoded(0x00), vec![0x00]);
    assert_eq!(encoded(0x7F), vec![0x7F]);
    assert_eq!(encoded(0x80), vec![0x80, 0x01]);
    assert_eq!(encoded(0xFF), vec![0xFF, 0x01]);
    assert_eq!(encoded(-1), vec![0xFF, 0xFF, 0xFF, 0xFF, 0x0F]);
    assert_eq!(encoded(25565), vec![0xDD, 0xC7, 0x01]);
    assert_eq!(encoded(2_097_151), vec![0xFF, 0xFF, 0x7F]);
    assert_eq!(encoded(i32::MAX), vec![0xFF, 0xFF, 0xFF, 0xFF, 0x07]);
    assert_eq!(encoded(i32::MIN), vec![0x80, 0x80, 0x80, 0x80, 0x08]);
}

#[test]
fn encode_appends_to_what_is_there() {
    let mut out = vec![9u8, 9];
    VarInt(300).encode(&mut out);
    assert_eq!(out, vec![9, 9, 0xAC, 0x02]);
}

#[test]
fn encode_const_pads_with_zeros() {
    let (bytes, len) = VarInt(300).encode_const();
    assert_eq!(len, 2);
    assert_eq!(bytes, [0xAC, 0x02, 0, 0, 0, 0, 0, 0]);
    let (bytes, len) = VarInt(-1).encode_const();
    assert_eq!(len, 5);
    assert_eq!(bytes, [0xFF, 0xFF, 0xFF, 0xFF, 0x0F, 0, 0, 0]);
    let (bytes, len) = VarInt(0).encode_const();
    assert_eq!(len, 1);
    assert_eq!(bytes, [0; 8]);
}

#[test]
fn decode_known_values() {
    assert_eq!(VarInt::decode_partial(&[0x00]), Ok((0, 1)));
    assert_eq!(VarInt::decode_partial(&[0x7F]), Ok((127, 1)));
    assert_eq!(VarInt::decode_partial(&[0x80, 0x01]), Ok((128, 2)));
    assert_eq!(VarInt::decode_partial(&[0xFF, 0x01]), Ok((255, 2)));
    assert_eq!(VarInt::decode_partial(&[0xFF, 0xFF, 0xFF, 0xFF, 0x0F]), Ok((-1, 5)));
    assert_eq!(VarInt::decode_partial(&[0x80, 0x80, 0x80, 0x80, 0x08]), Ok((i32::MIN, 5)));
}

#[test]
fn decode_leaves_what_follows() {
    assert_eq!(VarInt::decode_partial(&[0xAC, 0x02, 0xFF, 0xFF]), Ok((300, 2)));
}

#[test]
fn decode_reads_a_padded_form() {
    assert_eq!(VarInt::decode_partial(&[0x80, 0x00]), Ok((0, 2)));
    assert_eq!(VarInt::decode_partial(&[0x81, 0x80, 0x00]), Ok((1, 3)));
}

#[test]
fn decode_drops_the_bits_over_32() {
    assert_eq!(VarInt::decode_partial(&[0xFF, 0xFF, 0xFF, 0xFF, 0x7F]), Ok((-1, 5)));
    assert_eq!(VarInt::decode_partial(&[0x80, 0x80, 0x80, 0x80, 0x10]), Ok((0, 5)));
}

#[test]
fn decode_incomplete() {
    assert_eq!(VarInt::decode_partial(&[]), Err(VarIntDecodeError::Incomplete));
    assert_eq!(VarInt::decode_partial(&[0x80]), Err(VarIntDecodeError::Incomplete));
    assert_eq!(
        VarInt::decode_partial(&[0xFF, 0xFF, 0xFF, 0xFF]),
        Err(VarIntDecodeError::Incomplete)
    );
}

#[test]
fn decode_too_large() {
    assert_eq!(
        VarInt::decode_partial(&[0x80, 0x80, 0x80, 0x80, 0x80]),
        Err(VarIntDecodeError::TooLarge)
    );
    assert_eq!(
        VarInt::decode_partial(&[0xFF, 0xFF, 0xFF, 0xFF, 0xFF, 0x01]),
        Err(VarIntDecodeError::TooLarge)
    );
}

#[test]
fn round_trip_over_many_values() {
    let mut samples: Vec<i32> = vec![0, 1, -1, 127, 128, 255, 256, i32::MAX, i32::MIN];
    let mut x: i32 = 1;
    for _ in 0..31 {
        samples.push(x);
        samples.push(x.wrapping_sub(1));
        samples.push(x.wrapping_neg());
        x = x.wrapping_mul(2);
    }
    let mut seed: u32 = 0x1234_5678;
    for _ in 0..2000 {
        seed = seed.wrapping_mul(1_664_525).wrapping_add(1_013_904_223);
        samples.push(seed as i32);
    }
    for n in samples {
        let bytes = encoded(n);
        assert_eq!(bytes.len(), VarInt(n).written_size());
        assert!((1..=5).contains(&bytes.len()));
        assert_eq!(VarInt::decode_partial(&bytes), Ok((n, bytes.len())));
        let (fixed, len) = VarInt(n).encode_const();
        assert_eq!(&fixed[..len as usize], &bytes[..]);
    }
}

#[test]
fn errors_in_words() {
    assert_eq!(VarIntDecodeError::Incomplete.message(), "incomplete VarInt decode");
    assert_eq!(VarIntDecodeError::TooLarge.message(), "VarInt is too large");
}

#[test]
fn largest_size_is_five() {
    assert_eq!(VarInt::MAX_SIZE, 5);
}
