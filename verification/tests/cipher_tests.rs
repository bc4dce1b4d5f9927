use aes::cipher::{AsyncStreamCipher, KeyIvInit};
use tunnel_protocol::cipher::CipherState;
use tunnel_protocol::clientbound::CStatusResponse;
use tunnel_protocol::decode::PacketDecoder;
use tunnel_protocol::encode::PacketEncoder;
use tunnel_protocol::serverbound::SPingRequest;
use tunnel_protocol::{CompressionThreshold, Packet};

const KEY: [u8; 16] = [0, 1, 2, 3, 4, 5, 6, 7, 8, 9, 10, 11, 12, 13, 14, 15];

fn reference_encrypt(key: &[u8; 16], data: &[u8]) -> Vec<u8> {
    let mut out = data.to_vec();
    cfb8::Encryptor::<aes::Aes128>::new(key.into(), key.into()).encrypt(&mut out);
    out
}

fn reference_decrypt(key: &[u8; 16], data: &[u8]) -> Vec<u8> {
    let mut out = data.to_vec();
    cfb8::Decryptor::<aes::Aes128>::new(key.into(), key.into()).decrypt(&mut out);
    out
}

fn sample(len: usize) -> Vec<u8> {
    (0..len).map(|i| (i * 7 + 3) as u8).collect()
}

#[test]
fn first_byte_of_the_stream() {
    let mut c = CipherState::new(&KEY);
    let out = c.encrypt_byte(0x00);
    assert_eq!(out, reference_encrypt(&KEY, &[0x00])[0]);
    // AES-128 of the block 00..0F under the key 00..0F starts with 0x0A.
    assert_eq!(out, 0x0A);
    let mut d = CipherState::new(&KEY);
    assert_eq!(d.decrypt_byte(out), 0x00);
}

#[test]
fn register_takes_the_ciphertext_in() {
    let mut c = CipherState::new(&KEY);
    let out = c.encrypt_byte(0x55);
    assert_eq!(c.key, KEY);
    assert_eq!(&c.register[..15], &KEY[1..]);
    assert_eq!(c.register[15], out);

    let mut d = CipherState::new(&KEY);
    let plain = d.decrypt_byte(out);
    assert_eq!(plain, 0x55);
    assert_eq!(d.register, c.register);
}

#[test]
fn hundred_bytes_match_the_cipher_and_come_back() {
    let plain = sample(100);
    let mut enc = PacketEncoder::new();
    enc.enable_encryption(&KEY);
    enc.append_bytes(&plain);
    let sealed = enc.take().to_vec();
    assert_eq!(sealed.len(), 100);
    assert_eq!(sealed, reference_encrypt(&KEY, &plain));
    assert_ne!(sealed, plain);
    assert_eq!(reference_decrypt(&KEY, &sealed), plain);

    let mut c = CipherState::new(&KEY);
    let opened: Vec<u8> = sealed.iter().map(|b| c.decrypt_byte(*b)).collect();
    assert_eq!(opened, plain);
}

#[test]
fn different_plaintexts_give_different_ciphertexts() {
    let mut seen = std::collections::HashSet::new();
    for b in 0..=255u8 {
        let mut c = CipherState::new(&KEY);
        assert!(seen.insert(c.encrypt_byte(b)));
    }
    assert_eq!(seen.len(), 256);
}

#[test]
fn the_stream_goes_on_over_several_takes() {
    let plain = sample(300);
    let mut enc = PacketEncoder::new();
    enc.enable_encryption(&KEY);
    let mut sealed = Vec::new();
    for piece in plain.chunks(37) {
        enc.append_bytes(piece);
        sealed.extend_from_slice(&enc.take());
    }
    assert_eq!(sealed, reference_encrypt(&KEY, &plain));
}

#[test]
fn bytes_staged_before_the_switch_are_encrypted_too() {
    let mut enc = PacketEncoder::new();
    enc.append_bytes(&[1, 2, 3]);
    assert!(!enc.is_encrypted());
    enc.enable_encryption(&KEY);
    assert!(enc.is_encrypted());
    enc.append_bytes(&[4, 5]);
    assert_eq!(enc.take().to_vec(), reference_encrypt(&KEY, &[1, 2, 3, 4, 5]));
}

#[test]
fn bytes_received_before_the_switch_stay_plain() {
    let mut plain = Vec::new();
    tunnel_protocol::encode::encode_packet(&mut plain, &SPingRequest { payload: 1 }).unwrap();
    let mut second = Vec::new();
    tunnel_protocol::encode::encode_packet(&mut second, &SPingRequest { payload: 2 }).unwrap();

    let mut dec = PacketDecoder::new();
    dec.queue_slice(&plain);
    assert!(!dec.is_encrypted());
    dec.enable_encryption(&KEY);
    assert!(dec.is_encrypted());
    dec.queue_slice(&reference_encrypt(&KEY, &second));

    let first = dec.try_next_packet().unwrap().unwrap();
    assert_eq!(first.body.to_vec(), vec![0, 0, 0, 0, 0, 0, 0, 1]);
    let next = dec.try_next_packet().unwrap().unwrap();
    assert_eq!(next.body.to_vec(), vec![0, 0, 0, 0, 0, 0, 0, 2]);
    assert!(dec.try_next_packet().unwrap().is_none());
}

#[test]
fn paired_streams_are_the_identity() {
    for threshold in [-1, 32] {
        let mut enc = PacketEncoder::new();
        let mut dec = PacketDecoder::new();
        enc.set_compression(CompressionThreshold(threshold));
        dec.set_compression(CompressionThreshold(threshold));
        enc.enable_encryption(&KEY);
        dec.enable_encryption(&KEY);

        let mut got = Vec::new();
        let mut want = Vec::new();
        for round in 0..20usize {
            let json: String = "xyz".chars().cycle().take(round * 13).collect();
            enc.append_packet(&CStatusResponse { json: json.clone() }).unwrap();
            enc.append_packet(&SPingRequest { payload: round as i64 }).unwrap();
            let mut body = Vec::new();
            tunnel_protocol::varint::VarInt(json.len() as i32).encode(&mut body);
            body.extend_from_slice(json.as_bytes());
            want.push((CStatusResponse::ID, body));
            want.push((SPingRequest::ID, (round as i64).to_be_bytes().to_vec()));

            let sealed = enc.take();
            for piece in sealed.chunks(5) {
                dec.queue_slice(piece);
                while let Some(frame) = dec.try_next_packet().unwrap() {
                    got.push((frame.id, frame.body.to_vec()));
                }
            }
        }
        assert_eq!(got, want);
    }
}

#[test]
fn a_decoder_with_another_key_reads_something_else() {
    let mut enc = PacketEncoder::new();
    enc.enable_encryption(&KEY);
    enc.append_bytes(&sample(64));
    let sealed = enc.take().to_vec();
    let mut other = KEY;
    other[0] ^= 1;
    let mut c = CipherState::new(&other);
    let opened: Vec<u8> = sealed.iter().map(|b| c.decrypt_byte(*b)).collect();
    assert_ne!(opened, sample(64));
}
