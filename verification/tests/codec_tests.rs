use tunnel_protocol::clientbound::{
    CData, CDataTypeByte, CEncryptionRequest, CLoginCompression, CLoginDisconnect, CLoginFinished,
    CPongResponse, CStatusResponse,
};
use tunnel_protocol::encode_slice;
use tunnel_protocol::primitives::{exceeds, Bounded, IpAddr};
use tunnel_protocol::serverbound::{
    ChatMode, DisplayedSkinParts, HandshakeNextState, MainHand, ParticleStatus,
    SClientInformation, SData, SDataTypeByte, SEncryptionResponse, SHello, SIntention,
    SLoginAcknowledged, SPingRequest, SStatusRequest,
};
use tunnel_protocol::varint::VarInt;
use tunnel_protocol::{Decode, DecodeError, Encode, EncodeError, Packet, PacketSide, PacketState};

fn wire<T: Encode>(v: &T) -> Vec<u8> {
    let mut out = Vec::new();
    v.encode(&mut out).unwrap();
    out
}

fn with_id<P: Packet>(p: &P) -> Vec<u8> {
    let mut out = Vec::new();
    p.encode_with_id(&mut out).unwrap();
    out
}

#[test]
fn integers_are_big_endian() {
    assert_eq!(wire(&0xABu8), vec![0xAB]);
    assert_eq!(wire(&25565u16), vec![0x63, 0xDD]);
    assert_eq!(wire(&0x0102_0304u32), vec![1, 2, 3, 4]);
    assert_eq!(wire(&0x0102_0304_0506_0708i64), vec![1, 2, 3, 4, 5, 6, 7, 8]);
    assert_eq!(wire(&-2i64), vec![0xFF, 0xFF, 0xFF, 0xFF, 0xFF, 0xFF, 0xFF, 0xFE]);
    assert_eq!(wire(&i64::MIN), vec![0x80, 0, 0, 0, 0, 0, 0, 0]);
    assert_eq!(
        wire(&0x0011_2233_4455_6677_8899_AABB_CCDD_EEFFu128),
        vec![
            0x00, 0x11, 0x22, 0x33, 0x44, 0x55, 0x66, 0x77, 0x88, 0x99, 0xAA, 0xBB, 0xCC, 0xDD,
            0xEE, 0xFF
        ]
    );
}

#[test]
fn integers_read_back() {
    assert_eq!(u8::decode(&[0xAB, 1]).unwrap(), (0xAB, 1));
    assert_eq!(u16::decode(&[0x63, 0xDD, 9]).unwrap(), (25565, 2));
    assert_eq!(u32::decode(&[1, 2, 3, 4]).unwrap(), (0x0102_0304, 4));
    assert_eq!(i64::decode(&[0xFF; 8]).unwrap(), (-1, 8));
    assert_eq!(i64::decode(&[0x80, 0, 0, 0, 0, 0, 0, 0]).unwrap(), (i64::MIN, 8));
    assert_eq!(i64::decode(&[0x7F, 0xFF, 0xFF, 0xFF, 0xFF, 0xFF, 0xFF, 0xFF]).unwrap(), (i64::MAX, 8));
    assert_eq!(u128::decode(&[0xFF; 16]).unwrap(), (u128::MAX, 16));
    for v in [0u128, 1, 255, 256, u64::MAX as u128, u128::MAX - 1] {
        assert_eq!(u128::decode(&wire(&v)).unwrap(), (v, 16));
    }
}

#[test]
fn short_integers_are_an_error() {
    assert_eq!(u8::decode(&[]).unwrap_err(), DecodeError::UnexpectedEnd);
    assert_eq!(u16::decode(&[1]).unwrap_err(), DecodeError::UnexpectedEnd);
    assert_eq!(u32::decode(&[1, 2, 3]).unwrap_err(), DecodeError::UnexpectedEnd);
    assert_eq!(i64::decode(&[0; 7]).unwrap_err(), DecodeError::UnexpectedEnd);
    assert_eq!(u128::decode(&[0; 15]).unwrap_err(), DecodeError::UnexpectedEnd);
}

#[test]
fn booleans() {
    assert_eq!(wire(&false), vec![0]);
    assert_eq!(wire(&true), vec![1]);
    assert_eq!(bool::decode(&[0]).unwrap(), (false, 1));
    assert_eq!(bool::decode(&[1, 7]).unwrap(), (true, 1));
    assert_eq!(bool::decode(&[2]).unwrap_err(), DecodeError::InvalidBool);
    assert_eq!(bool::decode(&[0xFF]).unwrap_err(), DecodeError::InvalidBool);
    assert_eq!(bool::decode(&[]).unwrap_err(), DecodeError::UnexpectedEnd);
}

#[test]
fn varint_as_a_field() {
    assert_eq!(wire(&VarInt(770)), vec![0x82, 0x06]);
    let (v, n) = <VarInt as Decode>::decode(&[0x82, 0x06, 0]).unwrap();
    assert_eq!((v, n), (VarInt(770), 2));
    assert_eq!(<VarInt as Decode>::decode(&[0x82]).unwrap_err(), DecodeError::UnexpectedEnd);
    assert_eq!(
        <VarInt as Decode>::decode(&[0x80; 6]).unwrap_err(),
        DecodeError::VarIntTooLarge
    );
}

#[test]
fn strings_carry_their_byte_length() {
    assert_eq!(wire(&"host".to_string()), vec![4, b'h', b'o', b's', b't']);
    assert_eq!(wire(&String::new()), vec![0]);
    assert_eq!(wire(&"é€".to_string()), vec![5, 0xC3, 0xA9, 0xE2, 0x82, 0xAC]);
    assert_eq!(String::decode(&[4, b'h', b'o', b's', b't', 9]).unwrap(), ("host".to_string(), 5));
    assert_eq!(String::decode(&[5, 0xC3, 0xA9, 0xE2, 0x82, 0xAC]).unwrap(), ("é€".to_string(), 6));
    let long: String = "a".repeat(200);
    let bytes = wire(&long);
    assert_eq!(&bytes[..2], &[0xC8, 0x01]);
    assert_eq!(String::decode(&bytes).unwrap(), (long, 202));
}

#[test]
fn malformed_strings() {
    assert_eq!(String::decode(&[2, 0xC3, 0x28]).unwrap_err(), DecodeError::InvalidUtf8);
    assert_eq!(String::decode(&[1, 0xFF]).unwrap_err(), DecodeError::InvalidUtf8);
    assert_eq!(String::decode(&[3, b'a']).unwrap_err(), DecodeError::UnexpectedEnd);
    assert_eq!(String::decode(&[]).unwrap_err(), DecodeError::UnexpectedEnd);
    assert_eq!(
        String::decode(&[0xFF, 0xFF, 0xFF, 0xFF, 0x0F]).unwrap_err(),
        DecodeError::NegativeLength
    );
}

#[test]
fn byte_sequences_carry_their_length() {
    assert_eq!(wire(&vec![9u8, 8, 7]), vec![3, 9, 8, 7]);
    assert_eq!(wire(&Vec::<u8>::new()), vec![0]);
    assert_eq!(Vec::<u8>::decode(&[3, 9, 8, 7, 6]).unwrap(), (vec![9, 8, 7], 4));
    assert_eq!(Vec::<u8>::decode(&[3, 9, 8]).unwrap_err(), DecodeError::UnexpectedEnd);
    assert_eq!(
        Vec::<u8>::decode(&[0xFF, 0xFF, 0xFF, 0xFF, 0x0F]).unwrap_err(),
        DecodeError::NegativeLength
    );
}

#[test]
fn optional_values() {
    assert_eq!(wire(&Some(7u16)), vec![1, 0, 7]);
    assert_eq!(wire(&None::<u16>), vec![0]);
    assert_eq!(Option::<u16>::decode(&[1, 0, 7]).unwrap(), (Some(7), 3));
    assert_eq!(Option::<u16>::decode(&[0, 0, 7]).unwrap(), (None, 1));
    assert_eq!(Option::<u16>::decode(&[2, 0, 7]).unwrap_err(), DecodeError::InvalidBool);
    assert_eq!(Option::<u16>::decode(&[1, 0]).unwrap_err(), DecodeError::UnexpectedEnd);
    assert_eq!(Option::<String>::decode(&[1, 1, b'x']).unwrap(), (Some("x".to_string()), 3));
}

#[test]
fn bounded_strings_count_characters() {
    let at: Bounded<String, 3> = Bounded("é€x".to_string());
    assert_eq!(wire(&at), vec![6, 0xC3, 0xA9, 0xE2, 0x82, 0xAC, b'x']);
    let over: Bounded<String, 3> = Bounded("abcd".to_string());
    assert_eq!(over.encode(&mut Vec::new()), Err(EncodeError::BoundExceeded));

    let (got, n) = Bounded::<String, 3>::decode(&[6, 0xC3, 0xA9, 0xE2, 0x82, 0xAC, b'x']).unwrap();
    assert_eq!((got.0.as_str(), n), ("é€x", 7));
    assert_eq!(
        Bounded::<String, 3>::decode(&[4, b'a', b'b', b'c', b'd']).unwrap_err(),
        DecodeError::BoundExceeded
    );
    assert_eq!(
        Bounded::<String, 0>::decode(&[1, b'a']).unwrap_err(),
        DecodeError::BoundExceeded
    );
    assert_eq!(Bounded::<String, 0>::decode(&[0]).unwrap().1, 1);
}

#[test]
fn bounded_user_name_of_seventeen_characters_fails() {
    let mut bytes = vec![17u8];
    bytes.extend_from_slice(&[b'a'; 17]);
    bytes.extend_from_slice(&[0; 16]);
    assert_eq!(SHello::decode(&bytes).unwrap_err(), DecodeError::BoundExceeded);
    bytes[0] = 16;
    bytes.remove(1);
    let (hello, n) = SHello::decode(&bytes).unwrap();
    assert_eq!((hello.username.0.len(), hello.uuid, n), (16, 0, 33));
}

#[test]
fn bounded_byte_sequences_count_bytes() {
    let at: Bounded<Vec<u8>, 2> = Bounded(vec![1, 2]);
    assert_eq!(wire(&at), vec![2, 1, 2]);
    let over: Bounded<Vec<u8>, 2> = Bounded(vec![1, 2, 3]);
    assert_eq!(over.encode(&mut Vec::new()), Err(EncodeError::BoundExceeded));
    assert_eq!(Bounded::<Vec<u8>, 2>::decode(&[2, 1, 2]).unwrap().0 .0, vec![1, 2]);
    assert_eq!(
        Bounded::<Vec<u8>, 2>::decode(&[3, 1, 2, 3]).unwrap_err(),
        DecodeError::BoundExceeded
    );
}

#[test]
fn exceeds_counts_characters() {
    assert!(!exceeds("", 0));
    assert!(exceeds("a", 0));
    assert!(!exceeds("é€", 2));
    assert!(exceeds("é€x", 2));
    assert!(!exceeds("abc", usize::MAX));
}

#[test]
fn addresses() {
    let v4 = IpAddr::V4(0x7F00_0001);
    let v6 = IpAddr::V6(1);
    assert_eq!(wire(&v4), vec![0, 127, 0, 0, 1]);
    assert_eq!(wire(&v6), vec![1, 0, 0, 0, 0, 0, 0, 0, 0, 0, 0, 0, 0, 0, 0, 0, 1]);
    assert_eq!(IpAddr::decode(&wire(&v4)).unwrap(), (v4, 5));
    assert_eq!(IpAddr::decode(&wire(&v6)).unwrap(), (v6, 17));
    assert_eq!(IpAddr::decode(&[2, 0, 0, 0, 0]).unwrap_err(), DecodeError::UnknownDiscriminant);
    assert_eq!(IpAddr::decode(&[0, 1, 2, 3]).unwrap_err(), DecodeError::UnexpectedEnd);
    assert_eq!(IpAddr::decode(&[]).unwrap_err(), DecodeError::UnexpectedEnd);
}

#[test]
fn encode_slice_writes_in_order() {
    let mut out = vec![0xAA];
    encode_slice(&[1u16, 2, 3], &mut out).unwrap();
    assert_eq!(out, vec![0xAA, 0, 1, 0, 2, 0, 3]);
    let mut none = Vec::new();
    encode_slice::<u8>(&[], &mut none).unwrap();
    assert!(none.is_empty());
}

#[test]
fn encode_slice_stops_at_the_first_error() {
    let items: [Bounded<String, 1>; 3] =
        [Bounded("a".into()), Bounded("bc".into()), Bounded("d".into())];
    let mut out = vec![0xAA];
    assert_eq!(encode_slice(&items, &mut out), Err(EncodeError::BoundExceeded));
    assert_eq!(&out[..3], &[0xAA, 1, b'a']);
}

#[test]
fn intention_wire_body() {
    let pkt = SIntention {
        protocol_version: VarInt(770),
        server_address: Bounded("host".to_string()),
        server_port: 25565,
        next_state: HandshakeNextState::Login,
    };
    let body = wire(&pkt);
    assert_eq!(body, vec![0x82, 0x06, 0x04, b'h', b'o', b's', b't', 0x63, 0xDD, 0x02]);
    let (back, n) = SIntention::decode(&body).unwrap();
    assert_eq!(n, body.len());
    assert_eq!(back.protocol_version, VarInt(770));
    assert_eq!(back.server_address.0, "host");
    assert_eq!(back.server_port, 25565);
    assert_eq!(back.next_state, HandshakeNextState::Login);
    assert_eq!(with_id(&pkt)[0], 0x00);
}

#[test]
fn next_state_tags_start_at_one() {
    assert_eq!(wire(&HandshakeNextState::Status), vec![1]);
    assert_eq!(wire(&HandshakeNextState::Login), vec![2]);
    assert_eq!(HandshakeNextState::decode(&[1]).unwrap().0, HandshakeNextState::Status);
    assert_eq!(HandshakeNextState::decode(&[0]).unwrap_err(), DecodeError::UnknownDiscriminant);
    assert_eq!(HandshakeNextState::decode(&[3]).unwrap_err(), DecodeError::UnknownDiscriminant);
}

#[test]
fn enums_use_a_varint_tag() {
    assert_eq!(wire(&ChatMode::Enabled), vec![0]);
    assert_eq!(wire(&ChatMode::CommandsOnly), vec![1]);
    assert_eq!(wire(&ChatMode::Hidden), vec![2]);
    assert_eq!(wire(&MainHand::Right), vec![1]);
    assert_eq!(wire(&ParticleStatus::Minimal), vec![2]);
    // A padded VarInt is still the tag it spells.
    assert_eq!(ChatMode::decode(&[0x82, 0x00]).unwrap(), (ChatMode::Hidden, 2));
    assert_eq!(MainHand::decode(&[0]).unwrap(), (MainHand::Left, 1));
    assert_eq!(ParticleStatus::decode(&[1]).unwrap(), (ParticleStatus::Decreased, 1));
}

#[test]
fn out_of_range_discriminants_fail() {
    assert_eq!(ChatMode::decode(&[3]).unwrap_err(), DecodeError::UnknownDiscriminant);
    assert_eq!(MainHand::decode(&[2]).unwrap_err(), DecodeError::UnknownDiscriminant);
    assert_eq!(ParticleStatus::decode(&[3]).unwrap_err(), DecodeError::UnknownDiscriminant);
    assert_eq!(
        ChatMode::decode(&[0xFF, 0xFF, 0xFF, 0xFF, 0x0F]).unwrap_err(),
        DecodeError::UnknownDiscriminant
    );
    assert_eq!(SDataTypeByte::decode(&[3, 0, 0]).unwrap_err(), DecodeError::UnknownDiscriminant);
    assert_eq!(CDataTypeByte::decode(&[2, 0, 0]).unwrap_err(), DecodeError::UnknownDiscriminant);
    assert_eq!(ChatMode::decode(&[]).unwrap_err(), DecodeError::UnexpectedEnd);
    assert_eq!(SDataTypeByte::decode(&[]).unwrap_err(), DecodeError::UnexpectedEnd);
}

#[test]
fn tunnel_enums_use_a_single_byte_tag() {
    let connect = SDataTypeByte::Connect { ip: IpAddr::V4(0x0A00_0001), port: 80, is_udp: true };
    assert_eq!(wire(&connect), vec![0, 0, 10, 0, 0, 1, 0, 80, 1]);
    let process = SDataTypeByte::Process { connection_id: 0x0102, data: vec![5, 6] };
    assert_eq!(wire(&process), vec![1, 1, 2, 2, 5, 6]);
    let shutdown = SDataTypeByte::Shutdown { connection_id: 7 };
    assert_eq!(wire(&shutdown), vec![2, 0, 7]);

    // The tag is one byte: a byte with the high bit set is no padded VarInt.
    assert_eq!(
        SDataTypeByte::decode(&[0x82, 0x00, 0, 7]).unwrap_err(),
        DecodeError::UnknownDiscriminant
    );
    assert!(matches!(
        SDataTypeByte::decode(&[2, 0, 7]).unwrap(),
        (SDataTypeByte::Shutdown { connection_id: 7 }, 3)
    ));
    assert!(matches!(
        SDataTypeByte::decode(&[1, 1, 2, 2, 5, 6]).unwrap(),
        (SDataTypeByte::Process { connection_id: 0x0102, data }, 6) if data == vec![5, 6]
    ));
    assert!(matches!(
        SDataTypeByte::decode(&[0, 0, 10, 0, 0, 1, 0, 80, 1]).unwrap(),
        (SDataTypeByte::Connect { ip: IpAddr::V4(0x0A00_0001), port: 80, is_udp: true }, 9)
    ));

    let ack = CDataTypeByte::Connect {
        ip: IpAddr::V4(1),
        port: 2,
        is_udp: false,
        connection_id: 3,
    };
    assert_eq!(wire(&ack), vec![0, 0, 0, 0, 0, 1, 0, 2, 0, 0, 3]);
    assert!(matches!(
        CDataTypeByte::decode(&wire(&ack)).unwrap(),
        (CDataTypeByte::Connect { ip: IpAddr::V4(1), port: 2, is_udp: false, connection_id: 3 }, 11)
    ));
    assert_eq!(wire(&CDataTypeByte::Process { connection_id: 1, data: vec![9] }), vec![1, 0, 1, 1, 9]);
    assert_eq!(wire(&SData { data_type: shutdown }), vec![2, 0, 7]);
    assert_eq!(wire(&CData { data_type: ack }), vec![0, 0, 0, 0, 0, 1, 0, 2, 0, 0, 3]);
}

#[test]
fn login_finished_ends_with_an_empty_property_list() {
    let pkt = CLoginFinished { uuid: 0x0102, username: Bounded("bob".to_string()) };
    let mut want = vec![0u8; 14];
    want.extend_from_slice(&[1, 2, 3, b'b', b'o', b'b', 0]);
    assert_eq!(wire(&pkt), want);
    let long = CLoginFinished { uuid: 0, username: Bounded("a".repeat(17)) };
    assert_eq!(long.encode(&mut Vec::new()), Err(EncodeError::BoundExceeded));
}

#[test]
fn encryption_request_and_response() {
    let req = CEncryptionRequest {
        server_id: Bounded(String::new()),
        public_key: vec![1, 2, 3],
        verify_token: vec![4, 5],
        should_verify: false,
    };
    let bytes = wire(&req);
    assert_eq!(bytes, vec![0, 3, 1, 2, 3, 2, 4, 5, 0]);
    let (back, n) = CEncryptionRequest::decode(&bytes).unwrap();
    assert_eq!(n, 9);
    assert_eq!(back.server_id.0, "");
    assert_eq!(back.public_key, vec![1, 2, 3]);
    assert_eq!(back.verify_token, vec![4, 5]);
    assert!(!back.should_verify);

    let long = CEncryptionRequest {
        server_id: Bounded("x".repeat(21)),
        public_key: vec![],
        verify_token: vec![],
        should_verify: true,
    };
    assert_eq!(long.encode(&mut Vec::new()), Err(EncodeError::BoundExceeded));

    let resp = SEncryptionResponse { shared_secret: vec![7; 3], verify_token: vec![8] };
    assert_eq!(wire(&resp), vec![3, 7, 7, 7, 1, 8]);
    let (back, n) = SEncryptionResponse::decode(&[3, 7, 7, 7, 1, 8]).unwrap();
    assert_eq!((back.shared_secret, back.verify_token, n), (vec![7; 3], vec![8], 6));
    assert_eq!(
        SEncryptionResponse::decode(&[3, 7, 7, 7, 2, 8]).unwrap_err(),
        DecodeError::UnexpectedEnd
    );
}

#[test]
fn small_packets() {
    assert_eq!(wire(&SStatusRequest {}), Vec::<u8>::new());
    assert_eq!(wire(&SLoginAcknowledged {}), Vec::<u8>::new());
    assert_eq!(SStatusRequest::decode(&[1, 2]).unwrap().1, 0);
    assert_eq!(wire(&SPingRequest { payload: 1 }), vec![0, 0, 0, 0, 0, 0, 0, 1]);
    assert_eq!(wire(&CPongResponse { payload: -1 }), vec![0xFF; 8]);
    assert_eq!(CPongResponse::decode(&[0xFF; 8]).unwrap().0.payload, -1);
    assert_eq!(wire(&CLoginCompression { threshold: VarInt(256) }), vec![0x80, 0x02]);
    assert_eq!(CLoginCompression::decode(&[0x80, 0x02]).unwrap().0.threshold, VarInt(256));
    assert_eq!(wire(&CStatusResponse { json: "{}".into() }), vec![2, b'{', b'}']);
    assert_eq!(CStatusResponse::decode(&[2, b'{', b'}']).unwrap().0.json, "{}");
    assert_eq!(wire(&CLoginDisconnect { reason: "\"x\"".into() }), vec![3, b'"', b'x', b'"']);
    assert_eq!(CLoginDisconnect::decode(&[1, b'x']).unwrap().0.reason, "x");
    let hello = SHello { username: Bounded("al".into()), uuid: 1 };
    let mut want = vec![2, b'a', b'l'];
    want.extend_from_slice(&1u128.to_be_bytes());
    assert_eq!(wire(&hello), want);
}

#[test]
fn client_information() {
    let info = SClientInformation {
        private_uuid: 0xAB,
        view_distance: 12,
        chat_mode: ChatMode::Hidden,
        chat_colors: true,
        displayed_skin_parts: DisplayedSkinParts::new().with_cape(true).with_hat(true),
        main_hand: MainHand::Right,
        enable_text_filtering: false,
        allow_server_listings: true,
        particle_status: ParticleStatus::Decreased,
    };
    let mut want = vec![0u8; 15];
    want.extend_from_slice(&[0xAB, 12, 2, 1, 0x41, 1, 0, 1, 1]);
    assert_eq!(wire(&info), want);
    let (back, n) = SClientInformation::decode(&want).unwrap();
    assert_eq!(n, 24);
    assert_eq!(back.private_uuid, 0xAB);
    assert_eq!(back.view_distance, 12);
    assert_eq!(back.chat_mode, ChatMode::Hidden);
    assert_eq!(back.displayed_skin_parts, DisplayedSkinParts(0x41));
    assert_eq!(back.main_hand, MainHand::Right);
    assert_eq!(back.particle_status, ParticleStatus::Decreased);
    assert!(back.chat_colors && !back.enable_text_filtering && back.allow_server_listings);

    let mut bad = want.clone();
    bad[17] = 3;
    assert_eq!(SClientInformation::decode(&bad).unwrap_err(), DecodeError::UnknownDiscriminant);
    let mut bad = want.clone();
    bad[18] = 2;
    assert_eq!(SClientInformation::decode(&bad).unwrap_err(), DecodeError::InvalidBool);
    let mut bad = want.clone();
    bad[23] = 3;
    assert_eq!(SClientInformation::decode(&bad).unwrap_err(), DecodeError::UnknownDiscriminant);
    assert_eq!(
        SClientInformation::decode(&want[..23]).unwrap_err(),
        DecodeError::UnexpectedEnd
    );
}

#[test]
fn skin_parts_are_single_bits() {
    let none = DisplayedSkinParts::new();
    assert_eq!(none.into_bits(), 0);
    assert_eq!(none.with_cape(true).into_bits(), 0x01);
    assert_eq!(none.with_jacket(true).into_bits(), 0x02);
    assert_eq!(none.with_left_sleeve(true).into_bits(), 0x04);
    assert_eq!(none.with_right_sleeve(true).into_bits(), 0x08);
    assert_eq!(none.with_left_pants_leg(true).into_bits(), 0x10);
    assert_eq!(none.with_right_pants_leg(true).into_bits(), 0x20);
    assert_eq!(none.with_hat(true).into_bits(), 0x40);

    let all = DisplayedSkinParts::from_bits(0xFF);
    assert!(all.cape() && all.jacket() && all.left_sleeve() && all.right_sleeve());
    assert!(all.left_pants_leg() && all.right_pants_leg() && all.hat());
    assert_eq!(all.with_jacket(false).into_bits(), 0xFD);
    assert!(!all.with_jacket(false).jacket());
    assert!(all.with_jacket(false).cape());
    assert_eq!(all.with_hat(false).with_cape(false).into_bits(), 0xBE);
    let some = DisplayedSkinParts::from_bits(0x12);
    assert!(some.jacket() && some.left_pants_leg());
    assert!(!some.cape() && !some.hat() && !some.left_sleeve());
    assert_eq!(DisplayedSkinParts::decode(&[0x7F]).unwrap(), (DisplayedSkinParts(0x7F), 1));
}

#[test]
fn packet_metadata() {
    assert_eq!(SIntention::ID, 0);
    assert_eq!(SIntention::STATE, PacketState::Handshake);
    assert_eq!(SIntention::SIDE, PacketSide::Serverbound);
    assert_eq!(SStatusRequest::ID, 0);
    assert_eq!(SPingRequest::ID, 1);
    assert_eq!(SPingRequest::STATE, PacketState::Status);
    assert_eq!(SHello::ID, 0);
    assert_eq!(SEncryptionResponse::ID, 1);
    assert_eq!(SEncryptionResponse::NAME, "Key");
    assert_eq!(SLoginAcknowledged::ID, 3);
    assert_eq!(SClientInformation::ID, 0);
    assert_eq!(SClientInformation::STATE, PacketState::Config);
    assert_eq!(SData::ID, 2);
    assert_eq!(SData::NAME, "custom_payload");
    assert_eq!(CStatusResponse::ID, 0);
    assert_eq!(CPongResponse::ID, 1);
    assert_eq!(CLoginDisconnect::ID, 0);
    assert_eq!(CEncryptionRequest::ID, 1);
    assert_eq!(CEncryptionRequest::NAME, "Hello");
    assert_eq!(CEncryptionRequest::SIDE, PacketSide::Clientbound);
    assert_eq!(CEncryptionRequest::STATE, PacketState::Login);
    assert_eq!(CLoginFinished::ID, 2);
    assert_eq!(CLoginCompression::ID, 3);
    assert_eq!(CData::ID, 1);
    assert_eq!(CData::STATE, PacketState::Config);
}

#[test]
fn encode_with_id_puts_the_id_first() {
    assert_eq!(with_id(&SStatusRequest {}), vec![0]);
    assert_eq!(with_id(&CLoginCompression { threshold: VarInt(1) }), vec![3, 1]);
    assert_eq!(with_id(&SData { data_type: SDataTypeByte::Shutdown { connection_id: 1 } }), vec![2, 2, 0, 1]);
}

#[test]
fn defaults_and_order() {
    assert_eq!(VarInt::default(), VarInt(0));
    assert!(VarInt(-1) < VarInt(0));
    assert!(VarInt(2) > VarInt(1));
    assert_eq!(VarInt(5).max(VarInt(7)), VarInt(7));
    assert_eq!(ChatMode::default(), ChatMode::Hidden);
    assert_eq!(MainHand::default(), MainHand::Right);
    assert_eq!(ParticleStatus::default(), ParticleStatus::All);
    assert!(tunnel_protocol::CompressionThreshold(-1) < tunnel_protocol::CompressionThreshold(0));
    assert!(tunnel_protocol::CompressionThreshold(256) > tunnel_protocol::CompressionThreshold(8));
}
