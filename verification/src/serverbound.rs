//! The packets that a client sends.

use crate::packet_id;
use crate::primitives::{lemma_regroup, put_field, tail, Bounded, IpAddr};
use crate::varint::VarInt;
use crate::{
    chain, Decode, DecodeError, Encode, EncodeError, Packet, PacketSide, PacketState, Parsed,
    RoundTrip,
};
use vstd::prelude::*;

verus! {

/// What a client asks for with its first packet.
#[derive(Clone, Copy, Debug, PartialEq, Eq, Structural)]
pub enum HandshakeNextState {
    Status,
    Login,
}

impl DeepView for HandshakeNextState {
    type V = HandshakeNextState;

    open spec fn deep_view(&self) -> HandshakeNextState {
        *self
    }
}

impl Encode for HandshakeNextState {
    open spec fn wire(&self) -> Result<Seq<u8>, EncodeError> {
        match self {
            HandshakeNextState::Status => Ok(VarInt(1).wire()),
            HandshakeNextState::Login => Ok(VarInt(2).wire()),
        }
    }

    fn encode(&self, w: &mut Vec<u8>) -> (res: Result<(), EncodeError>) {
        match self {
            HandshakeNextState::Status => VarInt(1).encode(w),
            HandshakeNextState::Login => VarInt(2).encode(w),
        }
        Ok(())
    }
}

impl Decode for HandshakeNextState {
    open spec fn parse(bytes: Seq<u8>) -> Parsed<HandshakeNextState> {
        match VarInt::parse(bytes) {
            Err(e) => Err(e),
            Ok((tag, n)) => if tag == 1 {
                Ok((HandshakeNextState::Status, n))
            } else if tag == 2 {
                Ok((HandshakeNextState::Login, n))
            } else {
                Err(DecodeError::UnknownDiscriminant)
            },
        }
    }

    fn decode(r: &[u8]) -> (res: Result<(Self, usize), DecodeError>) {
        let (tag, n) = VarInt::decode(r)?;
        if tag.0 == 1 {
            Ok((HandshakeNextState::Status, n))
        } else if tag.0 == 2 {
            Ok((HandshakeNextState::Login, n))
        } else {
            Err(DecodeError::UnknownDiscriminant)
        }
    }
}

impl RoundTrip for HandshakeNextState {
    proof fn lemma_round_trip(&self, rest: Seq<u8>) {
        match self {
            HandshakeNextState::Status => VarInt(1).lemma_round_trip(rest),
            HandshakeNextState::Login => VarInt(2).lemma_round_trip(rest),
        }
    }
}

/// `HandshakeNextState` is told by a `VarInt` tag from 1 to 2: every variant is
/// written as its tag alone, and a tag outside that range is refused.
pub proof fn lemma_handshake_next_state_tag(v: HandshakeNextState, bytes: Seq<u8>)
    ensures
        exists|tag: i32|
            1 <= tag <= 2 && v.wire() == Ok::<Seq<u8>, EncodeError>(VarInt(tag).wire()),
        VarInt::parse(bytes) matches Ok((tag, n)) && !(1 <= tag <= 2) ==> HandshakeNextState::parse(
            bytes,
        ) == Err::<(HandshakeNextState, nat), DecodeError>(DecodeError::UnknownDiscriminant),
{
    match v {
        HandshakeNextState::Status => {
            assert(1 <= 1i32 <= 2 && v.wire() == Ok::<Seq<u8>, EncodeError>(
                VarInt(1i32).wire(),
            ));
        },
        HandshakeNextState::Login => {
            assert(1 <= 2i32 <= 2 && v.wire() == Ok::<Seq<u8>, EncodeError>(
                VarInt(2i32).wire(),
            ));
        },
    }
}

/// The first packet of a session: the protocol version of the client, the
/// address it dialled, and what it asks for.
#[derive(Clone, Debug)]
pub struct SIntention {
    pub protocol_version: VarInt,
    pub server_address: Bounded<String, 255>,
    pub server_port: u16,
    pub next_state: HandshakeNextState,
}

/// The model of `SIntention`: its fields as plain values and sequences.
pub struct SIntentionView {
    pub protocol_version: i32,
    pub server_address: Seq<char>,
    pub server_port: u16,
    pub next_state: HandshakeNextState,
}

impl DeepView for SIntention {
    type V = SIntentionView;

    open spec fn deep_view(&self) -> SIntentionView {
        SIntentionView {
            protocol_version: self.protocol_version.0,
            server_address: self.server_address.0@,
            server_port: self.server_port,
            next_state: self.next_state,
        }
    }
}

impl Encode for SIntention {
    open spec fn wire(&self) -> Result<Seq<u8>, EncodeError> {
        chain(
            chain(
                chain(Encode::wire(&self.protocol_version), self.server_address.wire()),
                self.server_port.wire(),
            ),
            self.next_state.wire(),
        )
    }

    fn encode(&self, w: &mut Vec<u8>) -> (res: Result<(), EncodeError>) {
        let ghost before = w@;
        let ghost mut sofar = Seq::<u8>::empty();
        assert(w@ =~= before + sofar);
        put_field(&self.protocol_version, w, Ghost(before), Ghost(sofar))?;
        proof {
            sofar = sofar + Encode::wire(&self.protocol_version)->Ok_0;
        }
        put_field(&self.server_address, w, Ghost(before), Ghost(sofar))?;
        proof {
            sofar = sofar + self.server_address.wire()->Ok_0;
        }
        put_field(&self.server_port, w, Ghost(before), Ghost(sofar))?;
        proof {
            sofar = sofar + self.server_port.wire()->Ok_0;
        }
        put_field(&self.next_state, w, Ghost(before), Ghost(sofar))?;
        proof {
            sofar = sofar + self.next_state.wire()->Ok_0;
        }
        assert(sofar =~= self.wire()->Ok_0);
        assert(w@ =~= before + sofar);
        Ok(())
    }
}

impl Decode for SIntention {
    open spec fn parse(bytes: Seq<u8>) -> Parsed<SIntentionView> {
        match VarInt::parse(bytes) {
            Err(e) => Err(e),
            Ok((protocol_version, a)) => match Bounded::<String, 255>::parse(bytes.skip(a as int)) {
                Err(e) => Err(e),
                Ok((server_address, b)) => match u16::parse(bytes.skip((a + b) as int)) {
                    Err(e) => Err(e),
                    Ok((server_port, c)) => match HandshakeNextState::parse(
                        bytes.skip((a + b + c) as int),
                    ) {
                        Err(e) => Err(e),
                        Ok((next_state, d)) => Ok(
                            (
                                SIntentionView {
                                    protocol_version,
                                    server_address,
                                    server_port,
                                    next_state,
                                },
                                a + b + c + d,
                            ),
                        ),
                    },
                },
            },
        }
    }

    fn decode(r: &[u8]) -> (res: Result<(Self, usize), DecodeError>) {
        let (protocol_version, a) = VarInt::decode(r)?;
        let (server_address, b) = Bounded::<String, 255>::decode(tail(r, a))?;
        let (server_port, c) = u16::decode(tail(r, a + b))?;
        let (next_state, d) = HandshakeNextState::decode(tail(r, a + b + c))?;
        Ok(
            (
                SIntention { protocol_version, server_address, server_port, next_state },
                a + b + c + d,
            ),
        )
    }
}

impl RoundTrip for SIntention {
    proof fn lemma_round_trip(&self, rest: Seq<u8>) {
        let w1 = Encode::wire(&self.protocol_version)->Ok_0;
        let w2 = self.server_address.wire()->Ok_0;
        let w3 = self.server_port.wire()->Ok_0;
        let w4 = self.next_state.wire()->Ok_0;
        let r4 = rest;
        let r3 = w4 + r4;
        let r2 = w3 + r3;
        let r1 = w2 + r2;
        let p1 = w1;
        let p2 = p1 + w2;
        let p3 = p2 + w3;
        let p4 = p3 + w4;
        lemma_regroup(p3, w4, r4);
        lemma_regroup(p2, w3, r3);
        lemma_regroup(p1, w2, r2);
        self.protocol_version.lemma_round_trip(r1);
        self.server_address.lemma_round_trip(r2);
        self.server_port.lemma_round_trip(r3);
        self.next_state.lemma_round_trip(r4);
    }
}

impl Packet for SIntention {
    const ID: i32 = packet_id::SERVERBOUND_HANDSHAKE_INTENTION;

    const NAME: &'static str = "SIntention";

    const SIDE: PacketSide = PacketSide::Serverbound;

    const STATE: PacketState = PacketState::Handshake;
}

/// Asks for the server's description.
#[derive(Clone, Copy, Debug)]
pub struct SStatusRequest {
}

impl DeepView for SStatusRequest {
    type V = SStatusRequest;

    open spec fn deep_view(&self) -> SStatusRequest {
        *self
    }
}

impl Encode for SStatusRequest {
    open spec fn wire(&self) -> Result<Seq<u8>, EncodeError> {
        Ok(Seq::empty())
    }

    fn encode(&self, w: &mut Vec<u8>) -> (res: Result<(), EncodeError>) {
        assert(w@ =~= w@ + Seq::<u8>::empty());
        Ok(())
    }
}

impl Decode for SStatusRequest {
    open spec fn parse(bytes: Seq<u8>) -> Parsed<SStatusRequest> {
        Ok((SStatusRequest {  }, 0))
    }

    fn decode(r: &[u8]) -> (res: Result<(Self, usize), DecodeError>) {
        Ok((SStatusRequest {  }, 0))
    }
}

impl RoundTrip for SStatusRequest {
    proof fn lemma_round_trip(&self, rest: Seq<u8>) {
    }
}

impl Packet for SStatusRequest {
    const ID: i32 = packet_id::SERVERBOUND_STATUS_STATUS_REQUEST;

    const NAME: &'static str = "SStatusRequest";

    const SIDE: PacketSide = PacketSide::Serverbound;

    const STATE: PacketState = PacketState::Status;
}

/// Asks for its payload to be sent back.
#[derive(Clone, Copy, Debug)]
pub struct SPingRequest {
    pub payload: i64,
}

impl DeepView for SPingRequest {
    type V = SPingRequest;

    open spec fn deep_view(&self) -> SPingRequest {
        *self
    }
}

impl Encode for SPingRequest {
    open spec fn wire(&self) -> Result<Seq<u8>, EncodeError> {
        self.payload.wire()
    }

    fn encode(&self, w: &mut Vec<u8>) -> (res: Result<(), EncodeError>) {
        let ghost before = w@;
        let ghost mut sofar = Seq::<u8>::empty();
        assert(w@ =~= before + sofar);
        put_field(&self.payload, w, Ghost(before), Ghost(sofar))?;
        proof {
            sofar = sofar + self.payload.wire()->Ok_0;
        }
        assert(sofar =~= self.wire()->Ok_0);
        assert(w@ =~= before + sofar);
        Ok(())
    }
}

impl Decode for SPingRequest {
    open spec fn parse(bytes: Seq<u8>) -> Parsed<SPingRequest> {
        match i64::parse(bytes) {
            Err(e) => Err(e),
            Ok((payload, a)) => Ok((SPingRequest { payload }, a)),
        }
    }

    fn decode(r: &[u8]) -> (res: Result<(Self, usize), DecodeError>) {
        let (payload, a) = i64::decode(r)?;
        Ok((SPingRequest { payload }, a))
    }
}

impl RoundTrip for SPingRequest {
    proof fn lemma_round_trip(&self, rest: Seq<u8>) {
        let w1 = self.payload.wire()->Ok_0;
        let r1 = rest;
        self.payload.lemma_round_trip(r1);
    }
}

impl Packet for SPingRequest {
    const ID: i32 = packet_id::SERVERBOUND_STATUS_PING_REQUEST;

    const NAME: &'static str = "SPingRequest";

    const SIDE: PacketSide = PacketSide::Serverbound;

    const STATE: PacketState = PacketState::Status;
}

/// Opens a login: the name and the public id of the player.
#[derive(Clone, Debug)]
pub struct SHello {
    pub username: Bounded<String, 16>,
    pub uuid: u128,
}

/// The model of `SHello`: its fields as plain values and sequences.
pub struct SHelloView {
    pub username: Seq<char>,
    pub uuid: u128,
}

impl DeepView for SHello {
    type V = SHelloView;

    open spec fn deep_view(&self) -> SHelloView {
        SHelloView {
            username: self.username.0@,
            uuid: self.uuid,
        }
    }
}

impl Encode for SHello {
    open spec fn wire(&self) -> Result<Seq<u8>, EncodeError> {
        chain(self.username.wire(), self.uuid.wire())
    }

    fn encode(&self, w: &mut Vec<u8>) -> (res: Result<(), EncodeError>) {
        let ghost before = w@;
        let ghost mut sofar = Seq::<u8>::empty();
        assert(w@ =~= before + sofar);
        put_field(&self.username, w, Ghost(before), Ghost(sofar))?;
        proof {
            sofar = sofar + self.username.wire()->Ok_0;
        }
        put_field(&self.uuid, w, Ghost(before), Ghost(sofar))?;
        proof {
            sofar = sofar + self.uuid.wire()->Ok_0;
        }
        assert(sofar =~= self.wire()->Ok_0);
        assert(w@ =~= before + sofar);
        Ok(())
    }
}

impl Decode for SHello {
    open spec fn parse(bytes: Seq<u8>) -> Parsed<SHelloView> {
        match Bounded::<String, 16>::parse(bytes) {
            Err(e) => Err(e),
            Ok((username, a)) => match u128::parse(bytes.skip(a as int)) {
                Err(e) => Err(e),
                Ok((uuid, b)) => Ok((SHelloView { username, uuid }, a + b)),
            },
        }
    }

    fn decode(r: &[u8]) -> (res: Result<(Self, usize), DecodeError>) {
        let (username, a) = Bounded::<String, 16>::decode(r)?;
        let (uuid, b) = u128::decode(tail(r, a))?;
        Ok((SHello { username, uuid }, a + b))
    }
}

impl RoundTrip for SHello {
    proof fn lemma_round_trip(&self, rest: Seq<u8>) {
        let w1 = self.username.wire()->Ok_0;
        let w2 = self.uuid.wire()->Ok_0;
        let r2 = rest;
        let r1 = w2 + r2;
        let p1 = w1;
        let p2 = p1 + w2;
        lemma_regroup(p1, w2, r2);
        self.username.lemma_round_trip(r1);
        self.uuid.lemma_round_trip(r2);
    }
}

impl Packet for SHello {
    const ID: i32 = packet_id::SERVERBOUND_LOGIN_HELLO;

    const NAME: &'static str = "SHello";

    const SIDE: PacketSide = PacketSide::Serverbound;

    const STATE: PacketState = PacketState::Login;
}

/// Answers an encryption request: the shared secret and the verify token,
/// both encrypted with the server's public key.
#[derive(Clone, Debug)]
pub struct SEncryptionResponse {
    pub shared_secret: Vec<u8>,
    pub verify_token: Vec<u8>,
}

/// The model of `SEncryptionResponse`: its fields as plain values and sequences.
pub struct SEncryptionResponseView {
    pub shared_secret: Seq<u8>,
    pub verify_token: Seq<u8>,
}

impl DeepView for SEncryptionResponse {
    type V = SEncryptionResponseView;

    open spec fn deep_view(&self) -> SEncryptionResponseView {
        SEncryptionResponseView {
            shared_secret: self.shared_secret@,
            verify_token: self.verify_token@,
        }
    }
}

impl Encode for SEncryptionResponse {
    open spec fn wire(&self) -> Result<Seq<u8>, EncodeError> {
        chain(self.shared_secret.wire(), self.verify_token.wire())
    }

    fn encode(&self, w: &mut Vec<u8>) -> (res: Result<(), EncodeError>) {
        let ghost before = w@;
        let ghost mut sofar = Seq::<u8>::empty();
        assert(w@ =~= before + sofar);
        put_field(&self.shared_secret, w, Ghost(before), Ghost(sofar))?;
        proof {
            sofar = sofar + self.shared_secret.wire()->Ok_0;
        }
        put_field(&self.verify_token, w, Ghost(before), Ghost(sofar))?;
        proof {
            sofar = sofar + self.verify_token.wire()->Ok_0;
        }
        assert(sofar =~= self.wire()->Ok_0);
        assert(w@ =~= before + sofar);
        Ok(())
    }
}

impl Decode for SEncryptionResponse {
    open spec fn parse(bytes: Seq<u8>) -> Parsed<SEncryptionResponseView> {
        match Vec::<u8>::parse(bytes) {
            Err(e) => Err(e),
            Ok((shared_secret, a)) => match Vec::<u8>::parse(bytes.skip(a as int)) {
                Err(e) => Err(e),
                Ok((verify_token, b)) => Ok(
                    (
                        SEncryptionResponseView { shared_secret, verify_token },
                        a + b,
                    ),
                ),
            },
        }
    }

    fn decode(r: &[u8]) -> (res: Result<(Self, usize), DecodeError>) {
        let (shared_secret, a) = Vec::<u8>::decode(r)?;
        assert(shared_secret.deep_view() =~= shared_secret@);
        let (verify_token, b) = Vec::<u8>::decode(tail(r, a))?;
        assert(verify_token.deep_view() =~= verify_token@);
        Ok((SEncryptionResponse { shared_secret, verify_token }, a + b))
    }
}

impl RoundTrip for SEncryptionResponse {
    proof fn lemma_round_trip(&self, rest: Seq<u8>) {
        let w1 = self.shared_secret.wire()->Ok_0;
        let w2 = self.verify_token.wire()->Ok_0;
        let r2 = rest;
        let r1 = w2 + r2;
        let p1 = w1;
        let p2 = p1 + w2;
        lemma_regroup(p1, w2, r2);
        self.shared_secret.lemma_round_trip(r1);
        assert(self.shared_secret.deep_view() =~= self.shared_secret@);
        self.verify_token.lemma_round_trip(r2);
        assert(self.verify_token.deep_view() =~= self.verify_token@);
    }
}

impl Packet for SEncryptionResponse {
    const ID: i32 = packet_id::SERVERBOUND_LOGIN_KEY;

    const NAME: &'static str = "Key";

    const SIDE: PacketSide = PacketSide::Serverbound;

    const STATE: PacketState = PacketState::Login;
}

/// Confirms that the login is finished.
#[derive(Clone, Copy, Debug)]
pub struct SLoginAcknowledged {
}

impl DeepView for SLoginAcknowledged {
    type V = SLoginAcknowledged;

    open spec fn deep_view(&self) -> SLoginAcknowledged {
        *self
    }
}

impl Encode for SLoginAcknowledged {
    open spec fn wire(&self) -> Result<Seq<u8>, EncodeError> {
        Ok(Seq::empty())
    }

    fn encode(&self, w: &mut Vec<u8>) -> (res: Result<(), EncodeError>) {
        assert(w@ =~= w@ + Seq::<u8>::empty());
        Ok(())
    }
}

impl Decode for SLoginAcknowledged {
    open spec fn parse(bytes: Seq<u8>) -> Parsed<SLoginAcknowledged> {
        Ok((SLoginAcknowledged {  }, 0))
    }

    fn decode(r: &[u8]) -> (res: Result<(Self, usize), DecodeError>) {
        Ok((SLoginAcknowledged {  }, 0))
    }
}

impl RoundTrip for SLoginAcknowledged {
    proof fn lemma_round_trip(&self, rest: Seq<u8>) {
    }
}

impl Packet for SLoginAcknowledged {
    const ID: i32 = packet_id::SERVERBOUND_LOGIN_LOGIN_ACKNOWLEDGED;

    const NAME: &'static str = "SLoginAcknowledged";

    const SIDE: PacketSide = PacketSide::Serverbound;

    const STATE: PacketState = PacketState::Login;
}

/// The parts of a player's skin that are shown, one bit each, from the
/// lowest bit up: cape, jacket, left sleeve, right sleeve, left trouser leg,
/// right trouser leg, hat. The highest bit is not used.
#[derive(Clone, Copy, Debug, PartialEq, Eq, Structural)]
pub struct DisplayedSkinParts(pub u8);

impl DeepView for DisplayedSkinParts {
    type V = DisplayedSkinParts;

    open spec fn deep_view(&self) -> DisplayedSkinParts {
        *self
    }
}

/// Whether `bits` has a bit of `mask` set.
pub open spec fn has_bit(bits: u8, mask: u8) -> bool {
    bits & mask != 0
}

/// `bits` with the bits of `mask` set or cleared.
pub open spec fn put_bit(bits: u8, mask: u8, on: bool) -> u8 {
    if on {
        bits | mask
    } else {
        bits & !mask
    }
}

/// Setting or clearing one bit changes that bit and no other.
pub proof fn lemma_put_bit(bits: u8, mask: u8, other: u8, on: bool)
    requires
        mask == 1 || mask == 2 || mask == 4 || mask == 8 || mask == 16 || mask == 32 || mask == 64
            || mask == 128,
        other & mask == 0,
    ensures
        has_bit(put_bit(bits, mask, on), mask) == on,
        has_bit(put_bit(bits, mask, on), other) == has_bit(bits, other),
{
    assert((mask == 1 || mask == 2 || mask == 4 || mask == 8 || mask == 16 || mask == 32 || mask
        == 64 || mask == 128) ==> (bits | mask) & mask != 0 && (bits & !mask) & mask == 0)
        by (bit_vector);
    assert(other & mask == 0 ==> (bits | mask) & other == bits & other && (bits & !mask) & other
        == bits & other) by (bit_vector);
}

impl DisplayedSkinParts {
    /// No part shown.
    pub fn new() -> (p: Self)
        ensures
            p.0 == 0,
    {
        DisplayedSkinParts(0)
    }

    /// The parts that the bits of `bits` name.
    pub fn from_bits(bits: u8) -> (p: Self)
        ensures
            p.0 == bits,
    {
        DisplayedSkinParts(bits)
    }

    /// The bits of these parts.
    pub fn into_bits(self) -> (bits: u8)
        ensures
            bits == self.0,
    {
        self.0
    }

    /// Whether the cape is shown.
    pub fn cape(&self) -> (on: bool)
        ensures
            on == has_bit(self.0, 1),
    {
        self.0 & 1 != 0
    }

    /// These parts with the cape shown or hidden.
    pub fn with_cape(self, on: bool) -> (p: Self)
        ensures
            p.0 == put_bit(self.0, 1, on),
    {
        if on {
            DisplayedSkinParts(self.0 | 1)
        } else {
            DisplayedSkinParts(self.0 & !1)
        }
    }

    /// Whether the jacket is shown.
    pub fn jacket(&self) -> (on: bool)
        ensures
            on == has_bit(self.0, 2),
    {
        self.0 & 2 != 0
    }

    /// These parts with the jacket shown or hidden.
    pub fn with_jacket(self, on: bool) -> (p: Self)
        ensures
            p.0 == put_bit(self.0, 2, on),
    {
        if on {
            DisplayedSkinParts(self.0 | 2)
        } else {
            DisplayedSkinParts(self.0 & !2)
        }
    }

    /// Whether the left sleeve is shown.
    pub fn left_sleeve(&self) -> (on: bool)
        ensures
            on == has_bit(self.0, 4),
    {
        self.0 & 4 != 0
    }

    /// These parts with the left sleeve shown or hidden.
    pub fn with_left_sleeve(self, on: bool) -> (p: Self)
        ensures
            p.0 == put_bit(self.0, 4, on),
    {
        if on {
            DisplayedSkinParts(self.0 | 4)
        } else {
            DisplayedSkinParts(self.0 & !4)
        }
    }

    /// Whether the right sleeve is shown.
    pub fn right_sleeve(&self) -> (on: bool)
        ensures
            on == has_bit(self.0, 8),
    {
        self.0 & 8 != 0
    }

    /// These parts with the right sleeve shown or hidden.
    pub fn with_right_sleeve(self, on: bool) -> (p: Self)
        ensures
            p.0 == put_bit(self.0, 8, on),
    {
        if on {
            DisplayedSkinParts(self.0 | 8)
        } else {
            DisplayedSkinParts(self.0 & !8)
        }
    }

    /// Whether the left trouser leg is shown.
    pub fn left_pants_leg(&self) -> (on: bool)
        ensures
            on == has_bit(self.0, 16),
    {
        self.0 & 16 != 0
    }

    /// These parts with the left trouser leg shown or hidden.
    pub fn with_left_pants_leg(self, on: bool) -> (p: Self)
        ensures
            p.0 == put_bit(self.0, 16, on),
    {
        if on {
            DisplayedSkinParts(self.0 | 16)
        } else {
            DisplayedSkinParts(self.0 & !16)
        }
    }

    /// Whether the right trouser leg is shown.
    pub fn right_pants_leg(&self) -> (on: bool)
        ensures
            on == has_bit(self.0, 32),
    {
        self.0 & 32 != 0
    }

    /// These parts with the right trouser leg shown or hidden.
    pub fn with_right_pants_leg(self, on: bool) -> (p: Self)
        ensures
            p.0 == put_bit(self.0, 32, on),
    {
        if on {
            DisplayedSkinParts(self.0 | 32)
        } else {
            DisplayedSkinParts(self.0 & !32)
        }
    }

    /// Whether the hat is shown.
    pub fn hat(&self) -> (on: bool)
        ensures
            on == has_bit(self.0, 64),
    {
        self.0 & 64 != 0
    }

    /// These parts with the hat shown or hidden.
    pub fn with_hat(self, on: bool) -> (p: Self)
        ensures
            p.0 == put_bit(self.0, 64, on),
    {
        if on {
            DisplayedSkinParts(self.0 | 64)
        } else {
            DisplayedSkinParts(self.0 & !64)
        }
    }
}

impl Encode for DisplayedSkinParts {
    open spec fn wire(&self) -> Result<Seq<u8>, EncodeError> {
        Ok(seq![self.0])
    }

    fn encode(&self, w: &mut Vec<u8>) -> (res: Result<(), EncodeError>) {
        w.push(self.0);
        Ok(())
    }
}

impl Decode for DisplayedSkinParts {
    open spec fn parse(bytes: Seq<u8>) -> Parsed<DisplayedSkinParts> {
        match u8::parse(bytes) {
            Err(e) => Err(e),
            Ok((bits, n)) => Ok((DisplayedSkinParts(bits), n)),
        }
    }

    fn decode(r: &[u8]) -> (res: Result<(Self, usize), DecodeError>) {
        let (bits, n) = u8::decode(r)?;
        Ok((DisplayedSkinParts(bits), n))
    }
}

impl RoundTrip for DisplayedSkinParts {
    proof fn lemma_round_trip(&self, rest: Seq<u8>) {
        self.0.lemma_round_trip(rest);
    }
}

/// Which chat messages a client shows.
#[derive(Clone, Copy, Debug, PartialEq, Eq, Structural)]
pub enum ChatMode {
    Enabled,
    CommandsOnly,
    Hidden,
}

/// The variant that stands where none is named: `Hidden`.
impl Default for ChatMode {
    fn default() -> (v: Self)
        ensures
            v == ChatMode::Hidden,
    {
        ChatMode::Hidden
    }
}

impl DeepView for ChatMode {
    type V = ChatMode;

    open spec fn deep_view(&self) -> ChatMode {
        *self
    }
}

impl Encode for ChatMode {
    open spec fn wire(&self) -> Result<Seq<u8>, EncodeError> {
        match self {
            ChatMode::Enabled => Ok(VarInt(0).wire()),
            ChatMode::CommandsOnly => Ok(VarInt(1).wire()),
            ChatMode::Hidden => Ok(VarInt(2).wire()),
        }
    }

    fn encode(&self, w: &mut Vec<u8>) -> (res: Result<(), EncodeError>) {
        match self {
            ChatMode::Enabled => VarInt(0).encode(w),
            ChatMode::CommandsOnly => VarInt(1).encode(w),
            ChatMode::Hidden => VarInt(2).encode(w),
        }
        Ok(())
    }
}

impl Decode for ChatMode {
    open spec fn parse(bytes: Seq<u8>) -> Parsed<ChatMode> {
        match VarInt::parse(bytes) {
            Err(e) => Err(e),
            Ok((tag, n)) => if tag == 0 {
                Ok((ChatMode::Enabled, n))
            } else if tag == 1 {
                Ok((ChatMode::CommandsOnly, n))
            } else if tag == 2 {
                Ok((ChatMode::Hidden, n))
            } else {
                Err(DecodeError::UnknownDiscriminant)
            },
        }
    }

    fn decode(r: &[u8]) -> (res: Result<(Self, usize), DecodeError>) {
        let (tag, n) = VarInt::decode(r)?;
        if tag.0 == 0 {
            Ok((ChatMode::Enabled, n))
        } else if tag.0 == 1 {
            Ok((ChatMode::CommandsOnly, n))
        } else if tag.0 == 2 {
            Ok((ChatMode::Hidden, n))
        } else {
            Err(DecodeError::UnknownDiscriminant)
        }
    }
}

impl RoundTrip for ChatMode {
    proof fn lemma_round_trip(&self, rest: Seq<u8>) {
        match self {
            ChatMode::Enabled => VarInt(0).lemma_round_trip(rest),
            ChatMode::CommandsOnly => VarInt(1).lemma_round_trip(rest),
            ChatMode::Hidden => VarInt(2).lemma_round_trip(rest),
        }
    }
}

/// `ChatMode` is told by a `VarInt` tag from 0 to 2: every variant is
/// written as its tag alone, and a tag outside that range is refused.
pub proof fn lemma_chat_mode_tag(v: ChatMode, bytes: Seq<u8>)
    ensures
        exists|tag: i32|
            0 <= tag <= 2 && v.wire() == Ok::<Seq<u8>, EncodeError>(VarInt(tag).wire()),
        VarInt::parse(bytes) matches Ok((tag, n)) && !(0 <= tag <= 2) ==> ChatMode::parse(
            bytes,
        ) == Err::<(ChatMode, nat), DecodeError>(DecodeError::UnknownDiscriminant),
{
    match v {
        ChatMode::Enabled => {
            assert(0 <= 0i32 <= 2 && v.wire() == Ok::<Seq<u8>, EncodeError>(
                VarInt(0i32).wire(),
            ));
        },
        ChatMode::CommandsOnly => {
            assert(0 <= 1i32 <= 2 && v.wire() == Ok::<Seq<u8>, EncodeError>(
                VarInt(1i32).wire(),
            ));
        },
        ChatMode::Hidden => {
            assert(0 <= 2i32 <= 2 && v.wire() == Ok::<Seq<u8>, EncodeError>(
                VarInt(2i32).wire(),
            ));
        },
    }
}

/// The hand a player uses.
#[derive(Clone, Copy, Debug, PartialEq, Eq, Structural)]
pub enum MainHand {
    Left,
    Right,
}

/// The variant that stands where none is named: `Right`.
impl Default for MainHand {
    fn default() -> (v: Self)
        ensures
            v == MainHand::Right,
    {
        MainHand::Right
    }
}

impl DeepView for MainHand {
    type V = MainHand;

    open spec fn deep_view(&self) -> MainHand {
        *self
    }
}

impl Encode for MainHand {
    open spec fn wire(&self) -> Result<Seq<u8>, EncodeError> {
        match self {
            MainHand::Left => Ok(VarInt(0).wire()),
            MainHand::Right => Ok(VarInt(1).wire()),
        }
    }

    fn encode(&self, w: &mut Vec<u8>) -> (res: Result<(), EncodeError>) {
        match self {
            MainHand::Left => VarInt(0).encode(w),
            MainHand::Right => VarInt(1).encode(w),
        }
        Ok(())
    }
}

impl Decode for MainHand {
    open spec fn parse(bytes: Seq<u8>) -> Parsed<MainHand> {
        match VarInt::parse(bytes) {
            Err(e) => Err(e),
            Ok((tag, n)) => if tag == 0 {
                Ok((MainHand::Left, n))
            } else if tag == 1 {
                Ok((MainHand::Right, n))
            } else {
                Err(DecodeError::UnknownDiscriminant)
            },
        }
    }

    fn decode(r: &[u8]) -> (res: Result<(Self, usize), DecodeError>) {
        let (tag, n) = VarInt::decode(r)?;
        if tag.0 == 0 {
            Ok((MainHand::Left, n))
        } else if tag.0 == 1 {
            Ok((MainHand::Right, n))
        } else {
            Err(DecodeError::UnknownDiscriminant)
        }
    }
}

impl RoundTrip for MainHand {
    proof fn lemma_round_trip(&self, rest: Seq<u8>) {
        match self {
            MainHand::Left => VarInt(0).lemma_round_trip(rest),
            MainHand::Right => VarInt(1).lemma_round_trip(rest),
        }
    }
}

/// `MainHand` is told by a `VarInt` tag from 0 to 1: every variant is
/// written as its tag alone, and a tag outside that range is refused.
pub proof fn lemma_main_hand_tag(v: MainHand, bytes: Seq<u8>)
    ensures
        exists|tag: i32|
            0 <= tag <= 1 && v.wire() == Ok::<Seq<u8>, EncodeError>(VarInt(tag).wire()),
        VarInt::parse(bytes) matches Ok((tag, n)) && !(0 <= tag <= 1) ==> MainHand::parse(
            bytes,
        ) == Err::<(MainHand, nat), DecodeError>(DecodeError::UnknownDiscriminant),
{
    match v {
        MainHand::Left => {
            assert(0 <= 0i32 <= 1 && v.wire() == Ok::<Seq<u8>, EncodeError>(
                VarInt(0i32).wire(),
            ));
        },
        MainHand::Right => {
            assert(0 <= 1i32 <= 1 && v.wire() == Ok::<Seq<u8>, EncodeError>(
                VarInt(1i32).wire(),
            ));
        },
    }
}

/// How many particles a client draws.
#[derive(Clone, Copy, Debug, PartialEq, Eq, Structural)]
pub enum ParticleStatus {
    All,
    Decreased,
    Minimal,
}

/// The variant that stands where none is named: `All`.
impl Default for ParticleStatus {
    fn default() -> (v: Self)
        ensures
            v == ParticleStatus::All,
    {
        ParticleStatus::All
    }
}

impl DeepView for ParticleStatus {
    type V = ParticleStatus;

    open spec fn deep_view(&self) -> ParticleStatus {
        *self
    }
}

impl Encode for ParticleStatus {
    open spec fn wire(&self) -> Result<Seq<u8>, EncodeError> {
        match self {
            ParticleStatus::All => Ok(VarInt(0).wire()),
            ParticleStatus::Decreased => Ok(VarInt(1).wire()),
            ParticleStatus::Minimal => Ok(VarInt(2).wire()),
        }
    }

    fn encode(&self, w: &mut Vec<u8>) -> (res: Result<(), EncodeError>) {
        match self {
            ParticleStatus::All => VarInt(0).encode(w),
            ParticleStatus::Decreased => VarInt(1).encode(w),
            ParticleStatus::Minimal => VarInt(2).encode(w),
        }
        Ok(())
    }
}

impl Decode for ParticleStatus {
    open spec fn parse(bytes: Seq<u8>) -> Parsed<ParticleStatus> {
        match VarInt::parse(bytes) {
            Err(e) => Err(e),
            Ok((tag, n)) => if tag == 0 {
                Ok((ParticleStatus::All, n))
            } else if tag == 1 {
                Ok((ParticleStatus::Decreased, n))
            } else if tag == 2 {
                Ok((ParticleStatus::Minimal, n))
            } else {
                Err(DecodeError::UnknownDiscriminant)
            },
        }
    }

    fn decode(r: &[u8]) -> (res: Result<(Self, usize), DecodeError>) {
        let (tag, n) = VarInt::decode(r)?;
        if tag.0 == 0 {
            Ok((ParticleStatus::All, n))
        } else if tag.0 == 1 {
            Ok((ParticleStatus::Decreased, n))
        } else if tag.0 == 2 {
            Ok((ParticleStatus::Minimal, n))
        } else {
            Err(DecodeError::UnknownDiscriminant)
        }
    }
}

impl RoundTrip for ParticleStatus {
    proof fn lemma_round_trip(&self, rest: Seq<u8>) {
        match self {
            ParticleStatus::All => VarInt(0).lemma_round_trip(rest),
            ParticleStatus::Decreased => VarInt(1).lemma_round_trip(rest),
            ParticleStatus::Minimal => VarInt(2).lemma_round_trip(rest),
        }
    }
}

/// `ParticleStatus` is told by a `VarInt` tag from 0 to 2: every variant is
/// written as its tag alone, and a tag outside that range is refused.
pub proof fn lemma_particle_status_tag(v: ParticleStatus, bytes: Seq<u8>)
    ensures
        exists|tag: i32|
            0 <= tag <= 2 && v.wire() == Ok::<Seq<u8>, EncodeError>(VarInt(tag).wire()),
        VarInt::parse(bytes) matches Ok((tag, n)) && !(0 <= tag <= 2) ==> ParticleStatus::parse(
            bytes,
        ) == Err::<(ParticleStatus, nat), DecodeError>(DecodeError::UnknownDiscriminant),
{
    match v {
        ParticleStatus::All => {
            assert(0 <= 0i32 <= 2 && v.wire() == Ok::<Seq<u8>, EncodeError>(
                VarInt(0i32).wire(),
            ));
        },
        ParticleStatus::Decreased => {
            assert(0 <= 1i32 <= 2 && v.wire() == Ok::<Seq<u8>, EncodeError>(
                VarInt(1i32).wire(),
            ));
        },
        ParticleStatus::Minimal => {
            assert(0 <= 2i32 <= 2 && v.wire() == Ok::<Seq<u8>, EncodeError>(
                VarInt(2i32).wire(),
            ));
        },
    }
}

/// The settings of a client, led by the private id that proves the player
/// over the encrypted channel.
#[derive(Clone, Copy, Debug)]
pub struct SClientInformation {
    pub private_uuid: u128,
    pub view_distance: u8,
    pub chat_mode: ChatMode,
    pub chat_colors: bool,
    pub displayed_skin_parts: DisplayedSkinParts,
    pub main_hand: MainHand,
    pub enable_text_filtering: bool,
    pub allow_server_listings: bool,
    pub particle_status: ParticleStatus,
}

impl DeepView for SClientInformation {
    type V = SClientInformation;

    open spec fn deep_view(&self) -> SClientInformation {
        *self
    }
}

impl Encode for SClientInformation {
    open spec fn wire(&self) -> Result<Seq<u8>, EncodeError> {
        chain(
            chain(
                chain(
                    chain(
                        chain(
                            chain(
                                chain(
                                    chain(self.private_uuid.wire(), self.view_distance.wire()),
                                    self.chat_mode.wire(),
                                ),
                                self.chat_colors.wire(),
                            ),
                            self.displayed_skin_parts.wire(),
                        ),
                        self.main_hand.wire(),
                    ),
                    self.enable_text_filtering.wire(),
                ),
                self.allow_server_listings.wire(),
            ),
            self.particle_status.wire(),
        )
    }

    fn encode(&self, w: &mut Vec<u8>) -> (res: Result<(), EncodeError>) {
        let ghost before = w@;
        let ghost mut sofar = Seq::<u8>::empty();
        assert(w@ =~= before + sofar);
        put_field(&self.private_uuid, w, Ghost(before), Ghost(sofar))?;
        proof {
            sofar = sofar + self.private_uuid.wire()->Ok_0;
        }
        put_field(&self.view_distance, w, Ghost(before), Ghost(sofar))?;
        proof {
            sofar = sofar + self.view_distance.wire()->Ok_0;
        }
        put_field(&self.chat_mode, w, Ghost(before), Ghost(sofar))?;
        proof {
            sofar = sofar + self.chat_mode.wire()->Ok_0;
        }
        put_field(&self.chat_colors, w, Ghost(before), Ghost(sofar))?;
        proof {
            sofar = sofar + self.chat_colors.wire()->Ok_0;
        }
        put_field(&self.displayed_skin_parts, w, Ghost(before), Ghost(sofar))?;
        proof {
            sofar = sofar + self.displayed_skin_parts.wire()->Ok_0;
        }
        put_field(&self.main_hand, w, Ghost(before), Ghost(sofar))?;
        proof {
            sofar = sofar + self.main_hand.wire()->Ok_0;
        }
        put_field(&self.enable_text_filtering, w, Ghost(before), Ghost(sofar))?;
        proof {
            sofar = sofar + self.enable_text_filtering.wire()->Ok_0;
        }
        put_field(&self.allow_server_listings, w, Ghost(before), Ghost(sofar))?;
        proof {
            sofar = sofar + self.allow_server_listings.wire()->Ok_0;
        }
        put_field(&self.particle_status, w, Ghost(before), Ghost(sofar))?;
        proof {
            sofar = sofar + self.particle_status.wire()->Ok_0;
        }
        assert(sofar =~= self.wire()->Ok_0);
        assert(w@ =~= before + sofar);
        Ok(())
    }
}

impl Decode for SClientInformation {
    open spec fn parse(bytes: Seq<u8>) -> Parsed<SClientInformation> {
        match u128::parse(bytes) {
            Err(e) => Err(e),
            Ok((private_uuid, a)) => match u8::parse(bytes.skip(a as int)) {
                Err(e) => Err(e),
                Ok((view_distance, b)) => match ChatMode::parse(bytes.skip((a + b) as int)) {
                    Err(e) => Err(e),
                    Ok((chat_mode, c)) => match bool::parse(bytes.skip((a + b + c) as int)) {
                        Err(e) => Err(e),
                        Ok((chat_colors, d)) => match DisplayedSkinParts::parse(
                            bytes.skip((a + b + c + d) as int),
                        ) {
                            Err(e) => Err(e),
                            Ok((displayed_skin_parts, f)) => match MainHand::parse(
                                bytes.skip((a + b + c + d + f) as int),
                            ) {
                                Err(e) => Err(e),
                                Ok((main_hand, g)) => match bool::parse(
                                    bytes.skip((a + b + c + d + f + g) as int),
                                ) {
                                    Err(e) => Err(e),
                                    Ok((enable_text_filtering, h)) => match bool::parse(
                                        bytes.skip((a + b + c + d + f + g + h) as int),
                                    ) {
                                        Err(e) => Err(e),
                                        Ok((allow_server_listings, i)) => match ParticleStatus::parse(
                                            bytes.skip((a + b + c + d + f + g + h + i) as int),
                                        ) {
                                            Err(e) => Err(e),
                                            Ok((particle_status, j)) => Ok(
                                                (
                                                    SClientInformation {
                                                        private_uuid,
                                                        view_distance,
                                                        chat_mode,
                                                        chat_colors,
                                                        displayed_skin_parts,
                                                        main_hand,
                                                        enable_text_filtering,
                                                        allow_server_listings,
                                                        particle_status,
                                                    },
                                                    a + b + c + d + f + g + h + i + j,
                                                ),
                                            ),
                                        },
                                    },
                                },
                            },
                        },
                    },
                },
            },
        }
    }

    fn decode(r: &[u8]) -> (res: Result<(Self, usize), DecodeError>) {
        let (private_uuid, a) = u128::decode(r)?;
        let (view_distance, b) = u8::decode(tail(r, a))?;
        let (chat_mode, c) = ChatMode::decode(tail(r, a + b))?;
        let (chat_colors, d) = bool::decode(tail(r, a + b + c))?;
        let (displayed_skin_parts, f) = DisplayedSkinParts::decode(tail(r, a + b + c + d))?;
        let (main_hand, g) = MainHand::decode(tail(r, a + b + c + d + f))?;
        let (enable_text_filtering, h) = bool::decode(tail(r, a + b + c + d + f + g))?;
        let (allow_server_listings, i) = bool::decode(tail(r, a + b + c + d + f + g + h))?;
        let (particle_status, j) = ParticleStatus::decode(tail(r, a + b + c + d + f + g + h + i))?;
        Ok(
            (
                SClientInformation {
                    private_uuid,
                    view_distance,
                    chat_mode,
                    chat_colors,
                    displayed_skin_parts,
                    main_hand,
                    enable_text_filtering,
                    allow_server_listings,
                    particle_status,
                },
                a + b + c + d + f + g + h + i + j,
            ),
        )
    }
}

impl RoundTrip for SClientInformation {
    proof fn lemma_round_trip(&self, rest: Seq<u8>) {
        let w1 = self.private_uuid.wire()->Ok_0;
        let w2 = self.view_distance.wire()->Ok_0;
        let w3 = self.chat_mode.wire()->Ok_0;
        let w4 = self.chat_colors.wire()->Ok_0;
        let w5 = self.displayed_skin_parts.wire()->Ok_0;
        let w6 = self.main_hand.wire()->Ok_0;
        let w7 = self.enable_text_filtering.wire()->Ok_0;
        let w8 = self.allow_server_listings.wire()->Ok_0;
        let w9 = self.particle_status.wire()->Ok_0;
        let r9 = rest;
        let r8 = w9 + r9;
        let r7 = w8 + r8;
        let r6 = w7 + r7;
        let r5 = w6 + r6;
        let r4 = w5 + r5;
        let r3 = w4 + r4;
        let r2 = w3 + r3;
        let r1 = w2 + r2;
        let p1 = w1;
        let p2 = p1 + w2;
        let p3 = p2 + w3;
        let p4 = p3 + w4;
        let p5 = p4 + w5;
        let p6 = p5 + w6;
        let p7 = p6 + w7;
        let p8 = p7 + w8;
        let p9 = p8 + w9;
        lemma_regroup(p8, w9, r9);
        lemma_regroup(p7, w8, r8);
        lemma_regroup(p6, w7, r7);
        lemma_regroup(p5, w6, r6);
        lemma_regroup(p4, w5, r5);
        lemma_regroup(p3, w4, r4);
        lemma_regroup(p2, w3, r3);
        lemma_regroup(p1, w2, r2);
        self.private_uuid.lemma_round_trip(r1);
        self.view_distance.lemma_round_trip(r2);
        self.chat_mode.lemma_round_trip(r3);
        self.chat_colors.lemma_round_trip(r4);
        self.displayed_skin_parts.lemma_round_trip(r5);
        self.main_hand.lemma_round_trip(r6);
        self.enable_text_filtering.lemma_round_trip(r7);
        self.allow_server_listings.lemma_round_trip(r8);
        self.particle_status.lemma_round_trip(r9);
    }
}

impl Packet for SClientInformation {
    const ID: i32 = packet_id::SERVERBOUND_CONFIG_CLIENT_INFORMATION;

    const NAME: &'static str = "SClientInformation";

    const SIDE: PacketSide = PacketSide::Serverbound;

    const STATE: PacketState = PacketState::Config;
}

/// What a client asks of a tunnel: to open one, to send bytes through one,
/// or to close one. The variant is told by a single byte.
#[derive(Clone, Debug)]
pub enum SDataTypeByte {
    Connect { ip: IpAddr, port: u16, is_udp: bool },
    Process { connection_id: u16, data: Vec<u8> },
    Shutdown { connection_id: u16 },
}

/// The model of `SDataTypeByte`: its fields as plain values and sequences.
pub enum SDataTypeByteView {
    Connect { ip: IpAddr, port: u16, is_udp: bool },
    Process { connection_id: u16, data: Seq<u8> },
    Shutdown { connection_id: u16 },
}

impl DeepView for SDataTypeByte {
    type V = SDataTypeByteView;

    open spec fn deep_view(&self) -> SDataTypeByteView {
        match self {
            SDataTypeByte::Connect { ip, port, is_udp } => SDataTypeByteView::Connect {
                ip: *ip,
                port: *port,
                is_udp: *is_udp,
            },
            SDataTypeByte::Process { connection_id, data } => SDataTypeByteView::Process {
                connection_id: *connection_id,
                data: data@,
            },
            SDataTypeByte::Shutdown { connection_id } => SDataTypeByteView::Shutdown {
                connection_id: *connection_id,
            },
        }
    }
}

impl Encode for SDataTypeByte {
    open spec fn wire(&self) -> Result<Seq<u8>, EncodeError> {
        match self {
            SDataTypeByte::Connect { ip, port, is_udp } => chain(
                chain(chain(Ok(seq![0u8]), ip.wire()), port.wire()),
                is_udp.wire(),
            ),
            SDataTypeByte::Process { connection_id, data } => chain(
                chain(Ok(seq![1u8]), connection_id.wire()),
                data.wire(),
            ),
            SDataTypeByte::Shutdown { connection_id } => chain(Ok(seq![2u8]), connection_id.wire()),
        }
    }

    fn encode(&self, w: &mut Vec<u8>) -> (res: Result<(), EncodeError>) {
        let ghost before = w@;
        match self {
            SDataTypeByte::Connect { ip, port, is_udp } => {
                w.push(0);
                let ghost mut sofar = seq![0u8];
                assert(w@ =~= before + sofar);
                put_field(ip, w, Ghost(before), Ghost(sofar))?;
                proof {
                    sofar = sofar + ip.wire()->Ok_0;
                }
                put_field(port, w, Ghost(before), Ghost(sofar))?;
                proof {
                    sofar = sofar + port.wire()->Ok_0;
                }
                put_field(is_udp, w, Ghost(before), Ghost(sofar))?;
                proof {
                    sofar = sofar + is_udp.wire()->Ok_0;
                }
                assert(sofar =~= self.wire()->Ok_0);
                assert(w@ =~= before + sofar);
            },
            SDataTypeByte::Process { connection_id, data } => {
                w.push(1);
                let ghost mut sofar = seq![1u8];
                assert(w@ =~= before + sofar);
                put_field(connection_id, w, Ghost(before), Ghost(sofar))?;
                proof {
                    sofar = sofar + connection_id.wire()->Ok_0;
                }
                put_field(data, w, Ghost(before), Ghost(sofar))?;
                proof {
                    sofar = sofar + data.wire()->Ok_0;
                }
                assert(sofar =~= self.wire()->Ok_0);
                assert(w@ =~= before + sofar);
            },
            SDataTypeByte::Shutdown { connection_id } => {
                w.push(2);
                let ghost mut sofar = seq![2u8];
                assert(w@ =~= before + sofar);
                put_field(connection_id, w, Ghost(before), Ghost(sofar))?;
                proof {
                    sofar = sofar + connection_id.wire()->Ok_0;
                }
                assert(sofar =~= self.wire()->Ok_0);
                assert(w@ =~= before + sofar);
            },
        }
        Ok(())
    }
}

impl Decode for SDataTypeByte {
    open spec fn parse(bytes: Seq<u8>) -> Parsed<SDataTypeByteView> {
        if bytes.len() < 1 {
            Err(DecodeError::UnexpectedEnd)
        } else if bytes[0] == 0 {
            match IpAddr::parse(bytes.skip(1 as int)) {
                Err(e) => Err(e),
                Ok((ip, a)) => match u16::parse(bytes.skip((1 + a) as int)) {
                    Err(e) => Err(e),
                    Ok((port, b)) => match bool::parse(bytes.skip((1 + a + b) as int)) {
                        Err(e) => Err(e),
                        Ok((is_udp, c)) => Ok(
                            (
                                SDataTypeByteView::Connect { ip, port, is_udp },
                                1 + a + b + c,
                            ),
                        ),
                    },
                },
            }
        } else if bytes[0] == 1 {
            match u16::parse(bytes.skip(1 as int)) {
                Err(e) => Err(e),
                Ok((connection_id, a)) => match Vec::<u8>::parse(bytes.skip((1 + a) as int)) {
                    Err(e) => Err(e),
                    Ok((data, b)) => Ok(
                        (
                            SDataTypeByteView::Process { connection_id, data },
                            1 + a + b,
                        ),
                    ),
                },
            }
        } else if bytes[0] == 2 {
            match u16::parse(bytes.skip(1 as int)) {
                Err(e) => Err(e),
                Ok((connection_id, a)) => Ok(
                    (
                        SDataTypeByteView::Shutdown { connection_id },
                        1 + a,
                    ),
                ),
            }
        } else {
            Err(DecodeError::UnknownDiscriminant)
        }
    }

    fn decode(r: &[u8]) -> (res: Result<(Self, usize), DecodeError>) {
        if r.len() < 1 {
            return Err(DecodeError::UnexpectedEnd);
        }
        if r[0] == 0 {
            let (ip, a) = IpAddr::decode(tail(r, 1))?;
            let (port, b) = u16::decode(tail(r, 1 + a))?;
            let (is_udp, c) = bool::decode(tail(r, 1 + a + b))?;
            Ok((SDataTypeByte::Connect { ip, port, is_udp }, 1 + a + b + c))
        } else if r[0] == 1 {
            let (connection_id, a) = u16::decode(tail(r, 1))?;
            let (data, b) = Vec::<u8>::decode(tail(r, 1 + a))?;
            assert(data.deep_view() =~= data@);
            Ok((SDataTypeByte::Process { connection_id, data }, 1 + a + b))
        } else if r[0] == 2 {
            let (connection_id, a) = u16::decode(tail(r, 1))?;
            Ok((SDataTypeByte::Shutdown { connection_id }, 1 + a))
        } else {
            Err(DecodeError::UnknownDiscriminant)
        }
    }
}

impl RoundTrip for SDataTypeByte {
    proof fn lemma_round_trip(&self, rest: Seq<u8>) {
        let stream = self.wire()->Ok_0 + rest;
        match self {
            SDataTypeByte::Connect { ip, port, is_udp } => {
                let w1 = ip.wire()->Ok_0;
                let w2 = port.wire()->Ok_0;
                let w3 = is_udp.wire()->Ok_0;
                let r3 = rest;
                let r2 = w3 + r3;
                let r1 = w2 + r2;
                let r0 = w1 + r1;
                let p0 = seq![0u8];
                let p1 = p0 + w1;
                let p2 = p1 + w2;
                let p3 = p2 + w3;
                lemma_regroup(p2, w3, r3);
                lemma_regroup(p1, w2, r2);
                lemma_regroup(p0, w1, r1);
                ip.lemma_round_trip(r1);
                port.lemma_round_trip(r2);
                is_udp.lemma_round_trip(r3);
                assert(stream[0] == p0[0]);
            },
            SDataTypeByte::Process { connection_id, data } => {
                let w1 = connection_id.wire()->Ok_0;
                let w2 = data.wire()->Ok_0;
                let r2 = rest;
                let r1 = w2 + r2;
                let r0 = w1 + r1;
                let p0 = seq![1u8];
                let p1 = p0 + w1;
                let p2 = p1 + w2;
                lemma_regroup(p1, w2, r2);
                lemma_regroup(p0, w1, r1);
                connection_id.lemma_round_trip(r1);
                data.lemma_round_trip(r2);
                assert(data.deep_view() =~= data@);
                assert(stream[0] == p0[0]);
            },
            SDataTypeByte::Shutdown { connection_id } => {
                let w1 = connection_id.wire()->Ok_0;
                let r1 = rest;
                let r0 = w1 + r1;
                let p0 = seq![2u8];
                let p1 = p0 + w1;
                lemma_regroup(p0, w1, r1);
                connection_id.lemma_round_trip(r1);
                assert(stream[0] == p0[0]);
            },
        }
    }
}

/// `SDataTypeByte` is told by a single byte from 0 to 2: the wire form of every
/// variant starts with that byte, and a first byte over 2 is refused.
pub proof fn lemma_s_data_type_byte_tag(v: SDataTypeByte, bytes: Seq<u8>)
    ensures
        v.wire() matches Ok(w) ==> w.len() >= 1 && w[0] <= 2,
        bytes.len() >= 1 && bytes[0] > 2 ==> SDataTypeByte::parse(bytes) == Err::<
            (SDataTypeByteView, nat),
            DecodeError,
        >(DecodeError::UnknownDiscriminant),
{
}

/// A tunnel request from the client.
#[derive(Clone, Debug)]
pub struct SData {
    pub data_type: SDataTypeByte,
}

/// The model of `SData`: its fields as plain values and sequences.
pub struct SDataView {
    pub data_type: SDataTypeByteView,
}

impl DeepView for SData {
    type V = SDataView;

    open spec fn deep_view(&self) -> SDataView {
        SDataView {
            data_type: self.data_type.deep_view(),
        }
    }
}

impl Encode for SData {
    open spec fn wire(&self) -> Result<Seq<u8>, EncodeError> {
        self.data_type.wire()
    }

    fn encode(&self, w: &mut Vec<u8>) -> (res: Result<(), EncodeError>) {
        let ghost before = w@;
        let ghost mut sofar = Seq::<u8>::empty();
        assert(w@ =~= before + sofar);
        put_field(&self.data_type, w, Ghost(before), Ghost(sofar))?;
        proof {
            sofar = sofar + self.data_type.wire()->Ok_0;
        }
        assert(sofar =~= self.wire()->Ok_0);
        assert(w@ =~= before + sofar);
        Ok(())
    }
}

impl Decode for SData {
    open spec fn parse(bytes: Seq<u8>) -> Parsed<SDataView> {
        match SDataTypeByte::parse(bytes) {
            Err(e) => Err(e),
            Ok((data_type, a)) => Ok((SDataView { data_type }, a)),
        }
    }

    fn decode(r: &[u8]) -> (res: Result<(Self, usize), DecodeError>) {
        let (data_type, a) = SDataTypeByte::decode(r)?;
        Ok((SData { data_type }, a))
    }
}

impl RoundTrip for SData {
    proof fn lemma_round_trip(&self, rest: Seq<u8>) {
        let w1 = self.data_type.wire()->Ok_0;
        let r1 = rest;
        self.data_type.lemma_round_trip(r1);
    }
}

impl Packet for SData {
    const ID: i32 = packet_id::SERVERBOUND_CONFIG_CUSTOM_PAYLOAD;

    const NAME: &'static str = "custom_payload";

    const SIDE: PacketSide = PacketSide::Serverbound;

    const STATE: PacketState = PacketState::Config;
}

/// The catalogue of the packets that a client sends: the id, the name, the
/// side and the phase of each.
pub proof fn lemma_serverbound_catalog()
    ensures
        SIntention::ID == packet_id::SERVERBOUND_HANDSHAKE_INTENTION,
        SIntention::NAME@ == "SIntention"@,
        SIntention::SIDE == PacketSide::Serverbound,
        SIntention::STATE == PacketState::Handshake,
        SStatusRequest::ID == packet_id::SERVERBOUND_STATUS_STATUS_REQUEST,
        SStatusRequest::NAME@ == "SStatusRequest"@,
        SStatusRequest::SIDE == PacketSide::Serverbound,
        SStatusRequest::STATE == PacketState::Status,
        SPingRequest::ID == packet_id::SERVERBOUND_STATUS_PING_REQUEST,
        SPingRequest::NAME@ == "SPingRequest"@,
        SPingRequest::SIDE == PacketSide::Serverbound,
        SPingRequest::STATE == PacketState::Status,
        SHello::ID == packet_id::SERVERBOUND_LOGIN_HELLO,
        SHello::NAME@ == "SHello"@,
        SHello::SIDE == PacketSide::Serverbound,
        SHello::STATE == PacketState::Login,
        SEncryptionResponse::ID == packet_id::SERVERBOUND_LOGIN_KEY,
        SEncryptionResponse::NAME@ == "Key"@,
        SEncryptionResponse::SIDE == PacketSide::Serverbound,
        SEncryptionResponse::STATE == PacketState::Login,
        SLoginAcknowledged::ID == packet_id::SERVERBOUND_LOGIN_LOGIN_ACKNOWLEDGED,
        SLoginAcknowledged::NAME@ == "SLoginAcknowledged"@,
        SLoginAcknowledged::SIDE == PacketSide::Serverbound,
        SLoginAcknowledged::STATE == PacketState::Login,
        SClientInformation::ID == packet_id::SERVERBOUND_CONFIG_CLIENT_INFORMATION,
        SClientInformation::NAME@ == "SClientInformation"@,
        SClientInformation::SIDE == PacketSide::Serverbound,
        SClientInformation::STATE == PacketState::Config,
        SData::ID == packet_id::SERVERBOUND_CONFIG_CUSTOM_PAYLOAD,
        SData::NAME@ == "custom_payload"@,
        SData::SIDE == PacketSide::Serverbound,
        SData::STATE == PacketState::Config,
{
}

} // verus!
