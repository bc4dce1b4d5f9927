//! The packets that a server sends.

use crate::packet_id;
use crate::primitives::{lemma_regroup, put_field, tail, Bounded, IpAddr};
use crate::varint::VarInt;
use crate::{
    chain, Decode, DecodeError, Encode, EncodeError, Packet, PacketSide, PacketState, Parsed,
    RoundTrip,
};
use vstd::prelude::*;

verus! {

/// The server's description, as JSON text.
#[derive(Clone, Debug)]
pub struct CStatusResponse {
    pub json: String,
}

/// The model of `CStatusResponse`: its fields as plain values and sequences.
pub struct CStatusResponseView {
    pub json: Seq<char>,
}

impl DeepView for CStatusResponse {
    type V = CStatusResponseView;

    open spec fn deep_view(&self) -> CStatusResponseView {
        CStatusResponseView {
            json: self.json@,
        }
    }
}

impl Encode for CStatusResponse {
    open spec fn wire(&self) -> Result<Seq<u8>, EncodeError> {
        self.json.wire()
    }

    fn encode(&self, w: &mut Vec<u8>) -> (res: Result<(), EncodeError>) {
        let ghost before = w@;
        let ghost mut sofar = Seq::<u8>::empty();
        assert(w@ =~= before + sofar);
        put_field(&self.json, w, Ghost(before), Ghost(sofar))?;
        proof {
            sofar = sofar + self.json.wire()->Ok_0;
        }
        assert(sofar =~= self.wire()->Ok_0);
        assert(w@ =~= before + sofar);
        Ok(())
    }
}

impl Decode for CStatusResponse {
    open spec fn parse(bytes: Seq<u8>) -> Parsed<CStatusResponseView> {
        match String::parse(bytes) {
            Err(e) => Err(e),
            Ok((json, a)) => Ok((CStatusResponseView { json }, a)),
        }
    }

    fn decode(r: &[u8]) -> (res: Result<(Self, usize), DecodeError>) {
        let (json, a) = String::decode(r)?;
        Ok((CStatusResponse { json }, a))
    }
}

impl RoundTrip for CStatusResponse {
    proof fn lemma_round_trip(&self, rest: Seq<u8>) {
        let w1 = self.json.wire()->Ok_0;
        let r1 = rest;
        self.json.lemma_round_trip(r1);
    }
}

impl Packet for CStatusResponse {
    const ID: i32 = packet_id::CLIENTBOUND_STATUS_STATUS_RESPONSE;

    const NAME: &'static str = "CStatusResponse";

    const SIDE: PacketSide = PacketSide::Clientbound;

    const STATE: PacketState = PacketState::Status;
}

/// Sends the payload of a ping request back.
#[derive(Clone, Copy, Debug)]
pub struct CPongResponse {
    pub payload: i64,
}

impl DeepView for CPongResponse {
    type V = CPongResponse;

    open spec fn deep_view(&self) -> CPongResponse {
        *self
    }
}

impl Encode for CPongResponse {
    open spec fn wire(&self) -> Result<Seq<u8>, EncodeError> {
        self.payload.wire()
    }

    fn encode(&self, w: &mut Vec<u8>) -> (res: Result<(), EncodeError>) {
        let ghost before = w@;
        let ghost mut sofar = Seq::<u8>::empty();
        assert(w@ =~= before + sofar);
        put_field(&self.payload, w, Ghost(before), Ghost(sofar))?;
        proof {
            sofar = sofar + self.payload.wire()->Ok_0;
        }
        assert(sofar =~= self.wire()->Ok_0);
        assert(w@ =~= before + sofar);
        Ok(())
    }
}

impl Decode for CPongResponse {
    open spec fn parse(bytes: Seq<u8>) -> Parsed<CPongResponse> {
        match i64::parse(bytes) {
            Err(e) => Err(e),
            Ok((payload, a)) => Ok((CPongResponse { payload }, a)),
        }
    }

    fn decode(r: &[u8]) -> (res: Result<(Self, usize), DecodeError>) {
        let (payload, a) = i64::decode(r)?;
        Ok((CPongResponse { payload }, a))
    }
}

impl RoundTrip for CPongResponse {
    proof fn lemma_round_trip(&self, rest: Seq<u8>) {
        let w1 = self.payload.wire()->Ok_0;
        let r1 = rest;
        self.payload.lemma_round_trip(r1);
    }
}

impl Packet for CPongResponse {
    const ID: i32 = packet_id::CLIENTBOUND_STATUS_PONG_RESPONSE;

    const NAME: &'static str = "CPongResponse";

    const SIDE: PacketSide = PacketSide::Clientbound;

    const STATE: PacketState = PacketState::Status;
}

/// Ends a login: the reason, a text component as JSON text.
#[derive(Clone, Debug)]
pub struct CLoginDisconnect {
    pub reason: String,
}

/// The model of `CLoginDisconnect`: its fields as plain values and sequences.
pub struct CLoginDisconnectView {
    pub reason: Seq<char>,
}

impl DeepView for CLoginDisconnect {
    type V = CLoginDisconnectView;

    open spec fn deep_view(&self) -> CLoginDisconnectView {
        CLoginDisconnectView {
            reason: self.reason@,
        }
    }
}

impl Encode for CLoginDisconnect {
    open spec fn wire(&self) -> Result<Seq<u8>, EncodeError> {
        self.reason.wire()
    }

    fn encode(&self, w: &mut Vec<u8>) -> (res: Result<(), EncodeError>) {
        let ghost before = w@;
        let ghost mut sofar = Seq::<u8>::empty();
        assert(w@ =~= before + sofar);
        put_field(&self.reason, w, Ghost(before), Ghost(sofar))?;
        proof {
            sofar = sofar + self.reason.wire()->Ok_0;
        }
        assert(sofar =~= self.wire()->Ok_0);
        assert(w@ =~= before + sofar);
        Ok(())
    }
}

impl Decode for CLoginDisconnect {
    open spec fn parse(bytes: Seq<u8>) -> Parsed<CLoginDisconnectView> {
        match String::parse(bytes) {
            Err(e) => Err(e),
            Ok((reason, a)) => Ok((CLoginDisconnectView { reason }, a)),
        }
    }

    fn decode(r: &[u8]) -> (res: Result<(Self, usize), DecodeError>) {
        let (reason, a) = String::decode(r)?;
        Ok((CLoginDisconnect { reason }, a))
    }
}

impl RoundTrip for CLoginDisconnect {
    proof fn lemma_round_trip(&self, rest: Seq<u8>) {
        let w1 = self.reason.wire()->Ok_0;
        let r1 = rest;
        self.reason.lemma_round_trip(r1);
    }
}

impl Packet for CLoginDisconnect {
    const ID: i32 = packet_id::CLIENTBOUND_LOGIN_LOGIN_DISCONNECT;

    const NAME: &'static str = "CLoginDisconnect";

    const SIDE: PacketSide = PacketSide::Clientbound;

    const STATE: PacketState = PacketState::Login;
}

/// Asks the client to set up encryption: the server's public key and a
/// token to send back encrypted. The server id is empty.
#[derive(Clone, Debug)]
pub struct CEncryptionRequest {
    pub server_id: Bounded<String, 20>,
    pub public_key: Vec<u8>,
    pub verify_token: Vec<u8>,
    pub should_verify: bool,
}

/// The model of `CEncryptionRequest`: its fields as plain values and sequences.
pub struct CEncryptionRequestView {
    pub server_id: Seq<char>,
    pub public_key: Seq<u8>,
    pub verify_token: Seq<u8>,
    pub should_verify: bool,
}

impl DeepView for CEncryptionRequest {
    type V = CEncryptionRequestView;

    open spec fn deep_view(&self) -> CEncryptionRequestView {
        CEncryptionRequestView {
            server_id: self.server_id.0@,
            public_key: self.public_key@,
            verify_token: self.verify_token@,
            should_verify: self.should_verify,
        }
    }
}

impl Encode for CEncryptionRequest {
    open spec fn wire(&self) -> Result<Seq<u8>, EncodeError> {
        chain(
            chain(chain(self.server_id.wire(), self.public_key.wire()), self.verify_token.wire()),
            self.should_verify.wire(),
        )
    }

    fn encode(&self, w: &mut Vec<u8>) -> (res: Result<(), EncodeError>) {
        let ghost before = w@;
        let ghost mut sofar = Seq::<u8>::empty();
        assert(w@ =~= before + sofar);
        put_field(&self.server_id, w, Ghost(before), Ghost(sofar))?;
        proof {
            sofar = sofar + self.server_id.wire()->Ok_0;
        }
        put_field(&self.public_key, w, Ghost(before), Ghost(sofar))?;
        proof {
            sofar = sofar + self.public_key.wire()->Ok_0;
        }
        put_field(&self.verify_token, w, Ghost(before), Ghost(sofar))?;
        proof {
            sofar = sofar + self.verify_token.wire()->Ok_0;
        }
        put_field(&self.should_verify, w, Ghost(before), Ghost(sofar))?;
        proof {
            sofar = sofar + self.should_verify.wire()->Ok_0;
        }
        assert(sofar =~= self.wire()->Ok_0);
        assert(w@ =~= before + sofar);
        Ok(())
    }
}

impl Decode for CEncryptionRequest {
    open spec fn parse(bytes: Seq<u8>) -> Parsed<CEncryptionRequestView> {
        match Bounded::<String, 20>::parse(bytes) {
            Err(e) => Err(e),
            Ok((server_id, a)) => match Vec::<u8>::parse(bytes.skip(a as int)) {
                Err(e) => Err(e),
                Ok((public_key, b)) => match Vec::<u8>::parse(bytes.skip((a + b) as int)) {
                    Err(e) => Err(e),
                    Ok((verify_token, c)) => match bool::parse(bytes.skip((a + b + c) as int)) {
                        Err(e) => Err(e),
                        Ok((should_verify, d)) => Ok(
                            (
                                CEncryptionRequestView {
                                    server_id,
                                    public_key,
                                    verify_token,
                                    should_verify,
                                },
                                a + b + c + d,
                            ),
                        ),
                    },
                },
            },
        }
    }

    fn decode(r: &[u8]) -> (res: Result<(Self, usize), DecodeError>) {
        let (server_id, a) = Bounded::<String, 20>::decode(r)?;
        let (public_key, b) = Vec::<u8>::decode(tail(r, a))?;
        assert(public_key.deep_view() =~= public_key@);
        let (verify_token, c) = Vec::<u8>::decode(tail(r, a + b))?;
        assert(verify_token.deep_view() =~= verify_token@);
        let (should_verify, d) = bool::decode(tail(r, a + b + c))?;
        Ok(
            (
                CEncryptionRequest { server_id, public_key, verify_token, should_verify },
                a + b + c + d,
            ),
        )
    }
}

impl RoundTrip for CEncryptionRequest {
    proof fn lemma_round_trip(&self, rest: Seq<u8>) {
        let w1 = self.server_id.wire()->Ok_0;
        let w2 = self.public_key.wire()->Ok_0;
        let w3 = self.verify_token.wire()->Ok_0;
        let w4 = self.should_verify.wire()->Ok_0;
        let r4 = rest;
        let r3 = w4 + r4;
        let r2 = w3 + r3;
        let r1 = w2 + r2;
        let p1 = w1;
        let p2 = p1 + w2;
        let p3 = p2 + w3;
        let p4 = p3 + w4;
        lemma_regroup(p3, w4, r4);
        lemma_regroup(p2, w3, r3);
        lemma_regroup(p1, w2, r2);
        self.server_id.lemma_round_trip(r1);
        self.public_key.lemma_round_trip(r2);
        assert(self.public_key.deep_view() =~= self.public_key@);
        self.verify_token.lemma_round_trip(r3);
        assert(self.verify_token.deep_view() =~= self.verify_token@);
        self.should_verify.lemma_round_trip(r4);
    }
}

impl Packet for CEncryptionRequest {
    const ID: i32 = packet_id::CLIENTBOUND_LOGIN_HELLO;

    const NAME: &'static str = "Hello";

    const SIDE: PacketSide = PacketSide::Clientbound;

    const STATE: PacketState = PacketState::Login;
}

/// Accepts a login. On the wire the player's id and name are followed by
/// an empty list of properties: a zero count.
#[derive(Clone, Debug)]
pub struct CLoginFinished {
    pub uuid: u128,
    pub username: Bounded<String, 16>,
}

/// The model of `CLoginFinished`: its fields as plain values and sequences.
pub struct CLoginFinishedView {
    pub uuid: u128,
    pub username: Seq<char>,
}

impl DeepView for CLoginFinished {
    type V = CLoginFinishedView;

    open spec fn deep_view(&self) -> CLoginFinishedView {
        CLoginFinishedView {
            uuid: self.uuid,
            username: self.username.0@,
        }
    }
}

impl Encode for CLoginFinished {
    open spec fn wire(&self) -> Result<Seq<u8>, EncodeError> {
        chain(chain(self.uuid.wire(), self.username.wire()), Ok(VarInt(0).wire()))
    }

    fn encode(&self, w: &mut Vec<u8>) -> (res: Result<(), EncodeError>) {
        let ghost before = w@;
        let ghost mut sofar = Seq::<u8>::empty();
        assert(w@ =~= before + sofar);
        put_field(&self.uuid, w, Ghost(before), Ghost(sofar))?;
        proof {
            sofar = sofar + self.uuid.wire()->Ok_0;
        }
        put_field(&self.username, w, Ghost(before), Ghost(sofar))?;
        proof {
            sofar = sofar + self.username.wire()->Ok_0;
        }
        VarInt(0).encode(w);
        proof {
            sofar = sofar + VarInt(0).wire();
        }
        assert(sofar =~= self.wire()->Ok_0);
        assert(w@ =~= before + sofar);
        Ok(())
    }
}

impl Packet for CLoginFinished {
    const ID: i32 = packet_id::CLIENTBOUND_LOGIN_LOGIN_FINISHED;

    const NAME: &'static str = "CLoginFinished";

    const SIDE: PacketSide = PacketSide::Clientbound;

    const STATE: PacketState = PacketState::Login;
}

/// Sets the compression threshold of the session.
#[derive(Clone, Copy, Debug)]
pub struct CLoginCompression {
    pub threshold: VarInt,
}

/// The model of `CLoginCompression`: its fields as plain values and sequences.
pub struct CLoginCompressionView {
    pub threshold: i32,
}

impl DeepView for CLoginCompression {
    type V = CLoginCompressionView;

    open spec fn deep_view(&self) -> CLoginCompressionView {
        CLoginCompressionView {
            threshold: self.threshold.0,
        }
    }
}

impl Encode for CLoginCompression {
    open spec fn wire(&self) -> Result<Seq<u8>, EncodeError> {
        Encode::wire(&self.threshold)
    }

    fn encode(&self, w: &mut Vec<u8>) -> (res: Result<(), EncodeError>) {
        let ghost before = w@;
        let ghost mut sofar = Seq::<u8>::empty();
        assert(w@ =~= before + sofar);
        put_field(&self.threshold, w, Ghost(before), Ghost(sofar))?;
        proof {
            sofar = sofar + Encode::wire(&self.threshold)->Ok_0;
        }
        assert(sofar =~= self.wire()->Ok_0);
        assert(w@ =~= before + sofar);
        Ok(())
    }
}

impl Decode for CLoginCompression {
    open spec fn parse(bytes: Seq<u8>) -> Parsed<CLoginCompressionView> {
        match VarInt::parse(bytes) {
            Err(e) => Err(e),
            Ok((threshold, a)) => Ok((CLoginCompressionView { threshold }, a)),
        }
    }

    fn decode(r: &[u8]) -> (res: Result<(Self, usize), DecodeError>) {
        let (threshold, a) = VarInt::decode(r)?;
        Ok((CLoginCompression { threshold }, a))
    }
}

impl RoundTrip for CLoginCompression {
    proof fn lemma_round_trip(&self, rest: Seq<u8>) {
        let w1 = Encode::wire(&self.threshold)->Ok_0;
        let r1 = rest;
        self.threshold.lemma_round_trip(r1);
    }
}

impl Packet for CLoginCompression {
    const ID: i32 = packet_id::CLIENTBOUND_LOGIN_LOGIN_COMPRESSION;

    const NAME: &'static str = "CLoginCompression";

    const SIDE: PacketSide = PacketSide::Clientbound;

    const STATE: PacketState = PacketState::Login;
}

/// What a server tells about a tunnel: that it is open, under which id, or
/// bytes that came through it. The variant is told by a single byte.
#[derive(Clone, Debug)]
pub enum CDataTypeByte {
    Connect { ip: IpAddr, port: u16, is_udp: bool, connection_id: u16 },
    Process { connection_id: u16, data: Vec<u8> },
}

/// The model of `CDataTypeByte`: its fields as plain values and sequences.
pub enum CDataTypeByteView {
    Connect { ip: IpAddr, port: u16, is_udp: bool, connection_id: u16 },
    Process { connection_id: u16, data: Seq<u8> },
}

impl DeepView for CDataTypeByte {
    type V = CDataTypeByteView;

    open spec fn deep_view(&self) -> CDataTypeByteView {
        match self {
            CDataTypeByte::Connect { ip, port, is_udp, connection_id } => {
                CDataTypeByteView::Connect {
                    ip: *ip,
                    port: *port,
                    is_udp: *is_udp,
                    connection_id: *connection_id,
                }
            },
            CDataTypeByte::Process { connection_id, data } => CDataTypeByteView::Process {
                connection_id: *connection_id,
                data: data@,
            },
        }
    }
}

impl Encode for CDataTypeByte {
    open spec fn wire(&self) -> Result<Seq<u8>, EncodeError> {
        match self {
            CDataTypeByte::Connect { ip, port, is_udp, connection_id } => chain(
                chain(chain(chain(Ok(seq![0u8]), ip.wire()), port.wire()), is_udp.wire()),
                connection_id.wire(),
            ),
            CDataTypeByte::Process { connection_id, data } => chain(
                chain(Ok(seq![1u8]), connection_id.wire()),
                data.wire(),
            ),
        }
    }

    fn encode(&self, w: &mut Vec<u8>) -> (res: Result<(), EncodeError>) {
        let ghost before = w@;
        match self {
            CDataTypeByte::Connect { ip, port, is_udp, connection_id } => {
                w.push(0);
                let ghost mut sofar = seq![0u8];
                assert(w@ =~= before + sofar);
                put_field(ip, w, Ghost(before), Ghost(sofar))?;
                proof {
                    sofar = sofar + ip.wire()->Ok_0;
                }
                put_field(port, w, Ghost(before), Ghost(sofar))?;
                proof {
                    sofar = sofar + port.wire()->Ok_0;
                }
                put_field(is_udp, w, Ghost(before), Ghost(sofar))?;
                proof {
                    sofar = sofar + is_udp.wire()->Ok_0;
                }
                put_field(connection_id, w, Ghost(before), Ghost(sofar))?;
                proof {
                    sofar = sofar + connection_id.wire()->Ok_0;
                }
                assert(sofar =~= self.wire()->Ok_0);
                assert(w@ =~= before + sofar);
            },
            CDataTypeByte::Process { connection_id, data } => {
                w.push(1);
                let ghost mut sofar = seq![1u8];
                assert(w@ =~= before + sofar);
                put_field(connection_id, w, Ghost(before), Ghost(sofar))?;
                proof {
                    sofar = sofar + connection_id.wire()->Ok_0;
                }
                put_field(data, w, Ghost(before), Ghost(sofar))?;
                proof {
                    sofar = sofar + data.wire()->Ok_0;
                }
                assert(sofar =~= self.wire()->Ok_0);
                assert(w@ =~= before + sofar);
            },
        }
        Ok(())
    }
}

impl Decode for CDataTypeByte {
    open spec fn parse(bytes: Seq<u8>) -> Parsed<CDataTypeByteView> {
        if bytes.len() < 1 {
            Err(DecodeError::UnexpectedEnd)
        } else if bytes[0] == 0 {
            match IpAddr::parse(bytes.skip(1 as int)) {
                Err(e) => Err(e),
                Ok((ip, a)) => match u16::parse(bytes.skip((1 + a) as int)) {
                    Err(e) => Err(e),
                    Ok((port, b)) => match bool::parse(bytes.skip((1 + a + b) as int)) {
                        Err(e) => Err(e),
                        Ok((is_udp, c)) => match u16::parse(bytes.skip((1 + a + b + c) as int)) {
                            Err(e) => Err(e),
                            Ok((connection_id, d)) => Ok(
                                (
                                    CDataTypeByteView::Connect { ip, port, is_udp, connection_id },
                                    1 + a + b + c + d,
                                ),
                            ),
                        },
                    },
                },
            }
        } else if bytes[0] == 1 {
            match u16::parse(bytes.skip(1 as int)) {
                Err(e) => Err(e),
                Ok((connection_id, a)) => match Vec::<u8>::parse(bytes.skip((1 + a) as int)) {
                    Err(e) => Err(e),
                    Ok((data, b)) => Ok(
                        (
                            CDataTypeByteView::Process { connection_id, data },
                            1 + a + b,
                        ),
                    ),
                },
            }
        } else {
            Err(DecodeError::UnknownDiscriminant)
        }
    }

    fn decode(r: &[u8]) -> (res: Result<(Self, usize), DecodeError>) {
        if r.len() < 1 {
            return Err(DecodeError::UnexpectedEnd);
        }
        if r[0] == 0 {
            let (ip, a) = IpAddr::decode(tail(r, 1))?;
            let (port, b) = u16::decode(tail(r, 1 + a))?;
            let (is_udp, c) = bool::decode(tail(r, 1 + a + b))?;
            let (connection_id, d) = u16::decode(tail(r, 1 + a + b + c))?;
            Ok((CDataTypeByte::Connect { ip, port, is_udp, connection_id }, 1 + a + b + c + d))
        } else if r[0] == 1 {
            let (connection_id, a) = u16::decode(tail(r, 1))?;
            let (data, b) = Vec::<u8>::decode(tail(r, 1 + a))?;
            assert(data.deep_view() =~= data@);
            Ok((CDataTypeByte::Process { connection_id, data }, 1 + a + b))
        } else {
            Err(DecodeError::UnknownDiscriminant)
        }
    }
}

impl RoundTrip for CDataTypeByte {
    proof fn lemma_round_trip(&self, rest: Seq<u8>) {
        let stream = self.wire()->Ok_0 + rest;
        match self {
            CDataTypeByte::Connect { ip, port, is_udp, connection_id } => {
                let w1 = ip.wire()->Ok_0;
                let w2 = port.wire()->Ok_0;
                let w3 = is_udp.wire()->Ok_0;
                let w4 = connection_id.wire()->Ok_0;
                let r4 = rest;
                let r3 = w4 + r4;
                let r2 = w3 + r3;
                let r1 = w2 + r2;
                let r0 = w1 + r1;
                let p0 = seq![0u8];
                let p1 = p0 + w1;
                let p2 = p1 + w2;
                let p3 = p2 + w3;
                let p4 = p3 + w4;
                lemma_regroup(p3, w4, r4);
                lemma_regroup(p2, w3, r3);
                lemma_regroup(p1, w2, r2);
                lemma_regroup(p0, w1, r1);
                ip.lemma_round_trip(r1);
                port.lemma_round_trip(r2);
                is_udp.lemma_round_trip(r3);
                connection_id.lemma_round_trip(r4);
                assert(stream[0] == p0[0]);
            },
            CDataTypeByte::Process { connection_id, data } => {
                let w1 = connection_id.wire()->Ok_0;
                let w2 = data.wire()->Ok_0;
                let r2 = rest;
                let r1 = w2 + r2;
                let r0 = w1 + r1;
                let p0 = seq![1u8];
                let p1 = p0 + w1;
                let p2 = p1 + w2;
                lemma_regroup(p1, w2, r2);
                lemma_regroup(p0, w1, r1);
                connection_id.lemma_round_trip(r1);
                data.lemma_round_trip(r2);
                assert(data.deep_view() =~= data@);
                assert(stream[0] == p0[0]);
            },
        }
    }
}

/// `CDataTypeByte` is told by a single byte from 0 to 1: the wire form of every
/// variant starts with that byte, and a first byte over 1 is refused.
pub proof fn lemma_c_data_type_byte_tag(v: CDataTypeByte, bytes: Seq<u8>)
    ensures
        v.wire() matches Ok(w) ==> w.len() >= 1 && w[0] <= 1,
        bytes.len() >= 1 && bytes[0] > 1 ==> CDataTypeByte::parse(bytes) == Err::<
            (CDataTypeByteView, nat),
            DecodeError,
        >(DecodeError::UnknownDiscriminant),
{
}

/// A tunnel message from the server.
#[derive(Clone, Debug)]
pub struct CData {
    pub data_type: CDataTypeByte,
}

/// The model of `CData`: its fields as plain values and sequences.
pub struct CDataView {
    pub data_type: CDataTypeByteView,
}

impl DeepView for CData {
    type V = CDataView;

    open spec fn deep_view(&self) -> CDataView {
        CDataView {
            data_type: self.data_type.deep_view(),
        }
    }
}

impl Encode for CData {
    open spec fn wire(&self) -> Result<Seq<u8>, EncodeError> {
        self.data_type.wire()
    }

    fn encode(&self, w: &mut Vec<u8>) -> (res: Result<(), EncodeError>) {
        let ghost before = w@;
        let ghost mut sofar = Seq::<u8>::empty();
        assert(w@ =~= before + sofar);
        put_field(&self.data_type, w, Ghost(before), Ghost(sofar))?;
        proof {
            sofar = sofar + self.data_type.wire()->Ok_0;
        }
        assert(sofar =~= self.wire()->Ok_0);
        assert(w@ =~= before + sofar);
        Ok(())
    }
}

impl Decode for CData {
    open spec fn parse(bytes: Seq<u8>) -> Parsed<CDataView> {
        match CDataTypeByte::parse(bytes) {
            Err(e) => Err(e),
            Ok((data_type, a)) => Ok((CDataView { data_type }, a)),
        }
    }

    fn decode(r: &[u8]) -> (res: Result<(Self, usize), DecodeError>) {
        let (data_type, a) = CDataTypeByte::decode(r)?;
        Ok((CData { data_type }, a))
    }
}

impl RoundTrip for CData {
    proof fn lemma_round_trip(&self, rest: Seq<u8>) {
        let w1 = self.data_type.wire()->Ok_0;
        let r1 = rest;
        self.data_type.lemma_round_trip(r1);
    }
}

impl Packet for CData {
    const ID: i32 = packet_id::CLIENTBOUND_CONFIG_CUSTOM_PAYLOAD;

    const NAME: &'static str = "custom_payload";

    const SIDE: PacketSide = PacketSide::Clientbound;

    const STATE: PacketState = PacketState::Config;
}

/// The catalogue of the packets that a server sends: the id, the name, the
/// side and the phase of each.
pub proof fn lemma_clientbound_catalog()
    ensures
        CStatusResponse::ID == packet_id::CLIENTBOUND_STATUS_STATUS_RESPONSE,
        CStatusResponse::NAME@ == "CStatusResponse"@,
        CStatusResponse::SIDE == PacketSide::Clientbound,
        CStatusResponse::STATE == PacketState::Status,
        CPongResponse::ID == packet_id::CLIENTBOUND_STATUS_PONG_RESPONSE,
        CPongResponse::NAME@ == "CPongResponse"@,
        CPongResponse::SIDE == PacketSide::Clientbound,
        CPongResponse::STATE == PacketState::Status,
        CLoginDisconnect::ID == packet_id::CLIENTBOUND_LOGIN_LOGIN_DISCONNECT,
        CLoginDisconnect::NAME@ == "CLoginDisconnect"@,
        CLoginDisconnect::SIDE == PacketSide::Clientbound,
        CLoginDisconnect::STATE == PacketState::Login,
        CEncryptionRequest::ID == packet_id::CLIENTBOUND_LOGIN_HELLO,
        CEncryptionRequest::NAME@ == "Hello"@,
        CEncryptionRequest::SIDE == PacketSide::Clientbound,
        CEncryptionRequest::STATE == PacketState::Login,
        CLoginFinished::ID == packet_id::CLIENTBOUND_LOGIN_LOGIN_FINISHED,
        CLoginFinished::NAME@ == "CLoginFinished"@,
        CLoginFinished::SIDE == PacketSide::Clientbound,
        CLoginFinished::STATE == PacketState::Login,
        CLoginCompression::ID == packet_id::CLIENTBOUND_LOGIN_LOGIN_COMPRESSION,
        CLoginCompression::NAME@ == "CLoginCompression"@,
        CLoginCompression::SIDE == PacketSide::Clientbound,
        CLoginCompression::STATE == PacketState::Login,
        CData::ID == packet_id::CLIENTBOUND_CONFIG_CUSTOM_PAYLOAD,
        CData::NAME@ == "custom_payload"@,
        CData::SIDE == PacketSide::Clientbound,
        CData::STATE == PacketState::Config,
{
}

} // verus!
