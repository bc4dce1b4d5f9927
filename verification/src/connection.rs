//! The server's side of a session as a state machine. Every method takes
//! what happened outside (a packet that arrived, the result of a key
//! operation, of a lookup, of a dial), moves the session on, and answers with
//! what is to be done outside next.

use crate::bytes_view;
use crate::clientbound::{
    CData, CDataTypeByte, CEncryptionRequest, CLoginFinished, CPongResponse, CStatusResponse,
};
use crate::packet_id::CURRENT_MC_PROTOCOL;
use crate::primitives::{Bounded, IpAddr};
use crate::serverbound::{
    HandshakeNextState, SClientInformation, SDataTypeByte, SEncryptionResponse, SHello,
    SIntention, SPingRequest,
};
use rsa::RsaPrivateKey;
use std::collections::HashMap;
use vstd::prelude::*;

verus! {

broadcast use vstd::std_specs::hash::group_hash_axioms;

/// `rsa::RsaPrivateKey`, the server's private key. Nothing is known of a
/// key.
#[verifier::external_type_specification]
#[verifier::external_body]
pub struct ExRsaPrivateKey(rsa::RsaPrivateKey);

/// `rand::random` for 16 bytes: a fresh verify token. Nothing is claimed of
/// the bytes.
#[verifier::external_body]
fn random_token() -> (token: [u8; 16]) {
    rand::random()
}

/// What a private key makes of `data` with PKCS#1 v1.5 padding: the
/// plaintext, or `None` where the key reports an error.
pub uninterp spec fn rsa_decrypted(key: RsaPrivateKey, data: Seq<u8>) -> Option<Seq<u8>>;

/// `RsaPrivateKey::decrypt` with PKCS#1 v1.5 padding and without blinding:
/// the plaintext of `data`, or `None` where the key reports an error.
///
/// Not proved: that what comes back is what this key makes of these bytes
/// whenever it is asked.
#[verifier::external_body]
fn rsa_decrypt(key: &RsaPrivateKey, data: &[u8]) -> (res: Option<Vec<u8>>)
    ensures
        bytes_view(res) == rsa_decrypted(*key, data@),
{
    key.decrypt(rsa::Pkcs1v15Encrypt, data).ok()
}

/// Where a session stands: the packet it waits for, or that it is over.
#[derive(Clone, Copy, Debug, PartialEq, Eq, Structural)]
pub enum Stage {
    /// Waiting for the first packet.
    Intention,
    /// Waiting for a status request.
    StatusRequest,
    /// Waiting for a ping.
    Ping,
    /// Waiting for the login hello.
    Hello,
    /// Waiting for the answer to the encryption request.
    Key,
    /// Waiting for the login to be acknowledged.
    Acknowledged,
    /// Waiting for the client's settings, which carry the private id.
    Information,
    /// Serving tunnel requests.
    Transfer,
    /// Over.
    Closed,
}

/// Why a session ended.
#[derive(Clone, Copy, Debug, PartialEq, Eq, Structural)]
pub enum SessionError {
    /// Something arrived that the session was not waiting for.
    UnexpectedEvent,
    /// The client speaks another protocol version.
    OldVersion,
    /// The name is not in the login table, or the id is not the one listed.
    NotListed,
    /// A value of the encryption response could not be decrypted.
    DecryptFailed,
    /// The verify token that came back is not the one sent.
    TokenMismatch,
    /// The shared secret is not 16 bytes long.
    BadSecretLength,
    /// The private id was wrong or did not arrive: the login may have been
    /// listened to.
    SecondLoginFailed,
    /// A tunnel request named a tunnel that is not open.
    ConnectionNotFound,
}

/// A tunnel that a session has open.
#[derive(Clone, Copy, Debug)]
pub enum Connection {
    /// An outbound TCP stream, which the owner of the sockets keeps under
    /// the tunnel's id.
    Tcp,
    /// A UDP peer.
    Udp(IpAddr, u16),
}

/// What is to be done outside after a step of the session.
#[derive(Debug)]
pub enum Action {
    /// Nothing: wait for the next packet.
    Continue,
    /// Send the status response, then wait for the ping.
    SendStatus(CStatusResponse),
    /// Send the pong; the session is over.
    SendPong(CPongResponse),
    /// Send the encryption request.
    SendEncryptionRequest(CEncryptionRequest),
    /// Switch encryption on with this key, then send the login's end.
    Encrypt { key: [u8; 16], finished: CLoginFinished },
    /// Send a login disconnect, then end the session with this error.
    Reject(SessionError),
    /// End the session with this error.
    Fail(SessionError),
    /// Dial this TCP peer for the tunnel with this id, and report with
    /// `on_dialled` when the stream is open.
    Dial { connection_id: u16, ip: IpAddr, port: u16 },
    /// Send this tunnel message.
    SendData(CData),
    /// Write these bytes to the TCP stream of this tunnel.
    WriteTcp { connection_id: u16, data: Vec<u8> },
    /// Send these bytes to this UDP peer.
    SendUdp { ip: IpAddr, port: u16, data: Vec<u8> },
    /// Close the sending side of the TCP stream of this tunnel.
    ShutdownTcp { connection_id: u16 },
}

/// Whether two byte slices hold the same bytes.
pub fn bytes_equal(a: &[u8], b: &[u8]) -> (same: bool)
    ensures
        same == (a@ == b@),
{
    if a.len() != b.len() {
        return false;
    }
    let mut i: usize = 0;
    while i < a.len()
        invariant
            i <= a@.len(),
            a@.len() == b@.len(),
            a@.subrange(0, i as int) == b@.subrange(0, i as int),
        decreases a@.len() - i,
    {
        if a[i] != b[i] {
            assert(a@[i as int] != b@[i as int]);
            return false;
        }
        assert(a@.subrange(0, i + 1) =~= a@.subrange(0, i as int).push(a@[i as int]));
        assert(b@.subrange(0, i + 1) =~= b@.subrange(0, i as int).push(b@[i as int]));
        i = i + 1;
    }
    assert(a@.subrange(0, a@.len() as int) =~= a@);
    assert(b@.subrange(0, b@.len() as int) =~= b@);
    true
}

/// The key that a shared secret is: its 16 bytes, or `None` for a secret of
/// another length.
pub fn key_of(secret: &[u8]) -> (key: Option<[u8; 16]>)
    ensures
        secret@.len() == 16 <==> key is Some,
        key matches Some(k) ==> k@ == secret@,
{
    if secret.len() != 16 {
        return None;
    }
    let mut key: [u8; 16] = [0, 0, 0, 0, 0, 0, 0, 0, 0, 0, 0, 0, 0, 0, 0, 0];
    let mut i: usize = 0;
    while i < 16
        invariant
            i <= 16,
            secret@.len() == 16,
            forall|k: int| 0 <= k < i ==> key@[k] == secret@[k],
        decreases 16 - i,
    {
        key[i] = secret[i];
        i = i + 1;
    }
    assert(key@ =~= secret@);
    Some(key)
}

/// What the key exchange comes to, given the token that was sent and what
/// the private key made of the two values of the response (`None` where it
/// could not decrypt one): the key, or the error.
pub open spec fn exchanged(
    sent_token: Seq<u8>,
    shared_secret: Option<Seq<u8>>,
    verify_token: Option<Seq<u8>>,
) -> Result<Seq<u8>, SessionError> {
    match (shared_secret, verify_token) {
        (None, _) => Err(SessionError::DecryptFailed),
        (_, None) => Err(SessionError::DecryptFailed),
        (Some(secret), Some(token)) => if token != sent_token {
            Err(SessionError::TokenMismatch)
        } else if secret.len() != 16 {
            Err(SessionError::BadSecretLength)
        } else {
            Ok(secret)
        },
    }
}

/// Checks the decrypted values of an encryption response against the token
/// that was sent, and gives the key.
pub fn check_exchange(
    sent_token: &[u8; 16],
    shared_secret: &Option<Vec<u8>>,
    verify_token: &Option<Vec<u8>>,
) -> (res: Result<[u8; 16], SessionError>)
    ensures
        match exchanged(sent_token@, bytes_view(*shared_secret), bytes_view(*verify_token)) {
            Ok(key) => res is Ok && res->Ok_0@ == key,
            Err(e) => res == Err::<[u8; 16], SessionError>(e),
        },
{
    let secret = match shared_secret {
        Some(s) => s,
        None => {
            return Err(SessionError::DecryptFailed);
        },
    };
    let token = match verify_token {
        Some(t) => t,
        None => {
            return Err(SessionError::DecryptFailed);
        },
    };
    if !bytes_equal(sent_token.as_slice(), token.as_slice()) {
        return Err(SessionError::TokenMismatch);
    }
    match key_of(secret.as_slice()) {
        Some(key) => Ok(key),
        None => Err(SessionError::BadSecretLength),
    }
}

/// The id after `id`, with zero after the largest.
pub open spec fn next_id(id: u16) -> u16 {
    if id == u16::MAX {
        0
    } else {
        (id + 1) as u16
    }
}

/// What a session keeps of a login.
pub struct LoginView {
    pub username: Seq<char>,
    pub uuid: u128,
    pub private_uuid: u128,
    pub verify_token: Seq<u8>,
}

/// The server's side of one session.
pub struct Client {
    stage: Stage,
    username: String,
    uuid: u128,
    private_uuid: u128,
    verify_token: [u8; 16],
    info: Option<SClientInformation>,
    next_connection_id: u16,
    connections: HashMap<u16, Connection>,
}

impl Client {
    /// Where the session stands.
    pub closed spec fn stage(&self) -> Stage {
        self.stage
    }

    /// What the session keeps of the login.
    pub closed spec fn login(&self) -> LoginView {
        LoginView {
            username: self.username@,
            uuid: self.uuid,
            private_uuid: self.private_uuid,
            verify_token: self.verify_token@,
        }
    }

    /// The client's settings, once they have arrived with the right private
    /// id.
    pub closed spec fn info(&self) -> Option<SClientInformation> {
        self.info
    }

    /// The id that the next tunnel gets.
    pub closed spec fn next_connection_id(&self) -> u16 {
        self.next_connection_id
    }

    /// The tunnels that are open, by their ids.
    pub closed spec fn connections(&self) -> Map<u16, Connection> {
        self.connections@
    }

    /// Whether a step left everything but the stage as it was.
    pub open spec fn only_stage_moved(&self, before: &Client) -> bool {
        &&& self.login() == before.login()
        &&& self.info() == before.info()
        &&& self.next_connection_id() == before.next_connection_id()
        &&& self.connections() == before.connections()
    }

    /// A session that waits for its first packet, with no tunnel open.
    pub fn new() -> (c: Self)
        ensures
            c.stage() == Stage::Intention,
            c.info() is None,
            c.next_connection_id() == 0,
            c.connections() == Map::<u16, Connection>::empty(),
    {
        Client {
            stage: Stage::Intention,
            username: String::new(),
            uuid: 0,
            private_uuid: 0,
            verify_token: [0, 0, 0, 0, 0, 0, 0, 0, 0, 0, 0, 0, 0, 0, 0, 0],
            info: None,
            next_connection_id: 0,
            connections: HashMap::new(),
        }
    }

    /// Where the session stands.
    pub fn current_stage(&self) -> (s: Stage)
        ensures
            s == self.stage(),
    {
        self.stage
    }

    /// The first packet arrived. A status request leads to the status
    /// exchange. A login with the server's protocol version leads to the
    /// login; one with another version is rejected.
    pub fn on_intention(&mut self, pkt: &SIntention) -> (act: Action)
        ensures
            final(self).only_stage_moved(old(self)),
            old(self).stage() != Stage::Intention ==> final(self).stage() == Stage::Closed
                && (act matches Action::Fail(SessionError::UnexpectedEvent)),
            old(self).stage() == Stage::Intention ==> match pkt.next_state {
                HandshakeNextState::Status => act is Continue && final(self).stage()
                    == Stage::StatusRequest,
                HandshakeNextState::Login => if pkt.protocol_version.0 == CURRENT_MC_PROTOCOL {
                    act is Continue && final(self).stage() == Stage::Hello
                } else {
                    act matches Action::Reject(SessionError::OldVersion) && final(self).stage()
                        == Stage::Closed
                },
            },
    {
        if self.stage != Stage::Intention {
            self.stage = Stage::Closed;
            return Action::Fail(SessionError::UnexpectedEvent);
        }
        match pkt.next_state {
            HandshakeNextState::Status => {
                self.stage = Stage::StatusRequest;
                Action::Continue
            },
            HandshakeNextState::Login => {
                if pkt.protocol_version.0 == CURRENT_MC_PROTOCOL {
                    self.stage = Stage::Hello;
                    Action::Continue
                } else {
                    self.stage = Stage::Closed;
                    Action::Reject(SessionError::OldVersion)
                }
            },
        }
    }

    /// A status request arrived: the server's description `json` goes out,
    /// and the session waits for the ping.
    pub fn on_status_request(&mut self, json: String) -> (act: Action)
        ensures
            final(self).only_stage_moved(old(self)),
            old(self).stage() != Stage::StatusRequest ==> final(self).stage() == Stage::Closed
                && (act matches Action::Fail(SessionError::UnexpectedEvent)),
            old(self).stage() == Stage::StatusRequest ==> final(self).stage() == Stage::Ping && (
            act matches Action::SendStatus(r) && r.json@ == json@),
    {
        if self.stage != Stage::StatusRequest {
            self.stage = Stage::Closed;
            return Action::Fail(SessionError::UnexpectedEvent);
        }
        self.stage = Stage::Ping;
        Action::SendStatus(CStatusResponse { json })
    }

    /// A ping arrived: its payload goes back, and the session is over.
    pub fn on_ping(&mut self, ping: &SPingRequest) -> (act: Action)
        ensures
            final(self).only_stage_moved(old(self)),
            final(self).stage() == Stage::Closed,
            old(self).stage() != Stage::Ping ==> act matches Action::Fail(
                SessionError::UnexpectedEvent,
            ),
            old(self).stage() == Stage::Ping ==> (act matches Action::SendPong(r) && r.payload
                == ping.payload),
    {
        let was = self.stage;
        self.stage = Stage::Closed;
        if was != Stage::Ping {
            return Action::Fail(SessionError::UnexpectedEvent);
        }
        Action::SendPong(CPongResponse { payload: ping.payload })
    }

    /// Whether `after` and `act` are what the login hello makes of the
    /// session `self`, where `entry` is what the login table holds under the
    /// name (the public and the private id) and `token` the fresh verify
    /// token. A name without an entry, or with another public id than the one
    /// in the hello, is rejected. Otherwise the encryption request goes out,
    /// with the server's public key and the token.
    pub open spec fn greeted(
        &self,
        after: &Client,
        act: &Action,
        username: Seq<char>,
        uuid: u128,
        entry: Option<(u128, u128)>,
        public_key: Seq<u8>,
        token: Seq<u8>,
    ) -> bool {
        &&& after.info() == self.info()
        &&& after.next_connection_id() == self.next_connection_id()
        &&& after.connections() == self.connections()
        &&& if self.stage() != Stage::Hello {
            &&& after.login() == self.login()
            &&& after.stage() == Stage::Closed
            &&& act matches Action::Fail(SessionError::UnexpectedEvent)
        } else {
            match entry {
                Some((public, private)) if public == uuid => {
                    &&& after.stage() == Stage::Key
                    &&& after.login() == (LoginView {
                        username,
                        uuid,
                        private_uuid: private,
                        verify_token: token,
                    })
                    &&& act matches Action::SendEncryptionRequest(r)
                    &&& r.server_id.0@ == Seq::<char>::empty()
                    &&& r.public_key@ == public_key
                    &&& r.verify_token@ == token
                    &&& !r.should_verify
                },
                _ => {
                    &&& after.login() == self.login()
                    &&& after.stage() == Stage::Closed
                    &&& act matches Action::Reject(SessionError::NotListed)
                },
            }
        }
    }

    /// The login hello arrived, and `verify_token` is the token to send:
    /// see `greeted`.
    pub fn on_hello(
        &mut self,
        hello: SHello,
        entry: Option<(u128, u128)>,
        public_key: Vec<u8>,
        verify_token: [u8; 16],
    ) -> (act: Action)
        ensures
            old(self).greeted(
                final(self),
                &act,
                hello.username.0@,
                hello.uuid,
                entry,
                public_key@,
                verify_token@,
            ),
    {
        if self.stage != Stage::Hello {
            self.stage = Stage::Closed;
            return Action::Fail(SessionError::UnexpectedEvent);
        }
        let private = match entry {
            Some((public, private)) => {
                if public != hello.uuid {
                    self.stage = Stage::Closed;
                    return Action::Reject(SessionError::NotListed);
                }
                private
            },
            None => {
                self.stage = Stage::Closed;
                return Action::Reject(SessionError::NotListed);
            },
        };
        let token = vstd::slice::slice_to_vec(verify_token.as_slice());
        self.stage = Stage::Key;
        self.username = hello.username.0;
        self.uuid = hello.uuid;
        self.private_uuid = private;
        self.verify_token = verify_token;
        Action::SendEncryptionRequest(
            CEncryptionRequest {
                server_id: Bounded(String::new()),
                public_key,
                verify_token: token,
                should_verify: false,
            },
        )
    }

    /// The login hello arrived: draws a fresh verify token and goes on as
    /// `on_hello` does with it.
    pub fn on_login_hello(
        &mut self,
        hello: SHello,
        entry: Option<(u128, u128)>,
        public_key: Vec<u8>,
    ) -> (act: Action)
        ensures
            exists|token: Seq<u8>|
                token.len() == 16 && #[trigger] old(self).greeted(
                    final(self),
                    &act,
                    hello.username.0@,
                    hello.uuid,
                    entry,
                    public_key@,
                    token,
                ),
    {
        let token = random_token();
        let ghost username = hello.username.0@;
        let ghost uuid = hello.uuid;
        let ghost key = public_key@;
        let act = self.on_hello(hello, entry, public_key, token);
        assert(old(self).greeted(&*self, &act, username, uuid, entry, key, token@));
        act
    }

    /// Whether `after` and `act` are what the encryption response makes of
    /// the session `self`, where `shared_secret` and `verify_token` are what
    /// the private key made of its two values: `None` stands for a value
    /// that it could not decrypt. With the token that was sent and a secret
    /// of 16 bytes, encryption is switched on with the secret as the key and
    /// the login's end goes out. Anything else ends the session.
    pub open spec fn keyed(
        &self,
        after: &Client,
        act: &Action,
        shared_secret: Option<Seq<u8>>,
        verify_token: Option<Seq<u8>>,
    ) -> bool {
        &&& after.only_stage_moved(self)
        &&& if self.stage() != Stage::Key {
            &&& after.stage() == Stage::Closed
            &&& act matches Action::Fail(SessionError::UnexpectedEvent)
        } else {
            match exchanged(self.login().verify_token, shared_secret, verify_token) {
                Ok(secret) => {
                    &&& after.stage() == Stage::Acknowledged
                    &&& act matches Action::Encrypt { key, finished }
                    &&& key@ == secret
                    &&& finished.uuid == self.login().uuid
                    &&& finished.username.0@ == self.login().username
                },
                Err(e) => {
                    &&& after.stage() == Stage::Closed
                    &&& act matches Action::Fail(x)
                    &&& x == e
                },
            }
        }
    }

    /// The encryption response arrived, and the private key was put to its
    /// two values: see `keyed`.
    pub fn on_key(&mut self, shared_secret: Option<Vec<u8>>, verify_token: Option<Vec<u8>>) -> (act:
        Action)
        ensures
            old(self).keyed(final(self), &act, bytes_view(shared_secret), bytes_view(verify_token)),
    {
        if self.stage != Stage::Key {
            self.stage = Stage::Closed;
            return Action::Fail(SessionError::UnexpectedEvent);
        }
        match check_exchange(&self.verify_token, &shared_secret, &verify_token) {
            Ok(key) => {
                self.stage = Stage::Acknowledged;
                Action::Encrypt {
                    key,
                    finished: CLoginFinished {
                        uuid: self.uuid,
                        username: Bounded(self.username.clone()),
                    },
                }
            },
            Err(e) => {
                self.stage = Stage::Closed;
                Action::Fail(e)
            },
        }
    }

    /// The encryption response arrived: puts the private key to its two
    /// values, the shared secret first, and goes on as `on_key` does with
    /// what the key made of them. See `keyed`.
    pub fn on_encryption_response(
        &mut self,
        private_key: &RsaPrivateKey,
        response: &SEncryptionResponse,
    ) -> (act: Action)
        ensures
            old(self).keyed(
                final(self),
                &act,
                rsa_decrypted(*private_key, response.shared_secret@),
                rsa_decrypted(*private_key, response.verify_token@),
            ),
    {
        let shared_secret = rsa_decrypt(private_key, response.shared_secret.as_slice());
        let verify_token = rsa_decrypt(private_key, response.verify_token.as_slice());
        self.on_key(shared_secret, verify_token)
    }

    /// The login was acknowledged: the session waits for the client's
    /// settings.
    pub fn on_acknowledged(&mut self) -> (act: Action)
        ensures
            final(self).only_stage_moved(old(self)),
            old(self).stage() != Stage::Acknowledged ==> final(self).stage() == Stage::Closed
                && (act matches Action::Fail(SessionError::UnexpectedEvent)),
            old(self).stage() == Stage::Acknowledged ==> act is Continue && final(self).stage()
                == Stage::Information,
    {
        if self.stage != Stage::Acknowledged {
            self.stage = Stage::Closed;
            return Action::Fail(SessionError::UnexpectedEvent);
        }
        self.stage = Stage::Information;
        Action::Continue
    }

    /// The client's settings arrived, or failed to: `None`. Settings with
    /// the private id of the login's entry open the transfer phase. Anything
    /// else is rejected.
    pub fn on_information(&mut self, info: Option<SClientInformation>) -> (act: Action)
        ensures
            final(self).login() == old(self).login(),
            final(self).next_connection_id() == old(self).next_connection_id(),
            final(self).connections() == old(self).connections(),
            old(self).stage() != Stage::Information ==> final(self).info() == old(self).info() && (
            act matches Action::Fail(SessionError::UnexpectedEvent)) && final(self).stage()
                == Stage::Closed,
            old(self).stage() == Stage::Information ==> match info {
                Some(i) if i.private_uuid == old(self).login().private_uuid => act is Continue
                    && final(self).stage() == Stage::Transfer && final(self).info() == Some(i),
                _ => final(self).info() == old(self).info() && (act matches Action::Reject(
                    SessionError::SecondLoginFailed,
                )) && final(self).stage() == Stage::Closed,
            },
    {
        if self.stage != Stage::Information {
            self.stage = Stage::Closed;
            return Action::Fail(SessionError::UnexpectedEvent);
        }
        match info {
            Some(i) => {
                if i.private_uuid == self.private_uuid {
                    self.stage = Stage::Transfer;
                    self.info = Some(i);
                    return Action::Continue;
                }
            },
            None => {},
        }
        self.stage = Stage::Closed;
        Action::Reject(SessionError::SecondLoginFailed)
    }

    /// A tunnel request arrived.
    ///
    /// To open a tunnel takes the next id and moves the counter on. A UDP
    /// tunnel is open at once and is announced; for a TCP tunnel the peer is
    /// to be dialled first. Bytes for a tunnel go to its stream or its peer,
    /// and closing a tunnel forgets it; both end the session where the
    /// tunnel is not open.
    pub fn on_data(&mut self, data: SDataTypeByte) -> (act: Action)
        ensures
            final(self).login() == old(self).login(),
            final(self).info() == old(self).info(),
            old(self).stage() != Stage::Transfer ==> {
                &&& act matches Action::Fail(SessionError::UnexpectedEvent)
                &&& final(self).stage() == Stage::Closed
                &&& final(self).next_connection_id() == old(self).next_connection_id()
                &&& final(self).connections() == old(self).connections()
            },
            old(self).stage() == Stage::Transfer ==> match data {
                SDataTypeByte::Connect { ip, port, is_udp } => {
                    &&& final(self).stage() == Stage::Transfer
                    &&& final(self).next_connection_id() == next_id(old(self).next_connection_id())
                    &&& if is_udp {
                        &&& final(self).connections() == old(self).connections().insert(
                            old(self).next_connection_id(),
                            Connection::Udp(ip, port),
                        )
                        &&& act matches Action::SendData(
                            CData {
                                data_type: CDataTypeByte::Connect {
                                    ip: i,
                                    port: p,
                                    is_udp: true,
                                    connection_id: c,
                                },
                            },
                        )
                        &&& i == ip
                        &&& p == port
                        &&& c == old(self).next_connection_id()
                    } else {
                        &&& final(self).connections() == old(self).connections()
                        &&& act matches Action::Dial { connection_id: c, ip: i, port: p }
                        &&& i == ip
                        &&& p == port
                        &&& c == old(self).next_connection_id()
                    }
                },
                SDataTypeByte::Process { connection_id, data } => {
                    &&& final(self).next_connection_id() == old(self).next_connection_id()
                    &&& final(self).connections() == old(self).connections()
                    &&& if !old(self).connections().contains_key(connection_id) {
                        final(self).stage() == Stage::Closed && (act matches Action::Fail(
                            SessionError::ConnectionNotFound,
                        ))
                    } else {
                        final(self).stage() == Stage::Transfer && match old(
                            self
                        ).connections()[connection_id] {
                            Connection::Tcp => act matches Action::WriteTcp {
                                connection_id: c,
                                data: d,
                            } && c == connection_id && d@ == data@,
                            Connection::Udp(ip, port) => act matches Action::SendUdp {
                                ip: i,
                                port: p,
                                data: d,
                            } && i == ip && p == port && d@ == data@,
                        }
                    }
                },
                SDataTypeByte::Shutdown { connection_id } => {
                    &&& final(self).next_connection_id() == old(self).next_connection_id()
                    &&& final(self).connections() == old(self).connections().remove(connection_id)
                    &&& if !old(self).connections().contains_key(connection_id) {
                        final(self).stage() == Stage::Closed && (act matches Action::Fail(
                            SessionError::ConnectionNotFound,
                        ))
                    } else {
                        final(self).stage() == Stage::Transfer && match old(
                            self
                        ).connections()[connection_id] {
                            Connection::Tcp => act matches Action::ShutdownTcp { connection_id: c }
                                && c == connection_id,
                            Connection::Udp(_, _) => act is Continue,
                        }
                    }
                },
            },
    {
        if self.stage != Stage::Transfer {
            self.stage = Stage::Closed;
            return Action::Fail(SessionError::UnexpectedEvent);
        }
        match data {
            SDataTypeByte::Connect { ip, port, is_udp } => {
                let connection_id: u16 = self.next_connection_id;
                self.next_connection_id = if connection_id == u16::MAX {
                    0
                } else {
                    connection_id + 1
                };
                if is_udp {
                    self.connections.insert(connection_id, Connection::Udp(ip, port));
                    Action::SendData(
                        CData {
                            data_type: CDataTypeByte::Connect {
                                ip,
                                port,
                                is_udp: true,
                                connection_id,
                            },
                        },
                    )
                } else {
                    Action::Dial { connection_id, ip, port }
                }
            },
            SDataTypeByte::Process { connection_id, data } => {
                let found: Option<Connection> = match self.connections.get(&connection_id) {
                    Some(c) => Some(*c),
                    None => None,
                };
                match found {
                    Some(Connection::Tcp) => Action::WriteTcp { connection_id, data },
                    Some(Connection::Udp(ip, port)) => Action::SendUdp { ip, port, data },
                    None => {
                        self.stage = Stage::Closed;
                        Action::Fail(SessionError::ConnectionNotFound)
                    },
                }
            },
            SDataTypeByte::Shutdown { connection_id } => {
                match self.connections.remove(&connection_id) {
                    Some(Connection::Tcp) => Action::ShutdownTcp { connection_id },
                    Some(Connection::Udp(_, _)) => Action::Continue,
                    None => {
                        self.stage = Stage::Closed;
                        assert(self.connections@ =~= old(self).connections@.remove(connection_id));
                        Action::Fail(SessionError::ConnectionNotFound)
                    },
                }
            },
        }
    }

    /// The TCP peer of the tunnel `connection_id` was dialled and its stream
    /// is open: the tunnel is open and is announced.
    pub fn on_dialled(&mut self, connection_id: u16, ip: IpAddr, port: u16) -> (act: Action)
        ensures
            final(self).login() == old(self).login(),
            final(self).info() == old(self).info(),
            final(self).next_connection_id() == old(self).next_connection_id(),
            old(self).stage() != Stage::Transfer ==> {
                &&& act matches Action::Fail(SessionError::UnexpectedEvent)
                &&& final(self).stage() == Stage::Closed
                &&& final(self).connections() == old(self).connections()
            },
            old(self).stage() == Stage::Transfer ==> {
                &&& final(self).stage() == Stage::Transfer
                &&& final(self).connections() == old(self).connections().insert(
                    connection_id,
                    Connection::Tcp,
                )
                &&& act matches Action::SendData(
                    CData {
                        data_type: CDataTypeByte::Connect {
                            ip: i,
                            port: p,
                            is_udp: false,
                            connection_id: c,
                        },
                    },
                )
                &&& i == ip
                &&& p == port
                &&& c == connection_id
            },
    {
        if self.stage != Stage::Transfer {
            self.stage = Stage::Closed;
            return Action::Fail(SessionError::UnexpectedEvent);
        }
        self.connections.insert(connection_id, Connection::Tcp);
        Action::SendData(
            CData { data_type: CDataTypeByte::Connect { ip, port, is_udp: false, connection_id } },
        )
    }
}

} // verus!
