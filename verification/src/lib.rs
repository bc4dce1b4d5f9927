//! Framed packet transport for a tunnelling server: variable-length integers,
//! primitive wire codecs, packet framing with optional zlib compression and
//! AES-128 CFB-8 encryption, and the connection state machine that drives a
//! session from its first packet to the data-transfer phase.

use vstd::prelude::*;

pub mod buffer;
pub mod cipher;
pub mod clientbound;
pub mod compress;
pub mod connection;
pub mod decode;
pub mod encode;
pub mod packet_id;
pub mod packet_io;
pub mod ping;
pub mod primitives;
pub mod roundtrip;
pub mod serverbound;
pub mod varint;

pub use varint::VarInt;

verus! {

/// The largest number of bytes that may follow a frame's length prefix.
pub const MAX_PACKET_SIZE: i32 = 2097152;

/// How large a packet must be before the encoder compresses it.
///
/// With a value of zero or more, packets longer than the value are
/// compressed. With a negative value nothing is compressed and frames carry
/// no compression marker.
#[derive(Clone, Copy, Debug, PartialEq, Eq, PartialOrd, Ord, Hash)]
pub struct CompressionThreshold(pub i32);

/// The threshold of a fresh encoder or decoder: no compression.
impl Default for CompressionThreshold {
    fn default() -> (t: Self)
        ensures
            t.0 == -1,
    {
        CompressionThreshold(-1)
    }
}

/// The side a packet is sent to.
#[derive(Clone, Copy, Debug, PartialEq, Eq, Hash)]
pub enum PacketSide {
    /// Server to client.
    Clientbound,
    /// Client to server.
    Serverbound,
}

/// The phase of a session in which a packet is used.
#[derive(Clone, Copy, Debug, PartialEq, Eq, Hash)]
pub enum PacketState {
    Handshake,
    Status,
    Login,
    Config,
    Play,
}

/// Why a value could not be written.
#[derive(Clone, Copy, Debug, PartialEq, Eq)]
pub enum EncodeError {
    /// A bounded string or byte sequence is longer than its bound.
    BoundExceeded,
    /// A length does not fit the 32-bit length prefix.
    LengthOverflow,
    /// The frame would be longer than `MAX_PACKET_SIZE`.
    PacketTooLarge,
    /// The compressor reported an error.
    CompressionFailed,
}

/// Why a value could not be read.
#[derive(Clone, Copy, Debug, PartialEq, Eq)]
pub enum DecodeError {
    /// The input ended inside the value.
    UnexpectedEnd,
    /// A `VarInt` ran over five bytes.
    VarIntTooLarge,
    /// A boolean byte was neither 0 nor 1.
    InvalidBool,
    /// A length prefix was negative.
    NegativeLength,
    /// A string's bytes were not UTF-8.
    InvalidUtf8,
    /// A bounded string or byte sequence was longer than its bound.
    BoundExceeded,
    /// An enum's discriminant named no variant.
    UnknownDiscriminant,
    /// A frame's length prefix was negative or over `MAX_PACKET_SIZE`.
    PacketTooLarge,
    /// A compressed frame did not inflate to the length it declared.
    DecompressionFailed,
    /// A frame carried another packet than the one asked for.
    UnexpectedPacket,
}

/// The bytes of an optional byte vector.
pub open spec fn bytes_view(bytes: Option<Vec<u8>>) -> Option<Seq<u8>> {
    match bytes {
        Some(b) => Some(b@),
        None => None,
    }
}

/// The wire form of two values in a row: that of the first, then that of the
/// second; the first error, if either has none.
pub open spec fn chain(
    a: Result<Seq<u8>, EncodeError>,
    b: Result<Seq<u8>, EncodeError>,
) -> Result<Seq<u8>, EncodeError> {
    match a {
        Err(e) => Err(e),
        Ok(x) => match b {
            Err(e) => Err(e),
            Ok(y) => Ok(x + y),
        },
    }
}

/// The wire form of values in a row: their wire forms one after the other;
/// the first error, if one of them has none.
pub open spec fn wire_of_all<T: Encode>(items: Seq<T>) -> Result<Seq<u8>, EncodeError>
    decreases items.len(),
{
    if items.len() == 0 {
        Ok(Seq::empty())
    } else {
        chain(wire_of_all(items.drop_last()), items.last().wire())
    }
}

/// Values with a wire form.
pub trait Encode {
    /// The bytes that `encode` writes, or the error it gives.
    spec fn wire(&self) -> Result<Seq<u8>, EncodeError>;

    /// Appends the wire form of this value to `w`. On an error `w` keeps what
    /// it held, possibly followed by a part of the value.
    fn encode(&self, w: &mut Vec<u8>) -> (res: Result<(), EncodeError>)
        ensures
            match self.wire() {
                Ok(bytes) => res is Ok && final(w)@ == old(w)@ + bytes,
                Err(e) => res == Err::<(), EncodeError>(e) && old(w)@.is_prefix_of(final(w)@),
            },
    ;
}

/// Where the values in front of the value at `i` have wire forms and that
/// value has none, the row fails with the error of that value.
pub proof fn lemma_wire_of_all_fails<T: Encode>(items: Seq<T>, i: int)
    requires
        0 <= i < items.len(),
        wire_of_all(items.subrange(0, i)) is Ok,
        items[i].wire() is Err,
    ensures
        wire_of_all(items) == Err::<Seq<u8>, EncodeError>(items[i].wire()->Err_0),
    decreases items.len(),
{
    let front = items.drop_last();
    if i == items.len() - 1 {
        assert(front =~= items.subrange(0, i));
    } else {
        assert(front.subrange(0, i) =~= items.subrange(0, i));
        lemma_wire_of_all_fails(front, i);
    }
}

/// Appends the wire forms of the values of `slice` to `w`, in order, up
/// to the first that has none.
pub fn encode_slice<T: Encode>(slice: &[T], w: &mut Vec<u8>) -> (res: Result<(), EncodeError>)
    ensures
        match wire_of_all(slice@) {
            Ok(bytes) => res is Ok && final(w)@ == old(w)@ + bytes,
            Err(e) => res == Err::<(), EncodeError>(e) && old(w)@.is_prefix_of(final(w)@),
        },
{
    let ghost before = w@;
    let mut i: usize = 0;
    assert(slice@.subrange(0, 0) =~= Seq::<T>::empty());
    assert(w@ =~= before + Seq::<u8>::empty());
    while i < slice.len()
        invariant
            i <= slice@.len(),
            before == old(w)@,
            wire_of_all(slice@.subrange(0, i as int)) is Ok,
            w@ == before + wire_of_all(slice@.subrange(0, i as int))->Ok_0,
        decreases slice@.len() - i,
    {
        let ghost done = slice@.subrange(0, i as int);
        let ghost next = slice@.subrange(0, i + 1);
        proof {
            assert(next.drop_last() =~= done);
            assert(next.last() == slice@[i as int]);
        }
        let ghost staged = w@;
        let res = slice[i].encode(w);
        if res.is_err() {
            proof {
                lemma_wire_of_all_fails(slice@, i as int);
                assert(staged.subrange(0, before.len() as int) =~= before);
                assert(w@.subrange(0, before.len() as int) =~= staged.subrange(
                    0,
                    before.len() as int,
                ));
            }
            return res;
        }
        assert(w@ =~= before + wire_of_all(next)->Ok_0);
        i = i + 1;
    }
    assert(slice@.subrange(0, slice@.len() as int) =~= slice@);
    Ok(())
}

/// What reading a value from the front of a byte sequence gives: the value's
/// model and the number of bytes it took, or an error.
pub type Parsed<V> = Result<(V, nat), DecodeError>;

/// Values that can be read from their wire form. The model of a value is its
/// deep view.
pub trait Decode: Sized + DeepView {
    /// The value at the front of `bytes` and the number of bytes it takes.
    spec fn parse(bytes: Seq<u8>) -> Parsed<Self::V>;

    /// Reads a value from the front of `r`, and says how many bytes it took.
    fn decode(r: &[u8]) -> (res: Result<(Self, usize), DecodeError>)
        ensures
            match Self::parse(r@) {
                Ok((v, n)) => res is Ok && res->Ok_0.0.deep_view() == v && res->Ok_0.1 == n && n
                    <= r@.len(),
                Err(e) => res is Err && res->Err_0 == e,
            },
    ;
}

/// Values that read back from their wire form as themselves.
pub trait RoundTrip: Encode + Decode {
    /// Reading the wire form of a value gives the model of the value back,
    /// whatever follows the wire form, and takes exactly its bytes.
    proof fn lemma_round_trip(&self, rest: Seq<u8>)
        requires
            self.wire() is Ok,
        ensures
            Self::parse(self.wire()->Ok_0 + rest) == Ok::<(Self::V, nat), DecodeError>(
                (self.deep_view(), self.wire()->Ok_0.len()),
            ),
    ;
}

/// Values that are packets: a body with a numeric id in front of it.
pub trait Packet: Encode {
    /// The id that leads this packet on the wire.
    const ID: i32;

    /// The packet's name, for messages.
    const NAME: &'static str;

    /// The side this packet is sent to.
    const SIDE: PacketSide;

    /// The phase in which this packet is used.
    const STATE: PacketState;

    /// Appends the packet's id and then its body to `w`.
    fn encode_with_id(&self, w: &mut Vec<u8>) -> (res: Result<(), EncodeError>)
        ensures
            match packet_wire(Self::ID, self.wire()) {
                Ok(bytes) => res is Ok && final(w)@ == old(w)@ + bytes,
                Err(e) => res == Err::<(), EncodeError>(e) && old(w)@.is_prefix_of(final(w)@),
            },
    {
        VarInt(Self::ID).encode(w);
        self.encode(w)
    }
}

/// The unframed wire form of a packet: its id as a `VarInt`, then its body.
pub open spec fn packet_wire(id: i32, body: Result<Seq<u8>, EncodeError>) -> Result<
    Seq<u8>,
    EncodeError,
> {
    chain(Ok(VarInt(id).wire()), body)
}

} // verus!
