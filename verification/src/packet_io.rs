//! The two halves of a connection taken together. The endpoint owns no
//! stream: it hands out the bytes to write and takes in the bytes that were
//! read, so that whoever owns the stream moves the bytes.

use crate::buffer::bytes_of;
use crate::decode::{
    after_arrival, attempt, next_frame, DecoderView, FrameParse, Outcome, PacketDecoder,
};
use crate::encode::{
    cipher_after_sealing, packet_frame, packet_reads_back, sealed, PacketEncoder,
    WritePacket,
};
use crate::{CompressionThreshold, Decode, DecodeError, EncodeError, Packet, RoundTrip};
use bytes::BytesMut;
use vstd::prelude::*;

verus! {

/// The number of bytes that a read from the stream should make room for.
pub const READ_BUF_SIZE: usize = 4096;

/// An encoder and a decoder that share their compression threshold and their
/// key.
pub struct PacketIo {
    enc: PacketEncoder,
    dec: PacketDecoder,
}

/// The outcome of an attempt to read a frame, read as the packet `P`: the
/// packet's model, the need for more bytes, or the error. A frame with
/// another id than that of `P` is an error, and so is a body that does not
/// read as `P`.
pub open spec fn read_as<P: Packet + Decode>(outcome: Outcome) -> Result<
    Option<P::V>,
    DecodeError,
> {
    match outcome {
        Ok(None) => Ok(None),
        Err(e) => Err(e),
        Ok(Some((id, body))) => if id != P::ID {
            Err(DecodeError::UnexpectedPacket)
        } else {
            match P::parse(body) {
                Ok((v, n)) => Ok(Some(v)),
                Err(e) => Err(e),
            }
        },
    }
}

/// The outcome that hands out the id and the body of a packet reads as that
/// packet. So a run of attempts that hands out the ids and bodies of some
/// packets in their order receives the packets in their order.
pub proof fn lemma_read_as_round_trip<P: Packet + RoundTrip>(pkt: &P)
    requires
        pkt.wire() is Ok,
    ensures
        read_as::<P>(Ok(Some((P::ID, pkt.wire()->Ok_0)))) == Ok::<Option<P::V>, DecodeError>(
            Some(pkt.deep_view()),
        ),
{
    let body = pkt.wire()->Ok_0;
    pkt.lemma_round_trip(Seq::empty());
    assert(body + Seq::<u8>::empty() =~= body);
}

/// A packet that was sent arrives: where the frame of `pkt` reads back as a
/// frame, a decoder under the same threshold whose plaintext starts with the
/// frame reads the packet that `pkt` is at its next attempt, and is left
/// with what follows the frame.
pub proof fn lemma_packet_arrives<P: Packet + RoundTrip>(pkt: &P, d: DecoderView, rest: Seq<u8>)
    requires
        packet_frame(d.threshold, P::ID, pkt.wire()) is Ok,
        packet_reads_back(d.threshold, P::ID, pkt.wire()),
        d.text() == packet_frame(d.threshold, P::ID, pkt.wire())->Ok_0 + rest,
    ensures
        read_as::<P>(attempt(d).1) == Ok::<Option<P::V>, DecodeError>(Some(pkt.deep_view())),
        attempt(d).0.plain == rest,
        attempt(d).0.pending == Seq::<u8>::empty(),
{
    let body = pkt.wire()->Ok_0;
    let frame = packet_frame(d.threshold, P::ID, pkt.wire())->Ok_0;
    assert(next_frame(d.threshold, frame + rest) == (FrameParse::Frame {
        id: P::ID,
        body,
        consumed: frame.len(),
    }));
    pkt.lemma_round_trip(Seq::empty());
    assert(body + Seq::<u8>::empty() =~= body);
    assert((frame + rest).skip(frame.len() as int) =~= rest);
}

impl PacketIo {
    /// The encoding half.
    pub closed spec fn enc(&self) -> PacketEncoder {
        self.enc
    }

    /// The decoding half.
    pub closed spec fn dec(&self) -> PacketDecoder {
        self.dec
    }

    /// Whether the two halves agree on the threshold and on whether
    /// encryption is on.
    pub open spec fn paired(&self) -> bool {
        &&& self.enc().threshold() == self.dec().threshold()
        &&& self.enc().cipher() is Some <==> self.dec().cipher() is Some
    }

    /// An endpoint with nothing staged and nothing received, without
    /// compression or encryption.
    pub fn new() -> (io: Self)
        ensures
            io.paired(),
            io.enc().staged() == Seq::<u8>::empty(),
            io.enc().threshold() == -1,
            io.enc().cipher() is None,
            io.dec().plain() == Seq::<u8>::empty(),
            io.dec().pending() == Seq::<u8>::empty(),
            io.dec().cipher() is None,
    {
        PacketIo { enc: PacketEncoder::new(), dec: PacketDecoder::new() }
    }

    /// Frames `pkt` and hands out everything staged, encrypted if encryption
    /// is on: the bytes to write to the stream. On an error nothing is
    /// handed out and nothing staged is lost.
    pub fn send_packet<P: Packet>(&mut self, pkt: &P) -> (res: Result<BytesMut, EncodeError>)
        ensures
            final(self).dec() == old(self).dec(),
            final(self).enc().threshold() == old(self).enc().threshold(),
            match res {
                Ok(out) => {
                    &&& packet_frame(old(self).enc().threshold(), P::ID, pkt.wire()) matches Ok(
                        frame,
                    )
                    &&& bytes_of(out) == sealed(
                        old(self).enc().cipher(),
                        old(self).enc().staged() + frame,
                    )
                    &&& final(self).enc().cipher() == cipher_after_sealing(
                        old(self).enc().cipher(),
                        old(self).enc().staged() + frame,
                    )
                    &&& final(self).enc().staged() == Seq::<u8>::empty()
                    &&& packet_reads_back(old(self).enc().threshold(), P::ID, pkt.wire())
                },
                Err(e) => {
                    &&& final(self).enc().staged() == old(self).enc().staged()
                    &&& final(self).enc().cipher() == old(self).enc().cipher()
                    &&& packet_frame(old(self).enc().threshold(), P::ID, pkt.wire()) == Err::<
                        Seq<u8>,
                        EncodeError,
                    >(e)
                },
            },
    {
        self.enc.append_packet(pkt)?;
        Ok(self.enc.take())
    }

    /// Tries once to receive the packet `P`: `None` while no whole frame has
    /// arrived. A frame with another id than that of `P` is an error, and so
    /// is a body that does not read as `P`; the frame is consumed either way.
    pub fn recv_packet<P: Packet + Decode>(&mut self) -> (res: Result<Option<P>, DecodeError>)
        ensures
            final(self).enc() == old(self).enc(),
            final(self).dec()@ == attempt(old(self).dec()@).0,
            match read_as::<P>(attempt(old(self).dec()@).1) {
                Ok(Some(v)) => res matches Ok(Some(p)) && p.deep_view() == v,
                Ok(None) => res matches Ok(None),
                Err(e) => res is Err && res->Err_0 == e,
            },
    {
        match self.dec.try_next_packet()? {
            Some(frame) => {
                let pkt = frame.decode::<P>()?;
                Ok(Some(pkt))
            },
            None => Ok(None),
        }
    }

    /// The number of bytes received and not yet handed out in a packet.
    pub fn buffered_len(&self) -> (n: usize)
        ensures
            n == self.dec().plain().len() + self.dec().pending().len(),
    {
        self.dec.buffered_len()
    }

    /// Makes room for a read of `READ_BUF_SIZE` bytes and hands the room out
    /// as an empty buffer to read into; `queue_bytes` takes it back. The
    /// bytes received and the room must together fit the address space.
    pub fn read_buffer(&mut self) -> (room: BytesMut)
        requires
            old(self).dec().plain().len() + old(self).dec().pending().len() + READ_BUF_SIZE
                <= isize::MAX,
        ensures
            bytes_of(room) == Seq::<u8>::empty(),
            final(self).enc() == old(self).enc(),
            final(self).dec().plain() == old(self).dec().plain(),
            final(self).dec().pending() == old(self).dec().pending(),
            final(self).dec().threshold() == old(self).dec().threshold(),
            final(self).dec().cipher() == old(self).dec().cipher(),
    {
        self.dec.reserve(READ_BUF_SIZE);
        self.dec.take_capacity()
    }

    /// Takes in bytes that were read from the stream: as plaintext without a
    /// cipher, as bytes still to be decrypted with one.
    pub fn queue_bytes(&mut self, bytes: BytesMut)
        ensures
            final(self).enc() == old(self).enc(),
            final(self).dec()@ == after_arrival(old(self).dec()@, bytes_of(bytes)),
    {
        self.dec.queue_bytes(bytes);
    }

    /// Sets the compression threshold of both halves.
    pub fn set_compression(&mut self, threshold: CompressionThreshold)
        ensures
            final(self).enc().threshold() == threshold.0,
            final(self).dec().threshold() == threshold.0,
            final(self).enc().staged() == old(self).enc().staged(),
            final(self).enc().cipher() == old(self).enc().cipher(),
            final(self).dec().plain() == old(self).dec().plain(),
            final(self).dec().pending() == old(self).dec().pending(),
            final(self).dec().cipher() == old(self).dec().cipher(),
    {
        self.enc.set_compression(threshold);
        self.dec.set_compression(threshold);
    }

    /// Whether encryption has been switched on.
    pub fn is_encrypted(&self) -> (b: bool)
        ensures
            b == (self.enc().cipher() is Some || self.dec().cipher() is Some),
    {
        self.enc.is_encrypted() || self.dec.is_encrypted()
    }

    /// Switches encryption on in both halves, with `key` as the key and as
    /// the first register of each. Encryption can be switched on once.
    pub fn enable_encryption(&mut self, key: &[u8; 16])
        requires
            old(self).enc().cipher() is None,
            old(self).dec().cipher() is None,
        ensures
            final(self).enc().cipher() == Some((key@, key@)),
            final(self).dec().cipher() == Some((key@, key@)),
            final(self).enc().staged() == old(self).enc().staged(),
            final(self).enc().threshold() == old(self).enc().threshold(),
            final(self).dec().plain() == old(self).dec().plain(),
            final(self).dec().pending() == Seq::<u8>::empty(),
            final(self).dec().threshold() == old(self).dec().threshold(),
    {
        self.enc.enable_encryption(key);
        self.dec.enable_encryption(key);
    }
}

} // verus!
