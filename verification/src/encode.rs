//! Framing of outgoing packets: a length prefix in front of the packet's id
//! and body, with a compression marker where compression is switched on.

use crate::buffer::{buf_clear, buf_extend, buf_len, buf_new, buf_split_to, buf_unsplit, bytes_of};
use crate::cipher::{encrypt_buffer, encrypted, register_after_encrypt, CipherState};
use crate::compress::{zlib_compress, zlib_deflated, zlib_inflated};
use crate::decode::{next_frame, FrameParse};
use crate::roundtrip::{lemma_frame_round_trip, reads_back};
use crate::varint::VarInt;
use crate::{
    bytes_view, packet_wire, CompressionThreshold, EncodeError, Packet, MAX_PACKET_SIZE,
};
use bytes::BytesMut;
use vstd::prelude::*;

verus! {

/// The zlib level at which packet bodies are compressed.
pub const COMPRESSION_LEVEL: u32 = 4;

/// A frame without compression: the length of `data`, then `data`.
pub open spec fn plain_frame(data: Seq<u8>) -> Seq<u8> {
    VarInt(data.len() as i32).wire() + data
}

/// A frame that carries `data` as it is although compression is on: the
/// length of what follows, a zero marker, then `data`.
pub open spec fn stored_frame(data: Seq<u8>) -> Seq<u8> {
    VarInt((1 + data.len()) as i32).wire() + seq![0u8] + data
}

/// A frame that carries `data` compressed to `z`: the length of what follows,
/// the length of `data`, then `z`.
pub open spec fn deflated_frame(data_len: nat, z: Seq<u8>) -> Seq<u8> {
    VarInt((VarInt(data_len as i32).spec_written_size() + z.len()) as i32).wire() + VarInt(
        data_len as i32,
    ).wire() + z
}

/// The frame of `data` without compression, or the error for data that is
/// too long.
pub open spec fn plain_framed(data: Seq<u8>) -> Result<Seq<u8>, EncodeError> {
    if data.len() > MAX_PACKET_SIZE {
        Err(EncodeError::PacketTooLarge)
    } else {
        Ok(plain_frame(data))
    }
}

/// The frame of `data` with a zero marker, or the error for data that is too
/// long.
pub open spec fn stored_framed(data: Seq<u8>) -> Result<Seq<u8>, EncodeError> {
    if 1 + data.len() > MAX_PACKET_SIZE {
        Err(EncodeError::PacketTooLarge)
    } else {
        Ok(stored_frame(data))
    }
}

/// The frame of data of length `data_len` that the compressor turned into
/// `z`: an error where the compressor gave one, where the length of the data
/// does not fit its prefix, or where the frame would be too long.
pub open spec fn deflated_framed(data_len: nat, z: Option<Seq<u8>>) -> Result<
    Seq<u8>,
    EncodeError,
> {
    match z {
        None => Err(EncodeError::CompressionFailed),
        Some(z) => if data_len > i32::MAX || VarInt(data_len as i32).spec_written_size() + z.len()
            > MAX_PACKET_SIZE {
            Err(EncodeError::PacketTooLarge)
        } else {
            Ok(deflated_frame(data_len, z))
        },
    }
}

/// The frame of `data` under a compression threshold, given what the
/// compressor makes of `data`. A negative threshold stands for no compression;
/// otherwise data longer than the threshold is compressed and other data is
/// stored behind a zero marker.
pub open spec fn framed(threshold: int, data: Seq<u8>, z: Option<Seq<u8>>) -> Result<
    Seq<u8>,
    EncodeError,
> {
    if threshold < 0 {
        plain_framed(data)
    } else if data.len() > threshold {
        deflated_framed(data.len(), z)
    } else {
        stored_framed(data)
    }
}

/// Whether a buffer that held `before` and now holds `after`, with the result
/// `res`, has had `want` appended: the bytes on success; on an error that
/// error, with `before` still at the front.
pub open spec fn appended(
    before: Seq<u8>,
    after: Seq<u8>,
    res: Result<(), EncodeError>,
    want: Result<Seq<u8>, EncodeError>,
) -> bool {
    match want {
        Ok(bytes) => res is Ok && after == before + bytes,
        Err(e) => res == Err::<(), EncodeError>(e) && before.is_prefix_of(after),
    }
}

/// Puts the wire form of `prefix` in front of the bytes of `buf` from `start`
/// on.
fn insert_varint(buf: &mut Vec<u8>, start: usize, prefix: i32)
    requires
        start <= old(buf)@.len(),
    ensures
        final(buf)@ == old(buf)@.subrange(0, start as int) + VarInt(prefix).wire() + old(
            buf,
        )@.subrange(start as int, old(buf)@.len() as int),
{
    let ghost before = buf@;
    let tail = buf.split_off(start);
    VarInt(prefix).encode(buf);
    buf.extend_from_slice(tail.as_slice());
    assert(buf@ =~= before.subrange(0, start as int) + VarInt(prefix).wire() + before.subrange(
        start as int,
        before.len() as int,
    ));
}

/// The frame of a packet with the id `id` and the body `body` under a
/// compression threshold, with the compressor's outcome where the packet is
/// compressed.
pub open spec fn packet_frame(
    threshold: int,
    id: i32,
    body: Result<Seq<u8>, EncodeError>,
) -> Result<Seq<u8>, EncodeError> {
    match packet_wire(id, body) {
        Err(e) => Err(e),
        Ok(data) => framed(threshold, data, zlib_deflated(data, COMPRESSION_LEVEL)),
    }
}

/// Whether framing this packet under this threshold calls the compressor.
pub open spec fn compresses(
    threshold: int,
    id: i32,
    body: Result<Seq<u8>, EncodeError>,
) -> bool {
    threshold >= 0 && (packet_wire(id, body) matches Ok(data) && data.len() > threshold)
}

/// Whether the frame of this packet, where it has one, reads back as the
/// packet's id and body, whatever follows the frame in the stream.
pub open spec fn packet_reads_back(
    threshold: int,
    id: i32,
    body: Result<Seq<u8>, EncodeError>,
) -> bool {
    match (body, packet_frame(threshold, id, body)) {
        (Ok(b), Ok(frame)) => reads_back(threshold, frame, id, b),
        _ => true,
    }
}

/// A frame reads back as its packet when the compressed form, where the frame
/// carries one, inflates to the packet again.
proof fn lemma_packet_reads_back(threshold: int, id: i32, body: Seq<u8>)
    requires
        packet_frame(threshold, id, Ok(body)) is Ok,
        compresses(threshold, id, Ok(body)) ==> zlib_inflated(
            zlib_deflated(VarInt(id).wire() + body, COMPRESSION_LEVEL)->Some_0,
            ((VarInt(id).wire() + body).len() + 1) as u64,
        ) == Some(VarInt(id).wire() + body),
    ensures
        packet_reads_back(threshold, id, Ok(body)),
{
    let data = VarInt(id).wire() + body;
    let z = zlib_deflated(data, COMPRESSION_LEVEL);
    let frame = packet_frame(threshold, id, Ok(body))->Ok_0;
    assert forall|rest: Seq<u8>| #[trigger]
        next_frame(threshold, frame + rest) == (FrameParse::Frame {
            id,
            body,
            consumed: frame.len(),
        }) by {
        lemma_frame_round_trip(threshold, id, body, z, rest);
    }
}

/// Turns the bytes of `buf` from `start` on into a frame without compression.
/// Data longer than `MAX_PACKET_SIZE` is refused and `buf` left as it was.
pub fn frame_plain(buf: &mut Vec<u8>, start: usize) -> (res: Result<(), EncodeError>)
    requires
        start <= old(buf)@.len(),
    ensures
        appended(
            old(buf)@.subrange(0, start as int),
            final(buf)@,
            res,
            plain_framed(old(buf)@.subrange(start as int, old(buf)@.len() as int)),
        ),
        res is Err ==> final(buf)@ == old(buf)@,
{
    let data_len: usize = buf.len() - start;
    if data_len > MAX_PACKET_SIZE as usize {
        assert(buf@.subrange(0, start as int).is_prefix_of(buf@));
        return Err(EncodeError::PacketTooLarge);
    }
    let ghost before = buf@;
    insert_varint(buf, start, data_len as i32);
    assert(buf@ =~= before.subrange(0, start as int) + plain_frame(
        before.subrange(start as int, before.len() as int),
    ));
    Ok(())
}

/// Turns the bytes of `buf` from `start` on into a frame that carries them as
/// they are behind a zero marker. Data that would make the frame longer than
/// `MAX_PACKET_SIZE` is refused and `buf` left as it was.
pub fn frame_stored(buf: &mut Vec<u8>, start: usize) -> (res: Result<(), EncodeError>)
    requires
        start <= old(buf)@.len(),
    ensures
        appended(
            old(buf)@.subrange(0, start as int),
            final(buf)@,
            res,
            stored_framed(old(buf)@.subrange(start as int, old(buf)@.len() as int)),
        ),
        res is Err ==> final(buf)@ == old(buf)@,
{
    let data_len: usize = buf.len() - start;
    if data_len >= MAX_PACKET_SIZE as usize {
        assert(buf@.subrange(0, start as int).is_prefix_of(buf@));
        return Err(EncodeError::PacketTooLarge);
    }
    let ghost before = buf@;
    insert_varint(buf, start, 0);
    insert_varint(buf, start, (data_len + 1) as i32);
    proof {
        assert(VarInt(0).wire() =~= seq![0u8]);
        assert(buf@ =~= before.subrange(0, start as int) + stored_frame(
            before.subrange(start as int, before.len() as int),
        ));
    }
    Ok(())
}

/// Replaces the bytes of `buf` from `start` on by the frame that carries them
/// compressed, where `z` is what the compressor made of them. Without a
/// compressed form, with data whose length does not fit its prefix, or with a
/// frame longer than `MAX_PACKET_SIZE`, `buf` is left as it was.
pub fn frame_deflated(buf: &mut Vec<u8>, start: usize, z: Option<Vec<u8>>) -> (res: Result<
    (),
    EncodeError,
>)
    requires
        start <= old(buf)@.len(),
    ensures
        appended(
            old(buf)@.subrange(0, start as int),
            final(buf)@,
            res,
            deflated_framed((old(buf)@.len() - start) as nat, bytes_view(z)),
        ),
        res is Err ==> final(buf)@ == old(buf)@,
{
    assert(buf@.subrange(0, start as int).is_prefix_of(buf@));
    let z = match z {
        Some(z) => z,
        None => {
            return Err(EncodeError::CompressionFailed);
        },
    };
    let data_len: usize = buf.len() - start;
    if data_len > i32::MAX as usize {
        return Err(EncodeError::PacketTooLarge);
    }
    let data_len_size: usize = VarInt(data_len as i32).written_size();
    if z.len() > MAX_PACKET_SIZE as usize - data_len_size {
        return Err(EncodeError::PacketTooLarge);
    }
    let packet_len: usize = data_len_size + z.len();
    let ghost before = buf@;
    buf.truncate(start);
    VarInt(packet_len as i32).encode(buf);
    VarInt(data_len as i32).encode(buf);
    buf.extend_from_slice(z.as_slice());
    assert(buf@ =~= before.subrange(0, start as int) + deflated_frame(data_len as nat, z@));
    Ok(())
}

/// Appends the frame of `pkt` without compression to `buf`.
pub fn encode_packet<P: Packet>(buf: &mut Vec<u8>, pkt: &P) -> (res: Result<(), EncodeError>)
    ensures
        appended(old(buf)@, final(buf)@, res, packet_frame(-1, P::ID, pkt.wire())),
        res is Ok ==> packet_reads_back(-1, P::ID, pkt.wire()),
{
    let start_len: usize = buf.len();
    let ghost before = buf@;
    pkt.encode_with_id(buf)?;
    proof {
        if packet_frame(-1, P::ID, pkt.wire()) is Ok {
            lemma_packet_reads_back(-1, P::ID, pkt.wire()->Ok_0);
        }
    }
    assert(buf@.subrange(0, start_len as int) =~= before);
    assert(buf@.subrange(start_len as int, buf@.len() as int) =~= packet_wire(
        P::ID,
        pkt.wire(),
    )->Ok_0);
    frame_plain(buf, start_len)
}

/// Appends the frame of `pkt` to `buf` with compression switched on: a packet
/// longer than `threshold` is compressed, any other is stored behind a zero
/// marker.
pub fn encode_packet_compressed<P: Packet>(buf: &mut Vec<u8>, pkt: &P, threshold: u32) -> (res:
    Result<(), EncodeError>)
    ensures
        appended(
            old(buf)@,
            final(buf)@,
            res,
            packet_frame(threshold as int, P::ID, pkt.wire()),
        ),
        res is Ok ==> packet_reads_back(threshold as int, P::ID, pkt.wire()),
{
    let start_len: usize = buf.len();
    let ghost before = buf@;
    pkt.encode_with_id(buf)?;
    assert(buf@.subrange(0, start_len as int) =~= before);
    assert(buf@.subrange(start_len as int, buf@.len() as int) =~= packet_wire(
        P::ID,
        pkt.wire(),
    )->Ok_0);
    let data_len: usize = buf.len() - start_len;
    if data_len > threshold as usize {
        let z = zlib_compress(
            vstd::slice::slice_subrange(buf.as_slice(), start_len, buf.len()),
            COMPRESSION_LEVEL,
        );
        let res = frame_deflated(buf, start_len, z);
        proof {
            if res is Ok {
                lemma_packet_reads_back(threshold as int, P::ID, pkt.wire()->Ok_0);
            }
        }
        res
    } else {
        let res = frame_stored(buf, start_len);
        proof {
            if res is Ok {
                lemma_packet_reads_back(threshold as int, P::ID, pkt.wire()->Ok_0);
            }
        }
        res
    }
}

/// Whether a writer that held `before` and now holds `after` has written the
/// frame of a packet, or has dropped the error of a packet without a frame
/// and written nothing.
pub open spec fn written(
    before: Seq<u8>,
    after: Seq<u8>,
    threshold: int,
    id: i32,
    body: Result<Seq<u8>, EncodeError>,
) -> bool {
    match packet_frame(threshold, id, body) {
        Ok(frame) => after == before + frame,
        Err(_) => after == before,
    }
}

/// Things that packets can be written to.
pub trait WritePacket {
    /// The bytes written so far and not yet taken away.
    spec fn staged(&self) -> Seq<u8>;

    /// The compression threshold that frames are written under.
    spec fn threshold(&self) -> int;

    /// Writes the frame of `packet`. An error is dropped, and nothing is
    /// written then.
    fn write_packet<P: Packet>(&mut self, packet: &P)
        ensures
            final(self).threshold() == old(self).threshold(),
            written(
                old(self).staged(),
                final(self).staged(),
                old(self).threshold(),
                P::ID,
                packet.wire(),
            ),
    {
        let _ = self.write_packet_fallible(packet);
    }

    /// Writes the frame of `packet`, or gives the error and writes nothing.
    fn write_packet_fallible<P: Packet>(&mut self, packet: &P) -> (res: Result<(), EncodeError>)
        ensures
            final(self).threshold() == old(self).threshold(),
            appended(
                old(self).staged(),
                final(self).staged(),
                res,
                packet_frame(old(self).threshold(), P::ID, packet.wire()),
            ),
            res is Err ==> final(self).staged() == old(self).staged(),
            res is Ok ==> packet_reads_back(old(self).threshold(), P::ID, packet.wire()),
    ;

    /// Writes `bytes` as they are.
    fn write_packet_bytes(&mut self, bytes: &[u8])
        ensures
            final(self).threshold() == old(self).threshold(),
            final(self).staged() == old(self).staged() + bytes@,
    ;
}

/// A packet writer over a borrowed vector. Packets are appended to the
/// vector; where writing one fails, what it had written is cut off again.
#[derive(Debug)]
pub struct PacketWriter<'a> {
    pub buf: &'a mut Vec<u8>,
    pub threshold: CompressionThreshold,
}

impl<'a> PacketWriter<'a> {
    pub fn new(buf: &'a mut Vec<u8>, threshold: CompressionThreshold) -> (w: Self)
        ensures
            w.threshold == threshold,
            w.buf@ == old(buf)@,
    {
        Self { buf, threshold }
    }
}

impl WritePacket for PacketWriter<'_> {
    open spec fn staged(&self) -> Seq<u8> {
        self.buf@
    }

    open spec fn threshold(&self) -> int {
        self.threshold.0 as int
    }

    fn write_packet_fallible<P: Packet>(&mut self, pkt: &P) -> (res: Result<(), EncodeError>) {
        let start: usize = self.buf.len();
        let res = if self.threshold.0 >= 0 {
            encode_packet_compressed(self.buf, pkt, self.threshold.0 as u32)
        } else {
            encode_packet(self.buf, pkt)
        };
        proof {
            if res is Ok && self.threshold.0 < 0 {
                lemma_packet_reads_back(self.threshold.0 as int, P::ID, pkt.wire()->Ok_0);
            }
        }
        if res.is_err() {
            self.buf.truncate(start);
        }
        res
    }

    fn write_packet_bytes(&mut self, bytes: &[u8]) {
        self.buf.extend_from_slice(bytes);
    }
}

/// Writes the frame of `pkt` under `threshold` into `scratch`, which holds
/// nothing else afterwards.
fn stage_packet<P: Packet>(scratch: &mut Vec<u8>, pkt: &P, threshold: CompressionThreshold) -> (res:
    Result<(), EncodeError>)
    ensures
        appended(
            Seq::<u8>::empty(),
            final(scratch)@,
            res,
            packet_frame(threshold.0 as int, P::ID, pkt.wire()),
        ),
        res is Ok ==> packet_reads_back(threshold.0 as int, P::ID, pkt.wire()),
{
    scratch.clear();
    let res = if threshold.0 >= 0 {
        encode_packet_compressed(scratch, pkt, threshold.0 as u32)
    } else {
        encode_packet(scratch, pkt)
    };
    proof {
        if res is Ok && threshold.0 < 0 {
            lemma_packet_reads_back(threshold.0 as int, P::ID, pkt.wire()->Ok_0);
        }
        if let Ok(frame) = packet_frame(threshold.0 as int, P::ID, pkt.wire()) {
            assert(Seq::<u8>::empty() + frame =~= frame);
        }
    }
    res
}

/// The encoding half of a connection: frames packets into a buffer of staged
/// bytes and hands the buffer out, encrypted once encryption is switched on.
pub struct PacketEncoder {
    buf: BytesMut,
    compress_buf: Vec<u8>,
    threshold: CompressionThreshold,
    cipher: Option<CipherState>,
}

/// An encoder with nothing staged, without compression or encryption.
impl Default for PacketEncoder {
    fn default() -> (e: Self)
        ensures
            e.staged() == Seq::<u8>::empty(),
            e.threshold() == -1,
            e.cipher() is None,
    {
        PacketEncoder::new()
    }
}

impl PacketEncoder {
    /// The key and the shift register of the cipher, once encryption is on.
    pub closed spec fn cipher(&self) -> Option<(Seq<u8>, Seq<u8>)> {
        match self.cipher {
            Some(c) => Some((c.key@, c.register@)),
            None => None,
        }
    }

    /// An encoder with nothing staged, without compression or encryption.
    pub fn new() -> (e: Self)
        ensures
            e.staged() == Seq::<u8>::empty(),
            e.threshold() == -1,
            e.cipher() is None,
    {
        PacketEncoder {
            buf: buf_new(),
            compress_buf: Vec::new(),
            threshold: CompressionThreshold(-1),
            cipher: None,
        }
    }

    /// Stages `bytes` as they are.
    pub fn append_bytes(&mut self, bytes: &[u8])
        ensures
            final(self).staged() == old(self).staged() + bytes@,
            final(self).threshold() == old(self).threshold(),
            final(self).cipher() == old(self).cipher(),
    {
        buf_extend(&mut self.buf, bytes);
    }

    /// Stages the frame of `pkt` in front of what is staged already. On an
    /// error nothing changes.
    pub fn prepend_packet<P: Packet>(&mut self, pkt: &P) -> (res: Result<(), EncodeError>)
        ensures
            final(self).threshold() == old(self).threshold(),
            final(self).cipher() == old(self).cipher(),
            res is Err ==> final(self).staged() == old(self).staged(),
            res is Ok ==> final(self).staged() == packet_frame(
                old(self).threshold(),
                P::ID,
                pkt.wire(),
            )->Ok_0 + old(self).staged(),
            res == framing_result(packet_frame(old(self).threshold(), P::ID, pkt.wire())),
            res is Ok ==> packet_reads_back(old(self).threshold(), P::ID, pkt.wire()),
    {
        stage_packet(&mut self.compress_buf, pkt, self.threshold)?;
        let staged_len: usize = buf_len(&self.buf);
        let rest = buf_split_to(&mut self.buf, staged_len);
        buf_extend(&mut self.buf, self.compress_buf.as_slice());
        buf_unsplit(&mut self.buf, rest);
        proof {
            let before = old(self).staged();
            let frame = packet_frame(old(self).threshold(), P::ID, pkt.wire())->Ok_0;
            assert(Seq::<u8>::empty() + frame =~= frame);
            assert(before.subrange(0, before.len() as int) =~= before);
            assert(before.subrange(before.len() as int, before.len() as int) + frame =~= frame);
        }
        Ok(())
    }

    /// Stages the frame of `pkt` behind what is staged already. On an error
    /// nothing changes.
    pub fn append_packet<P: Packet>(&mut self, pkt: &P) -> (res: Result<(), EncodeError>)
        ensures
            final(self).threshold() == old(self).threshold(),
            final(self).cipher() == old(self).cipher(),
            appended(
                old(self).staged(),
                final(self).staged(),
                res,
                packet_frame(old(self).threshold(), P::ID, pkt.wire()),
            ),
            res is Err ==> final(self).staged() == old(self).staged(),
            res is Ok ==> packet_reads_back(old(self).threshold(), P::ID, pkt.wire()),
    {
        let res = stage_packet(&mut self.compress_buf, pkt, self.threshold);
        if res.is_ok() {
            buf_extend(&mut self.buf, self.compress_buf.as_slice());
            proof {
                let frame = packet_frame(old(self).threshold(), P::ID, pkt.wire())->Ok_0;
                assert(Seq::<u8>::empty() + frame =~= frame);
            }
        }
        res
    }

    /// Hands out everything staged and leaves nothing staged. With
    /// encryption on, the bytes handed out are encrypted, in order, and the
    /// cipher has moved on by them.
    pub fn take(&mut self) -> (out: BytesMut)
        ensures
            final(self).staged() == Seq::<u8>::empty(),
            final(self).threshold() == old(self).threshold(),
            bytes_of(out) == sealed(old(self).cipher(), old(self).staged()),
            final(self).cipher() == cipher_after_sealing(old(self).cipher(), old(self).staged()),
    {
        match self.cipher {
            Some(c) => {
                let mut c = c;
                encrypt_buffer(&mut c, &mut self.buf);
                self.cipher = Some(c);
            },
            None => {},
        }
        let n: usize = buf_len(&self.buf);
        let out = buf_split_to(&mut self.buf, n);
        proof {
            let all = bytes_of(out);
            assert(all.subrange(0, all.len() as int) =~= all);
            assert(bytes_of(self.buf) =~= Seq::<u8>::empty());
        }
        out
    }

    /// Drops everything staged.
    pub fn clear(&mut self)
        ensures
            final(self).staged() == Seq::<u8>::empty(),
            final(self).threshold() == old(self).threshold(),
            final(self).cipher() == old(self).cipher(),
    {
        buf_clear(&mut self.buf);
    }

    /// Sets the threshold that later packets are framed under.
    pub fn set_compression(&mut self, threshold: CompressionThreshold)
        ensures
            final(self).threshold() == threshold.0,
            final(self).staged() == old(self).staged(),
            final(self).cipher() == old(self).cipher(),
    {
        self.threshold = threshold;
    }

    /// Whether encryption has been switched on.
    pub fn is_encrypted(&self) -> (b: bool)
        ensures
            b == self.cipher().is_some(),
    {
        self.cipher.is_some()
    }

    /// Switches encryption on, with `key` as the key and as the first
    /// register. What is staged and not yet taken will be encrypted too.
    /// Encryption can be switched on once.
    pub fn enable_encryption(&mut self, key: &[u8; 16])
        requires
            old(self).cipher() is None,
        ensures
            final(self).cipher() == Some((key@, key@)),
            final(self).staged() == old(self).staged(),
            final(self).threshold() == old(self).threshold(),
    {
        self.cipher = Some(CipherState::new(key));
    }
}

/// The result of a framing: `Ok` where there is a frame, the error otherwise.
pub open spec fn framing_result(want: Result<Seq<u8>, EncodeError>) -> Result<(), EncodeError> {
    match want {
        Ok(_) => Ok(()),
        Err(e) => Err(e),
    }
}

/// The bytes that leave an encoder for the staged bytes `data`: `data` itself
/// without a cipher, its ciphertext with one.
pub open spec fn sealed(cipher: Option<(Seq<u8>, Seq<u8>)>, data: Seq<u8>) -> Seq<u8> {
    match cipher {
        Some((key, register)) => encrypted(key, register, data),
        None => data,
    }
}

/// The cipher of an encoder after `data` has left it.
pub open spec fn cipher_after_sealing(cipher: Option<(Seq<u8>, Seq<u8>)>, data: Seq<u8>) -> Option<
    (Seq<u8>, Seq<u8>),
> {
    match cipher {
        Some((key, register)) => Some((key, register_after_encrypt(key, register, data))),
        None => None,
    }
}

impl WritePacket for PacketEncoder {
    closed spec fn staged(&self) -> Seq<u8> {
        bytes_of(self.buf)
    }

    closed spec fn threshold(&self) -> int {
        self.threshold.0 as int
    }

    fn write_packet_fallible<P: Packet>(&mut self, packet: &P) -> (res: Result<(), EncodeError>) {
        self.append_packet(packet)
    }

    fn write_packet_bytes(&mut self, bytes: &[u8]) {
        self.append_bytes(bytes)
    }
}

} // verus!
