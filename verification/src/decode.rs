//! Reading frames from an incoming byte stream: the length prefix, the
//! compression marker where compression is switched on, the packet's id and
//! its body.

use crate::buffer::{
    buf_as_slice, buf_from_slice, buf_len, buf_new, buf_reserve, buf_split_off, buf_split_to,
    buf_unsplit, bytes_of,
};
use crate::cipher::{decrypt_buffer, decrypted, register_after_decrypt, CipherState};
use crate::compress::{zlib_decompress, zlib_inflated};
use crate::varint::{parse_nat, signed_of_nat, VarInt, VarIntDecodeError, VarIntParse};
use crate::{bytes_view, CompressionThreshold, Decode, DecodeError, Packet, MAX_PACKET_SIZE};
use bytes::BytesMut;
use vstd::prelude::*;
use vstd::slice::slice_subrange;

verus! {

/// What the front of a byte stream holds.
pub enum FrameParse {
    /// Not yet a whole frame.
    NeedMore,
    /// Bytes that are no frame.
    Malformed(DecodeError),
    /// A frame with this id and body, which takes `consumed` bytes.
    Frame { id: i32, body: Seq<u8>, consumed: nat },
}

/// Reads a `VarInt` that must be whole: the value, and the number of bytes
/// it takes.
pub open spec fn whole_varint(bytes: Seq<u8>) -> Result<(i32, nat), DecodeError> {
    match parse_nat(bytes, 5) {
        VarIntParse::Value(v, n) => Ok((signed_of_nat(v), n)),
        VarIntParse::Incomplete => Err(DecodeError::UnexpectedEnd),
        VarIntParse::TooLarge => Err(DecodeError::VarIntTooLarge),
    }
}

/// What an inflated body is worth: itself where it has the declared length,
/// an error otherwise.
pub open spec fn checked_inflated(d: Option<Seq<u8>>, data_len: int) -> Result<
    Seq<u8>,
    DecodeError,
> {
    match d {
        Some(d) => if d.len() == data_len {
            Ok(d)
        } else {
            Err(DecodeError::DecompressionFailed)
        },
        None => Err(DecodeError::DecompressionFailed),
    }
}

/// The packet data that the payload of a frame carries under a compression
/// threshold. Without compression the payload is the data. With compression
/// the payload starts with the length of the data: zero in front of data
/// carried as it is, otherwise the length that the rest inflates to.
pub open spec fn unpacked(threshold: int, payload: Seq<u8>) -> Result<Seq<u8>, DecodeError> {
    if threshold < 0 {
        Ok(payload)
    } else {
        match whole_varint(payload) {
            Err(e) => Err(e),
            Ok((data_len, m)) => if data_len < 0 {
                Err(DecodeError::NegativeLength)
            } else if data_len == 0 {
                Ok(payload.skip(m as int))
            } else {
                checked_inflated(
                    zlib_inflated(payload.skip(m as int), (data_len + 1) as u64),
                    data_len as int,
                )
            },
        }
    }
}

/// Packet data parted into the id at its front and the body behind it.
pub open spec fn split_id(data: Seq<u8>) -> Result<(i32, Seq<u8>), DecodeError> {
    match whole_varint(data) {
        Err(e) => Err(e),
        Ok((id, k)) => Ok((id, data.skip(k as int))),
    }
}

/// What the front of `buf` holds under a compression threshold.
pub open spec fn next_frame(threshold: int, buf: Seq<u8>) -> FrameParse {
    match parse_nat(buf, 5) {
        VarIntParse::Incomplete => FrameParse::NeedMore,
        VarIntParse::TooLarge => FrameParse::Malformed(DecodeError::VarIntTooLarge),
        VarIntParse::Value(v, n) => {
            let len = signed_of_nat(v);
            if len < 0 || len > MAX_PACKET_SIZE {
                FrameParse::Malformed(DecodeError::PacketTooLarge)
            } else if buf.len() < n + len {
                FrameParse::NeedMore
            } else {
                match unpacked(threshold, buf.subrange(n as int, n + len)) {
                    Err(e) => FrameParse::Malformed(e),
                    Ok(data) => match split_id(data) {
                        Err(e) => FrameParse::Malformed(e),
                        Ok((id, body)) => FrameParse::Frame {
                            id,
                            body,
                            consumed: (n + len) as nat,
                        },
                    },
                }
            }
        },
    }
}

/// A packet as it came off the wire: its id, and its body still encoded.
pub struct PacketFrame {
    pub id: i32,
    pub body: BytesMut,
}

/// Reads a `VarInt` that must be whole from the front of `r`.
pub fn read_varint(r: &[u8]) -> (res: Result<(i32, usize), DecodeError>)
    ensures
        match whole_varint(r@) {
            Ok((v, n)) => res == Ok::<(i32, usize), DecodeError>((v, n as usize)) && 1 <= n <= 5
                && n <= r@.len(),
            Err(e) => res == Err::<(i32, usize), DecodeError>(e),
        },
{
    proof {
        crate::varint::lemma_parse_bounds(r@, 5);
    }
    match VarInt::decode_partial(r) {
        Ok(x) => Ok(x),
        Err(VarIntDecodeError::Incomplete) => Err(DecodeError::UnexpectedEnd),
        Err(VarIntDecodeError::TooLarge) => Err(DecodeError::VarIntTooLarge),
    }
}

/// Accepts an inflated body where it has the length that its frame declared.
pub fn check_inflated(d: Option<Vec<u8>>, data_len: usize) -> (res: Result<Vec<u8>, DecodeError>)
    ensures
        match checked_inflated(bytes_view(d), data_len as int) {
            Ok(body) => res is Ok && res->Ok_0@ == body,
            Err(e) => res == Err::<Vec<u8>, DecodeError>(e),
        },
{
    match d {
        Some(d) => if d.len() == data_len {
            Ok(d)
        } else {
            Err(DecodeError::DecompressionFailed)
        },
        None => Err(DecodeError::DecompressionFailed),
    }
}

/// Parts packet data into a frame: the id at its front, the rest as the
/// body.
pub fn frame_of(data: &[u8]) -> (res: Result<PacketFrame, DecodeError>)
    ensures
        match split_id(data@) {
            Ok((id, body)) => res is Ok && res->Ok_0.id == id && bytes_of(res->Ok_0.body) == body,
            Err(e) => res is Err && res->Err_0 == e,
        },
{
    let (id, k) = read_varint(data)?;
    let body = buf_from_slice(slice_subrange(data, k, data.len()));
    assert(data@.subrange(k as int, data@.len() as int) =~= data@.skip(k as int));
    Ok(PacketFrame { id, body })
}

/// Reads the frame at the front of `buf` under a compression threshold:
/// `None` while the frame is not whole, otherwise the frame and the number of
/// bytes it takes, or the error that makes the bytes no frame.
pub fn parse_frame(threshold: CompressionThreshold, buf: &[u8]) -> (res: Result<
    Option<(PacketFrame, usize)>,
    DecodeError,
>)
    ensures
        match next_frame(threshold.0 as int, buf@) {
            FrameParse::NeedMore => res matches Ok(None),
            FrameParse::Malformed(e) => res is Err && res->Err_0 == e,
            FrameParse::Frame { id, body, consumed } => res matches Ok(Some((f, c))) && f.id == id
                && bytes_of(f.body) == body && c == consumed && 0 < c <= buf@.len(),
        },
{
    proof {
        crate::varint::lemma_parse_bounds(buf@, 5);
    }
    let (packet_len, n) = match VarInt::decode_partial(buf) {
        Ok(x) => x,
        Err(VarIntDecodeError::Incomplete) => {
            return Ok(None);
        },
        Err(VarIntDecodeError::TooLarge) => {
            return Err(DecodeError::VarIntTooLarge);
        },
    };
    if packet_len < 0 || packet_len > MAX_PACKET_SIZE {
        return Err(DecodeError::PacketTooLarge);
    }
    let len: usize = packet_len as usize;
    if buf.len() - n < len {
        return Ok(None);
    }
    let payload = slice_subrange(buf, n, n + len);
    if threshold.0 >= 0 {
        let (data_len, m) = read_varint(payload)?;
        if data_len < 0 {
            return Err(DecodeError::NegativeLength);
        }
        let packed = slice_subrange(payload, m, len);
        assert(packed@ =~= payload@.skip(m as int));
        if data_len > 0 {
            let inflated = zlib_decompress(packed, data_len as u64 + 1);
            let data = check_inflated(inflated, data_len as usize)?;
            let frame = frame_of(data.as_slice())?;
            Ok(Some((frame, n + len)))
        } else {
            let frame = frame_of(packed)?;
            Ok(Some((frame, n + len)))
        }
    } else {
        let frame = frame_of(payload)?;
        Ok(Some((frame, n + len)))
    }
}

/// The plaintext of the bytes `data` that reached a decoder: `data` itself
/// without a cipher, its decryption with one.
pub open spec fn opened(cipher: Option<(Seq<u8>, Seq<u8>)>, data: Seq<u8>) -> Seq<u8> {
    match cipher {
        Some((key, register)) => decrypted(key, register, data),
        None => data,
    }
}

/// The cipher of a decoder after it has decrypted `data`.
pub open spec fn cipher_after_opening(cipher: Option<(Seq<u8>, Seq<u8>)>, data: Seq<u8>) -> Option<
    (Seq<u8>, Seq<u8>),
> {
    match cipher {
        Some((key, register)) => Some((key, register_after_decrypt(key, register, data))),
        None => None,
    }
}

/// The part of arriving bytes that is plaintext on arrival: all of them
/// without a cipher, none with one.
pub open spec fn arrived_plain(cipher: Option<(Seq<u8>, Seq<u8>)>, bytes: Seq<u8>) -> Seq<u8> {
    if cipher is None {
        bytes
    } else {
        Seq::empty()
    }
}

/// The part of arriving bytes that is still to be decrypted: all of them
/// with a cipher, none without one.
pub open spec fn arrived_pending(cipher: Option<(Seq<u8>, Seq<u8>)>, bytes: Seq<u8>) -> Seq<u8> {
    if cipher is None {
        Seq::empty()
    } else {
        bytes
    }
}

/// What a decoder holds, as far as its behaviour goes.
pub struct DecoderView {
    /// The plaintext bytes received and not yet handed out in a frame.
    pub plain: Seq<u8>,
    /// The bytes received behind them that are still to be decrypted.
    pub pending: Seq<u8>,
    /// The compression threshold that frames are read under.
    pub threshold: int,
    /// The key and the shift register of the cipher, once encryption is on.
    pub cipher: Option<(Seq<u8>, Seq<u8>)>,
}

impl DecoderView {
    /// Everything received and not yet handed out in a frame, as plaintext:
    /// what is plaintext already, then what the cipher makes of the rest.
    pub open spec fn text(self) -> Seq<u8> {
        self.plain + opened(self.cipher, self.pending)
    }
}

/// What one attempt to read a frame gives: the frame's id and body, `None`
/// while the frame is not whole, or the error.
pub type Outcome = Result<Option<(i32, Seq<u8>)>, DecodeError>;

/// The outcome that the result of an attempt stands for.
pub open spec fn outcome_of(res: Result<Option<PacketFrame>, DecodeError>) -> Outcome {
    match res {
        Ok(Some(f)) => Ok(Some((f.id, bytes_of(f.body)))),
        Ok(None) => Ok(None),
        Err(e) => Err(e),
    }
}

/// A decoder after `bytes` arrived: they are plaintext without a cipher, and
/// still to be decrypted with one.
pub open spec fn after_arrival(d: DecoderView, bytes: Seq<u8>) -> DecoderView {
    DecoderView {
        plain: d.plain + arrived_plain(d.cipher, bytes),
        pending: d.pending + arrived_pending(d.cipher, bytes),
        threshold: d.threshold,
        cipher: d.cipher,
    }
}

/// A decoder after one attempt to read a frame, and what the attempt gives.
/// Everything received is plaintext afterwards and the cipher has moved on
/// by what it decrypted. A frame that is handed out leaves the decoder; while
/// the frame is not whole, and on an error, the plaintext stays.
pub open spec fn attempt(d: DecoderView) -> (DecoderView, Outcome) {
    let text = d.text();
    let cipher = cipher_after_opening(d.cipher, d.pending);
    match next_frame(d.threshold, text) {
        FrameParse::NeedMore => (
            DecoderView { plain: text, pending: Seq::empty(), threshold: d.threshold, cipher },
            Ok(None),
        ),
        FrameParse::Malformed(e) => (
            DecoderView { plain: text, pending: Seq::empty(), threshold: d.threshold, cipher },
            Err(e),
        ),
        FrameParse::Frame { id, body, consumed } => (
            DecoderView {
                plain: text.skip(consumed as int),
                pending: Seq::empty(),
                threshold: d.threshold,
                cipher,
            },
            Ok(Some((id, body))),
        ),
    }
}

/// The decoding half of a connection: collects the bytes that arrive,
/// decrypts them once encryption is switched on, and hands out one frame at
/// a time.
pub struct PacketDecoder {
    buf: BytesMut,
    decrypted: usize,
    threshold: CompressionThreshold,
    cipher: Option<CipherState>,
}

impl View for PacketDecoder {
    type V = DecoderView;

    open spec fn view(&self) -> DecoderView {
        DecoderView {
            plain: self.plain(),
            pending: self.pending(),
            threshold: self.threshold(),
            cipher: self.cipher(),
        }
    }
}

impl PacketDecoder {
    /// The number of bytes at the front of the buffer that are plaintext.
    pub closed spec fn plain_len(&self) -> int {
        if self.cipher is None || self.decrypted >= bytes_of(self.buf).len() {
            bytes_of(self.buf).len() as int
        } else {
            self.decrypted as int
        }
    }

    /// The plaintext bytes received and not yet handed out in a frame.
    pub closed spec fn plain(&self) -> Seq<u8> {
        bytes_of(self.buf).subrange(0, self.plain_len())
    }

    /// The bytes received behind them that are still to be decrypted.
    pub closed spec fn pending(&self) -> Seq<u8> {
        bytes_of(self.buf).skip(self.plain_len())
    }

    /// The compression threshold that frames are read under.
    pub closed spec fn threshold(&self) -> int {
        self.threshold.0 as int
    }

    /// The key and the shift register of the cipher, once encryption is on.
    pub closed spec fn cipher(&self) -> Option<(Seq<u8>, Seq<u8>)> {
        match self.cipher {
            Some(c) => Some((c.key@, c.register@)),
            None => None,
        }
    }

    /// A decoder that has received nothing, without compression or
    /// encryption.
    pub fn new() -> (d: Self)
        ensures
            d.plain() == Seq::<u8>::empty(),
            d.pending() == Seq::<u8>::empty(),
            d.threshold() == -1,
            d.cipher() is None,
    {
        let d = PacketDecoder {
            buf: buf_new(),
            decrypted: 0,
            threshold: CompressionThreshold(-1),
            cipher: None,
        };
        assert(d.plain() =~= Seq::<u8>::empty());
        assert(d.pending() =~= Seq::<u8>::empty());
        d
    }

    /// The number of bytes received and not yet handed out in a frame.
    pub fn buffered_len(&self) -> (n: usize)
        ensures
            n == self.plain().len() + self.pending().len(),
    {
        buf_len(&self.buf)
    }

    /// Makes room for `additional` more bytes. The bytes received and the
    /// room asked for must together fit the address space.
    pub fn reserve(&mut self, additional: usize)
        requires
            old(self).plain().len() + old(self).pending().len() + additional <= isize::MAX,
        ensures
            final(self).plain() == old(self).plain(),
            final(self).pending() == old(self).pending(),
            final(self).threshold() == old(self).threshold(),
            final(self).cipher() == old(self).cipher(),
    {
        buf_reserve(&mut self.buf, additional);
    }

    /// Hands out the free room behind the bytes received, as an empty buffer
    /// to read into; `queue_bytes` takes it back.
    pub fn take_capacity(&mut self) -> (room: BytesMut)
        ensures
            bytes_of(room) == Seq::<u8>::empty(),
            final(self).plain() == old(self).plain(),
            final(self).pending() == old(self).pending(),
            final(self).threshold() == old(self).threshold(),
            final(self).cipher() == old(self).cipher(),
    {
        let n: usize = buf_len(&self.buf);
        let room = buf_split_off(&mut self.buf, n);
        proof {
            let all = bytes_of(old(self).buf);
            assert(all.subrange(0, n as int) =~= all);
            assert(bytes_of(room) =~= Seq::<u8>::empty());
        }
        room
    }

    /// Takes in the bytes of `bytes` as received: as plaintext without a
    /// cipher, as bytes still to be decrypted with one.
    pub fn queue_bytes(&mut self, bytes: BytesMut)
        ensures
            final(self)@ == after_arrival(old(self)@, bytes_of(bytes)),
    {
        let ghost before = bytes_of(self.buf);
        let ghost cut = self.plain_len();
        if self.cipher.is_some() && self.decrypted > buf_len(&self.buf) {
            self.decrypted = buf_len(&self.buf);
        }
        buf_unsplit(&mut self.buf, bytes);
        proof {
            let after = bytes_of(self.buf);
            if old(self).cipher() is None {
                assert(after.subrange(0, after.len() as int) =~= before.subrange(
                    0,
                    before.len() as int,
                ) + bytes_of(bytes));
                assert(after.skip(after.len() as int) =~= before.skip(before.len() as int));
            } else {
                assert(after.subrange(0, cut) =~= before.subrange(0, cut));
                assert(after.skip(cut) =~= before.skip(cut) + bytes_of(bytes));
            }
        }
    }

    /// Takes in a copy of `bytes` as received: as plaintext without a cipher,
    /// as bytes still to be decrypted with one.
    pub fn queue_slice(&mut self, bytes: &[u8])
        ensures
            final(self)@ == after_arrival(old(self)@, bytes@),
    {
        self.queue_bytes(buf_from_slice(bytes));
    }

    /// Sets the threshold that later frames are read under.
    pub fn set_compression(&mut self, threshold: CompressionThreshold)
        ensures
            final(self).threshold() == threshold.0,
            final(self).plain() == old(self).plain(),
            final(self).pending() == old(self).pending(),
            final(self).cipher() == old(self).cipher(),
    {
        self.threshold = threshold;
    }

    /// Whether encryption has been switched on.
    pub fn is_encrypted(&self) -> (b: bool)
        ensures
            b == self.cipher().is_some(),
    {
        self.cipher.is_some()
    }

    /// Switches decryption on, with `key` as the key and as the first
    /// register. The bytes received so far stay as plaintext; what arrives
    /// from now on is decrypted. Encryption can be switched on once.
    pub fn enable_encryption(&mut self, key: &[u8; 16])
        requires
            old(self).cipher() is None,
        ensures
            final(self).cipher() == Some((key@, key@)),
            final(self).plain() == old(self).plain(),
            final(self).pending() == Seq::<u8>::empty(),
            final(self).threshold() == old(self).threshold(),
    {
        self.decrypted = buf_len(&self.buf);
        self.cipher = Some(CipherState::new(key));
        assert(self.pending() =~= Seq::<u8>::empty());
    }

    /// Decrypts what is still to be decrypted, then tries once to read a
    /// frame from the front of the plaintext: `None` while the frame is not
    /// whole. A frame that is handed out leaves the decoder; on an error the
    /// plaintext stays as it is.
    pub fn try_next_packet(&mut self) -> (res: Result<Option<PacketFrame>, DecodeError>)
        ensures
            final(self)@ == attempt(old(self)@).0,
            outcome_of(res) == attempt(old(self)@).1,
    {
        let ghost text = old(self).plain() + opened(old(self).cipher(), old(self).pending());
        let total: usize = buf_len(&self.buf);
        match self.cipher {
            Some(c) => {
                let mut c = c;
                let from: usize = if self.decrypted < total {
                    self.decrypted
                } else {
                    total
                };
                proof {
                    let all = bytes_of(self.buf);
                    crate::cipher::lemma_decrypted_len(c.key@, c.register@, all.skip(from as int));
                }
                decrypt_buffer(&mut c, &mut self.buf, from);
                self.cipher = Some(c);
                self.decrypted = total;
            },
            None => {},
        }
        assert(bytes_of(self.buf) =~= text);
        assert(self.plain() =~= text);
        assert(self.pending() =~= Seq::<u8>::empty());
        let parsed = parse_frame(self.threshold, buf_as_slice(&self.buf))?;
        match parsed {
            None => Ok(None),
            Some((frame, consumed)) => {
                let _ = buf_split_to(&mut self.buf, consumed);
                self.decrypted = buf_len(&self.buf);
                proof {
                    let rest = bytes_of(self.buf);
                    assert(rest =~= text.skip(consumed as int));
                    assert(self.plain() =~= rest);
                    assert(self.pending() =~= Seq::<u8>::empty());
                }
                Ok(Some(frame))
            },
        }
    }
}

impl PacketFrame {
    /// Reads the packet `P` from this frame: an error where the frame
    /// carries another id, otherwise what reading the body as `P` gives.
    pub fn decode<P: Packet + Decode>(&self) -> (res: Result<P, DecodeError>)
        ensures
            self.id != P::ID ==> res is Err && res->Err_0 == DecodeError::UnexpectedPacket,
            self.id == P::ID ==> match P::parse(bytes_of(self.body)) {
                Ok((v, n)) => res is Ok && res->Ok_0.deep_view() == v,
                Err(e) => res is Err && res->Err_0 == e,
            },
    {
        if self.id != P::ID {
            return Err(DecodeError::UnexpectedPacket);
        }
        let (pkt, _) = P::decode(buf_as_slice(&self.body))?;
        Ok(pkt)
    }
}

} // verus!
