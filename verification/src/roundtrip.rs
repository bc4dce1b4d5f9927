//! What holds of the encoder and the decoder taken together: a frame reads
//! back as the packet it was made of, a stream gives the same frames however
//! it is cut into pieces, and a cipher pair is the identity on a stream.

use crate::cipher::{
    lemma_decrypt_concat, lemma_decrypt_encrypt, lemma_encrypt_concat, lemma_encrypted_len,
};
use crate::compress::zlib_inflated;
use crate::decode::{
    after_arrival, attempt, cipher_after_opening, next_frame, opened, split_id, unpacked,
    DecoderView, FrameParse, Outcome,
};
use crate::encode::{cipher_after_sealing, framed, sealed};
use crate::varint::{
    lemma_parse_bounds, lemma_parse_extends, lemma_varint_round_trip, parse_nat, signed_of_nat,
    VarInt, VarIntParse,
};
use crate::{DecodeError, EncodeError, MAX_PACKET_SIZE};
use vstd::prelude::*;

verus! {

/// Whether `frame` reads back as the packet with this id and body, whatever
/// follows it in the stream.
pub open spec fn reads_back(threshold: int, frame: Seq<u8>, id: i32, body: Seq<u8>) -> bool {
    forall|rest: Seq<u8>| #[trigger]
        next_frame(threshold, frame + rest) == (FrameParse::Frame {
            id,
            body,
            consumed: frame.len(),
        })
}

/// A frame behind a length prefix: reading the prefix gives the length of
/// the payload, and the payload is what follows.
proof fn lemma_prefixed(payload: Seq<u8>, rest: Seq<u8>)
    requires
        payload.len() <= MAX_PACKET_SIZE,
    ensures
        ({
            let prefix = VarInt(payload.len() as i32).wire();
            let stream = prefix + payload + rest;
            &&& parse_nat(stream, 5) matches VarIntParse::Value(v, n)
            &&& n == prefix.len()
            &&& signed_of_nat(v) == payload.len()
            &&& stream.subrange(n as int, (n + payload.len()) as int) == payload
            &&& stream.len() >= n + payload.len()
        }),
{
    let len = payload.len() as i32;
    let prefix = VarInt(len).wire();
    let stream = prefix + payload + rest;
    lemma_varint_round_trip(len, payload + rest);
    crate::varint::lemma_signed_of_nat_of_signed(len);
    assert(stream =~= prefix + (payload + rest));
    assert(stream.subrange(prefix.len() as int, (prefix.len() + payload.len()) as int) =~= payload);
}

/// Encoding a packet into a frame and reading the frame gives the packet's
/// id and body back, under every compression threshold and whatever follows
/// the frame. Where the frame carries the packet compressed, this holds when
/// the compressed form inflates to the packet again.
pub proof fn lemma_frame_round_trip(
    threshold: int,
    id: i32,
    body: Seq<u8>,
    z: Option<Seq<u8>>,
    rest: Seq<u8>,
)
    requires
        framed(threshold, VarInt(id).wire() + body, z) is Ok,
        threshold >= 0 && (VarInt(id).wire() + body).len() > threshold ==> zlib_inflated(
            z->Some_0,
            ((VarInt(id).wire() + body).len() + 1) as u64,
        ) == Some(VarInt(id).wire() + body),
    ensures
        next_frame(threshold, framed(threshold, VarInt(id).wire() + body, z)->Ok_0 + rest) == (
        FrameParse::Frame {
            id,
            body,
            consumed: framed(threshold, VarInt(id).wire() + body, z)->Ok_0.len(),
        }),
{
    let data = VarInt(id).wire() + body;
    let frame = framed(threshold, data, z)->Ok_0;
    lemma_varint_round_trip(id, body);
    crate::varint::lemma_signed_of_nat_of_signed(id);
    assert(data.skip(VarInt(id).wire().len() as int) =~= body);
    assert(split_id(data) == Ok::<(i32, Seq<u8>), DecodeError>((id, body)));
    if threshold < 0 {
        lemma_prefixed(data, rest);
        assert(frame + rest =~= VarInt(data.len() as i32).wire() + data + rest);
    } else if data.len() > threshold {
        let z = z->Some_0;
        let marker = VarInt(data.len() as i32).wire();
        let payload = marker + z;
        lemma_varint_round_trip(data.len() as i32, z);
        crate::varint::lemma_signed_of_nat_of_signed(data.len() as i32);
        lemma_prefixed(payload, rest);
        assert(payload.skip(marker.len() as int) =~= z);
        assert(frame + rest =~= VarInt(payload.len() as i32).wire() + payload + rest);
        assert(frame =~= VarInt(payload.len() as i32).wire() + payload);
        assert(unpacked(threshold, payload) == Ok::<Seq<u8>, DecodeError>(data));
    } else {
        let marker = seq![0u8];
        let payload = marker + data;
        assert(VarInt(0).wire() =~= marker);
        lemma_varint_round_trip(0, data);
        lemma_prefixed(payload, rest);
        assert(payload.skip(1) =~= data);
        assert(frame + rest =~= VarInt(payload.len() as i32).wire() + payload + rest);
        assert(frame =~= VarInt(payload.len() as i32).wire() + payload);
        assert(unpacked(threshold, payload) == Ok::<Seq<u8>, DecodeError>(data));
    }
}

/// A frame takes at least one byte and no more bytes than there are.
pub proof fn lemma_frame_consumed(threshold: int, buf: Seq<u8>)
    ensures
        next_frame(threshold, buf) matches FrameParse::Frame { id, body, consumed } ==> 0 < consumed
            <= buf.len(),
{
    lemma_parse_bounds(buf, 5);
}

/// Once the front of a stream is a frame, or is known to be no frame, bytes
/// that arrive later change nothing about it.
pub proof fn lemma_next_frame_extends(threshold: int, buf: Seq<u8>, more: Seq<u8>)
    requires
        !(next_frame(threshold, buf) is NeedMore),
    ensures
        next_frame(threshold, buf + more) == next_frame(threshold, buf),
{
    lemma_parse_extends(buf, more, 5);
    lemma_parse_bounds(buf, 5);
    if let VarIntParse::Value(v, n) = parse_nat(buf, 5) {
        let len = signed_of_nat(v);
        if 0 <= len <= MAX_PACKET_SIZE {
            assert((buf + more).subrange(n as int, n + len) =~= buf.subrange(n as int, n + len));
        }
    }
}

/// The frames that a decoder hands out for the stream `s`, in order, until
/// the front of what is left is no whole frame.
pub open spec fn frames(threshold: int, s: Seq<u8>) -> Seq<(i32, Seq<u8>)>
    decreases s.len(),
{
    match next_frame(threshold, s) {
        FrameParse::Frame { id, body, consumed } => if 0 < consumed <= s.len() {
            seq![(id, body)] + frames(threshold, s.skip(consumed as int))
        } else {
            Seq::empty()
        },
        _ => Seq::empty(),
    }
}

/// The bytes that a decoder is left with after it has handed out the frames
/// of the stream `s`.
pub open spec fn leftover(threshold: int, s: Seq<u8>) -> Seq<u8>
    decreases s.len(),
{
    match next_frame(threshold, s) {
        FrameParse::Frame { id, body, consumed } => if 0 < consumed <= s.len() {
            leftover(threshold, s.skip(consumed as int))
        } else {
            s
        },
        _ => s,
    }
}

/// Feeding a stream in two pieces gives the frames of the whole stream: the
/// frames of the first piece, then the frames of what the first piece left
/// over followed by the second piece. The decoder is left with the same bytes
/// either way.
pub proof fn lemma_chunked_feed(threshold: int, a: Seq<u8>, b: Seq<u8>)
    ensures
        frames(threshold, a + b) == frames(threshold, a) + frames(
            threshold,
            leftover(threshold, a) + b,
        ),
        leftover(threshold, a + b) == leftover(threshold, leftover(threshold, a) + b),
    decreases a.len(),
{
    lemma_frame_consumed(threshold, a);
    match next_frame(threshold, a) {
        FrameParse::Frame { id, body, consumed } => {
            lemma_next_frame_extends(threshold, a, b);
            assert((a + b).skip(consumed as int) =~= a.skip(consumed as int) + b);
            lemma_chunked_feed(threshold, a.skip(consumed as int), b);
            assert(frames(threshold, a + b) =~= frames(threshold, a) + frames(
                threshold,
                leftover(threshold, a) + b,
            ));
        },
        _ => {
            assert(frames(threshold, a) + frames(threshold, a + b) =~= frames(threshold, a + b));
        },
    }
}

/// A frame that reads back as a packet is the first frame of every stream
/// that starts with it, and the frames of the rest of the stream follow: a
/// decoder hands out the packets that went into an encoder, in their order.
pub proof fn lemma_frames_of_stream(
    threshold: int,
    frame: Seq<u8>,
    id: i32,
    body: Seq<u8>,
    rest: Seq<u8>,
)
    requires
        reads_back(threshold, frame, id, body),
    ensures
        frames(threshold, frame + rest) == seq![(id, body)] + frames(threshold, rest),
        leftover(threshold, frame + rest) == leftover(threshold, rest),
{
    let stream = frame + rest;
    assert(next_frame(threshold, stream) == (FrameParse::Frame {
        id,
        body,
        consumed: frame.len(),
    }));
    lemma_frame_consumed(threshold, stream);
    assert(stream.skip(frame.len() as int) =~= rest);
}

/// A frame alone gives exactly one packet, and nothing is left over.
pub proof fn lemma_single_frame(threshold: int, frame: Seq<u8>, id: i32, body: Seq<u8>)
    requires
        reads_back(threshold, frame, id, body),
    ensures
        frames(threshold, frame) == seq![(id, body)],
        leftover(threshold, frame) == Seq::<u8>::empty(),
{
    let none = Seq::<u8>::empty();
    lemma_frames_of_stream(threshold, frame, id, body, none);
    assert(frame + none =~= frame);
    assert(frames(threshold, none) =~= Seq::<(i32, Seq<u8>)>::empty());
    assert(seq![(id, body)] + frames(threshold, none) =~= seq![(id, body)]);
}

/// What an encoder commits starts with a length prefix that counts exactly
/// the bytes behind it, and those are no more than `MAX_PACKET_SIZE`.
pub proof fn lemma_frame_is_length_prefixed(threshold: int, data: Seq<u8>, z: Option<Seq<u8>>)
    requires
        framed(threshold, data, z) is Ok,
    ensures
        ({
            let frame = framed(threshold, data, z)->Ok_0;
            &&& parse_nat(frame, 5) matches VarIntParse::Value(v, n)
            &&& 0 <= signed_of_nat(v) <= MAX_PACKET_SIZE
            &&& frame.len() == n + signed_of_nat(v)
        }),
{
    let frame = framed(threshold, data, z)->Ok_0;
    let none = Seq::<u8>::empty();
    if threshold < 0 {
        lemma_prefixed(data, none);
        assert(frame =~= VarInt(data.len() as i32).wire() + data + none);
    } else if data.len() > threshold {
        let marker = VarInt(data.len() as i32).wire();
        let payload = marker + z->Some_0;
        lemma_varint_round_trip(data.len() as i32, z->Some_0);
        lemma_prefixed(payload, none);
        assert(frame =~= VarInt(payload.len() as i32).wire() + payload + none);
    } else {
        let payload = seq![0u8] + data;
        lemma_prefixed(payload, none);
        assert(frame =~= VarInt(payload.len() as i32).wire() + payload + none);
    }
}

/// Data that is too long for a frame is refused by the encoder, under every
/// threshold that stores it as it is.
pub proof fn lemma_oversize_is_not_framed(threshold: int, data: Seq<u8>, z: Option<Seq<u8>>)
    requires
        data.len() > MAX_PACKET_SIZE,
        threshold < 0 || data.len() <= threshold,
    ensures
        framed(threshold, data, z) == Err::<Seq<u8>, EncodeError>(
            EncodeError::PacketTooLarge,
        ),
{
}

/// A compressed form that is too long for a frame is refused by the encoder.
pub proof fn lemma_oversize_is_not_deflated(threshold: int, data: Seq<u8>, z: Seq<u8>)
    requires
        0 <= threshold < data.len(),
        z.len() >= MAX_PACKET_SIZE,
    ensures
        framed(threshold, data, Some(z)) == Err::<Seq<u8>, EncodeError>(
            EncodeError::PacketTooLarge,
        ),
{
    if data.len() <= i32::MAX {
        lemma_varint_round_trip(data.len() as i32, z);
    }
}

/// A stream whose length prefix is negative or over `MAX_PACKET_SIZE` is
/// refused by the decoder, whatever follows the prefix.
pub proof fn lemma_oversize_is_not_read(threshold: int, len: i32, rest: Seq<u8>)
    requires
        len < 0 || len > MAX_PACKET_SIZE,
    ensures
        next_frame(threshold, VarInt(len).wire() + rest) == FrameParse::Malformed(
            DecodeError::PacketTooLarge,
        ),
{
    lemma_varint_round_trip(len, rest);
    crate::varint::lemma_signed_of_nat_of_signed(len);
}

/// A decoder whose cipher is where the encoder's cipher was gives back the
/// bytes that the encoder was handed, and the two ciphers are again at the
/// same place afterwards. Without a cipher on either side the bytes pass as
/// they are.
pub proof fn lemma_sealed_opened(cipher: Option<(Seq<u8>, Seq<u8>)>, data: Seq<u8>)
    ensures
        opened(cipher, sealed(cipher, data)) == data,
        cipher_after_opening(cipher, sealed(cipher, data)) == cipher_after_sealing(cipher, data),
        sealed(cipher, data).len() == data.len(),
{
    if let Some((key, register)) = cipher {
        lemma_decrypt_encrypt(key, register, data);
        lemma_encrypted_len(key, register, data);
    }
}

/// What leaves an encoder in two pieces is what would leave it in one: the
/// cipher goes on where the first piece left it.
pub proof fn lemma_sealed_in_pieces(cipher: Option<(Seq<u8>, Seq<u8>)>, a: Seq<u8>, b: Seq<u8>)
    ensures
        sealed(cipher, a + b) == sealed(cipher, a) + sealed(cipher_after_sealing(cipher, a), b),
        cipher_after_sealing(cipher, a + b) == cipher_after_sealing(
            cipher_after_sealing(cipher, a),
            b,
        ),
{
    if let Some((key, register)) = cipher {
        lemma_encrypt_concat(key, register, a, b);
    }
}

/// What reaches a decoder in two pieces opens to what it would open to in
/// one: the cipher goes on where the first piece left it.
pub proof fn lemma_opened_in_pieces(cipher: Option<(Seq<u8>, Seq<u8>)>, a: Seq<u8>, b: Seq<u8>)
    ensures
        opened(cipher, a + b) == opened(cipher, a) + opened(cipher_after_opening(cipher, a), b),
        cipher_after_opening(cipher, a + b) == cipher_after_opening(
            cipher_after_opening(cipher, a),
            b,
        ),
{
    if let Some((key, register)) = cipher {
        lemma_decrypt_concat(key, register, a, b);
    }
}

/// Runs of bytes one after the other.
pub open spec fn joined(parts: Seq<Seq<u8>>) -> Seq<u8>
    decreases parts.len(),
{
    if parts.len() == 0 {
        Seq::empty()
    } else {
        parts[0] + joined(parts.skip(1))
    }
}

/// What leaves an encoder that hands out `parts` one at a time: each part
/// sealed by the cipher as the part before it left the cipher.
pub open spec fn sealed_each(cipher: Option<(Seq<u8>, Seq<u8>)>, parts: Seq<Seq<u8>>) -> Seq<
    Seq<u8>,
>
    decreases parts.len(),
{
    if parts.len() == 0 {
        Seq::empty()
    } else {
        seq![sealed(cipher, parts[0])] + sealed_each(
            cipher_after_sealing(cipher, parts[0]),
            parts.skip(1),
        )
    }
}

/// What an encoder hands out one part at a time is, taken together, what it
/// would hand out for the parts taken together.
pub proof fn lemma_sealed_each_joined(cipher: Option<(Seq<u8>, Seq<u8>)>, parts: Seq<Seq<u8>>)
    ensures
        joined(sealed_each(cipher, parts)) == sealed(cipher, joined(parts)),
    decreases parts.len(),
{
    if parts.len() == 0 {
        lemma_sealed_opened(cipher, Seq::empty());
        assert(sealed(cipher, Seq::empty()) =~= Seq::<u8>::empty());
    } else {
        let next = cipher_after_sealing(cipher, parts[0]);
        let each = sealed_each(cipher, parts);
        lemma_sealed_each_joined(next, parts.skip(1));
        lemma_sealed_in_pieces(cipher, parts[0], joined(parts.skip(1)));
        assert(each[0] == sealed(cipher, parts[0]));
        assert(each.skip(1) =~= sealed_each(next, parts.skip(1)));
    }
}

/// The outcomes of `n` attempts in a row to read a frame, and the decoder
/// after them.
pub open spec fn attempts(d: DecoderView, n: nat) -> (DecoderView, Seq<Outcome>)
    decreases n,
{
    if n == 0 {
        (d, Seq::empty())
    } else {
        let first = attempt(d);
        let more = attempts(first.0, (n - 1) as nat);
        (more.0, seq![first.1] + more.1)
    }
}

/// The outcomes that hand out these packets, one after the other.
pub open spec fn handed_out(packets: Seq<(i32, Seq<u8>)>) -> Seq<Outcome> {
    Seq::new(packets.len(), |i: int| Ok(Some(packets[i])))
}

/// What stops a decoder that holds the plaintext `left` and no whole frame
/// at its front: the wait for more bytes, or the error.
pub open spec fn stop(threshold: int, left: Seq<u8>) -> Outcome {
    match next_frame(threshold, left) {
        FrameParse::Malformed(e) => Err(e),
        _ => Ok(None),
    }
}

/// A decoder whose plaintext starts with the frames of some packets hands
/// the packets out in their order, one at each attempt, and is left with
/// what follows the frames.
pub proof fn lemma_attempts_hand_out(
    d: DecoderView,
    fs: Seq<Seq<u8>>,
    packets: Seq<(i32, Seq<u8>)>,
    rest: Seq<u8>,
)
    requires
        fs.len() == packets.len(),
        forall|i: int|
            0 <= i < fs.len() ==> reads_back(
                d.threshold,
                #[trigger] fs[i],
                packets[i].0,
                packets[i].1,
            ),
        d.text() == joined(fs) + rest,
    ensures
        attempts(d, packets.len()).1 == handed_out(packets),
        attempts(d, packets.len()).0.text() == rest,
        attempts(d, packets.len()).0.threshold == d.threshold,
    decreases fs.len(),
{
    if fs.len() == 0 {
        assert(joined(fs) + rest =~= rest);
        assert(handed_out(packets) =~= Seq::<Outcome>::empty());
    } else {
        let after = joined(fs.skip(1)) + rest;
        assert(joined(fs) + rest =~= fs[0] + after);
        assert(reads_back(d.threshold, fs[0], packets[0].0, packets[0].1));
        assert(next_frame(d.threshold, fs[0] + after) == (FrameParse::Frame {
            id: packets[0].0,
            body: packets[0].1,
            consumed: fs[0].len(),
        }));
        let d1 = attempt(d).0;
        assert((fs[0] + after).skip(fs[0].len() as int) =~= after);
        lemma_nothing_pending(d1);
        assert forall|i: int| 0 <= i < fs.skip(1).len() implies reads_back(
            d1.threshold,
            #[trigger] fs.skip(1)[i],
            packets.skip(1)[i].0,
            packets.skip(1)[i].1,
        ) by {
            assert(fs.skip(1)[i] == fs[i + 1]);
        }
        lemma_attempts_hand_out(d1, fs.skip(1), packets.skip(1), rest);
        assert(seq![attempt(d).1] + handed_out(packets.skip(1)) =~= handed_out(packets));
    }
}

/// With nothing left to decrypt, all that a decoder holds is its plaintext,
/// and an attempt leaves its cipher where it is.
pub proof fn lemma_nothing_pending(d: DecoderView)
    requires
        d.pending == Seq::<u8>::empty(),
    ensures
        d.text() == d.plain,
        cipher_after_opening(d.cipher, d.pending) == d.cipher,
{
    assert(d.plain + opened(d.cipher, d.pending) =~= d.plain);
}

/// A cipher pair is the identity over a sequence of packets: a decoder that
/// has received, still encrypted, what an encoder handed out for the frames
/// of some packets one frame at a time, and whose cipher is where the
/// encoder's cipher was before the first of them, hands the packets out in
/// their order, one at each attempt, and then waits for more bytes. Without
/// a cipher on either side the same holds of the frames as they are.
pub proof fn lemma_cipher_pair_hands_out(
    d: DecoderView,
    fs: Seq<Seq<u8>>,
    packets: Seq<(i32, Seq<u8>)>,
)
    requires
        fs.len() == packets.len(),
        forall|i: int|
            0 <= i < fs.len() ==> reads_back(
                d.threshold,
                #[trigger] fs[i],
                packets[i].0,
                packets[i].1,
            ),
        d.plain == Seq::<u8>::empty(),
        d.pending == joined(sealed_each(d.cipher, fs)),
    ensures
        attempts(d, packets.len()).1 == handed_out(packets),
        attempt(attempts(d, packets.len()).0).1 == Ok::<Option<(i32, Seq<u8>)>, DecodeError>(
            None,
        ),
{
    let stream = joined(fs);
    let none = Seq::<u8>::empty();
    lemma_sealed_each_joined(d.cipher, fs);
    lemma_sealed_opened(d.cipher, stream);
    assert(d.plain + opened(d.cipher, d.pending) =~= stream + none);
    lemma_attempts_hand_out(d, fs, packets, none);
    reveal_with_fuel(crate::varint::parse_nat, 1);
    assert(next_frame(d.threshold, none) is NeedMore);
}

/// The decoder after it has handed out every whole frame and made the
/// attempt that stops it.
pub open spec fn drained(d: DecoderView) -> DecoderView {
    attempts(d, frames(d.threshold, d.text()).len() + 1).0
}

/// A decoder hands out the frames of what it holds, one at each attempt, up
/// to the attempt that stops it; it is then left with what the frames leave
/// over, all of it plaintext.
pub proof fn lemma_drain(d: DecoderView)
    ensures
        attempts(d, frames(d.threshold, d.text()).len() + 1).1 == handed_out(
            frames(d.threshold, d.text()),
        ).push(stop(d.threshold, leftover(d.threshold, d.text()))),
        drained(d) == (DecoderView {
            plain: leftover(d.threshold, d.text()),
            pending: Seq::empty(),
            threshold: d.threshold,
            cipher: cipher_after_opening(d.cipher, d.pending),
        }),
    decreases d.text().len(),
{
    let text = d.text();
    let t = d.threshold;
    let k = frames(t, text).len();
    lemma_frame_consumed(t, text);
    let first = attempt(d);
    lemma_nothing_pending(first.0);
    match next_frame(t, text) {
        FrameParse::Frame { id, body, consumed } => {
            let d1 = first.0;
            let left = frames(t, text.skip(consumed as int));
            assert(frames(t, text) =~= seq![(id, body)] + left);
            lemma_drain(d1);
            assert(attempts(d, k + 1).1 =~= seq![first.1] + attempts(d1, left.len() + 1).1);
            assert(seq![first.1] + handed_out(left).push(
                stop(t, leftover(t, text.skip(consumed as int))),
            ) =~= handed_out(frames(t, text)).push(stop(t, leftover(t, text))));
        },
        _ => {
            assert(frames(t, text) =~= Seq::<(i32, Seq<u8>)>::empty());
            assert(attempts(first.0, 0).1 =~= Seq::<Outcome>::empty());
            assert(seq![first.1] + Seq::<Outcome>::empty() =~= handed_out(frames(t, text)).push(
                stop(t, leftover(t, text)),
            ));
        },
    }
}

/// A run of a receiver: for each piece of the stream in turn the piece
/// arrives and the decoder is drained. The decoder at the end, and the
/// frames handed out on the way, in their order.
pub open spec fn run(d: DecoderView, pieces: Seq<Seq<u8>>) -> (DecoderView, Seq<(i32, Seq<u8>)>)
    decreases pieces.len(),
{
    if pieces.len() == 0 {
        (d, Seq::empty())
    } else {
        let arrived = after_arrival(d, pieces[0]);
        let more = run(drained(arrived), pieces.skip(1));
        (more.0, frames(arrived.threshold, arrived.text()) + more.1)
    }
}

/// However a stream is cut into pieces, a receiver hands out the frames
/// that it hands out when the stream arrives in one piece, in the same
/// order, and is left as it is left then: with the same bytes, the same
/// cipher, and so the same wait or the same error at its next attempt.
pub proof fn lemma_run_in_pieces(d: DecoderView, pieces: Seq<Seq<u8>>)
    requires
        d.pending == Seq::<u8>::empty(),
        pieces.len() > 0,
    ensures
        run(d, pieces) == run(d, seq![joined(pieces)]),
    decreases pieces.len(),
{
    let t = d.threshold;
    let whole = joined(pieces);
    let none = Seq::<(i32, Seq<u8>)>::empty();
    lemma_nothing_pending(d);
    // The stream in one piece.
    let one = after_arrival(d, whole);
    lemma_drain(one);
    lemma_arrival(d, whole);
    assert(seq![whole].skip(1) =~= Seq::<Seq<u8>>::empty());
    assert(run(drained(one), seq![whole].skip(1)) == (drained(one), none));
    assert(frames(t, one.text()) + none =~= frames(t, one.text()));
    // The first piece of many.
    let first = after_arrival(d, pieces[0]);
    lemma_drain(first);
    lemma_arrival(d, pieces[0]);
    let d1 = drained(first);
    if pieces.len() == 1 {
        assert(pieces.skip(1) =~= Seq::<Seq<u8>>::empty());
        assert(joined(pieces.skip(1)) =~= Seq::<u8>::empty());
        assert(whole =~= pieces[0]);
    } else {
        let rest = joined(pieces.skip(1));
        let c1 = cipher_after_opening(d.cipher, pieces[0]);
        lemma_run_in_pieces(d1, pieces.skip(1));
        let two = after_arrival(d1, rest);
        lemma_drain(two);
        lemma_arrival(d1, rest);
        lemma_nothing_pending(d1);
        assert(seq![rest].skip(1) =~= Seq::<Seq<u8>>::empty());
        assert(run(drained(two), seq![rest].skip(1)) == (drained(two), none));
        assert(frames(t, two.text()) + none =~= frames(t, two.text()));
        lemma_opened_in_pieces(d.cipher, pieces[0], rest);
        let b = opened(c1, rest);
        assert(one.text() =~= first.text() + b);
        assert(two.text() =~= leftover(t, first.text()) + b);
        lemma_chunked_feed(t, first.text(), b);
    }
}

/// What a decoder with nothing left to decrypt holds after `bytes` arrived:
/// its plaintext and then the plaintext of the bytes; and where its cipher
/// stands once they are decrypted.
pub proof fn lemma_arrival(d: DecoderView, bytes: Seq<u8>)
    requires
        d.pending == Seq::<u8>::empty(),
    ensures
        after_arrival(d, bytes).text() == d.plain + opened(d.cipher, bytes),
        cipher_after_opening(d.cipher, after_arrival(d, bytes).pending) == cipher_after_opening(
            d.cipher,
            bytes,
        ),
        after_arrival(d, bytes).threshold == d.threshold,
{
    let a = after_arrival(d, bytes);
    if d.cipher is None {
        assert(a.pending =~= Seq::<u8>::empty());
        assert(a.text() =~= d.plain + bytes);
    } else {
        assert(a.pending =~= bytes);
        assert(a.plain =~= d.plain);
    }
}

} // verus!
