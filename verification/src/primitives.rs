//! Wire forms of the values that packets are made of: fixed-width integers
//! in big-endian order, booleans, `VarInt`s, strings and byte sequences with
//! a length in front, optional values, addresses.

use crate::decode::{read_varint, whole_varint};
use crate::varint::VarInt;
use crate::varint::lemma_varint_round_trip;
use crate::{chain, Decode, DecodeError, Encode, EncodeError, Parsed, RoundTrip};
use vstd::prelude::*;
use vstd::slice::slice_subrange;
use vstd::std_specs::iter::IteratorSpec;
use vstd::utf8::{
    decode_utf8, encode_utf8, encode_utf8_decode_utf8, encode_utf8_valid_utf8, valid_utf8,
};

verus! {

/// `256` to the power `w`.
pub open spec fn pow256(w: nat) -> nat
    decreases w,
{
    if w == 0 {
        1
    } else {
        256 * pow256((w - 1) as nat)
    }
}

/// The `w` low-order bytes of `v`, most significant first.
pub open spec fn be_bytes(v: nat, w: nat) -> Seq<u8>
    decreases w,
{
    if w == 0 {
        Seq::empty()
    } else {
        be_bytes(v / 256, (w - 1) as nat).push((v % 256) as u8)
    }
}

/// The number that `bytes` spell, most significant first.
pub open spec fn be_value(bytes: Seq<u8>) -> nat
    decreases bytes.len(),
{
    if bytes.len() == 0 {
        0
    } else {
        be_value(bytes.drop_last()) * 256 + bytes.last() as nat
    }
}

/// Powers of 256 grow, and the sixteenth is the first number that a `u128`
/// cannot hold.
pub proof fn lemma_pow256(w: nat)
    ensures
        pow256(w) >= 1,
        w <= 16 ==> pow256(w) <= 0x1_0000_0000_0000_0000_0000_0000_0000_0000,
        pow256(1) == 0x100,
        pow256(2) == 0x1_0000,
        pow256(4) == 0x1_0000_0000,
        pow256(8) == 0x1_0000_0000_0000_0000,
        pow256(16) == 0x1_0000_0000_0000_0000_0000_0000_0000_0000,
    decreases w,
{
    reveal_with_fuel(pow256, 17);
    if w > 0 {
        lemma_pow256((w - 1) as nat);
    }
}

/// Big-endian bytes are as many as asked for.
pub proof fn lemma_be_bytes_len(v: nat, w: nat)
    ensures
        be_bytes(v, w).len() == w,
    decreases w,
{
    if w > 0 {
        lemma_be_bytes_len(v / 256, (w - 1) as nat);
    }
}

/// The bytes of a number that fits them spell the number.
pub proof fn lemma_be_round_trip(v: nat, w: nat)
    requires
        v < pow256(w),
    ensures
        be_value(be_bytes(v, w)) == v,
    decreases w,
{
    if w > 0 {
        let b = be_bytes(v, w);
        lemma_be_round_trip(v / 256, (w - 1) as nat);
        assert(b.drop_last() =~= be_bytes(v / 256, (w - 1) as nat));
        assert(b.last() == (v % 256) as u8);
    }
}

/// Reading the bytes of a number that fits them gives the number back,
/// whatever follows them.
pub proof fn lemma_parse_be_round_trip(v: nat, w: nat, rest: Seq<u8>)
    requires
        v < pow256(w),
    ensures
        parse_be(be_bytes(v, w) + rest, w) == Ok::<(nat, nat), DecodeError>((v, w)),
{
    lemma_be_bytes_len(v, w);
    lemma_be_round_trip(v, w);
    assert((be_bytes(v, w) + rest).subrange(0, w as int) =~= be_bytes(v, w));
}

/// The bytes of `r` from `pos` on.
pub(crate) fn tail(r: &[u8], pos: usize) -> (t: &[u8])
    requires
        pos <= r@.len(),
    ensures
        t@ == r@.skip(pos as int),
        t@.len() == r@.len() - pos,
        r@.len() <= usize::MAX,
{
    let t = slice_subrange(r, pos, r.len());
    assert(t@ =~= r@.skip(pos as int));
    t
}

/// Appends the `width` low-order bytes of `v` to `w`, most significant
/// first.
fn put_be(w: &mut Vec<u8>, v: u128, width: usize)
    requires
        width <= 16,
    ensures
        final(w)@ == old(w)@ + be_bytes(v as nat, width as nat),
    decreases width,
{
    if width == 0 {
        assert(w@ =~= w@ + be_bytes(v as nat, 0));
    } else {
        let ghost before = w@;
        put_be(w, v / 256, width - 1);
        w.push((v % 256) as u8);
        assert(w@ =~= before + be_bytes(v as nat, width as nat));
    }
}

/// The number that the first `width` bytes of `r` spell.
fn get_be(r: &[u8], width: usize) -> (v: u128)
    requires
        width <= 16,
        width <= r@.len(),
    ensures
        v == be_value(r@.subrange(0, width as int)),
        v < pow256(width as nat),
{
    let mut acc: u128 = 0;
    let mut i: usize = 0;
    while i < width
        invariant
            i <= width <= 16,
            width <= r@.len(),
            acc == be_value(r@.subrange(0, i as int)),
            acc < pow256(i as nat),
        decreases width - i,
    {
        proof {
            lemma_pow256((i + 1) as nat);
            let next = r@.subrange(0, i + 1);
            assert(next.drop_last() =~= r@.subrange(0, i as int));
            assert(next.last() == r@[i as int]);
        }
        acc = acc * 256 + r[i] as u128;
        i = i + 1;
    }
    acc
}

/// The two's complement bit pattern of `v` as an unsigned number.
pub open spec fn unsigned64(v: i64) -> nat {
    if v >= 0 {
        v as nat
    } else {
        (v + 0x1_0000_0000_0000_0000) as nat
    }
}

/// The signed number with the two's complement bit pattern `u`.
pub open spec fn signed64(u: nat) -> i64 {
    if u < 0x8000_0000_0000_0000 {
        u as i64
    } else {
        (u - 0x1_0000_0000_0000_0000) as i64
    }
}

/// A number of `w` bytes at the front of `bytes`.
pub open spec fn parse_be(bytes: Seq<u8>, w: nat) -> Parsed<nat> {
    if bytes.len() < w {
        Err(DecodeError::UnexpectedEnd)
    } else {
        Ok((be_value(bytes.subrange(0, w as int)), w))
    }
}

impl Encode for u8 {
    open spec fn wire(&self) -> Result<Seq<u8>, EncodeError> {
        Ok(seq![*self])
    }

    fn encode(&self, w: &mut Vec<u8>) -> (res: Result<(), EncodeError>) {
        w.push(*self);
        Ok(())
    }
}

impl Decode for u8 {
    open spec fn parse(bytes: Seq<u8>) -> Parsed<u8> {
        if bytes.len() < 1 {
            Err(DecodeError::UnexpectedEnd)
        } else {
            Ok((bytes[0], 1))
        }
    }

    fn decode(r: &[u8]) -> (res: Result<(Self, usize), DecodeError>) {
        if r.len() < 1 {
            Err(DecodeError::UnexpectedEnd)
        } else {
            Ok((r[0], 1))
        }
    }
}

impl RoundTrip for u8 {
    proof fn lemma_round_trip(&self, rest: Seq<u8>) {
        assert((seq![*self] + rest)[0] == *self);
    }
}

impl Encode for u16 {
    open spec fn wire(&self) -> Result<Seq<u8>, EncodeError> {
        Ok(be_bytes(*self as nat, 2))
    }

    fn encode(&self, w: &mut Vec<u8>) -> (res: Result<(), EncodeError>) {
        put_be(w, *self as u128, 2);
        Ok(())
    }
}

impl Decode for u16 {
    open spec fn parse(bytes: Seq<u8>) -> Parsed<u16> {
        match parse_be(bytes, 2) {
            Ok((v, n)) => Ok((v as u16, n)),
            Err(e) => Err(e),
        }
    }

    fn decode(r: &[u8]) -> (res: Result<(Self, usize), DecodeError>) {
        if r.len() < 2 {
            return Err(DecodeError::UnexpectedEnd);
        }
        proof {
            lemma_pow256(2);
        }
        Ok((get_be(r, 2) as u16, 2))
    }
}

impl RoundTrip for u16 {
    proof fn lemma_round_trip(&self, rest: Seq<u8>) {
        lemma_pow256(2);
        lemma_be_bytes_len(*self as nat, 2);
        lemma_parse_be_round_trip(*self as nat, 2, rest);
    }
}

impl Encode for u32 {
    open spec fn wire(&self) -> Result<Seq<u8>, EncodeError> {
        Ok(be_bytes(*self as nat, 4))
    }

    fn encode(&self, w: &mut Vec<u8>) -> (res: Result<(), EncodeError>) {
        put_be(w, *self as u128, 4);
        Ok(())
    }
}

impl Decode for u32 {
    open spec fn parse(bytes: Seq<u8>) -> Parsed<u32> {
        match parse_be(bytes, 4) {
            Ok((v, n)) => Ok((v as u32, n)),
            Err(e) => Err(e),
        }
    }

    fn decode(r: &[u8]) -> (res: Result<(Self, usize), DecodeError>) {
        if r.len() < 4 {
            return Err(DecodeError::UnexpectedEnd);
        }
        proof {
            lemma_pow256(4);
        }
        Ok((get_be(r, 4) as u32, 4))
    }
}

impl RoundTrip for u32 {
    proof fn lemma_round_trip(&self, rest: Seq<u8>) {
        lemma_pow256(4);
        lemma_be_bytes_len(*self as nat, 4);
        lemma_parse_be_round_trip(*self as nat, 4, rest);
    }
}

impl Encode for i64 {
    open spec fn wire(&self) -> Result<Seq<u8>, EncodeError> {
        Ok(be_bytes(unsigned64(*self), 8))
    }

    fn encode(&self, w: &mut Vec<u8>) -> (res: Result<(), EncodeError>) {
        let u: u128 = if *self >= 0 {
            *self as u128
        } else {
            (*self as i128 + 0x1_0000_0000_0000_0000) as u128
        };
        put_be(w, u, 8);
        Ok(())
    }
}

impl Decode for i64 {
    open spec fn parse(bytes: Seq<u8>) -> Parsed<i64> {
        match parse_be(bytes, 8) {
            Ok((v, n)) => Ok((signed64(v), n)),
            Err(e) => Err(e),
        }
    }

    fn decode(r: &[u8]) -> (res: Result<(Self, usize), DecodeError>) {
        if r.len() < 8 {
            return Err(DecodeError::UnexpectedEnd);
        }
        proof {
            lemma_pow256(8);
        }
        let u: u128 = get_be(r, 8);
        let v: i64 = if u < 0x8000_0000_0000_0000 {
            u as i64
        } else {
            (u as i128 - 0x1_0000_0000_0000_0000) as i64
        };
        Ok((v, 8))
    }
}

impl RoundTrip for i64 {
    proof fn lemma_round_trip(&self, rest: Seq<u8>) {
        lemma_pow256(8);
        lemma_be_bytes_len(unsigned64(*self), 8);
        lemma_parse_be_round_trip(unsigned64(*self), 8, rest);
    }
}

impl Encode for u128 {
    open spec fn wire(&self) -> Result<Seq<u8>, EncodeError> {
        Ok(be_bytes(*self as nat, 16))
    }

    fn encode(&self, w: &mut Vec<u8>) -> (res: Result<(), EncodeError>) {
        put_be(w, *self, 16);
        Ok(())
    }
}

impl Decode for u128 {
    open spec fn parse(bytes: Seq<u8>) -> Parsed<u128> {
        match parse_be(bytes, 16) {
            Ok((v, n)) => Ok((v as u128, n)),
            Err(e) => Err(e),
        }
    }

    fn decode(r: &[u8]) -> (res: Result<(Self, usize), DecodeError>) {
        if r.len() < 16 {
            return Err(DecodeError::UnexpectedEnd);
        }
        Ok((get_be(r, 16), 16))
    }
}

impl RoundTrip for u128 {
    proof fn lemma_round_trip(&self, rest: Seq<u8>) {
        lemma_pow256(16);
        lemma_be_bytes_len(*self as nat, 16);
        lemma_parse_be_round_trip(*self as nat, 16, rest);
    }
}

impl Encode for bool {
    open spec fn wire(&self) -> Result<Seq<u8>, EncodeError> {
        Ok(
            seq![if *self {
                1u8
            } else {
                0u8
            }],
        )
    }

    fn encode(&self, w: &mut Vec<u8>) -> (res: Result<(), EncodeError>) {
        w.push(if *self {
            1
        } else {
            0
        });
        Ok(())
    }
}

impl Decode for bool {
    open spec fn parse(bytes: Seq<u8>) -> Parsed<bool> {
        if bytes.len() < 1 {
            Err(DecodeError::UnexpectedEnd)
        } else if bytes[0] > 1 {
            Err(DecodeError::InvalidBool)
        } else {
            Ok((bytes[0] == 1, 1))
        }
    }

    fn decode(r: &[u8]) -> (res: Result<(Self, usize), DecodeError>) {
        if r.len() < 1 {
            Err(DecodeError::UnexpectedEnd)
        } else if r[0] > 1 {
            Err(DecodeError::InvalidBool)
        } else {
            Ok((r[0] == 1, 1))
        }
    }
}

impl RoundTrip for bool {
    proof fn lemma_round_trip(&self, rest: Seq<u8>) {
        let b = if *self {
            1u8
        } else {
            0u8
        };
        assert((seq![b] + rest)[0] == b);
    }
}

impl DeepView for VarInt {
    type V = i32;

    open spec fn deep_view(&self) -> i32 {
        self.0
    }
}

impl Encode for VarInt {
    open spec fn wire(&self) -> Result<Seq<u8>, EncodeError> {
        Ok(VarInt::wire(*self))
    }

    fn encode(&self, w: &mut Vec<u8>) -> (res: Result<(), EncodeError>) {
        VarInt::encode(self, w);
        Ok(())
    }
}

impl Decode for VarInt {
    open spec fn parse(bytes: Seq<u8>) -> Parsed<i32> {
        whole_varint(bytes)
    }

    fn decode(r: &[u8]) -> (res: Result<(Self, usize), DecodeError>) {
        let (v, n) = read_varint(r)?;
        Ok((VarInt(v), n))
    }
}

impl RoundTrip for VarInt {
    proof fn lemma_round_trip(&self, rest: Seq<u8>) {
        lemma_varint_round_trip(self.0, rest);
        crate::varint::lemma_signed_of_nat_of_signed(self.0);
    }
}

/// The wire form of a run of bytes: its length as a `VarInt`, then the
/// bytes. A run whose length does not fit the prefix has none.
pub open spec fn prefixed(bytes: Seq<u8>) -> Result<Seq<u8>, EncodeError> {
    if bytes.len() > i32::MAX {
        Err(EncodeError::LengthOverflow)
    } else {
        Ok(VarInt(bytes.len() as i32).wire() + bytes)
    }
}

/// A run of bytes with its length in front, at the front of `bytes`: the run,
/// and the number of bytes that prefix and run take.
pub open spec fn parse_prefixed(bytes: Seq<u8>) -> Parsed<Seq<u8>> {
    match whole_varint(bytes) {
        Err(e) => Err(e),
        Ok((len, k)) => if len < 0 {
            Err(DecodeError::NegativeLength)
        } else if bytes.len() < k + len {
            Err(DecodeError::UnexpectedEnd)
        } else {
            Ok((bytes.subrange(k as int, k + len), (k + len) as nat))
        },
    }
}

/// Reading a run of bytes behind its length gives the run back, whatever
/// follows it.
pub proof fn lemma_prefixed_round_trip(run: Seq<u8>, rest: Seq<u8>)
    requires
        prefixed(run) is Ok,
    ensures
        parse_prefixed(prefixed(run)->Ok_0 + rest) == Ok::<(Seq<u8>, nat), DecodeError>(
            (run, prefixed(run)->Ok_0.len()),
        ),
{
    let len = run.len() as i32;
    let prefix = VarInt(len).wire();
    lemma_varint_round_trip(len, run + rest);
    crate::varint::lemma_signed_of_nat_of_signed(len);
    assert(prefix + run + rest =~= prefix + (run + rest));
    assert((prefix + run + rest).subrange(
        prefix.len() as int,
        (prefix.len() + run.len()) as int,
    ) =~= run);
}

/// Appends `bytes` with their length in front.
fn put_prefixed(w: &mut Vec<u8>, bytes: &[u8]) -> (res: Result<(), EncodeError>)
    ensures
        match prefixed(bytes@) {
            Ok(out) => res is Ok && final(w)@ == old(w)@ + out,
            Err(e) => res == Err::<(), EncodeError>(e) && final(w)@ == old(w)@,
        },
{
    if bytes.len() > i32::MAX as usize {
        return Err(EncodeError::LengthOverflow);
    }
    let ghost before = w@;
    VarInt(bytes.len() as i32).encode(w);
    w.extend_from_slice(bytes);
    assert(w@ =~= before + (VarInt(bytes@.len() as i32).wire() + bytes@));
    Ok(())
}

/// Reads a run of bytes with its length in front: where the run starts and
/// where it ends in `r`.
fn get_prefixed(r: &[u8]) -> (res: Result<(usize, usize), DecodeError>)
    ensures
        match parse_prefixed(r@) {
            Ok((run, n)) => res is Ok && res->Ok_0.1 == n && n <= r@.len() && res->Ok_0.0 <= n
                && run == r@.subrange(res->Ok_0.0 as int, n as int),
            Err(e) => res == Err::<(usize, usize), DecodeError>(e),
        },
{
    let (len, k) = read_varint(r)?;
    if len < 0 {
        return Err(DecodeError::NegativeLength);
    }
    if r.len() - k < len as usize {
        return Err(DecodeError::UnexpectedEnd);
    }
    Ok((k, k + len as usize))
}

/// `String::from_utf8`, with its error dropped: the string that `bytes` are
/// the UTF-8 form of.
///
/// Not proved: that a string comes back exactly for valid UTF-8, and that its
/// characters are those that the bytes encode.
#[verifier::external_body]
fn string_from_utf8(bytes: Vec<u8>) -> (res: Option<String>)
    ensures
        res is Some <==> valid_utf8(bytes@),
        res matches Some(s) ==> s@ == decode_utf8(bytes@),
{
    String::from_utf8(bytes).ok()
}

impl Encode for String {
    open spec fn wire(&self) -> Result<Seq<u8>, EncodeError> {
        prefixed(encode_utf8(self@))
    }

    fn encode(&self, w: &mut Vec<u8>) -> (res: Result<(), EncodeError>) {
        put_prefixed(w, self.as_str().as_bytes())
    }
}

/// The string with its length in front at the front of `bytes`.
pub open spec fn parse_string(bytes: Seq<u8>) -> Parsed<Seq<char>> {
    match parse_prefixed(bytes) {
        Err(e) => Err(e),
        Ok((run, n)) => if valid_utf8(run) {
            Ok((decode_utf8(run), n))
        } else {
            Err(DecodeError::InvalidUtf8)
        },
    }
}

impl Decode for String {
    open spec fn parse(bytes: Seq<u8>) -> Parsed<Seq<char>> {
        parse_string(bytes)
    }

    fn decode(r: &[u8]) -> (res: Result<(Self, usize), DecodeError>) {
        let (start, end) = get_prefixed(r)?;
        let run = vstd::slice::slice_to_vec(slice_subrange(r, start, end));
        match string_from_utf8(run) {
            Some(s) => Ok((s, end)),
            None => Err(DecodeError::InvalidUtf8),
        }
    }
}

impl RoundTrip for String {
    proof fn lemma_round_trip(&self, rest: Seq<u8>) {
        let run = encode_utf8(self@);
        lemma_prefixed_round_trip(run, rest);
        encode_utf8_valid_utf8(self@);
        encode_utf8_decode_utf8(self@);
    }
}

impl Encode for Vec<u8> {
    open spec fn wire(&self) -> Result<Seq<u8>, EncodeError> {
        prefixed(self@)
    }

    fn encode(&self, w: &mut Vec<u8>) -> (res: Result<(), EncodeError>) {
        put_prefixed(w, self.as_slice())
    }
}

impl Decode for Vec<u8> {
    open spec fn parse(bytes: Seq<u8>) -> Parsed<Seq<u8>> {
        parse_prefixed(bytes)
    }

    fn decode(r: &[u8]) -> (res: Result<(Self, usize), DecodeError>) {
        let (start, end) = get_prefixed(r)?;
        let run = vstd::slice::slice_to_vec(slice_subrange(r, start, end));
        assert(run.deep_view() =~= run@);
        Ok((run, end))
    }
}

impl RoundTrip for Vec<u8> {
    proof fn lemma_round_trip(&self, rest: Seq<u8>) {
        lemma_prefixed_round_trip(self@, rest);
        assert(self.deep_view() =~= self@);
    }
}

/// Three runs of bytes in a row are the first followed by the other two,
/// and what is left when the first is skipped is the other two.
pub proof fn lemma_regroup(front: Seq<u8>, mid: Seq<u8>, back: Seq<u8>)
    ensures
        (front + mid) + back == front + (mid + back),
        ((front + mid) + back).skip(front.len() as int) == mid + back,
{
    assert((front + mid) + back =~= front + (mid + back));
    assert((front + (mid + back)).skip(front.len() as int) =~= mid + back);
}

/// Appends the wire form of `v` to `w`, which holds `before` and then the
/// part `sofar` of a larger value.
pub(crate) fn put_field<T: Encode>(
    v: &T,
    w: &mut Vec<u8>,
    Ghost(before): Ghost<Seq<u8>>,
    Ghost(sofar): Ghost<Seq<u8>>,
) -> (res: Result<(), EncodeError>)
    requires
        old(w)@ == before + sofar,
    ensures
        match v.wire() {
            Ok(bytes) => res is Ok && final(w)@ == before + (sofar + bytes),
            Err(e) => res == Err::<(), EncodeError>(e) && before.is_prefix_of(final(w)@),
        },
{
    let res = v.encode(w);
    proof {
        if let Ok(bytes) = v.wire() {
            assert(w@ =~= before + (sofar + bytes));
        }
    }
    res
}

impl<T: Encode> Encode for Option<T> {
    open spec fn wire(&self) -> Result<Seq<u8>, EncodeError> {
        match self {
            Some(t) => chain(Ok(seq![1u8]), t.wire()),
            None => Ok(seq![0u8]),
        }
    }

    fn encode(&self, w: &mut Vec<u8>) -> (res: Result<(), EncodeError>) {
        let ghost before = w@;
        match self {
            Some(t) => {
                w.push(1);
                let res = t.encode(w);
                proof {
                    if let Ok(bytes) = t.wire() {
                        assert(w@ =~= before + (seq![1u8] + bytes));
                    }
                }
                res
            },
            None => {
                w.push(0);
                Ok(())
            },
        }
    }
}

impl<T: Decode> Decode for Option<T> {
    open spec fn parse(bytes: Seq<u8>) -> Parsed<Option<T::V>> {
        match bool::parse(bytes) {
            Err(e) => Err(e),
            Ok((false, n)) => Ok((None, n)),
            Ok((true, n)) => match T::parse(bytes.skip(n as int)) {
                Ok((v, m)) => Ok((Some(v), n + m)),
                Err(e) => Err(e),
            },
        }
    }

    fn decode(r: &[u8]) -> (res: Result<(Self, usize), DecodeError>) {
        let (present, n) = bool::decode(r)?;
        if present {
            let rest = slice_subrange(r, n, r.len());
            assert(rest@ =~= r@.skip(n as int));
            let (v, m) = T::decode(rest)?;
            Ok((Some(v), n + m))
        } else {
            Ok((None, n))
        }
    }
}

impl<T: RoundTrip> RoundTrip for Option<T> {
    proof fn lemma_round_trip(&self, rest: Seq<u8>) {
        match self {
            Some(t) => {
                let w = t.wire()->Ok_0;
                t.lemma_round_trip(rest);
                assert((seq![1u8] + w + rest)[0] == 1u8);
                assert((seq![1u8] + w + rest).skip(1) =~= w + rest);
            },
            None => {
                assert((seq![0u8] + rest)[0] == 0u8);
            },
        }
    }
}

/// A value that may not be longer than `N`: characters for a string, bytes
/// for a byte sequence.
#[derive(Clone, Debug)]
pub struct Bounded<T, const N: usize>(pub T);

impl<T: DeepView, const N: usize> DeepView for Bounded<T, N> {
    type V = T::V;

    open spec fn deep_view(&self) -> T::V {
        self.0.deep_view()
    }
}

/// Whether `s` has more than `bound` characters.
pub fn exceeds(s: &str, bound: usize) -> (over: bool)
    ensures
        over == (s@.len() > bound),
{
    let mut chars = s.chars();
    let mut n: usize = 0;
    loop
        invariant
            n <= bound,
            n + chars.remaining().len() == s@.len(),
            chars.obeys_prophetic_iter_laws(),
        decreases bound - n,
    {
        match chars.next() {
            Some(_) => {
                if n == bound {
                    return true;
                }
                n = n + 1;
            },
            None => {
                return false;
            },
        }
    }
}

impl<const N: usize> Encode for Bounded<String, N> {
    open spec fn wire(&self) -> Result<Seq<u8>, EncodeError> {
        if self.0@.len() > N {
            Err(EncodeError::BoundExceeded)
        } else {
            self.0.wire()
        }
    }

    fn encode(&self, w: &mut Vec<u8>) -> (res: Result<(), EncodeError>) {
        if exceeds(self.0.as_str(), N) {
            return Err(EncodeError::BoundExceeded);
        }
        self.0.encode(w)
    }
}

impl<const N: usize> Decode for Bounded<String, N> {
    open spec fn parse(bytes: Seq<u8>) -> Parsed<Seq<char>> {
        match parse_string(bytes) {
            Err(e) => Err(e),
            Ok((s, n)) => if s.len() > N {
                Err(DecodeError::BoundExceeded)
            } else {
                Ok((s, n))
            },
        }
    }

    fn decode(r: &[u8]) -> (res: Result<(Self, usize), DecodeError>) {
        let (s, n) = String::decode(r)?;
        if exceeds(s.as_str(), N) {
            return Err(DecodeError::BoundExceeded);
        }
        Ok((Bounded(s), n))
    }
}

impl<const N: usize> RoundTrip for Bounded<String, N> {
    proof fn lemma_round_trip(&self, rest: Seq<u8>) {
        self.0.lemma_round_trip(rest);
    }
}

/// A string of more than `N` characters is not read as a string bounded by
/// `N`, and has no wire form as one.
pub proof fn lemma_bounded_string_rejects<const N: usize>(bytes: Seq<u8>, s: Bounded<String, N>)
    ensures
        parse_string(bytes) matches Ok((text, n)) && text.len() > N ==> Bounded::<
            String,
            N,
        >::parse(bytes) == Err::<(Seq<char>, nat), DecodeError>(DecodeError::BoundExceeded),
        s.0@.len() > N ==> s.wire() == Err::<Seq<u8>, EncodeError>(EncodeError::BoundExceeded),
{
}

/// A byte sequence of more than `N` bytes is not read as one bounded by `N`,
/// and has no wire form as one.
pub proof fn lemma_bounded_bytes_rejects<const N: usize>(bytes: Seq<u8>, s: Bounded<Vec<u8>, N>)
    ensures
        parse_prefixed(bytes) matches Ok((run, n)) && run.len() > N ==> Bounded::<
            Vec<u8>,
            N,
        >::parse(bytes) == Err::<(Seq<u8>, nat), DecodeError>(DecodeError::BoundExceeded),
        s.0@.len() > N ==> s.wire() == Err::<Seq<u8>, EncodeError>(EncodeError::BoundExceeded),
{
}

impl<const N: usize> Encode for Bounded<Vec<u8>, N> {
    open spec fn wire(&self) -> Result<Seq<u8>, EncodeError> {
        if self.0@.len() > N {
            Err(EncodeError::BoundExceeded)
        } else {
            self.0.wire()
        }
    }

    fn encode(&self, w: &mut Vec<u8>) -> (res: Result<(), EncodeError>) {
        if self.0.len() > N {
            return Err(EncodeError::BoundExceeded);
        }
        self.0.encode(w)
    }
}

impl<const N: usize> Decode for Bounded<Vec<u8>, N> {
    open spec fn parse(bytes: Seq<u8>) -> Parsed<Seq<u8>> {
        match parse_prefixed(bytes) {
            Err(e) => Err(e),
            Ok((run, n)) => if run.len() > N {
                Err(DecodeError::BoundExceeded)
            } else {
                Ok((run, n))
            },
        }
    }

    fn decode(r: &[u8]) -> (res: Result<(Self, usize), DecodeError>) {
        let (run, n) = Vec::<u8>::decode(r)?;
        assert(run.deep_view() =~= run@);
        if run.len() > N {
            return Err(DecodeError::BoundExceeded);
        }
        Ok((Bounded(run), n))
    }
}

impl<const N: usize> RoundTrip for Bounded<Vec<u8>, N> {
    proof fn lemma_round_trip(&self, rest: Seq<u8>) {
        self.0.lemma_round_trip(rest);
        assert(self.0.deep_view() =~= self.0@);
    }
}

/// An internet address: the 32 bits of a version 4 address or the 128 bits
/// of a version 6 address, as one number.
#[derive(Clone, Copy, Debug, PartialEq, Eq, Hash)]
pub enum IpAddr {
    V4(u32),
    V6(u128),
}

impl DeepView for IpAddr {
    type V = IpAddr;

    open spec fn deep_view(&self) -> IpAddr {
        *self
    }
}

impl Encode for IpAddr {
    open spec fn wire(&self) -> Result<Seq<u8>, EncodeError> {
        match self {
            IpAddr::V4(bits) => Ok(seq![0u8] + be_bytes(*bits as nat, 4)),
            IpAddr::V6(bits) => Ok(seq![1u8] + be_bytes(*bits as nat, 16)),
        }
    }

    fn encode(&self, w: &mut Vec<u8>) -> (res: Result<(), EncodeError>) {
        let ghost before = w@;
        match self {
            IpAddr::V4(bits) => {
                w.push(0);
                put_be(w, *bits as u128, 4);
                assert(w@ =~= before + (seq![0u8] + be_bytes(*bits as nat, 4)));
            },
            IpAddr::V6(bits) => {
                w.push(1);
                put_be(w, *bits, 16);
                assert(w@ =~= before + (seq![1u8] + be_bytes(*bits as nat, 16)));
            },
        }
        Ok(())
    }
}

impl Decode for IpAddr {
    open spec fn parse(bytes: Seq<u8>) -> Parsed<IpAddr> {
        if bytes.len() < 1 {
            Err(DecodeError::UnexpectedEnd)
        } else if bytes[0] == 0 {
            match u32::parse(bytes.skip(1)) {
                Ok((bits, n)) => Ok((IpAddr::V4(bits), 1 + n)),
                Err(e) => Err(e),
            }
        } else if bytes[0] == 1 {
            match u128::parse(bytes.skip(1)) {
                Ok((bits, n)) => Ok((IpAddr::V6(bits), 1 + n)),
                Err(e) => Err(e),
            }
        } else {
            Err(DecodeError::UnknownDiscriminant)
        }
    }

    fn decode(r: &[u8]) -> (res: Result<(Self, usize), DecodeError>) {
        if r.len() < 1 {
            return Err(DecodeError::UnexpectedEnd);
        }
        let rest = slice_subrange(r, 1, r.len());
        assert(rest@ =~= r@.skip(1));
        if r[0] == 0 {
            let (bits, n) = u32::decode(rest)?;
            Ok((IpAddr::V4(bits), 1 + n))
        } else if r[0] == 1 {
            let (bits, n) = u128::decode(rest)?;
            Ok((IpAddr::V6(bits), 1 + n))
        } else {
            Err(DecodeError::UnknownDiscriminant)
        }
    }
}

impl RoundTrip for IpAddr {
    proof fn lemma_round_trip(&self, rest: Seq<u8>) {
        match self {
            IpAddr::V4(bits) => {
                let w = be_bytes(*bits as nat, 4);
                bits.lemma_round_trip(rest);
                assert((seq![0u8] + w + rest)[0] == 0u8);
                assert((seq![0u8] + w + rest).skip(1) =~= w + rest);
            },
            IpAddr::V6(bits) => {
                let w = be_bytes(*bits as nat, 16);
                bits.lemma_round_trip(rest);
                assert((seq![1u8] + w + rest)[0] == 1u8);
                assert((seq![1u8] + w + rest).skip(1) =~= w + rest);
            },
        }
    }
}

} // verus!
