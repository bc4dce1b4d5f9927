//! Variable-length encoding of signed 32-bit integers: seven data bits per
//! byte, low-order group first, the high bit of a byte set when more follow.

use vstd::prelude::*;

verus! {

/// An `i32` with a variable-length wire form of one to five bytes.
#[derive(Clone, Copy, Debug, PartialEq, Eq, PartialOrd, Ord, Hash)]
pub struct VarInt(pub i32);

/// Zero.
impl Default for VarInt {
    fn default() -> (v: Self)
        ensures
            v.0 == 0,
    {
        VarInt(0)
    }
}

/// Why a `VarInt` could not be read.
#[derive(Clone, Copy, Debug, PartialEq, Eq)]
pub enum VarIntDecodeError {
    /// The input ended before a byte without the continuation bit.
    Incomplete,
    /// Five bytes were read and all of them had the continuation bit.
    TooLarge,
}

impl VarIntDecodeError {
    /// The error in words.
    pub fn message(&self) -> (text: &'static str)
        ensures
            text@ == match self {
                VarIntDecodeError::Incomplete => "incomplete VarInt decode"@,
                VarIntDecodeError::TooLarge => "VarInt is too large"@,
            },
    {
        match self {
            VarIntDecodeError::Incomplete => "incomplete VarInt decode",
            VarIntDecodeError::TooLarge => "VarInt is too large",
        }
    }
}

/// What reading a `VarInt` from the front of a byte sequence gives.
pub enum VarIntParse {
    /// The unsigned value read and the number of bytes it took.
    Value(nat, nat),
    Incomplete,
    TooLarge,
}

/// The wire form of the unsigned value `u`.
pub open spec fn wire_of_nat(u: nat) -> Seq<u8>
    decreases u,
{
    if u < 128 {
        seq![u as u8]
    } else {
        seq![(u % 128 + 128) as u8] + wire_of_nat(u / 128)
    }
}

/// The number of bytes in the wire form of the unsigned value `u`.
pub open spec fn size_of_nat(u: nat) -> nat
    decreases u,
{
    if u < 128 {
        1
    } else {
        1 + size_of_nat(u / 128)
    }
}

/// Reads an unsigned value from the front of `bytes`, looking at no more than
/// `budget` bytes.
pub open spec fn parse_nat(bytes: Seq<u8>, budget: nat) -> VarIntParse
    decreases budget,
{
    if budget == 0 {
        VarIntParse::TooLarge
    } else if bytes.len() == 0 {
        VarIntParse::Incomplete
    } else if bytes[0] < 128 {
        VarIntParse::Value(bytes[0] as nat, 1)
    } else {
        match parse_nat(bytes.skip(1), (budget - 1) as nat) {
            VarIntParse::Value(v, n) => VarIntParse::Value(
                (bytes[0] - 128) as nat + 128 * v,
                n + 1,
            ),
            VarIntParse::Incomplete => VarIntParse::Incomplete,
            VarIntParse::TooLarge => VarIntParse::TooLarge,
        }
    }
}

/// The signed value that an unsigned reading stands for: its low 32 bits,
/// read as two's complement.
pub open spec fn signed_of_nat(u: nat) -> i32 {
    let m = u % 0x1_0000_0000;
    if m < 0x8000_0000 {
        m as i32
    } else {
        (m - 0x1_0000_0000) as i32
    }
}

/// The unsigned view of `n`: its two's complement bit pattern as a number.
pub open spec fn nat_of_signed(n: i32) -> nat {
    if n >= 0 {
        n as nat
    } else {
        (n + 0x1_0000_0000) as nat
    }
}

/// `128` to the power `i`, for the five positions a byte can have.
spec fn scale_at(i: nat) -> nat {
    if i == 0 {
        1
    } else if i == 1 {
        0x80
    } else if i == 2 {
        0x4000
    } else if i == 3 {
        0x20_0000
    } else if i == 4 {
        0x1000_0000
    } else {
        0x8_0000_0000
    }
}

/// A reading of the rest of the input, carried back over `i` bytes already
/// read, which gave `acc` at the scale `scale`.
spec fn lift_parse(p: VarIntParse, acc: nat, scale: nat, i: nat) -> VarIntParse {
    match p {
        VarIntParse::Value(v, n) => VarIntParse::Value(acc + scale * v, n + i),
        VarIntParse::Incomplete => VarIntParse::Incomplete,
        VarIntParse::TooLarge => VarIntParse::TooLarge,
    }
}

/// The size of a wire form by the range its value lies in.
pub proof fn lemma_size_by_range(u: nat)
    ensures
        u < 0x80 ==> size_of_nat(u) == 1,
        0x80 <= u < 0x4000 ==> size_of_nat(u) == 2,
        0x4000 <= u < 0x20_0000 ==> size_of_nat(u) == 3,
        0x20_0000 <= u < 0x1000_0000 ==> size_of_nat(u) == 4,
        0x1000_0000 <= u < 0x8_0000_0000 ==> size_of_nat(u) == 5,
        size_of_nat(u) >= 1,
{
    reveal_with_fuel(size_of_nat, 6);
}

/// A wire form is as long as its size says.
pub proof fn lemma_wire_len(u: nat)
    ensures
        wire_of_nat(u).len() == size_of_nat(u),
    decreases u,
{
    if u >= 128 {
        lemma_wire_len(u / 128);
    }
}

/// Reading a wire form gives its value back, whatever follows it, when the
/// budget covers its size.
pub proof fn lemma_parse_wire(u: nat, rest: Seq<u8>, budget: nat)
    requires
        size_of_nat(u) <= budget,
    ensures
        parse_nat(wire_of_nat(u) + rest, budget) == VarIntParse::Value(u, size_of_nat(u)),
    decreases u,
{
    let w = wire_of_nat(u);
    if u < 128 {
        assert((w + rest)[0] == u as u8);
    } else {
        let tail = wire_of_nat(u / 128);
        lemma_parse_wire(u / 128, rest, (budget - 1) as nat);
        assert((w + rest)[0] == (u % 128 + 128) as u8);
        assert((w + rest).skip(1) =~= tail + rest);
    }
}

/// A reading never takes more bytes than the budget or than there are, and
/// never less than one.
pub proof fn lemma_parse_bounds(bytes: Seq<u8>, budget: nat)
    ensures
        parse_nat(bytes, budget) matches VarIntParse::Value(v, n) ==> 1 <= n <= budget && n
            <= bytes.len(),
    decreases budget,
{
    if budget > 0 && bytes.len() > 0 && bytes[0] >= 128 {
        lemma_parse_bounds(bytes.skip(1), (budget - 1) as nat);
    }
}

/// A reading that found a value or ran over its budget stays what it is when
/// more bytes follow.
pub proof fn lemma_parse_extends(bytes: Seq<u8>, more: Seq<u8>, budget: nat)
    requires
        !(parse_nat(bytes, budget) is Incomplete),
    ensures
        parse_nat(bytes + more, budget) == parse_nat(bytes, budget),
    decreases budget,
{
    if budget > 0 && bytes.len() > 0 {
        assert((bytes + more)[0] == bytes[0]);
        if bytes[0] >= 128 {
            assert((bytes + more).skip(1) =~= bytes.skip(1) + more);
            lemma_parse_extends(bytes.skip(1), more, (budget - 1) as nat);
        }
    }
}

/// The signed and unsigned views are inverse to each other.
pub proof fn lemma_signed_of_nat_of_signed(n: i32)
    ensures
        nat_of_signed(n) < 0x1_0000_0000,
        signed_of_nat(nat_of_signed(n)) == n,
{
}

impl VarInt {
    /// The largest number of bytes a `VarInt` takes on the wire.
    pub const MAX_SIZE: usize = 5;

    /// The wire form of this value.
    pub open spec fn wire(self) -> Seq<u8> {
        wire_of_nat(nat_of_signed(self.0))
    }

    /// The length of the wire form, as a specification.
    pub open spec fn spec_written_size(self) -> nat {
        size_of_nat(nat_of_signed(self.0))
    }

    /// The number of bytes that `encode` writes for this value.
    pub fn written_size(self) -> (n: usize)
        ensures
            n == self.spec_written_size(),
            n == self.wire().len(),
            1 <= n <= 5,
    {
        let u: u64 = unsigned_bits(self.0);
        proof {
            lemma_size_by_range(u as nat);
            lemma_wire_len(u as nat);
        }
        if u < 0x80 {
            1
        } else if u < 0x4000 {
            2
        } else if u < 0x20_0000 {
            3
        } else if u < 0x1000_0000 {
            4
        } else {
            5
        }
    }

    /// Reads a `VarInt` from the front of `r`: the value and the number of
    /// bytes it took. `Incomplete` when `r` ends before the last byte of the
    /// value, `TooLarge` when the first five bytes all ask for more.
    pub fn decode_partial(r: &[u8]) -> (res: Result<(i32, usize), VarIntDecodeError>)
        ensures
            res == decode_result(parse_nat(r@, 5)),
    {
        let mut acc: u64 = 0;
        let mut scale: u64 = 1;
        let mut i: usize = 0;
        assert(r@.skip(0) =~= r@);
        while i < 5
            invariant
                i <= 5,
                i <= r.len(),
                scale == scale_at(i as nat),
                acc < scale,
                parse_nat(r@, 5) == lift_parse(
                    parse_nat(r@.skip(i as int), (5 - i) as nat),
                    acc as nat,
                    scale as nat,
                    i as nat,
                ),
            decreases 5 - i,
        {
            if i >= r.len() {
                return Err(VarIntDecodeError::Incomplete);
            }
            let b: u8 = r[i];
            let ghost rest = r@.skip(i as int);
            assert(rest[0] == b);
            assert(rest.skip(1) =~= r@.skip(i + 1));
            if b < 128 {
                let total: u64 = acc + scale * (b as u64);
                return Ok((signed_bits(total), i + 1));
            }
            let ghost next = parse_nat(rest.skip(1), (4 - i) as nat);
            assert(parse_nat(rest, (5 - i) as nat) == match next {
                VarIntParse::Value(v, n) => VarIntParse::Value((b - 128) as nat + 128 * v, n + 1),
                VarIntParse::Incomplete => VarIntParse::Incomplete,
                VarIntParse::TooLarge => VarIntParse::TooLarge,
            });
            let ghost old_acc = acc as nat;
            let ghost old_scale = scale as nat;
            acc = acc + scale * ((b - 128) as u64);
            scale = scale * 128;
            proof {
                if let VarIntParse::Value(v, n) = next {
                    assert(old_acc + old_scale * ((b - 128) as nat + 128 * v) == acc as nat
                        + scale as nat * v) by (nonlinear_arith)
                        requires
                            acc as nat == old_acc + old_scale * ((b - 128) as nat),
                            scale as nat == old_scale * 128,
                    ;
                }
            }
            i = i + 1;
        }
        Err(VarIntDecodeError::TooLarge)
    }

    /// The wire form in a fixed buffer: its bytes at the front, zeros behind
    /// them, and the number of bytes that belong to it.
    pub fn encode_const(&self) -> (res: ([u8; 8], u32))
        ensures
            res.1 == self.spec_written_size(),
            1 <= res.1 <= 5,
            res.0@.subrange(0, res.1 as int) == self.wire(),
            forall|k: int| res.1 <= k < 8 ==> res.0@[k] == 0,
    {
        let mut bytes: [u8; 8] = [0, 0, 0, 0, 0, 0, 0, 0];
        let mut u: u64 = unsigned_bits(self.0);
        let ghost full = u as nat;
        let mut n: usize = 0;
        proof {
            lemma_size_by_range(full);
        }
        while u >= 128
            invariant
                n + size_of_nat(u as nat) == size_of_nat(full),
                size_of_nat(full) <= 5,
                n < 5,
                bytes@.subrange(0, n as int) + wire_of_nat(u as nat) == wire_of_nat(full),
                forall|k: int| n <= k < 8 ==> bytes@[k] == 0,
            decreases u,
        {
            let ghost before = bytes@;
            let low: u8 = (u % 128 + 128) as u8;
            bytes[n] = low;
            proof {
                lemma_size_by_range((u / 128) as nat);
                assert(bytes@.subrange(0, n + 1) =~= before.subrange(0, n as int) + seq![low]);
                assert(wire_of_nat(u as nat) == seq![low] + wire_of_nat((u / 128) as nat));
                assert(bytes@.subrange(0, n + 1) + wire_of_nat((u / 128) as nat)
                    =~= before.subrange(0, n as int) + wire_of_nat(u as nat));
            }
            u = u / 128;
            n = n + 1;
        }
        let ghost before = bytes@;
        bytes[n] = u as u8;
        proof {
            assert(wire_of_nat(u as nat) == seq![u as u8]);
            assert(bytes@.subrange(0, n + 1) =~= before.subrange(0, n as int) + seq![u as u8]);
        }
        (bytes, (n + 1) as u32)
    }

    /// Appends the wire form of this value to `w`.
    pub fn encode(&self, w: &mut Vec<u8>)
        ensures
            final(w)@ == old(w)@ + self.wire(),
    {
        let (bytes, len) = self.encode_const();
        let ghost start = w@;
        let mut k: usize = 0;
        while k < len as usize
            invariant
                k <= len <= 8,
                w@ == start + bytes@.subrange(0, k as int),
            decreases len - k,
        {
            w.push(bytes[k]);
            assert(bytes@.subrange(0, k + 1) =~= bytes@.subrange(0, k as int).push(
                bytes[k as int],
            ));
            k = k + 1;
        }
    }
}

/// What `decode_partial` answers for each reading.
pub open spec fn decode_result(p: VarIntParse) -> Result<(i32, usize), VarIntDecodeError> {
    match p {
        VarIntParse::Value(v, n) => Ok((signed_of_nat(v), n as usize)),
        VarIntParse::Incomplete => Err(VarIntDecodeError::Incomplete),
        VarIntParse::TooLarge => Err(VarIntDecodeError::TooLarge),
    }
}

/// The two's complement bit pattern of `n` as an unsigned number.
fn unsigned_bits(n: i32) -> (u: u64)
    ensures
        u == nat_of_signed(n),
        u < 0x1_0000_0000,
{
    if n >= 0 {
        n as u64
    } else {
        (n as i64 + 0x1_0000_0000) as u64
    }
}

/// The low 32 bits of `u`, read as two's complement.
fn signed_bits(u: u64) -> (n: i32)
    ensures
        n == signed_of_nat(u as nat),
{
    let m: u64 = u % 0x1_0000_0000;
    if m < 0x8000_0000 {
        m as i32
    } else {
        (m as i64 - 0x1_0000_0000) as i32
    }
}

/// Reading what `encode` wrote gives the value back, whatever follows it,
/// and takes as many bytes as `written_size` says: between one and five.
pub proof fn lemma_varint_round_trip(n: i32, rest: Seq<u8>)
    ensures
        decode_result(parse_nat(VarInt(n).wire() + rest, 5)) == Ok::<
            (i32, usize),
            VarIntDecodeError,
        >((n, VarInt(n).spec_written_size() as usize)),
        parse_nat(VarInt(n).wire() + rest, 5) == VarIntParse::Value(
            nat_of_signed(n),
            VarInt(n).spec_written_size(),
        ),
        VarInt(n).wire().len() == VarInt(n).spec_written_size(),
        1 <= VarInt(n).spec_written_size() <= 5,
{
    let u = nat_of_signed(n);
    lemma_signed_of_nat_of_signed(n);
    lemma_size_by_range(u);
    lemma_wire_len(u);
    lemma_parse_wire(u, rest, 5);
}

} // verus!
