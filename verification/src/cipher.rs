//! AES-128 in CFB-8 mode: a stream cipher that turns one byte into one byte
//! and feeds each ciphertext byte back into a 16-byte shift register.

use crate::buffer::{buf_as_slice, buf_len, buf_set, bytes_of};
use aes::cipher::generic_array::GenericArray;
use aes::cipher::{BlockDecryptMut, BlockEncryptMut, KeyIvInit};
use bytes::BytesMut;
use vstd::prelude::*;

verus! {

/// The first byte of the AES-128 encryption of the 16-byte `block` under the
/// 16-byte `key`: the key stream byte of CFB-8 for a register that holds
/// `block`.
pub uninterp spec fn aes128_first_byte(key: Seq<u8>, block: Seq<u8>) -> u8;

/// The register after the ciphertext byte `c` was fed back: its first byte
/// leaves, `c` enters at the end.
pub open spec fn shift_in(register: Seq<u8>, c: u8) -> Seq<u8> {
    register.skip(1).push(c)
}

/// The ciphertext of `data` for a cipher that starts with `register`.
pub open spec fn encrypted(key: Seq<u8>, register: Seq<u8>, data: Seq<u8>) -> Seq<u8>
    decreases data.len(),
{
    if data.len() == 0 {
        Seq::empty()
    } else {
        let c = data[0] ^ aes128_first_byte(key, register);
        seq![c] + encrypted(key, shift_in(register, c), data.skip(1))
    }
}

/// The register that encrypting `data` leaves behind.
pub open spec fn register_after_encrypt(key: Seq<u8>, register: Seq<u8>, data: Seq<u8>) -> Seq<u8>
    decreases data.len(),
{
    if data.len() == 0 {
        register
    } else {
        let c = data[0] ^ aes128_first_byte(key, register);
        register_after_encrypt(key, shift_in(register, c), data.skip(1))
    }
}

/// The plaintext of `data` for a cipher that starts with `register`.
pub open spec fn decrypted(key: Seq<u8>, register: Seq<u8>, data: Seq<u8>) -> Seq<u8>
    decreases data.len(),
{
    if data.len() == 0 {
        Seq::empty()
    } else {
        let p = data[0] ^ aes128_first_byte(key, register);
        seq![p] + decrypted(key, shift_in(register, data[0]), data.skip(1))
    }
}

/// The register that decrypting `data` leaves behind.
pub open spec fn register_after_decrypt(key: Seq<u8>, register: Seq<u8>, data: Seq<u8>) -> Seq<u8>
    decreases data.len(),
{
    if data.len() == 0 {
        register
    } else {
        register_after_decrypt(key, shift_in(register, data[0]), data.skip(1))
    }
}

/// Encrypts one byte with `cfb8::Encryptor<aes::Aes128>`, made from `key` and
/// with `register` as its initialisation vector.
///
/// Not proved: that the byte returned is the plaintext byte xor the first
/// byte of the AES-128 encryption of the register.
#[verifier::external_body]
fn cfb8_encrypt_byte(key: &[u8; 16], register: &[u8; 16], plain: u8) -> (out: u8)
    ensures
        out == plain ^ aes128_first_byte(key@, register@),
{
    let mut c = cfb8::Encryptor::<aes::Aes128>::new(key.into(), register.into());
    let mut block = [plain];
    c.encrypt_block_mut(GenericArray::from_mut_slice(&mut block));
    block[0]
}

/// Decrypts one byte with `cfb8::Decryptor<aes::Aes128>`, made from `key` and
/// with `register` as its initialisation vector.
///
/// Not proved: that the byte returned is the ciphertext byte xor the first
/// byte of the AES-128 encryption of the register.
#[verifier::external_body]
fn cfb8_decrypt_byte(key: &[u8; 16], register: &[u8; 16], cipher: u8) -> (out: u8)
    ensures
        out == cipher ^ aes128_first_byte(key@, register@),
{
    let mut c = cfb8::Decryptor::<aes::Aes128>::new(key.into(), register.into());
    let mut block = [cipher];
    c.decrypt_block_mut(GenericArray::from_mut_slice(&mut block));
    block[0]
}

/// One direction of the stream cipher: its key and the shift register.
#[derive(Clone, Copy, Debug)]
pub struct CipherState {
    pub key: [u8; 16],
    pub register: [u8; 16],
}

impl CipherState {
    /// A cipher at the start of its stream: the register is the key.
    pub fn new(key: &[u8; 16]) -> (c: Self)
        ensures
            c.key@ == key@,
            c.register@ == key@,
    {
        CipherState { key: *key, register: *key }
    }

    /// Feeds `c` back into the register.
    fn feed(&mut self, c: u8)
        ensures
            final(self).key == old(self).key,
            final(self).register@ == shift_in(old(self).register@, c),
    {
        let ghost before = self.register@;
        let mut j: usize = 0;
        while j < 15
            invariant
                j <= 15,
                self.key == old(self).key,
                forall|k: int| 0 <= k < j ==> self.register@[k] == before[k + 1],
                forall|k: int| j <= k < 16 ==> self.register@[k] == before[k],
            decreases 15 - j,
        {
            self.register[j] = self.register[j + 1];
            j = j + 1;
        }
        self.register[15] = c;
        assert(self.register@ =~= shift_in(before, c));
    }

    /// Encrypts one byte and moves the cipher on by it.
    pub fn encrypt_byte(&mut self, plain: u8) -> (out: u8)
        ensures
            final(self).key == old(self).key,
            seq![out] == encrypted(old(self).key@, old(self).register@, seq![plain]),
            final(self).register@ == register_after_encrypt(
                old(self).key@,
                old(self).register@,
                seq![plain],
            ),
    {
        let out = cfb8_encrypt_byte(&self.key, &self.register, plain);
        proof {
            lemma_encrypt_one(self.key@, self.register@, plain);
        }
        self.feed(out);
        out
    }

    /// Decrypts one byte and moves the cipher on by it.
    pub fn decrypt_byte(&mut self, cipher: u8) -> (out: u8)
        ensures
            final(self).key == old(self).key,
            seq![out] == decrypted(old(self).key@, old(self).register@, seq![cipher]),
            final(self).register@ == register_after_decrypt(
                old(self).key@,
                old(self).register@,
                seq![cipher],
            ),
    {
        let out = cfb8_decrypt_byte(&self.key, &self.register, cipher);
        proof {
            lemma_decrypt_one(self.key@, self.register@, cipher);
        }
        self.feed(cipher);
        out
    }
}

/// Encrypts every byte of `buf` in place, in order, and moves the cipher on by
/// them.
pub fn encrypt_buffer(cipher: &mut CipherState, buf: &mut BytesMut)
    ensures
        final(cipher).key == old(cipher).key,
        bytes_of(*final(buf)) == encrypted(
            old(cipher).key@,
            old(cipher).register@,
            bytes_of(*old(buf)),
        ),
        final(cipher).register@ == register_after_encrypt(
            old(cipher).key@,
            old(cipher).register@,
            bytes_of(*old(buf)),
        ),
{
    let ghost key = cipher.key@;
    let ghost start = cipher.register@;
    let ghost plain = bytes_of(*buf);
    let n: usize = buf_len(buf);
    let mut i: usize = 0;
    assert(bytes_of(*buf).subrange(0, 0) =~= Seq::<u8>::empty());
    while i < n
        invariant
            i <= n,
            n == plain.len(),
            cipher.key == old(cipher).key,
            key == cipher.key@,
            bytes_of(*buf).len() == n,
            bytes_of(*buf).subrange(0, i as int) == encrypted(
                key,
                start,
                plain.subrange(0, i as int),
            ),
            bytes_of(*buf).subrange(i as int, n as int) == plain.subrange(i as int, n as int),
            cipher.register@ == register_after_encrypt(key, start, plain.subrange(0, i as int)),
        decreases n - i,
    {
        let ghost before = bytes_of(*buf);
        let p: u8 = buf_as_slice(buf)[i];
        assert(p == before.subrange(i as int, n as int)[0]);
        let c: u8 = cipher.encrypt_byte(p);
        buf_set(buf, i, c);
        proof {
            let done = plain.subrange(0, i as int);
            lemma_encrypt_concat(key, start, done, seq![p]);
            assert(plain.subrange(0, i + 1) =~= done + seq![p]);
            assert(bytes_of(*buf).subrange(0, i + 1) =~= before.subrange(0, i as int) + seq![c]);
            assert(bytes_of(*buf).subrange(i + 1, n as int) =~= before.subrange(
                i as int,
                n as int,
            ).skip(1));
            assert(plain.subrange(i + 1, n as int) =~= plain.subrange(i as int, n as int).skip(1));
        }
        i = i + 1;
    }
    assert(bytes_of(*buf).subrange(0, n as int) =~= bytes_of(*buf));
    assert(plain.subrange(0, n as int) =~= plain);
}

/// Decrypts the bytes of `buf` from `from` on in place, in order, and moves
/// the cipher on by them. The bytes before `from` stay as they are.
pub fn decrypt_buffer(cipher: &mut CipherState, buf: &mut BytesMut, from: usize)
    requires
        from <= bytes_of(*old(buf)).len(),
    ensures
        final(cipher).key == old(cipher).key,
        bytes_of(*final(buf)) == bytes_of(*old(buf)).subrange(0, from as int) + decrypted(
            old(cipher).key@,
            old(cipher).register@,
            bytes_of(*old(buf)).skip(from as int),
        ),
        final(cipher).register@ == register_after_decrypt(
            old(cipher).key@,
            old(cipher).register@,
            bytes_of(*old(buf)).skip(from as int),
        ),
{
    let ghost key = cipher.key@;
    let ghost start = cipher.register@;
    let ghost all = bytes_of(*buf);
    let ghost raw = all.skip(from as int);
    let n: usize = buf_len(buf);
    let mut i: usize = from;
    assert(raw.subrange(0, 0) =~= Seq::<u8>::empty());
    assert(all.subrange(from as int, from as int) =~= Seq::<u8>::empty());
    while i < n
        invariant
            from <= i <= n,
            n == all.len(),
            raw == all.skip(from as int),
            cipher.key == old(cipher).key,
            key == cipher.key@,
            bytes_of(*buf).len() == n,
            bytes_of(*buf).subrange(0, from as int) == all.subrange(0, from as int),
            bytes_of(*buf).subrange(from as int, i as int) == decrypted(
                key,
                start,
                raw.subrange(0, i - from),
            ),
            bytes_of(*buf).subrange(i as int, n as int) == all.subrange(i as int, n as int),
            cipher.register@ == register_after_decrypt(key, start, raw.subrange(0, i - from)),
        decreases n - i,
    {
        let ghost before = bytes_of(*buf);
        let c: u8 = buf_as_slice(buf)[i];
        assert(c == before.subrange(i as int, n as int)[0]);
        let p: u8 = cipher.decrypt_byte(c);
        buf_set(buf, i, p);
        proof {
            let done = raw.subrange(0, i - from);
            lemma_decrypt_concat(key, start, done, seq![c]);
            assert(raw.subrange(0, i + 1 - from) =~= done + seq![c]);
            assert(bytes_of(*buf).subrange(0, from as int) =~= before.subrange(0, from as int));
            assert(bytes_of(*buf).subrange(from as int, i + 1) =~= before.subrange(
                from as int,
                i as int,
            ) + seq![p]);
            assert(bytes_of(*buf).subrange(i + 1, n as int) =~= before.subrange(
                i as int,
                n as int,
            ).skip(1));
            assert(all.subrange(i + 1, n as int) =~= all.subrange(i as int, n as int).skip(1));
        }
        i = i + 1;
    }
    proof {
        assert(raw.subrange(0, n - from) =~= raw);
        assert(bytes_of(*buf) =~= bytes_of(*buf).subrange(0, from as int) + bytes_of(*buf).subrange(
            from as int,
            n as int,
        ));
    }
}

/// Encrypting a single byte.
pub proof fn lemma_encrypt_one(key: Seq<u8>, register: Seq<u8>, p: u8)
    ensures
        encrypted(key, register, seq![p]) == seq![p ^ aes128_first_byte(key, register)],
        register_after_encrypt(key, register, seq![p]) == shift_in(
            register,
            p ^ aes128_first_byte(key, register),
        ),
{
    let c = p ^ aes128_first_byte(key, register);
    let d = seq![p];
    assert(d.skip(1).len() == 0);
    assert(encrypted(key, shift_in(register, c), d.skip(1)) =~= Seq::<u8>::empty());
    assert(encrypted(key, register, d) =~= seq![c]);
    assert(register_after_encrypt(key, shift_in(register, c), d.skip(1)) == shift_in(register, c));
}

/// Decrypting a single byte.
pub proof fn lemma_decrypt_one(key: Seq<u8>, register: Seq<u8>, c: u8)
    ensures
        decrypted(key, register, seq![c]) == seq![c ^ aes128_first_byte(key, register)],
        register_after_decrypt(key, register, seq![c]) == shift_in(register, c),
{
    let p = c ^ aes128_first_byte(key, register);
    let d = seq![c];
    assert(d.skip(1).len() == 0);
    assert(decrypted(key, shift_in(register, c), d.skip(1)) =~= Seq::<u8>::empty());
    assert(decrypted(key, register, d) =~= seq![p]);
    assert(register_after_decrypt(key, shift_in(register, c), d.skip(1)) == shift_in(register, c));
}

/// Ciphertext is as long as its plaintext.
pub proof fn lemma_encrypted_len(key: Seq<u8>, register: Seq<u8>, data: Seq<u8>)
    ensures
        encrypted(key, register, data).len() == data.len(),
    decreases data.len(),
{
    if data.len() > 0 {
        let c = data[0] ^ aes128_first_byte(key, register);
        lemma_encrypted_len(key, shift_in(register, c), data.skip(1));
    }
}

/// Plaintext is as long as its ciphertext.
pub proof fn lemma_decrypted_len(key: Seq<u8>, register: Seq<u8>, data: Seq<u8>)
    ensures
        decrypted(key, register, data).len() == data.len(),
    decreases data.len(),
{
    if data.len() > 0 {
        lemma_decrypted_len(key, shift_in(register, data[0]), data.skip(1));
    }
}

/// Encrypting a stream in two pieces gives what encrypting it in one piece
/// gives: the second piece goes on from the register the first one left.
pub proof fn lemma_encrypt_concat(key: Seq<u8>, register: Seq<u8>, a: Seq<u8>, b: Seq<u8>)
    ensures
        encrypted(key, register, a + b) == encrypted(key, register, a) + encrypted(
            key,
            register_after_encrypt(key, register, a),
            b,
        ),
        register_after_encrypt(key, register, a + b) == register_after_encrypt(
            key,
            register_after_encrypt(key, register, a),
            b,
        ),
    decreases a.len(),
{
    if a.len() == 0 {
        assert(a + b =~= b);
        assert(encrypted(key, register, a) + encrypted(key, register, b) =~= encrypted(
            key,
            register,
            b,
        ));
    } else {
        let c = a[0] ^ aes128_first_byte(key, register);
        let next = shift_in(register, c);
        assert((a + b)[0] == a[0]);
        assert((a + b).skip(1) =~= a.skip(1) + b);
        lemma_encrypt_concat(key, next, a.skip(1), b);
        assert(encrypted(key, register, a + b) =~= encrypted(key, register, a) + encrypted(
            key,
            register_after_encrypt(key, register, a),
            b,
        ));
    }
}

/// Decrypting a stream in two pieces gives what decrypting it in one piece
/// gives: the second piece goes on from the register the first one left.
pub proof fn lemma_decrypt_concat(key: Seq<u8>, register: Seq<u8>, a: Seq<u8>, b: Seq<u8>)
    ensures
        decrypted(key, register, a + b) == decrypted(key, register, a) + decrypted(
            key,
            register_after_decrypt(key, register, a),
            b,
        ),
        register_after_decrypt(key, register, a + b) == register_after_decrypt(
            key,
            register_after_decrypt(key, register, a),
            b,
        ),
    decreases a.len(),
{
    if a.len() == 0 {
        assert(a + b =~= b);
        assert(decrypted(key, register, a) + decrypted(key, register, b) =~= decrypted(
            key,
            register,
            b,
        ));
    } else {
        let next = shift_in(register, a[0]);
        assert((a + b)[0] == a[0]);
        assert((a + b).skip(1) =~= a.skip(1) + b);
        lemma_decrypt_concat(key, next, a.skip(1), b);
        assert(decrypted(key, register, a + b) =~= decrypted(key, register, a) + decrypted(
            key,
            register_after_decrypt(key, register, a),
            b,
        ));
    }
}

/// A decryptor that starts where the encryptor started gives every plaintext
/// back, and ends with the register that the encryptor ended with.
pub proof fn lemma_decrypt_encrypt(key: Seq<u8>, register: Seq<u8>, data: Seq<u8>)
    ensures
        decrypted(key, register, encrypted(key, register, data)) == data,
        register_after_decrypt(key, register, encrypted(key, register, data))
            == register_after_encrypt(key, register, data),
    decreases data.len(),
{
    let e = encrypted(key, register, data);
    if data.len() == 0 {
        assert(decrypted(key, register, e) =~= data);
    } else {
        let k = aes128_first_byte(key, register);
        let c = data[0] ^ k;
        let next = shift_in(register, c);
        let tail = encrypted(key, next, data.skip(1));
        assert(e[0] == c);
        assert(e.skip(1) =~= tail);
        lemma_decrypt_encrypt(key, next, data.skip(1));
        let p = data[0];
        assert((p ^ k) ^ k == p) by (bit_vector);
        assert(decrypted(key, register, e) =~= seq![data[0]] + data.skip(1));
        assert(seq![data[0]] + data.skip(1) =~= data);
    }
}

} // verus!
