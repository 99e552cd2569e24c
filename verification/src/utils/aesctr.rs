//! AES-128 in counter mode with a full 128-bit big-endian counter, keyed
//! from a password and a "size salt" (PBKDF2-HMAC-SHA256, then MD5), with
//! random access by position.
//!
//! The cipher's state is held as plain values: the key, the counter block
//! `iv` that the keystream started from, and how many keystream bytes have
//! been used since.

use vstd::prelude::*;
use vstd::string::{StringExecFns, StringSliceAdditionalSpecFns};

use crate::crypto::{
    aes128_ctr128be_keystream, aes128_ctr128be_xor, be_value, ctr128be_apply, ctr128be_block, hex_encode, md5, md5_digest, pbkdf2_derive,
    pbkdf2_hmac_sha256,
};
use crate::text::hex_lower;

verus! {

/// The base of the counter arithmetic of `increment_iv`: 2^32 - 1.
pub const MAX_UINT32: u64 = 0xffff_ffff;

/// Big-endian 32-bit word `k` of a 16-byte block, word 0 being the last
/// four bytes.
pub open spec fn iv_word(iv: Seq<u8>, k: int) -> int {
    iv[12 - 4 * k] as int * 0x100_0000 + iv[13 - 4 * k] as int * 0x1_0000
        + iv[14 - 4 * k] as int * 0x100 + iv[15 - 4 * k] as int
}

/// What `increment_iv(n)` adds to word `k` besides the carry: the low part
/// `n % M - n / M` to word 0 and the high part `n / M` to word 1, with
/// `M = 2^32 - 1`.
pub open spec fn iv_addend(n: int, k: int) -> int {
    if k == 0 {
        n % (MAX_UINT32 as int) - n / (MAX_UINT32 as int)
    } else if k == 1 {
        n / (MAX_UINT32 as int)
    } else {
        0
    }
}

/// The sum that `increment_iv(n)` forms for word `k`: the word, its addend,
/// and the carry `sum / M` of the word before.
pub open spec fn iv_sum(iv: Seq<u8>, n: int, k: nat) -> int
    decreases k,
{
    iv_word(iv, k as int) + iv_addend(n, k as int) + if k == 0 {
        0
    } else {
        iv_sum(iv, n, (k - 1) as nat) / (MAX_UINT32 as int)
    }
}

/// The word that a sum leaves: `sum % M - sum / M`.
pub open spec fn iv_digit(sum: int) -> int {
    sum % (MAX_UINT32 as int) - sum / (MAX_UINT32 as int)
}

/// The inputs on which `increment_iv` runs without an arithmetic underflow:
/// the low part of the increment and the word of each of the four steps are
/// not negative.
pub open spec fn increment_iv_ok(iv: Seq<u8>, n: int) -> bool {
    &&& iv_addend(n, 0) >= 0
    &&& forall|k: nat| k < 4 ==> iv_digit(#[trigger] iv_sum(iv, n, k)) >= 0
}

/// Byte `j` (0 the most significant) of a 32-bit word in big-endian order.
pub open spec fn be_byte(w: int, j: int) -> u8 {
    (if j == 0 {
        w / 0x100_0000 % 0x100
    } else if j == 1 {
        w / 0x1_0000 % 0x100
    } else if j == 2 {
        w / 0x100 % 0x100
    } else {
        w % 0x100
    }) as u8
}

/// The block that `increment_iv(n)` leaves: word `k` replaced by the digit
/// of its sum.
pub open spec fn incremented_iv(iv: Seq<u8>, n: int) -> Seq<u8> {
    Seq::new(16, |i: int| be_byte(iv_digit(iv_sum(iv, n, (3 - i / 4) as nat)), i % 4))
}

/// The first 16 bytes of PBKDF2-HMAC-SHA256 over the password with salt
/// "AES-CTR" and 1000 rounds, as lower-case hex (the `passwd_outward`).
pub open spec fn passwd_outward_of(password: Seq<char>) -> Seq<char> {
    hex_lower(
        pbkdf2_hmac_sha256(
            1000,
            "AES-CTR"@.map_values(|c: char| c as u8),
            vstd::utf8::encode_utf8(password),
            16,
        ),
    )
}

/// The key: MD5 of the hex text of the derived bytes followed by the salt.
pub open spec fn key_of(password: Seq<char>, size_salt: Seq<char>) -> Seq<u8> {
    md5(vstd::utf8::encode_utf8(passwd_outward_of(password) + size_salt))
}

/// The starting counter block: MD5 of the size salt.
pub open spec fn iv_of(size_salt: Seq<char>) -> Seq<u8> {
    md5(vstd::utf8::encode_utf8(size_salt))
}

proof fn lemma_be_bytes(x: u64)
    requires
        x <= 0xffff_ffff,
    ensures
        ((x >> 24u64) & 0xffu64) == x / 0x100_0000 % 0x100,
        ((x >> 16u64) & 0xffu64) == x / 0x1_0000 % 0x100,
        ((x >> 8u64) & 0xffu64) == x / 0x100 % 0x100,
        (x & 0xffu64) == x % 0x100,
{
    assert(((x >> 24u64) & 0xffu64) == x / 0x100_0000 % 0x100) by (bit_vector);
    assert(((x >> 16u64) & 0xffu64) == x / 0x1_0000 % 0x100) by (bit_vector);
    assert(((x >> 8u64) & 0xffu64) == x / 0x100 % 0x100) by (bit_vector);
    assert((x & 0xffu64) == x % 0x100) by (bit_vector);
}

proof fn lemma_iv_sum_bounds(iv: Seq<u8>, n: u64, k: nat)
    requires
        iv.len() == 16,
        k < 4,
        iv_addend(n as int, 0) >= 0,
    ensures
        0 <= iv_word(iv, k as int) <= 0xffff_ffff,
        iv_sum(iv, n as int, k) / (MAX_UINT32 as int) <= 2,
        iv_sum(iv, n as int, k) >= iv_word(iv, k as int) + iv_addend(n as int, k as int),
        iv_sum(iv, n as int, k) <= iv_word(iv, k as int) + iv_addend(n as int, k as int) + 2,
    decreases k,
{
    if k > 0 {
        lemma_iv_sum_bounds(iv, n, (k - 1) as nat);
    }
}

pub struct AesCTR {
    pub password: String,
    pub size_salt: String,
    pub passwd_outward: String,
    pub key: [u8; 16],
    pub iv: [u8; 16],
    pub source_iv: [u8; 16],
    /// Keystream bytes used since the stream started at `iv`.
    pub position: u64,
}

impl AesCTR {
    /// Derives the key and the counter block from the password and the
    /// size salt, and starts the keystream at byte 0.
    pub fn new(password: &str, size_salt: &str) -> (res: Self)
        requires
            vstd::utf8::encode_utf8(password@).len() < 0x1000_0000_0000_0000,
        ensures
            res.password@ == password@,
            res.size_salt@ == size_salt@,
            res.passwd_outward@ == passwd_outward_of(password@),
            res.passwd_outward@.len() == 32,
            res.key@ == key_of(password@, size_salt@),
            res.iv@ == iv_of(size_salt@),
            res.source_iv@ == iv_of(size_salt@),
            res.position == 0,
    {
        let salt = "AES-CTR".as_bytes();
        let iterations: u32 = 1000;
        let output_length: usize = 16;
        let mut out: Vec<u8> = vec![0; output_length];
        proof {
            reveal_strlit("AES-CTR");
            vstd::string::is_ascii_spec_bytes("AES-CTR");
        }
        assert(salt@ =~= "AES-CTR"@.map_values(|c: char| c as u8));
        pbkdf2_derive(iterations, salt, password.as_bytes(), &mut out);
        let hex_result = hex_encode(out.as_slice());
        proof {
            crate::text::lemma_hex_lower_len(out@);
        }
        let passwd_salt = hex_result.clone().concat(size_salt);
        let key: [u8; 16] = md5_digest(passwd_salt.as_str().as_bytes());
        let iv: [u8; 16] = md5_digest(size_salt.as_bytes());
        AesCTR {
            password: password.to_owned(),
            size_salt: size_salt.to_owned(),
            passwd_outward: hex_result,
            key,
            iv,
            source_iv: iv,
            position: 0,
        }
    }

    /// Adds `increment` to the counter block in the project's own base-(2^32-1)
    /// word arithmetic, from the last word up, carrying `sum / (2^32-1)`.
    fn increment_iv(&mut self, increment: u64)
        requires
            increment_iv_ok(old(self).iv@, increment as int),
        ensures
            final(self).iv@ == incremented_iv(old(self).iv@, increment as int),
            final(self).password == old(self).password,
            final(self).size_salt == old(self).size_salt,
            final(self).passwd_outward == old(self).passwd_outward,
            final(self).key == old(self).key,
            final(self).source_iv == old(self).source_iv,
            final(self).position == old(self).position,
    {
        let ghost iv0 = self.iv@;
        let ghost n = increment as int;
        let increment_big = increment / MAX_UINT32;
        let increment_little = (increment % MAX_UINT32) - increment_big;
        let mut overflow: u64 = 0;
        for idx in 0..4usize
            invariant
                iv0 == old(self).iv@,
                n == increment as int,
                increment_iv_ok(iv0, n),
                increment_big as int == iv_addend(n, 1),
                increment_little as int == iv_addend(n, 0),
                self.iv@.len() == 16,
                forall|b: int| 0 <= b < 16 - 4 * idx ==> self.iv@[b] == iv0[b],
                forall|b: int| 16 - 4 * idx <= b < 16 ==> self.iv@[b] == incremented_iv(iv0, n)[b],
                overflow as int == if idx == 0 { 0 } else { iv_sum(iv0, n, (idx - 1) as nat) / (MAX_UINT32 as int) },
                self.password == old(self).password,
                self.size_salt == old(self).size_salt,
                self.passwd_outward == old(self).passwd_outward,
                self.key == old(self).key,
                self.source_iv == old(self).source_iv,
                self.position == old(self).position,
        {
            proof {
                lemma_iv_sum_bounds(iv0, increment, idx as nat);
                if idx > 0 {
                    lemma_iv_sum_bounds(iv0, increment, (idx - 1) as nat);
                }
            }
            let b0 = self.iv[12 - idx * 4];
            let b1 = self.iv[13 - idx * 4];
            let b2 = self.iv[14 - idx * 4];
            let b3 = self.iv[15 - idx * 4];
            let num: u64 = (b0 as u64) * 0x100_0000 + (b1 as u64) * 0x1_0000 + (b2 as u64) * 0x100 + (b3 as u64);
            assert(num as int == iv_word(iv0, idx as int));
            let mut inc: u64 = overflow;
            if idx == 0 {
                inc += increment_little;
            }
            if idx == 1 {
                inc += increment_big;
            }
            let num = num.wrapping_add(inc);
            assert(num as int == iv_sum(iv0, n, idx as nat));
            let num_big = num / MAX_UINT32;
            assert(iv_digit(iv_sum(iv0, n, idx as nat)) >= 0);
            let num_little = (num % MAX_UINT32) - num_big;
            overflow = num_big;
            proof {
                lemma_be_bytes(num_little);
            }
            self.iv[12 - idx * 4] = ((num_little >> 24) & 0xff) as u8;
            self.iv[13 - idx * 4] = ((num_little >> 16) & 0xff) as u8;
            self.iv[14 - idx * 4] = ((num_little >> 8) & 0xff) as u8;
            self.iv[15 - idx * 4] = (num_little & 0xff) as u8;
        }
        assert(self.iv@ =~= incremented_iv(iv0, n));
    }

    /// Encrypts the next bytes of the stream: each byte is xored with the
    /// keystream byte at its position, and the position moves past them.
    pub fn encrypt(&mut self, message_bytes: Vec<u8>) -> (res: Vec<u8>)
        requires
            old(self).position + message_bytes@.len() <= u64::MAX,
        ensures
            res@ == ctr128be_apply(old(self).key@, old(self).iv@, old(self).position as int, message_bytes@),
            final(self).position == old(self).position + message_bytes@.len(),
            final(self).password == old(self).password,
            final(self).size_salt == old(self).size_salt,
            final(self).passwd_outward == old(self).passwd_outward,
            final(self).key == old(self).key,
            final(self).iv == old(self).iv,
            final(self).source_iv == old(self).source_iv,
    {
        let len = message_bytes.len();
        let encrypted_buffer = aes128_ctr128be_xor(&self.key, &self.iv, self.position, message_bytes);
        self.position = self.position + len as u64;
        assert(encrypted_buffer@ =~= ctr128be_apply(self.key@, self.iv@, old(self).position as int, message_bytes@));
        encrypted_buffer
    }

    /// Decrypts the next bytes of the stream; in counter mode this is the
    /// same xor with the keystream as `encrypt`.
    pub fn decrypt(&mut self, cipher_bytes: Vec<u8>) -> (res: Vec<u8>)
        requires
            old(self).position + cipher_bytes@.len() <= u64::MAX,
        ensures
            res@ == ctr128be_apply(old(self).key@, old(self).iv@, old(self).position as int, cipher_bytes@),
            final(self).position == old(self).position + cipher_bytes@.len(),
            final(self).password == old(self).password,
            final(self).size_salt == old(self).size_salt,
            final(self).passwd_outward == old(self).passwd_outward,
            final(self).key == old(self).key,
            final(self).iv == old(self).iv,
            final(self).source_iv == old(self).source_iv,
    {
        let len = cipher_bytes.len();
        let decrypted_buffer = aes128_ctr128be_xor(&self.key, &self.iv, self.position, cipher_bytes);
        self.position = self.position + len as u64;
        assert(decrypted_buffer@ =~= ctr128be_apply(self.key@, self.iv@, old(self).position as int, cipher_bytes@));
        decrypted_buffer
    }

    /// Moves the stream to byte `position` of the content: the counter block
    /// is advanced by `position / 16` blocks (with `increment_iv`, from the
    /// current block), a new keystream starts there, and its first
    /// `position % 16` bytes are used up.
    pub fn set_position(&mut self, position: usize)
        requires
            increment_iv_ok(old(self).iv@, (position / 16) as int),
        ensures
            final(self).iv@ == incremented_iv(old(self).iv@, (position / 16) as int),
            final(self).position == position % 16,
            final(self).password == old(self).password,
            final(self).size_salt == old(self).size_salt,
            final(self).passwd_outward == old(self).passwd_outward,
            final(self).key == old(self).key,
            final(self).source_iv == old(self).source_iv,
    {
        let increment = position / 16;
        self.increment_iv(increment as u64);
        self.position = 0;
        let offset = position % 16;
        let buffer: Vec<u8> = vec![0u8; offset];
        let _ = self.encrypt(buffer);
    }
}

proof fn lemma_xor_twice(a: u8, k: u8)
    ensures
        (a ^ k) ^ k == a,
{
    assert((a ^ k) ^ k == a) by (bit_vector);
}

/// Law: in counter mode, applying the keystream twice from the same
/// position gives the data back, so `decrypt` undoes `encrypt` on a cipher
/// in the same state.
pub proof fn lemma_ctr128be_involution(key: Seq<u8>, iv: Seq<u8>, offset: int, data: Seq<u8>)
    ensures
        ctr128be_apply(key, iv, offset, ctr128be_apply(key, iv, offset, data)) == data,
{
    let once = ctr128be_apply(key, iv, offset, data);
    assert forall|i: int| 0 <= i < data.len() implies #[trigger] ctr128be_apply(key, iv, offset, once)[i] == data[i] by {
        lemma_xor_twice(data[i], crate::crypto::aes128_ctr128be_keystream(key, iv, offset + i));
    }
    assert(ctr128be_apply(key, iv, offset, once) =~= data);
}

/// Law: the keystream is applied by absolute position, so processing data
/// in two consecutive calls gives the same bytes as one call on the whole.
pub proof fn lemma_ctr128be_split(key: Seq<u8>, iv: Seq<u8>, offset: int, a: Seq<u8>, b: Seq<u8>)
    ensures
        ctr128be_apply(key, iv, offset, a + b) == ctr128be_apply(key, iv, offset, a) + ctr128be_apply(
            key,
            iv,
            offset + a.len(),
            b,
        ),
{
    assert(ctr128be_apply(key, iv, offset, a + b) =~= ctr128be_apply(key, iv, offset, a) + ctr128be_apply(
        key,
        iv,
        offset + a.len(),
        b,
    ));
}

proof fn lemma_be_value_step(b: Seq<u8>, k: int)
    requires
        0 <= k < b.len(),
    ensures
        be_value(b.take(k + 1)) == be_value(b.take(k)) * 256 + b[k] as nat,
{
    assert(b.take(k + 1).drop_last() =~= b.take(k));
}

/// A 16-byte block read as a big-endian number is its four 32-bit words,
/// word 0 the least significant.
pub proof fn lemma_be_value_words(b: Seq<u8>)
    requires
        b.len() == 16,
    ensures
        be_value(b) == iv_word(b, 0) + iv_word(b, 1) * 0x1_0000_0000 + iv_word(b, 2) * 0x1_0000_0000_0000_0000
            + iv_word(b, 3) * 0x1_0000_0000_0000_0000_0000_0000,
{
    assert(b.take(0) =~= Seq::<u8>::empty());
    lemma_be_value_step(b, 0);
    lemma_be_value_step(b, 1);
    lemma_be_value_step(b, 2);
    lemma_be_value_step(b, 3);
    lemma_be_value_step(b, 4);
    lemma_be_value_step(b, 5);
    lemma_be_value_step(b, 6);
    lemma_be_value_step(b, 7);
    lemma_be_value_step(b, 8);
    lemma_be_value_step(b, 9);
    lemma_be_value_step(b, 10);
    lemma_be_value_step(b, 11);
    lemma_be_value_step(b, 12);
    lemma_be_value_step(b, 13);
    lemma_be_value_step(b, 14);
    lemma_be_value_step(b, 15);
    assert(b.take(16) =~= b);
}

/// The last eight bytes of a 16-byte block read as a big-endian number are
/// its words 0 and 1.
pub proof fn lemma_be_value_low_words(b: Seq<u8>)
    requires
        b.len() == 16,
    ensures
        be_value(b.skip(8)) == iv_word(b, 0) + iv_word(b, 1) * 0x1_0000_0000,
{
    let c = b.skip(8);
    assert(c.take(0) =~= Seq::<u8>::empty());
    lemma_be_value_step(c, 0);
    lemma_be_value_step(c, 1);
    lemma_be_value_step(c, 2);
    lemma_be_value_step(c, 3);
    lemma_be_value_step(c, 4);
    lemma_be_value_step(c, 5);
    lemma_be_value_step(c, 6);
    lemma_be_value_step(c, 7);
    assert(c.take(8) =~= c);
}

proof fn lemma_iv_sum_nonneg(iv: Seq<u8>, n: int, k: nat)
    requires
        iv.len() == 16,
        0 <= n,
        iv_addend(n, 0) >= 0,
        k < 4,
    ensures
        iv_sum(iv, n, k) >= 0,
    decreases k,
{
    assert(iv_word(iv, k as int) >= 0);
    vstd::arithmetic::div_mod::lemma_div_pos_is_pos(n, MAX_UINT32 as int);
    if k > 0 {
        lemma_iv_sum_nonneg(iv, n, (k - 1) as nat);
        vstd::arithmetic::div_mod::lemma_div_pos_is_pos(iv_sum(iv, n, (k - 1) as nat), MAX_UINT32 as int);
    }
}

/// The words of the block that `increment_iv(n)` leaves are the digits of
/// the sums, each below 2^32 - 1.
pub proof fn lemma_incremented_words(iv: Seq<u8>, n: int)
    requires
        iv.len() == 16,
        0 <= n,
        increment_iv_ok(iv, n),
    ensures
        forall|k: int| 0 <= k < 4 ==> 0 <= #[trigger] iv_digit(iv_sum(iv, n, k as nat)) < MAX_UINT32,
        forall|k: int| 0 <= k < 4 ==> #[trigger] iv_word(incremented_iv(iv, n), k) == iv_digit(iv_sum(iv, n, k as nat)),
{
    let r = incremented_iv(iv, n);
    let m = MAX_UINT32 as int;
    assert forall|k: int| 0 <= k < 4 implies 0 <= #[trigger] iv_digit(iv_sum(iv, n, k as nat)) < MAX_UINT32 by {
        let s = iv_sum(iv, n, k as nat);
        lemma_iv_sum_nonneg(iv, n, k as nat);
        vstd::arithmetic::div_mod::lemma_div_pos_is_pos(s, m);
        vstd::arithmetic::div_mod::lemma_mod_bound(s, m);
        assert(iv_digit(s) >= 0);
    }
    assert forall|k: int| 0 <= k < 4 implies #[trigger] iv_word(r, k) == iv_digit(iv_sum(iv, n, k as nat)) by {
        let w = iv_digit(iv_sum(iv, n, k as nat));
        assert(0 <= w < m);
        assert(r[12 - 4 * k] == be_byte(w, 0));
        assert(r[13 - 4 * k] == be_byte(w, 1));
        assert(r[14 - 4 * k] == be_byte(w, 2));
        assert(r[15 - 4 * k] == be_byte(w, 3));
        lemma_be_word(w);
    }
}

/// Each sum of `increment_iv` is its digit plus its carry times 2^32.
proof fn lemma_sum_split(s: int)
    ensures
        s == iv_digit(s) + (s / (MAX_UINT32 as int)) * 0x1_0000_0000,
{
    let m = MAX_UINT32 as int;
    vstd::arithmetic::div_mod::lemma_fundamental_div_mod(s, m);
}

/// Law: whenever `increment_iv(n)` runs without underflow, it is addition
/// of `n` to the block read as a 128-bit big-endian number, wrapping at
/// 2^128, in spite of its base-(2^32 - 1) look.
pub proof fn lemma_increment_iv_is_addition(iv: Seq<u8>, n: int)
    requires
        iv.len() == 16,
        0 <= n,
        increment_iv_ok(iv, n),
    ensures
        be_value(incremented_iv(iv, n)) == (be_value(iv) + n) % 0x1_0000_0000_0000_0000_0000_0000_0000_0000int,
{
    let m = MAX_UINT32 as int;
    let r = incremented_iv(iv, n);
    lemma_incremented_words(iv, n);
    lemma_be_value_words(iv);
    lemma_be_value_words(r);
    let s0 = iv_sum(iv, n, 0);
    let s1 = iv_sum(iv, n, 1);
    let s2 = iv_sum(iv, n, 2);
    let s3 = iv_sum(iv, n, 3);
    lemma_sum_split(s0);
    lemma_sum_split(s1);
    lemma_sum_split(s2);
    lemma_sum_split(s3);
    vstd::arithmetic::div_mod::lemma_fundamental_div_mod(n, m);
    assert(iv_addend(n, 0) + iv_addend(n, 1) * 0x1_0000_0000 == n);
    assert(iv_word(r, 0) == iv_digit(s0));
    assert(iv_word(r, 1) == iv_digit(s1));
    assert(iv_word(r, 2) == iv_digit(s2));
    assert(iv_word(r, 3) == iv_digit(s3));
    assert(0 <= iv_word(iv, 0) <= 0xffff_ffff);
    assert(0 <= iv_word(iv, 1) <= 0xffff_ffff);
    assert(0 <= iv_word(iv, 2) <= 0xffff_ffff);
    assert(0 <= iv_word(iv, 3) <= 0xffff_ffff);
    assert(s0 >= 0);
    vstd::arithmetic::div_mod::lemma_div_pos_is_pos(s0, m);
    assert(s1 >= 0);
    vstd::arithmetic::div_mod::lemma_div_pos_is_pos(s1, m);
    assert(s2 >= 0);
    vstd::arithmetic::div_mod::lemma_div_pos_is_pos(s2, m);
    assert(s3 >= 0);
    vstd::arithmetic::div_mod::lemma_div_pos_is_pos(s3, m);
    let c3 = s3 / m;
    let p = 0x1_0000_0000_0000_0000_0000_0000_0000_0000int;
    assert(be_value(r) == be_value(iv) + n - c3 * p);
    assert(0 <= be_value(r) < p);
    assert(be_value(r) == (be_value(iv) + n) % p) by (nonlinear_arith)
        requires
            be_value(r) == be_value(iv) + n - c3 * p,
            0 <= be_value(r) < p,
            c3 >= 0,
            p == 0x1_0000_0000_0000_0000_0000_0000_0000_0000int,
    {
        vstd::arithmetic::div_mod::lemma_fundamental_div_mod(be_value(iv) + n, p);
        vstd::arithmetic::div_mod::lemma_mod_multiples_vanish(c3, be_value(r) as int, p);
        vstd::arithmetic::div_mod::lemma_small_mod(be_value(r) as nat, p as nat);
    }
}

proof fn lemma_seek_byte(key: Seq<u8>, iv: Seq<u8>, p: int, i: int)
    requires
        0 <= p,
        0 <= i,
        be_value(incremented_iv(iv, p / 16)) == (be_value(iv) + p / 16)
            % 0x1_0000_0000_0000_0000_0000_0000_0000_0000int,
    ensures
        aes128_ctr128be_keystream(key, incremented_iv(iv, p / 16), p % 16 + i)
            == aes128_ctr128be_keystream(key, iv, p + i),
{
    let q = p / 16;
    let j = (p % 16 + i) / 16;
    let big = 0x1_0000_0000_0000_0000_0000_0000_0000_0000int;
    let x = be_value(iv) + q;
    vstd::arithmetic::div_mod::lemma_fundamental_div_mod(p, 16);
    vstd::arithmetic::div_mod::lemma_hoist_over_denominator(p % 16 + i, q, 16);
    vstd::arithmetic::div_mod::lemma_mod_multiples_vanish(q, p % 16 + i, 16);
    assert(p + i == 16 * q + (p % 16 + i));
    assert((p + i) / 16 == q + j);
    assert((p + i) % 16 == (p % 16 + i) % 16);
    vstd::arithmetic::div_mod::lemma_add_mod_noop_right(j, x, big);
    assert((be_value(incremented_iv(iv, q)) + j) % big == (x + j) % big);
    assert(ctr128be_block(incremented_iv(iv, q), j) == ctr128be_block(iv, (p + i) / 16));
}

/// Law: `set_position(p)` gives random access into the stream. From the
/// block that `increment_iv(p / 16)` leaves, byte `p % 16` on, the
/// keystream is the one that started at the first block, from byte `p` on:
/// data decrypted after repositioning is what decrypting the whole content
/// gives at that place.
pub proof fn lemma_set_position_seeks(key: Seq<u8>, iv: Seq<u8>, p: int, data: Seq<u8>)
    requires
        iv.len() == 16,
        0 <= p,
        increment_iv_ok(iv, p / 16),
    ensures
        ctr128be_apply(key, incremented_iv(iv, p / 16), p % 16, data) == ctr128be_apply(key, iv, p, data),
{
    let r = incremented_iv(iv, p / 16);
    lemma_increment_iv_is_addition(iv, p / 16);
    assert forall|i: int| 0 <= i < data.len() implies #[trigger] ctr128be_apply(key, r, p % 16, data)[i]
        == ctr128be_apply(key, iv, p, data)[i] by {
        lemma_seek_byte(key, iv, p, i);
    }
    assert(ctr128be_apply(key, r, p % 16, data) =~= ctr128be_apply(key, iv, p, data));
}

/// 2^(32 j) for a word number `j` below 4.
pub open spec fn word_base(j: int) -> int {
    if j == 0 {
        1
    } else if j == 1 {
        0x1_0000_0000
    } else if j == 2 {
        0x1_0000_0000_0000_0000
    } else {
        0x1_0000_0000_0000_0000_0000_0000
    }
}

/// 32-bit word `j` (0 the least significant) of a number.
pub open spec fn word_at(v: int, j: int) -> int {
    (v / word_base(j)) % 0x1_0000_0000
}

/// The counter block that the keystream starts from after moving `n`
/// blocks on from `iv`, as a 128-bit number: `iv` plus `n`, wrapping.
pub open spec fn counter_after(iv: Seq<u8>, n: int) -> int {
    (be_value(iv) + n) % 0x1_0000_0000_0000_0000_0000_0000_0000_0000int
}

/// A number whose low part below `b` is `low` and whose part from `b` on is
/// one less than a multiple of 2^32 has the word at `b` all ones.
proof fn lemma_word_all_ones(t: int, low: int, b: int, q: int)
    requires
        b > 0,
        0 <= low < b,
        t == low + b * (0x1_0000_0000 * q - 1),
    ensures
        (t / b) % 0x1_0000_0000 == 0xffff_ffff,
{
    vstd::arithmetic::div_mod::lemma_div_multiples_vanish_fancy(0x1_0000_0000 * q - 1, low, b);
    assert(b * (0x1_0000_0000 * q - 1) + low == t);
    assert(t / b == 0x1_0000_0000 * q - 1);
    vstd::arithmetic::div_mod::lemma_mod_multiples_vanish(q, -1, 0x1_0000_0000);
}

/// With an increment below 2^32 - 1 every sum of `increment_iv` lies below
/// 2(2^32 - 1), so its carry is 0 or 1 and its digit at least -1.
proof fn lemma_small_sums(iv: Seq<u8>, n: int, k: nat)
    requires
        iv.len() == 16,
        0 <= n < MAX_UINT32,
        k < 4,
    ensures
        0 <= iv_sum(iv, n, k) < 2 * (MAX_UINT32 as int),
        0 <= iv_sum(iv, n, k) / (MAX_UINT32 as int) <= 1,
        iv_digit(iv_sum(iv, n, k)) >= -1,
        iv_digit(iv_sum(iv, n, k)) == -1 <==> iv_sum(iv, n, k) == MAX_UINT32,
        iv_digit(iv_sum(iv, n, k)) < 0x1_0000_0000,
    decreases k,
{
    let m = MAX_UINT32 as int;
    assert(n % m == n && n / m == 0) by {
        vstd::arithmetic::div_mod::lemma_small_mod(n as nat, m as nat);
        vstd::arithmetic::div_mod::lemma_fundamental_div_mod(n, m);
    }
    assert(0 <= iv_word(iv, k as int) <= 0xffff_ffff);
    if k > 0 {
        lemma_small_sums(iv, n, (k - 1) as nat);
    }
    let s = iv_sum(iv, n, k);
    assert(0 <= s < 2 * m);
    vstd::arithmetic::div_mod::lemma_fundamental_div_mod(s, m);
    vstd::arithmetic::div_mod::lemma_mod_bound(s, m);
    let c = s / m;
    let r = s % m;
    assert(0 <= c <= 1) by (nonlinear_arith)
        requires
            s == m * c + r,
            0 <= r < m,
            0 <= s < 2 * m,
            m > 0,
    ;
}

/// Law: the condition of the counter arithmetic, read on the counter
/// itself. For fewer than 2^32 - 1 blocks, `increment_iv` runs without
/// underflow whenever no 32-bit word of the block it should reach (`iv`
/// plus the block count, wrapping at 2^128) is all ones; the seek law
/// then holds.
pub proof fn lemma_no_all_ones_word_is_ok(iv: Seq<u8>, n: int)
    requires
        iv.len() == 16,
        0 <= n < MAX_UINT32,
        forall|j: int| 0 <= j < 4 ==> #[trigger] word_at(counter_after(iv, n), j) != 0xffff_ffff,
    ensures
        increment_iv_ok(iv, n),
{
    let m = MAX_UINT32 as int;
    let x = 0x1_0000_0000int;
    let big = 0x1_0000_0000_0000_0000_0000_0000_0000_0000int;
    lemma_small_sums(iv, n, 0);
    lemma_small_sums(iv, n, 1);
    lemma_small_sums(iv, n, 2);
    lemma_small_sums(iv, n, 3);
    assert(n % m == n && n / m == 0) by {
        vstd::arithmetic::div_mod::lemma_small_mod(n as nat, m as nat);
        vstd::arithmetic::div_mod::lemma_fundamental_div_mod(n, m);
    }
    let s0 = iv_sum(iv, n, 0);
    let s1 = iv_sum(iv, n, 1);
    let s2 = iv_sum(iv, n, 2);
    let s3 = iv_sum(iv, n, 3);
    lemma_sum_split(s0);
    lemma_sum_split(s1);
    lemma_sum_split(s2);
    lemma_sum_split(s3);
    let d0 = iv_digit(s0);
    let d1 = iv_digit(s1);
    let d2 = iv_digit(s2);
    let d3 = iv_digit(s3);
    let c3 = s3 / m;
    lemma_be_value_words(iv);
    let v = be_value(iv) + n;
    assert(iv_addend(n, 0) == n && iv_addend(n, 1) == 0);
    assert(s0 == iv_word(iv, 0) + n);
    assert(s1 == iv_word(iv, 1) + s0 / m);
    assert(s2 == iv_word(iv, 2) + s1 / m);
    assert(s3 == iv_word(iv, 3) + s2 / m);
    assert(v == d0 + d1 * 0x1_0000_0000 + d2 * 0x1_0000_0000_0000_0000 + d3 * 0x1_0000_0000_0000_0000_0000_0000
        + c3 * 0x1_0000_0000_0000_0000_0000_0000_0000_0000int);
    assert(x * x == 0x1_0000_0000_0000_0000int && x * x * x == 0x1_0000_0000_0000_0000_0000_0000int);
    assert(v == d0 + d1 * x + d2 * (x * x) + d3 * (x * x * x) + c3 * big);
    let t = counter_after(iv, n);
    vstd::arithmetic::div_mod::lemma_fundamental_div_mod(v, big);
    let f = v / big;
    assert(t == v - big * f);
    assert forall|k: nat| k < 4 implies iv_digit(#[trigger] iv_sum(iv, n, k)) >= 0 by {
        if d0 < 0 {
            assert(d0 == -1);
            lemma_word_all_ones(t, 0, 1, d1 + d2 * x + d3 * (x * x) + (c3 - f) * (x * x * x));
            assert(word_at(t, 0) != 0xffff_ffff);
        } else if d1 < 0 {
            assert(d1 == -1);
            lemma_word_all_ones(t, d0, x, d2 + d3 * x + (c3 - f) * (x * x));
            assert(word_at(t, 1) != 0xffff_ffff);
        } else if d2 < 0 {
            assert(d2 == -1);
            lemma_word_all_ones(t, d0 + d1 * x, x * x, d3 + (c3 - f) * x);
            assert(word_at(t, 2) != 0xffff_ffff);
        } else if d3 < 0 {
            assert(d3 == -1);
            lemma_word_all_ones(t, d0 + d1 * x + d2 * (x * x), x * x * x, c3 - f);
            assert(word_at(t, 3) != 0xffff_ffff);
        }
        assert(d0 >= 0 && d1 >= 0 && d2 >= 0 && d3 >= 0);
        if k == 0 {
        } else if k == 1 {
        } else if k == 2 {
        } else {
        }
    }
}

/// Law: random access on the counter's own terms. After `set_position(p)`
/// with `p / 16` below 2^32 - 1, when no 32-bit word of `iv` plus `p / 16`
/// (wrapping at 2^128) is all ones, the new counter block is that sum and
/// the keystream from byte `p % 16` on is the one that started at `iv`,
/// from byte `p` on.
pub proof fn lemma_seek_when_no_word_is_all_ones(key: Seq<u8>, iv: Seq<u8>, p: int, data: Seq<u8>)
    requires
        iv.len() == 16,
        0 <= p,
        p / 16 < MAX_UINT32,
        forall|j: int| 0 <= j < 4 ==> #[trigger] word_at(counter_after(iv, p / 16), j) != 0xffff_ffff,
    ensures
        increment_iv_ok(iv, p / 16),
        be_value(incremented_iv(iv, p / 16)) == counter_after(iv, p / 16),
        ctr128be_apply(key, incremented_iv(iv, p / 16), p % 16, data) == ctr128be_apply(key, iv, p, data),
{
    vstd::arithmetic::div_mod::lemma_div_pos_is_pos(p, 16);
    lemma_no_all_ones_word_is_ok(iv, p / 16);
    lemma_increment_iv_is_addition(iv, p / 16);
    lemma_set_position_seeks(key, iv, p, data);
}

pub proof fn lemma_be_word(w: int)
    requires
        0 <= w < 0x1_0000_0000,
    ensures
        be_byte(w, 0) as int * 0x100_0000 + be_byte(w, 1) as int * 0x1_0000 + be_byte(w, 2) as int * 0x100
            + be_byte(w, 3) as int == w,
{
    let x = w as u32;
    assert((x / 0x100_0000 % 0x100) * 0x100_0000 + (x / 0x1_0000 % 0x100) * 0x1_0000 + (x / 0x100 % 0x100)
        * 0x100 + x % 0x100 == x) by (bit_vector);
}

} // verus!
