//! The earlier AES-CTR content cipher: the same key derivation as
//! `aesctr`, a 64-bit big-endian counter (`Ctr64BE`), in-place decryption,
//! and repositioning by whole blocks with 32-bit counter arithmetic.

use vstd::prelude::*;
use vstd::string::{StringExecFns, StringSliceAdditionalSpecFns};

use crate::crypto::{
    aes128_ctr64be_keystream, aes128_ctr64be_xor, be_value, ctr64be_apply, ctr64be_block, hex_encode,
    md5_digest, pbkdf2_derive,
};
use crate::utils::aesctr::{
    MAX_UINT32, be_byte, increment_iv_ok, incremented_iv, iv_addend, iv_digit, iv_of, iv_sum, iv_word,
    key_of, lemma_be_value_low_words, lemma_be_word, lemma_incremented_words, passwd_outward_of,
};

verus! {

/// The inputs on which the 32-bit `increment_iv` runs without overflow or
/// underflow: those of the 64-bit arithmetic, and no sum above 2^32 - 1.
pub open spec fn increment_iv32_ok(iv: Seq<u8>, n: int) -> bool {
    &&& increment_iv_ok(iv, n)
    &&& forall|k: nat| k < 4 ==> #[trigger] iv_sum(iv, n, k) <= u32::MAX
}

proof fn lemma_be_bytes32(x: u32)
    ensures
        ((x >> 24u32) & 0xffu32) == x / 0x100_0000 % 0x100,
        ((x >> 16u32) & 0xffu32) == x / 0x1_0000 % 0x100,
        ((x >> 8u32) & 0xffu32) == x / 0x100 % 0x100,
        (x & 0xffu32) == x % 0x100,
{
    assert(((x >> 24u32) & 0xffu32) == x / 0x100_0000 % 0x100) by (bit_vector);
    assert(((x >> 16u32) & 0xffu32) == x / 0x1_0000 % 0x100) by (bit_vector);
    assert(((x >> 8u32) & 0xffu32) == x / 0x100 % 0x100) by (bit_vector);
    assert((x & 0xffu32) == x % 0x100) by (bit_vector);
}

/// Without overflow, no sum reaches 2^32 - 1, so nothing is carried: the
/// increment's low part lands on the last word and its high part on the
/// word before.
proof fn lemma_no_carry32(iv: Seq<u8>, n: int, k: nat)
    requires
        iv.len() == 16,
        0 <= n <= u32::MAX,
        increment_iv32_ok(iv, n),
        k < 4,
    ensures
        iv_sum(iv, n, k) == iv_word(iv, k as int) + iv_addend(n, k as int),
        0 <= iv_sum(iv, n, k) < MAX_UINT32,
        iv_digit(iv_sum(iv, n, k)) == iv_sum(iv, n, k),
    decreases k,
{
    assert(iv_digit(iv_sum(iv, n, k)) >= 0);
    assert(iv_sum(iv, n, k) <= u32::MAX);
    if k > 0 {
        lemma_no_carry32(iv, n, (k - 1) as nat);
    }
    assert(iv_sum(iv, n, k) >= 0);
    let m = MAX_UINT32 as int;
    let sk = iv_sum(iv, n, k);
    if sk == m {
        assert(sk % m == 0 && sk / m == 1);
    }
}

pub struct AesCTR {
    pub password: String,
    pub sizeSalt: String,
    pub passwdOutward: String,
    pub key: [u8; 16],
    pub iv: [u8; 16],
    pub source_iv: [u8; 16],
    /// Keystream bytes used since the stream started at `iv`.
    pub position: u64,
}

impl AesCTR {
    /// Derives the key and the counter block as `aesctr::AesCTR::new` does,
    /// and starts the keystream at byte 0.
    pub fn new(password: &str, size_salt: &str) -> (res: Self)
        requires
            vstd::utf8::encode_utf8(password@).len() < 0x1000_0000_0000_0000,
        ensures
            res.password@ == password@,
            res.sizeSalt@ == size_salt@,
            res.passwdOutward@ == passwd_outward_of(password@),
            res.passwdOutward@.len() == 32,
            res.key@ == key_of(password@, size_salt@),
            res.iv@ == iv_of(size_salt@),
            res.source_iv@ == iv_of(size_salt@),
            res.position == 0,
    {
        let salt = "AES-CTR".as_bytes();
        let iterations: u32 = 1000;
        let output_length: usize = 16;
        let mut out: Vec<u8> = vec![0; output_length];
        proof {
            reveal_strlit("AES-CTR");
            vstd::string::is_ascii_spec_bytes("AES-CTR");
        }
        assert(salt@ =~= "AES-CTR"@.map_values(|c: char| c as u8));
        pbkdf2_derive(iterations, salt, password.as_bytes(), &mut out);
        let hex_result = hex_encode(out.as_slice());
        proof {
            crate::text::lemma_hex_lower_len(out@);
        }
        let passwd_salt = hex_result.clone().concat(size_salt);
        let key: [u8; 16] = md5_digest(passwd_salt.as_str().as_bytes());
        let iv: [u8; 16] = md5_digest(size_salt.as_bytes());
        AesCTR {
            password: password.to_owned(),
            sizeSalt: size_salt.to_owned(),
            passwdOutward: hex_result,
            key,
            iv,
            source_iv: iv,
            position: 0,
        }
    }

    /// Decrypts `buf` in place with the next keystream bytes.
    pub fn decrypt(&mut self, buf: &mut Vec<u8>)
        requires
            old(self).position + old(buf)@.len() <= u64::MAX,
        ensures
            final(buf)@ == ctr64be_apply(old(self).key@, old(self).iv@, old(self).position as int, old(buf)@),
            final(self).position == old(self).position + old(buf)@.len(),
            final(self).password == old(self).password,
            final(self).sizeSalt == old(self).sizeSalt,
            final(self).passwdOutward == old(self).passwdOutward,
            final(self).key == old(self).key,
            final(self).iv == old(self).iv,
            final(self).source_iv == old(self).source_iv,
    {
        let mut data: Vec<u8> = Vec::new();
        std::mem::swap(&mut data, buf);
        let len = data.len();
        let out = aes128_ctr64be_xor(&self.key, &self.iv, self.position, data);
        assert(out@ =~= ctr64be_apply(self.key@, self.iv@, self.position as int, old(buf)@));
        *buf = out;
        self.position = self.position + len as u64;
    }

    /// Moves the counter block on by `position / 16` blocks (cut to 32
    /// bits) and starts a new keystream there, at its byte 0.
    pub fn set_position(&mut self, position: usize)
        requires
            increment_iv32_ok(old(self).iv@, ((position / 16) as u32) as int),
        ensures
            final(self).iv@ == incremented_iv(old(self).iv@, ((position / 16) as u32) as int),
            final(self).position == 0,
            final(self).password == old(self).password,
            final(self).sizeSalt == old(self).sizeSalt,
            final(self).passwdOutward == old(self).passwdOutward,
            final(self).key == old(self).key,
            final(self).source_iv == old(self).source_iv,
    {
        let increment = position / 16;
        self.increment_iv(increment as u32);
        self.position = 0;
    }

    /// Adds `increment` to the counter block in base-(2^32-1) word
    /// arithmetic on 32-bit words, from the last word up.
    fn increment_iv(&mut self, increment: u32)
        requires
            increment_iv32_ok(old(self).iv@, increment as int),
        ensures
            final(self).iv@ == incremented_iv(old(self).iv@, increment as int),
            final(self).password == old(self).password,
            final(self).sizeSalt == old(self).sizeSalt,
            final(self).passwdOutward == old(self).passwdOutward,
            final(self).key == old(self).key,
            final(self).source_iv == old(self).source_iv,
            final(self).position == old(self).position,
    {
        let ghost iv0 = self.iv@;
        let ghost n = increment as int;
        let max_uint32: u32 = 0xffff_ffff;
        let increment_big: u32 = increment / max_uint32;
        let increment_little: u32 = (increment % max_uint32) - increment_big;
        let mut overflow: u32 = 0;
        for idx in 0..4usize
            invariant
                iv0 == old(self).iv@,
                n == increment as int,
                0 <= n <= u32::MAX,
                increment_iv32_ok(iv0, n),
                max_uint32 == MAX_UINT32,
                increment_big as int == iv_addend(n, 1),
                increment_little as int == iv_addend(n, 0),
                self.iv@.len() == 16,
                forall|b: int| 0 <= b < 16 - 4 * idx ==> self.iv@[b] == iv0[b],
                forall|b: int| 16 - 4 * idx <= b < 16 ==> self.iv@[b] == incremented_iv(iv0, n)[b],
                overflow == 0,
                self.password == old(self).password,
                self.sizeSalt == old(self).sizeSalt,
                self.passwdOutward == old(self).passwdOutward,
                self.key == old(self).key,
                self.source_iv == old(self).source_iv,
                self.position == old(self).position,
        {
            proof {
                lemma_no_carry32(iv0, n, idx as nat);
            }
            let b0 = self.iv[12 - idx * 4];
            let b1 = self.iv[13 - idx * 4];
            let b2 = self.iv[14 - idx * 4];
            let b3 = self.iv[15 - idx * 4];
            let mut num: u32 = (b0 as u32) * 0x100_0000 + (b1 as u32) * 0x1_0000 + (b2 as u32) * 0x100 + (b3 as u32);
            assert(num as int == iv_word(iv0, idx as int));
            let mut inc: u32 = overflow;
            if idx == 0 {
                inc += increment_little;
            }
            if idx == 1 {
                inc += increment_big;
            }
            num += inc;
            let num_big: u32 = num / max_uint32;
            let num_little: u32 = (num % max_uint32) - num_big;
            overflow = num_big;
            proof {
                lemma_be_bytes32(num_little);
            }
            self.iv[12 - idx * 4] = ((num_little >> 24) & 0xff) as u8;
            self.iv[13 - idx * 4] = ((num_little >> 16) & 0xff) as u8;
            self.iv[14 - idx * 4] = ((num_little >> 8) & 0xff) as u8;
            self.iv[15 - idx * 4] = (num_little & 0xff) as u8;
        }
        assert(self.iv@ =~= incremented_iv(iv0, n));
    }
}


/// Law: applying the `Ctr64BE` keystream twice from the same position gives
/// the data back, so decrypting is its own inverse on a cipher in the same
/// state.
pub proof fn lemma_ctr64be_involution(key: Seq<u8>, iv: Seq<u8>, offset: int, data: Seq<u8>)
    ensures
        ctr64be_apply(key, iv, offset, ctr64be_apply(key, iv, offset, data)) == data,
{
    let once = ctr64be_apply(key, iv, offset, data);
    assert forall|i: int| 0 <= i < data.len() implies #[trigger] ctr64be_apply(key, iv, offset, once)[i] == data[i] by {
        let k = crate::crypto::aes128_ctr64be_keystream(key, iv, offset + i);
        let a = data[i];
        assert((a ^ k) ^ k == a) by (bit_vector);
    }
    assert(ctr64be_apply(key, iv, offset, once) =~= data);
}


/// Law: the `Ctr64BE` keystream is applied by absolute position, so
/// decrypting in two consecutive calls gives the same bytes as one call.
pub proof fn lemma_ctr64be_split(key: Seq<u8>, iv: Seq<u8>, offset: int, a: Seq<u8>, b: Seq<u8>)
    ensures
        ctr64be_apply(key, iv, offset, a + b) == ctr64be_apply(key, iv, offset, a) + ctr64be_apply(
            key,
            iv,
            offset + a.len(),
            b,
        ),
{
    assert(ctr64be_apply(key, iv, offset, a + b) =~= ctr64be_apply(key, iv, offset, a) + ctr64be_apply(
        key,
        iv,
        offset + a.len(),
        b,
    ));
}


proof fn lemma_word_bytes_unique(b0: int, b1: int, b2: int, b3: int, c0: int, c1: int, c2: int, c3: int)
    requires
        0 <= b0 < 256,
        0 <= b1 < 256,
        0 <= b2 < 256,
        0 <= b3 < 256,
        0 <= c0 < 256,
        0 <= c1 < 256,
        0 <= c2 < 256,
        0 <= c3 < 256,
        b0 * 0x100_0000 + b1 * 0x1_0000 + b2 * 0x100 + b3 == c0 * 0x100_0000 + c1 * 0x1_0000 + c2 * 0x100 + c3,
    ensures
        b0 == c0,
        b1 == c1,
        b2 == c2,
        b3 == c3,
{
}

/// A word that `increment_iv` leaves as it was keeps its four bytes.
proof fn lemma_same_word_same_bytes(iv: Seq<u8>, r: Seq<u8>, k: int)
    requires
        iv.len() == 16,
        0 <= k < 4,
        r[12 - 4 * k] == be_byte(iv_word(iv, k), 0),
        r[13 - 4 * k] == be_byte(iv_word(iv, k), 1),
        r[14 - 4 * k] == be_byte(iv_word(iv, k), 2),
        r[15 - 4 * k] == be_byte(iv_word(iv, k), 3),
    ensures
        r[12 - 4 * k] == iv[12 - 4 * k],
        r[13 - 4 * k] == iv[13 - 4 * k],
        r[14 - 4 * k] == iv[14 - 4 * k],
        r[15 - 4 * k] == iv[15 - 4 * k],
{
    let w = iv_word(iv, k);
    assert(0 <= w < 0x1_0000_0000);
    lemma_be_word(w);
    lemma_word_bytes_unique(
        be_byte(w, 0) as int,
        be_byte(w, 1) as int,
        be_byte(w, 2) as int,
        be_byte(w, 3) as int,
        iv[12 - 4 * k] as int,
        iv[13 - 4 * k] as int,
        iv[14 - 4 * k] as int,
        iv[15 - 4 * k] as int,
    );
}

/// Law: `set_position(p)` of this cipher goes back to the start of the
/// block that holds byte `p`. From the block that `increment_iv(n)` leaves,
/// byte 0 on, the keystream is the one that started at the first block,
/// from byte `16 * n` on (`n` being `p / 16` cut to 32 bits).
pub proof fn lemma_set_position_restarts_at_block(key: Seq<u8>, iv: Seq<u8>, n: int, data: Seq<u8>)
    requires
        iv.len() == 16,
        0 <= n <= u32::MAX,
        increment_iv32_ok(iv, n),
    ensures
        ctr64be_apply(key, incremented_iv(iv, n), 0, data) == ctr64be_apply(key, iv, 16 * n, data),
{
    let r = incremented_iv(iv, n);
    let m = MAX_UINT32 as int;
    lemma_incremented_words(iv, n);
    lemma_no_carry32(iv, n, 0);
    lemma_no_carry32(iv, n, 1);
    lemma_no_carry32(iv, n, 2);
    lemma_no_carry32(iv, n, 3);
    assert(iv_sum(iv, n, 2) == iv_word(iv, 2));
    assert(iv_sum(iv, n, 3) == iv_word(iv, 3));
    lemma_same_word_same_bytes(iv, r, 2);
    lemma_same_word_same_bytes(iv, r, 3);
    assert(r.take(8) =~= iv.take(8));
    lemma_be_value_low_words(iv);
    lemma_be_value_low_words(r);
    vstd::arithmetic::div_mod::lemma_fundamental_div_mod(n, m);
    assert(iv_addend(n, 0) + iv_addend(n, 1) * 0x1_0000_0000 == n);
    assert(be_value(r.skip(8)) == be_value(iv.skip(8)) + n);
    assert forall|i: int| 0 <= i < data.len() implies #[trigger] ctr64be_apply(key, r, 0, data)[i]
        == ctr64be_apply(key, iv, 16 * n, data)[i] by {
        vstd::arithmetic::div_mod::lemma_hoist_over_denominator(i, n, 16);
        vstd::arithmetic::div_mod::lemma_mod_multiples_vanish(n, i, 16);
        assert((16 * n + i) / 16 == n + i / 16);
        assert((16 * n + i) % 16 == i % 16);
        assert(ctr64be_block(r, i / 16) == ctr64be_block(iv, (16 * n + i) / 16));
        assert(aes128_ctr64be_keystream(key, r, 0 + i) == aes128_ctr64be_keystream(key, iv, 16 * n + i));
    }
    assert(ctr64be_apply(key, r, 0, data) =~= ctr64be_apply(key, iv, 16 * n, data));
}

} // verus!
