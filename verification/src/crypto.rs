//! The cryptographic primitives that the library takes from outside crates:
//! digests (SHA-256, SHA-1, MD5), PBKDF2, hexadecimal and Base64 encoding,
//! and the AES-128 counter-mode keystreams. Each is a trusted item whose
//! contract names what the outside code computes.

use ctr::cipher::{KeyIvInit, StreamCipher, StreamCipherSeek};
use sha2::Digest;
use std::num::NonZeroU32;
use vstd::prelude::*;

use crate::text::hex_lower;

verus! {

/// The SHA-256 digest of a byte sequence (32 bytes).
pub uninterp spec fn sha256(data: Seq<u8>) -> Seq<u8>;

/// The SHA-1 digest of a byte sequence (20 bytes).
pub uninterp spec fn sha1(data: Seq<u8>) -> Seq<u8>;

/// The MD5 digest of a byte sequence (16 bytes).
pub uninterp spec fn md5(data: Seq<u8>) -> Seq<u8>;

/// The first `len` bytes that PBKDF2 with HMAC-SHA256 derives from the
/// password `secret` and `salt` in `iterations` rounds (RFC 2898).
pub uninterp spec fn pbkdf2_hmac_sha256(iterations: u32, salt: Seq<u8>, secret: Seq<u8>, len: nat) -> Seq<u8>;

/// The AES-128 encryption of one 16-byte block under `key` (the block
/// cipher `aes::Aes128`).
pub uninterp spec fn aes128_encrypt_block(key: Seq<u8>, block: Seq<u8>) -> Seq<u8>;

/// The number that a byte sequence writes in big-endian order.
pub open spec fn be_value(b: Seq<u8>) -> nat
    decreases b.len(),
{
    if b.len() == 0 {
        0
    } else {
        be_value(b.drop_last()) * 256 + b.last() as nat
    }
}

/// The last `len` bytes of `v` in big-endian order.
pub open spec fn be_bytes(v: nat, len: nat) -> Seq<u8>
    decreases len,
{
    if len == 0 {
        Seq::empty()
    } else {
        be_bytes(v / 256, (len - 1) as nat).push((v % 256) as u8)
    }
}

/// Counter block number `n` of the `Ctr128BE` flavor started at `iv`: the
/// block read as a 128-bit big-endian number, plus `n`, wrapping.
pub open spec fn ctr128be_block(iv: Seq<u8>, n: int) -> Seq<u8> {
    be_bytes(((be_value(iv) + n) % 0x1_0000_0000_0000_0000_0000_0000_0000_0000int) as nat, 16)
}

/// Counter block number `n` of the `Ctr64BE` flavor started at `iv`: the
/// first eight bytes kept as the nonce, the last eight read as a 64-bit
/// big-endian number, plus `n`, wrapping.
pub open spec fn ctr64be_block(iv: Seq<u8>, n: int) -> Seq<u8> {
    iv.take(8) + be_bytes(((be_value(iv.skip(8)) + n) % 0x1_0000_0000_0000_0000int) as nat, 8)
}

/// Byte number `pos` of the AES-128 keystream of the `Ctr128BE` flavor:
/// byte `pos % 16` of the encryption of counter block `pos / 16`.
pub open spec fn aes128_ctr128be_keystream(key: Seq<u8>, iv: Seq<u8>, pos: int) -> u8 {
    aes128_encrypt_block(key, ctr128be_block(iv, pos / 16))[pos % 16]
}

/// Byte number `pos` of the AES-128 keystream of the `Ctr64BE` flavor.
pub open spec fn aes128_ctr64be_keystream(key: Seq<u8>, iv: Seq<u8>, pos: int) -> u8 {
    aes128_encrypt_block(key, ctr64be_block(iv, pos / 16))[pos % 16]
}

/// `data` combined byte by byte with the `Ctr128BE` keystream from byte
/// position `offset` on.
pub open spec fn ctr128be_apply(key: Seq<u8>, iv: Seq<u8>, offset: int, data: Seq<u8>) -> Seq<u8> {
    Seq::new(data.len(), |i: int| data[i] ^ aes128_ctr128be_keystream(key, iv, offset + i))
}

/// `data` combined byte by byte with the `Ctr64BE` keystream from byte
/// position `offset` on.
pub open spec fn ctr64be_apply(key: Seq<u8>, iv: Seq<u8>, offset: int, data: Seq<u8>) -> Seq<u8> {
    Seq::new(data.len(), |i: int| data[i] ^ aes128_ctr64be_keystream(key, iv, offset + i))
}

/// `sha2::Sha256::digest`: the claim is that the 32 bytes returned are the
/// SHA-256 digest of `data`, a function of `data` alone.
#[verifier::external_body]
pub(crate) fn sha256_digest(data: &[u8]) -> (res: [u8; 32])
    ensures
        res@ == sha256(data@),
{
    sha2::Sha256::digest(data).into()
}

/// `sha1::Sha1::digest`: the claim is that the 20 bytes returned are the
/// SHA-1 digest of `data`, a function of `data` alone.
#[verifier::external_body]
pub(crate) fn sha1_digest(data: &[u8]) -> (res: [u8; 20])
    ensures
        res@ == sha1(data@),
{
    sha1::Sha1::digest(data).into()
}

/// `md5::Md5::digest` (the `md-5` package): the claim is that the 16 bytes
/// returned are the MD5 digest of `data`, a function of `data` alone.
#[verifier::external_body]
pub(crate) fn md5_digest(data: &[u8]) -> (res: [u8; 16])
    ensures
        res@ == md5(data@),
{
    md5::Md5::digest(data).into()
}

/// `ring::pbkdf2::derive` with `PBKDF2_HMAC_SHA256`: the claim is that it
/// overwrites all of `out`, keeping its length, with the key derived from
/// the arguments and the length alone. The `requires` leaves out the inputs
/// on which ring panics: a zero iteration count (no `NonZeroU32`), more
/// output than 32 * (2^32 - 1) bytes, and inputs too long for SHA-256.
#[verifier::external_body]
pub(crate) fn pbkdf2_derive(iterations: u32, salt: &[u8], secret: &[u8], out: &mut Vec<u8>)
    requires
        iterations > 0,
        old(out)@.len() <= 32 * 0xffff_ffffnat,
        salt@.len() < 0x1000_0000_0000_0000nat,
        secret@.len() < 0x1000_0000_0000_0000nat,
    ensures
        final(out)@ == pbkdf2_hmac_sha256(iterations, salt@, secret@, old(out)@.len()),
        final(out)@.len() == old(out)@.len(),
{
    ring::pbkdf2::derive(
        ring::pbkdf2::PBKDF2_HMAC_SHA256,
        NonZeroU32::new(iterations).unwrap(),
        salt,
        secret,
        out.as_mut_slice(),
    )
}

/// `hex::encode`: two lower-case hexadecimal digits per byte, high nibble
/// first (table `0123456789abcdef` in the crate's source).
#[verifier::external_body]
pub(crate) fn hex_encode(data: &[u8]) -> (res: String)
    ensures
        res@ == hex_lower(data@),
{
    hex::encode(data)
}

/// `ctr::Ctr128BE<aes::Aes128>`: a cipher made from `key` and `iv`, moved
/// to byte position `offset` with `seek`, then `apply_keystream` on `data`.
/// The claim is what `flavors/ctr128.rs` of the crate shows: byte `p` of
/// the keystream is byte `p % 16` of the AES encryption of the block that
/// holds `iv`, read as a big-endian 128-bit number, plus `p / 16`,
/// wrapping; each byte of the result is the byte of `data` at the same
/// place xor the keystream byte at its absolute position. The crate refuses
/// a position only beyond 2^128 blocks, which no `u64` offset and `usize`
/// length reach.
#[verifier::external_body]
pub(crate) fn aes128_ctr128be_xor(key: &[u8; 16], iv: &[u8; 16], offset: u64, data: Vec<u8>) -> (res: Vec<u8>)
    ensures
        res@.len() == data@.len(),
        forall|i: int|
            0 <= i < data@.len() ==> #[trigger] res@[i] == data@[i] ^ aes128_encrypt_block(
                key@,
                ctr128be_block(iv@, (offset + i) / 16),
            )[(offset + i) % 16],
{
    let mut cipher = ctr::Ctr128BE::<aes::Aes128>::new(&(*key).into(), &(*iv).into());
    cipher.seek(offset);
    let mut buf = data;
    cipher.apply_keystream(&mut buf);
    buf
}

/// `ctr::Ctr64BE<aes::Aes128>`: as `aes128_ctr128be_xor`, with the 64-bit
/// counter flavor of `flavors/ctr64.rs`: the first eight bytes of `iv` stay
/// as they are and the last eight, read as a big-endian 64-bit number, count
/// the blocks, wrapping. The crate counts at most 2^64 - 1 blocks from the
/// start, which no `u64` byte offset and `usize` length reach.
#[verifier::external_body]
pub(crate) fn aes128_ctr64be_xor(key: &[u8; 16], iv: &[u8; 16], offset: u64, data: Vec<u8>) -> (res: Vec<u8>)
    ensures
        res@.len() == data@.len(),
        forall|i: int|
            0 <= i < data@.len() ==> #[trigger] res@[i] == data@[i] ^ aes128_encrypt_block(
                key@,
                ctr64be_block(iv@, (offset + i) / 16),
            )[(offset + i) % 16],
{
    let mut cipher = ctr::Ctr64BE::<aes::Aes128>::new(&(*key).into(), &(*iv).into());
    cipher.seek(offset);
    let mut buf = data;
    cipher.apply_keystream(&mut buf);
    buf
}


/// The Base64 digits of the standard alphabet (RFC 4648), in order.
pub const BASE64_DIGITS: [char; 64] = [
    'A', 'B', 'C', 'D', 'E', 'F', 'G', 'H', 'I', 'J', 'K', 'L', 'M', 'N', 'O', 'P', 'Q', 'R', 'S',
    'T', 'U', 'V', 'W', 'X', 'Y', 'Z', 'a', 'b', 'c', 'd', 'e', 'f', 'g', 'h', 'i', 'j', 'k', 'l',
    'm', 'n', 'o', 'p', 'q', 'r', 's', 't', 'u', 'v', 'w', 'x', 'y', 'z', '0', '1', '2', '3', '4',
    '5', '6', '7', '8', '9', '+', '/',
];

/// The digit of a 6-bit value.
pub open spec fn b64(v: u8) -> char {
    BASE64_DIGITS@[v as int]
}

/// Standard Base64 with `=` padding: each group of three bytes becomes four
/// digits, a last group of one or two bytes becomes two or three digits and
/// padding.
pub open spec fn base64_standard(data: Seq<u8>) -> Seq<char>
    decreases data.len(),
{
    if data.len() == 0 {
        Seq::empty()
    } else if data.len() == 1 {
        seq![b64(data[0] >> 2u8), b64((data[0] & 3u8) << 4u8), '=', '=']
    } else if data.len() == 2 {
        seq![
            b64(data[0] >> 2u8),
            b64(((data[0] & 3u8) << 4u8) | (data[1] >> 4u8)),
            b64((data[1] & 15u8) << 2u8),
            '=',
        ]
    } else {
        seq![
            b64(data[0] >> 2u8),
            b64(((data[0] & 3u8) << 4u8) | (data[1] >> 4u8)),
            b64(((data[1] & 15u8) << 2u8) | (data[2] >> 6u8)),
            b64(data[2] & 63u8),
        ] + base64_standard(data.skip(3))
    }
}

/// `base64::encode` (version 0.13, `STANDARD` config): standard alphabet
/// with padding. The `requires` leaves out the inputs whose encoded length
/// overflows `usize`, on which the crate panics.
#[verifier::external_body]
pub(crate) fn base64_encode(data: &[u8]) -> (res: String)
    requires
        data@.len() <= usize::MAX / 2,
    ensures
        res@ == base64_standard(data@),
{
    base64::encode(data)
}

} // verus!
