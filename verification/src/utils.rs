//! Encoding and encryption utilities: a password-keyed Base64 variant and
//! two generations of the AES-CTR content cipher.

pub mod mix_base64;
pub mod aesctr;
pub mod aesCTR;
