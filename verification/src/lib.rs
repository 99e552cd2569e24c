//! Verified core of a WebDAV front end that serves files described by a
//! remote JSON API: the data model, the password-keyed Base64 variant used
//! for encrypted names, the AES-CTR stream used for encrypted content, and
//! the decisions of the WebDAV file system (file kinds, upload chunking,
//! download ranges, signed URLs).
#![allow(non_snake_case)]

pub mod crypto;
pub mod model;
pub mod text;
pub mod utils;
pub mod vfs;
