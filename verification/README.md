# fast_webdav

A WebDAV front end whose files are listed, created and served by a local
JSON API of storage providers. This crate is the verified core of it:

- `src/model.rs`: the records exchanged with the API (times as epoch seconds).
- `src/utils/mix_base64.rs`: Base64 decoding over a password-keyed
  permutation of a 65-character alphabet; the key schedule is proved to
  permute the alphabet.
- `src/utils/aesctr.rs`, `src/utils/aesCTR.rs`: AES-128-CTR content
  ciphers keyed from a password and a size salt, with the project's own
  counter arithmetic for repositioning; that arithmetic is proved to be
  addition to the 128-bit counter, so repositioning reads the stream at
  the requested byte.
- `src/vfs.rs`: the file system's decisions: file kinds, hidden names,
  checksums, signed-URL expiry, endpoints, download ranges, and the state
  machine of chunked uploads.
- `src/crypto.rs`, `src/text.rs`: the outside primitives behind trusted
  contracts, and verified text helpers (hex, decimal, parsing).

`app/` holds the server: command line, HTTP, the directory cache, JSON
(de)serialisation of the API records and the `dav_server` traits. The
choices it acts on (which file to open or create, when to upload a chunk,
where a read starts, which headers a download sends) are made by the
library.
