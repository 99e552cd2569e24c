//! "Mix Base64": Base64 decoding over an alphabet that is a password-keyed
//! permutation (an RC4-style key schedule seeded by SHA-256) of the
//! 65 characters of `SOURCE`, the last of which serves as padding.

use std::collections::BTreeMap;
use vstd::prelude::*;
use vstd::string::{StringExecFns, StringSliceAdditionalSpecFns};

use crate::crypto::{sha256, sha256_digest};
use crate::text::{str_chars, string_push, utf8_string};

verus! {

broadcast use {vstd::std_specs::btree::group_btree_axioms, vstd::laws_cmp::group_laws_cmp};

/// The 65 characters that the key schedule permutes: the 64 Base64 digits
/// of this scheme followed by the padding character `+`.
pub const SOURCE: [char; 65] = [
    'A', 'B', 'C', 'D', 'E', 'F', 'G', 'H', 'I', 'J', 'K', 'L', 'M', 'N', 'O', 'P', 'Q', 'R',
    'S', 'T', 'U', 'V', 'W', 'X', 'Y', 'Z', 'a', 'b', 'c', 'd', 'e', 'f', 'g', 'h', 'i', 'j',
    'k', 'l', 'm', 'n', 'o', 'p', 'q', 'r', 's', 't', 'u', 'v', 'w', 'x', 'y', 'z', '0', '1',
    '2', '3', '4', '5', '6', '7', '8', '9', '-', '~', '+',
];

/// The S-table of the key schedule after its first `n` steps: it starts as
/// the identity on 0..65, and step `i` moves `j` to
/// `(j + s[i] + key[i % key.len()]) % 65` and swaps `s[i]` with `s[j]`.
/// The result is the table and `j`.
pub open spec fn ksa_steps(key: Seq<u8>, n: nat) -> (Seq<u8>, int)
    decreases n,
{
    if n == 0 {
        (Seq::new(65, |i: int| i as u8), 0)
    } else {
        let (s, j) = ksa_steps(key, (n - 1) as nat);
        let i = n - 1;
        let j2 = (j + s[i] as int + key[i % key.len() as int] as int) % 65;
        (s.update(i, s[j2]).update(j2, s[i]), j2)
    }
}

/// The S-table after the whole schedule of 65 steps.
pub open spec fn ksa_table(key: Seq<u8>) -> Seq<u8> {
    ksa_steps(key, 65).0
}

/// The alphabet that the key schedule makes from `key`: `SOURCE` read in
/// the order of the S-table.
pub open spec fn ksa_alphabet(key: Seq<u8>) -> Seq<char> {
    Seq::new(65, |i: int| SOURCE@[ksa_table(key)[i] as int])
}

/// The alphabet of `init_ksa(passwd)`: the schedule keyed by the SHA-256
/// digest of the UTF-8 bytes of `passwd`.
pub open spec fn init_ksa_spec(passwd: Seq<char>) -> Seq<char> {
    ksa_alphabet(sha256(vstd::utf8::encode_utf8(passwd)))
}

/// The alphabet that `MixBase64::new(password)` keeps: the password itself
/// when it is 64 bytes long, else the schedule keyed by `password + "mix64"`.
pub open spec fn mix_secret(password: Seq<char>) -> Seq<char> {
    if vstd::utf8::encode_utf8(password).len() == 64 {
        password
    } else {
        init_ksa_spec(password + "mix64"@)
    }
}

/// A table whose entries below 65 are a permutation of 0..65.
pub open spec fn is_permutation65(s: Seq<u8>) -> bool {
    &&& s.len() == 65
    &&& forall|i: int| 0 <= i < 65 ==> #[trigger] s[i] < 65
    &&& forall|i: int, k: int| 0 <= i < 65 && 0 <= k < 65 && i != k ==> #[trigger] s[i] != #[trigger] s[k]
}

proof fn lemma_ksa_steps_permutation(key: Seq<u8>, n: nat)
    requires
        key.len() > 0,
        n <= 65,
    ensures
        is_permutation65(ksa_steps(key, n).0),
        0 <= ksa_steps(key, n).1 < 65,
    decreases n,
{
    if n > 0 {
        lemma_ksa_steps_permutation(key, (n - 1) as nat);
    }
}

/// The characters of `SOURCE` are distinct.
proof fn lemma_source_distinct()
    ensures
        forall|i: int, k: int| 0 <= i < 65 && 0 <= k < 65 && i != k ==> #[trigger] SOURCE@[i] != #[trigger] SOURCE@[k],
{
    assert(SOURCE@ =~= seq!['A', 'B', 'C', 'D', 'E', 'F', 'G', 'H', 'I', 'J', 'K', 'L', 'M', 'N', 'O', 'P', 'Q', 'R', 'S', 'T', 'U', 'V', 'W', 'X', 'Y', 'Z', 'a', 'b', 'c', 'd', 'e', 'f', 'g', 'h', 'i', 'j', 'k', 'l', 'm', 'n', 'o', 'p', 'q', 'r', 's', 't', 'u', 'v', 'w', 'x', 'y', 'z', '0', '1', '2', '3', '4', '5', '6', '7', '8', '9', '-', '~', '+']);
    assert forall|i: int, k: int| 0 <= i < 65 && 0 <= k < 65 && i != k implies #[trigger] SOURCE@[i] != #[trigger] SOURCE@[k] by {
        assert(SOURCE@[i] as u32 != SOURCE@[k] as u32);
    }
}

/// Law: for any key, the key schedule permutes 0..65, so the alphabet it
/// makes holds each character of `SOURCE` exactly once, in some order.
pub proof fn lemma_ksa_permutation(key: Seq<u8>)
    requires
        key.len() > 0,
    ensures
        is_permutation65(ksa_table(key)),
        ksa_alphabet(key).len() == 65,
        forall|i: int| 0 <= i < 65 ==> SOURCE@.contains(#[trigger] ksa_alphabet(key)[i]),
        forall|i: int, k: int| 0 <= i < 65 && 0 <= k < 65 && i != k ==> #[trigger] ksa_alphabet(key)[i] != #[trigger] ksa_alphabet(key)[k],
{
    lemma_ksa_steps_permutation(key, 65);
    lemma_source_distinct();
    assert forall|i: int| 0 <= i < 65 implies SOURCE@.contains(#[trigger] ksa_alphabet(key)[i]) by {
        let k = ksa_table(key)[i] as int;
        assert(SOURCE@[k] == ksa_alphabet(key)[i]);
    }
}

/// The schedule's alphabet for `passwd`, as a string: SHA-256 of the
/// password's bytes keys an RC4-style permutation of `SOURCE`.
pub fn init_ksa(passwd: &str) -> (secret: String)
    ensures
        secret@ == init_ksa_spec(passwd@),
        sound_alphabet(secret@),
{
    let passwd_bytes = passwd.as_bytes();
    let key = sha256_digest(passwd_bytes);
    let ghost keyv = key@;
    assert(keyv.len() == 32);
    let mut k: BTreeMap<usize, u8> = BTreeMap::new();
    let mut sbox: BTreeMap<usize, u8> = BTreeMap::new();
    let source_key: [char; 65] = SOURCE;
    let n = source_key.len();
    // initial S-table: the identity
    for i in 0..n
        invariant
            n == 65,
            source_key@ == SOURCE@,
            forall|x: usize| #[trigger] sbox@.contains_key(x) <==> x < i,
            forall|x: usize| x < i ==> #[trigger] sbox@[x] == x as u8,
    {
        sbox.insert(i, i as u8);
    }
    // the K-table: the key repeated
    for i in 0..n
        invariant
            n == 65,
            key@ == keyv,
            keyv.len() == 32,
            forall|x: usize| #[trigger] k@.contains_key(x) <==> x < i,
            forall|x: usize| x < i ==> #[trigger] k@[x] == keyv[x as int % 32],
    {
        let val_index = i % key.len();
        let val = key[val_index];
        k.insert(i, val);
    }
    assert(sbox@ =~= Map::new(|x: usize| x < 65, |x: usize| ksa_steps(keyv, 0).0[x as int]));
    // the permutation of the S-table
    let mut j: usize = 0;
    for i in 0..n
        invariant
            n == 65,
            keyv.len() == 32,
            forall|x: usize| #[trigger] k@.contains_key(x) <==> x < 65,
            forall|x: usize| x < 65 ==> #[trigger] k@[x] == keyv[x as int % 32],
            sbox@ =~= Map::new(|x: usize| x < 65, |x: usize| ksa_steps(keyv, i as nat).0[x as int]),
            j == ksa_steps(keyv, i as nat).1,
    {
        proof {
            lemma_ksa_steps_permutation(keyv, i as nat);
        }
        let ghost s = ksa_steps(keyv, i as nat).0;
        assert(sbox@.contains_key(i));
        let is = *sbox.get(&i).unwrap() as usize;
        let ks = *k.get(&i).unwrap() as usize;
        j = (j + is + ks) % n;
        let temp = is;
        assert(sbox@.contains_key(j));
        let sj = *sbox.get(&j).unwrap();
        sbox.insert(i, sj);
        sbox.insert(j, temp as u8);
        proof {
            let (s2, j2) = ksa_steps(keyv, (i + 1) as nat);
            assert(s2 == s.update(i as int, s[j as int]).update(j as int, s[i as int]));
            assert(sbox@ =~= Map::new(|x: usize| x < 65, |x: usize| s2[x as int]));
        }
    }
    let ghost table = ksa_table(keyv);
    proof {
        lemma_ksa_steps_permutation(keyv, 65);
    }
    let mut secret = String::new();
    for i in 0..n
        invariant
            n == 65,
            source_key@ == SOURCE@,
            sbox@ =~= Map::new(|x: usize| x < 65, |x: usize| table[x as int]),
            is_permutation65(table),
            secret@ == Seq::new(i as nat, |x: int| SOURCE@[table[x] as int]),
    {
        assert(sbox@.contains_key(i));
        let value = *sbox.get(&i).unwrap();
        assert(value == table[i as int]);
        string_push(&mut secret, source_key[value as usize]);
        assert(secret@ =~= Seq::new((i + 1) as nat, |x: int| SOURCE@[table[x] as int]));
    }
    proof {
        lemma_ksa_alphabet_sound(keyv);
    }
    secret
}


/// The index that the decoder gives to the character with code `key`: its
/// last position in `alphabet`, or -1 when it does not occur.
pub open spec fn last_pos(alphabet: Seq<char>, key: u32) -> int
    decreases alphabet.len(),
{
    if alphabet.len() == 0 {
        -1
    } else if alphabet.last() as u32 == key {
        alphabet.len() - 1
    } else {
        last_pos(alphabet.drop_last(), key)
    }
}

/// The 6-bit value (or 64 for padding) of a character of the input.
pub open spec fn sym(alphabet: Seq<char>, c: char) -> u8 {
    last_pos(alphabet, c as u32) as u8
}

/// The bytes that one group of four values gives: always the first byte,
/// the second unless the third value is 64, the third unless the fourth is.
pub open spec fn decode_group(e1: u8, e2: u8, e3: u8, e4: u8) -> Seq<u8> {
    seq![(e1 << 2u8) | (e2 >> 4u8)] + (if e3 != 64 {
        seq![((e2 & 15u8) << 4u8) | (e3 >> 2u8)]
    } else {
        Seq::empty()
    }) + (if e4 != 64 {
        seq![((e3 & 3u8) << 6u8) | e4]
    } else {
        Seq::empty()
    })
}

/// The bytes that the input `s` decodes to, group by group.
pub open spec fn decode_spec(alphabet: Seq<char>, s: Seq<char>) -> Seq<u8>
    decreases s.len(),
{
    if s.len() < 4 {
        Seq::empty()
    } else {
        let n = s.len() - 4;
        decode_spec(alphabet, s.take(n)) + decode_group(
            sym(alphabet, s[n]),
            sym(alphabet, s[n + 1]),
            sym(alphabet, s[n + 2]),
            sym(alphabet, s[n + 3]),
        )
    }
}

/// The inputs that the decoder reads to the end: ASCII text whose length is
/// a multiple of four, made of characters of the alphabet.
pub open spec fn decodable(alphabet: Seq<char>, s: Seq<char>) -> bool {
    &&& vstd::utf8::is_ascii_chars(s)
    &&& s.len() % 4 == 0
    &&& forall|i: int| 0 <= i < s.len() ==> alphabet.contains(#[trigger] s[i])
}

proof fn lemma_last_pos_found(alphabet: Seq<char>, c: char)
    requires
        alphabet.contains(c),
    ensures
        0 <= last_pos(alphabet, c as u32) < alphabet.len(),
        alphabet[last_pos(alphabet, c as u32)] as u32 == c as u32,
    decreases alphabet.len(),
{
    if alphabet.last() as u32 != c as u32 {
        let k = choose|k: int| 0 <= k < alphabet.len() && alphabet[k] == c;
        assert(alphabet.drop_last()[k] == c);
        lemma_last_pos_found(alphabet.drop_last(), c);
    }
}

proof fn lemma_last_pos_push(alphabet: Seq<char>, c: char, key: u32)
    ensures
        last_pos(alphabet.push(c), key) == if c as u32 == key {
            alphabet.len() as int
        } else {
            last_pos(alphabet, key)
        },
{
    assert(alphabet.push(c).drop_last() =~= alphabet);
}

proof fn lemma_last_pos_range(alphabet: Seq<char>, key: u32)
    ensures
        -1 <= last_pos(alphabet, key) < alphabet.len(),
    decreases alphabet.len(),
{
    if alphabet.len() > 0 {
        lemma_last_pos_range(alphabet.drop_last(), key);
    }
}

/// A decoder keyed by a password.
pub struct MixBase64 {
    pub secret: String,
}

impl MixBase64 {
    /// The alphabet is the 64-byte password itself, or else the key
    /// schedule's permutation of `SOURCE` for `password + "mix64"`.
    pub fn new(password: &str) -> (res: Self)
        ensures
            res.secret@ == mix_secret(password@),
            vstd::utf8::encode_utf8(password@).len() != 64 ==> sound_alphabet(res.secret@),
    {
        let passwd_salt = password.to_owned().concat("mix64");
        let secret_ksa = init_ksa(passwd_salt.as_str());
        let secret = if password.as_bytes().len() == 64 {
            password.to_owned()
        } else {
            secret_ksa
        };
        MixBase64 { secret }
    }

    /// Decodes `base64_str` to bytes: each character stands for its last
    /// index in the alphabet, and each group of four gives up to three
    /// bytes, index 64 marking padding.
    pub fn decode_bytes(&self, base64_str: &str) -> (res: Vec<u8>)
        requires
            decodable(self.secret@, base64_str@),
        ensures
            res@ == decode_spec(self.secret@, base64_str@),
    {
        broadcast use vstd::string::is_ascii_spec_bytes;
        let chars: Vec<char> = str_chars(self.secret.as_str());
        let ghost alphabet = chars@;
        let mut map_chars: BTreeMap<u32, usize> = BTreeMap::new();
        let mut index: usize = 0;
        while index < chars.len()
            invariant
                index <= chars@.len(),
                alphabet == chars@,
                forall|key: u32| #[trigger] map_chars@.contains_key(key) <==> last_pos(alphabet.take(index as int), key) >= 0,
                forall|key: u32| #[trigger] map_chars@.contains_key(key) ==> map_chars@[key] == last_pos(alphabet.take(index as int), key),
            decreases chars@.len() - index,
        {
            let element = chars[index];
            map_chars.insert(element as u32, index);
            proof {
                assert(alphabet.take(index + 1) =~= alphabet.take(index as int).push(element));
                assert forall|key: u32| true implies last_pos(alphabet.take(index + 1), key) == if element as u32 == key {
                    index as int
                } else {
                    last_pos(alphabet.take(index as int), key)
                } by {
                    lemma_last_pos_push(alphabet.take(index as int), element, key);
                }
                assert forall|key: u32| true implies -1 <= #[trigger] last_pos(alphabet.take(index as int), key) by {
                    lemma_last_pos_range(alphabet.take(index as int), key);
                }
            }
            index += 1;
        }
        assert(alphabet.take(chars@.len() as int) =~= alphabet);
        let bytes = base64_str.as_bytes();
        let ghost s = base64_str@;
        proof {
            vstd::string::is_ascii_spec_bytes(base64_str);
            assert(vstd::string::is_ascii(base64_str));
        }
        assert(bytes@ =~= Seq::new(s.len(), |x: int| s[x] as u8));
        let mut buffer: Vec<u8> = Vec::new();
        let mut i: usize = 0;
        while i < bytes.len()
            invariant
                bytes@ == Seq::new(s.len(), |x: int| s[x] as u8),
                s == base64_str@,
                bytes@.len() == s.len(),
                decodable(alphabet, s),
                alphabet == self.secret@,
                i <= s.len(),
                i % 4 == 0,
                forall|key: u32| #[trigger] map_chars@.contains_key(key) <==> last_pos(alphabet, key) >= 0,
                forall|key: u32| #[trigger] map_chars@.contains_key(key) ==> map_chars@[key] == last_pos(alphabet, key),
                buffer@ == decode_spec(alphabet, s.take(i as int)),
            decreases s.len() - i,
        {
            proof {
                assert forall|x: int| 0 <= x < s.len() implies (#[trigger] bytes@[x]) as u32 == s[x] as u32
                    && map_chars@.contains_key(s[x] as u32) by {
                    assert(alphabet.contains(s[x]));
                    lemma_last_pos_found(alphabet, s[x]);
                }
            }
            let enc1: u8 = *map_chars.get(&(bytes[i] as u32)).unwrap() as u8;
            let enc2: u8 = *map_chars.get(&(bytes[i + 1] as u32)).unwrap() as u8;
            let enc3: u8 = *map_chars.get(&(bytes[i + 2] as u32)).unwrap() as u8;
            let enc4: u8 = *map_chars.get(&(bytes[i + 3] as u32)).unwrap() as u8;
            let ghost before = buffer@;
            buffer.push((enc1 << 2) | (enc2 >> 4));
            if enc3 != 64 {
                buffer.push(((enc2 & 15) << 4) | (enc3 >> 2));
            }
            if enc4 != 64 {
                buffer.push(((enc3 & 3) << 6) | enc4);
            }
            proof {
                let t = s.take(i + 4);
                assert(t.take(i as int) =~= s.take(i as int));
                assert(t[i as int] == s[i as int]);
                assert(buffer@ =~= before + decode_group(enc1, enc2, enc3, enc4));
            }
            i += 4;
        }
        assert(s.take(s.len() as int) =~= s);
        buffer
    }

    /// Decodes `base64_str` and reads the bytes as UTF-8 text.
    pub fn decode(&self, base64_str: &str) -> (res: String)
        requires
            decodable(self.secret@, base64_str@),
            vstd::utf8::valid_utf8(decode_spec(self.secret@, base64_str@)),
        ensures
            res@ == vstd::utf8::decode_utf8(decode_spec(self.secret@, base64_str@)),
    {
        let buffer = self.decode_bytes(base64_str);
        match utf8_string(buffer) {
            Some(text) => text,
            None => {
                proof {
                    assert(false);
                }
                String::new()
            },
        }
    }

    /// Decodes `base64_str` when it can be decoded to UTF-8 text, and
    /// answers `None` on the inputs that `decode` does not take.
    pub fn try_decode(&self, base64_str: &str) -> (res: Option<String>)
        ensures
            res is Some <==> decodable(self.secret@, base64_str@) && vstd::utf8::valid_utf8(
                decode_spec(self.secret@, base64_str@),
            ),
            res matches Some(text) ==> text@ == vstd::utf8::decode_utf8(
                decode_spec(self.secret@, base64_str@),
            ),
    {
        if !base64_str.is_ascii() {
            return None;
        }
        let ghost s = base64_str@;
        proof {
            vstd::string::is_ascii_spec_bytes(base64_str);
        }
        let bytes = base64_str.as_bytes();
        assert(bytes@ =~= Seq::new(s.len(), |x: int| s[x] as u8));
        assert(bytes@.len() == s.len());
        if bytes.len() % 4 != 0 {
            assert(!decodable(self.secret@, s));
            return None;
        }
        let alphabet = str_chars(self.secret.as_str());
        let input = str_chars(base64_str);
        let mut i: usize = 0;
        while i < input.len()
            invariant
                i <= input@.len(),
                input@ == s,
                s == base64_str@,
                alphabet@ == self.secret@,
                forall|x: int| 0 <= x < i ==> alphabet@.contains(#[trigger] s[x]),
            decreases input@.len() - i,
        {
            if !contains_char(&alphabet, input[i]) {
                assert(!alphabet@.contains(s[i as int]));
                assert(!decodable(self.secret@, s));
                return None;
            }
            i += 1;
        }
        let buffer = self.decode_bytes(base64_str);
        utf8_string(buffer)
    }
}

/// Whether `c` occurs in `chars`.
fn contains_char(chars: &Vec<char>, c: char) -> (res: bool)
    ensures
        res == chars@.contains(c),
{
    let mut i: usize = 0;
    while i < chars.len()
        invariant
            i <= chars@.len(),
            forall|x: int| 0 <= x < i ==> chars@[x] != c,
        decreases chars@.len() - i,
    {
        if chars[i] == c {
            return true;
        }
        i += 1;
    }
    false
}


/// An alphabet the decoder can read back: 65 distinct ASCII characters,
/// the last of them the padding.
pub open spec fn sound_alphabet(alphabet: Seq<char>) -> bool {
    &&& alphabet.len() == 65
    &&& vstd::utf8::is_ascii_chars(alphabet)
    &&& forall|i: int, k: int| 0 <= i < 65 && 0 <= k < 65 && i != k ==> #[trigger] alphabet[i] != #[trigger] alphabet[k]
}

/// The encoding that the decoder reads: Base64 of `data` with digit `v`
/// written as `alphabet[v]` and `alphabet[64]` as padding. Whole groups of
/// three bytes come first; a last group of one or two bytes gives two or
/// three digits and padding.
pub open spec fn mix_encode(alphabet: Seq<char>, data: Seq<u8>) -> Seq<char>
    decreases data.len(),
{
    let n = data.len();
    if n == 0 {
        Seq::empty()
    } else if n % 3 == 1 {
        let b0 = data[n - 1];
        mix_encode(alphabet, data.take(n - 1)) + seq![
            alphabet[(b0 >> 2u8) as int],
            alphabet[((b0 & 3u8) << 4u8) as int],
            alphabet[64],
            alphabet[64],
        ]
    } else if n % 3 == 2 {
        let b0 = data[n - 2];
        let b1 = data[n - 1];
        mix_encode(alphabet, data.take(n - 2)) + seq![
            alphabet[(b0 >> 2u8) as int],
            alphabet[(((b0 & 3u8) << 4u8) | (b1 >> 4u8)) as int],
            alphabet[((b1 & 15u8) << 2u8) as int],
            alphabet[64],
        ]
    } else {
        let b0 = data[n - 3];
        let b1 = data[n - 2];
        let b2 = data[n - 1];
        mix_encode(alphabet, data.take(n - 3)) + seq![
            alphabet[(b0 >> 2u8) as int],
            alphabet[(((b0 & 3u8) << 4u8) | (b1 >> 4u8)) as int],
            alphabet[(((b1 & 15u8) << 2u8) | (b2 >> 6u8)) as int],
            alphabet[(b2 & 63u8) as int],
        ]
    }
}

/// In a sound alphabet each character is read back as its own index.
proof fn lemma_sym_index(alphabet: Seq<char>, k: int)
    requires
        sound_alphabet(alphabet),
        0 <= k < 65,
    ensures
        sym(alphabet, alphabet[k]) == k as u8,
{
    lemma_last_pos_of_distinct(alphabet, k);
}

proof fn lemma_last_pos_of_distinct(alphabet: Seq<char>, k: int)
    requires
        0 <= k < alphabet.len(),
        vstd::utf8::is_ascii_chars(alphabet),
        forall|i: int, j: int| 0 <= i < alphabet.len() && 0 <= j < alphabet.len() && i != j ==> #[trigger] alphabet[i] != #[trigger] alphabet[j],
    ensures
        last_pos(alphabet, alphabet[k] as u32) == k,
    decreases alphabet.len(),
{
    let n = alphabet.len() - 1;
    if k < n {
        assert(alphabet[n] != alphabet[k]);
        assert('\0' <= alphabet[n] <= '\u{7f}');
        assert('\0' <= alphabet[k] <= '\u{7f}');
        assert((alphabet[n] as u32) != (alphabet[k] as u32));
        let d = alphabet.drop_last();
        assert forall|i: int, j: int| 0 <= i < d.len() && 0 <= j < d.len() && i != j implies #[trigger] d[i] != #[trigger] d[j] by {
            assert(d[i] == alphabet[i] && d[j] == alphabet[j]);
        }
        assert(d[k] == alphabet[k]);
        assert forall|i: int| 0 <= i < d.len() implies '\0' <= #[trigger] d[i] <= '\u{7f}' by {
            assert(d[i] == alphabet[i]);
        }
        lemma_last_pos_of_distinct(d, k);
    }
}

proof fn lemma_group3(b0: u8, b1: u8, b2: u8)
    ensures
        (b0 >> 2u8) < 64,
        (((b0 & 3u8) << 4u8) | (b1 >> 4u8)) < 64,
        (((b1 & 15u8) << 2u8) | (b2 >> 6u8)) < 64,
        (b2 & 63u8) < 64,
        (((b0 >> 2u8) << 2u8) | ((((b0 & 3u8) << 4u8) | (b1 >> 4u8)) >> 4u8)) == b0,
        ((((((b0 & 3u8) << 4u8) | (b1 >> 4u8)) & 15u8) << 4u8) | ((((b1 & 15u8) << 2u8) | (b2 >> 6u8))
            >> 2u8)) == b1,
        ((((((b1 & 15u8) << 2u8) | (b2 >> 6u8)) & 3u8) << 6u8) | (b2 & 63u8)) == b2,
        ((b0 & 3u8) << 4u8) < 64,
        (((b0 >> 2u8) << 2u8) | (((b0 & 3u8) << 4u8) >> 4u8)) == b0,
        ((b1 & 15u8) << 2u8) < 64,
        (((((b0 & 3u8) << 4u8) | (b1 >> 4u8)) & 15u8) << 4u8 | (((b1 & 15u8) << 2u8) >> 2u8)) == b1,
{
    assert((b0 >> 2u8) < 64) by (bit_vector);
    assert((((b0 & 3u8) << 4u8) | (b1 >> 4u8)) < 64) by (bit_vector);
    assert((((b1 & 15u8) << 2u8) | (b2 >> 6u8)) < 64) by (bit_vector);
    assert((b2 & 63u8) < 64) by (bit_vector);
    assert((((b0 >> 2u8) << 2u8) | ((((b0 & 3u8) << 4u8) | (b1 >> 4u8)) >> 4u8)) == b0) by (bit_vector);
    assert(((((((b0 & 3u8) << 4u8) | (b1 >> 4u8)) & 15u8) << 4u8) | ((((b1 & 15u8) << 2u8) | (b2 >> 6u8))
        >> 2u8)) == b1) by (bit_vector);
    assert(((((((b1 & 15u8) << 2u8) | (b2 >> 6u8)) & 3u8) << 6u8) | (b2 & 63u8)) == b2) by (bit_vector);
    assert(((b0 & 3u8) << 4u8) < 64) by (bit_vector);
    assert((((b0 >> 2u8) << 2u8) | (((b0 & 3u8) << 4u8) >> 4u8)) == b0) by (bit_vector);
    assert(((b1 & 15u8) << 2u8) < 64) by (bit_vector);
    assert((((((b0 & 3u8) << 4u8) | (b1 >> 4u8)) & 15u8) << 4u8 | (((b1 & 15u8) << 2u8) >> 2u8)) == b1) by (bit_vector);
}

/// Law: the decoder inverts the encoding over its own alphabet. For any
/// bytes and any sound alphabet, the encoding is one the decoder reads to
/// the end, and it decodes to the bytes; so `decode` of it gives the text
/// whose UTF-8 the bytes are.
pub proof fn lemma_decode_inverts_encode(alphabet: Seq<char>, data: Seq<u8>)
    requires
        sound_alphabet(alphabet),
    ensures
        decodable(alphabet, mix_encode(alphabet, data)),
        decode_spec(alphabet, mix_encode(alphabet, data)) == data,
        mix_encode(alphabet, data).len() % 4 == 0,
    decreases data.len(),
{
    let n = data.len();
    let e = mix_encode(alphabet, data);
    if n == 0 {
        assert(e.len() == 0);
        assert(decode_spec(alphabet, e) =~= data);
    } else {
        let m: int = if n % 3 == 1 { 1 } else if n % 3 == 2 { 2 } else { 3 };
        let p = data.take(n - m);
        lemma_decode_inverts_encode(alphabet, p);
        let ep = mix_encode(alphabet, p);
        let b0 = data[n - m];
        let b1 = if m >= 2 { data[n - m + 1] } else { 0u8 };
        let b2 = if m == 3 { data[n - 1] } else { 0u8 };
        lemma_group3(b0, b1, b2);
        lemma_sym_index(alphabet, 64);
        lemma_sym_index(alphabet, (b0 >> 2u8) as int);
        lemma_sym_index(alphabet, (((b0 & 3u8) << 4u8) | (b1 >> 4u8)) as int);
        lemma_sym_index(alphabet, (((b1 & 15u8) << 2u8) | (b2 >> 6u8)) as int);
        lemma_sym_index(alphabet, (b2 & 63u8) as int);
        lemma_sym_index(alphabet, ((b0 & 3u8) << 4u8) as int);
        lemma_sym_index(alphabet, ((b1 & 15u8) << 2u8) as int);
        assert(e.len() == ep.len() + 4);
        assert(e.take(ep.len() as int) =~= ep);
        let k = ep.len() as int;
        assert(decode_spec(alphabet, e) == decode_spec(alphabet, ep) + decode_group(
            sym(alphabet, e[k]),
            sym(alphabet, e[k + 1]),
            sym(alphabet, e[k + 2]),
            sym(alphabet, e[k + 3]),
        ));
        assert(decode_spec(alphabet, e) =~= data);
        assert forall|i: int| 0 <= i < e.len() implies alphabet.contains(#[trigger] e[i]) by {
            if i < k {
                assert(e[i] == ep[i]);
            } else {
                let v: int = choose|v: int| 0 <= v < 65 && e[i] == alphabet[v];
                assert(alphabet[v] == e[i]);
            }
        }
        assert forall|i: int| 0 <= i < e.len() implies '\0' <= #[trigger] e[i] <= '\u{7f}' by {
            if i < k {
                assert(e[i] == ep[i]);
            }
        }
    }
}

/// Law: the alphabet that the key schedule makes is a sound one, so every
/// password's decoder reads back its own encoding.
pub proof fn lemma_ksa_alphabet_sound(key: Seq<u8>)
    requires
        key.len() > 0,
    ensures
        sound_alphabet(ksa_alphabet(key)),
{
    lemma_ksa_permutation(key);
    let a = ksa_alphabet(key);
    assert(SOURCE@ =~= seq!['A', 'B', 'C', 'D', 'E', 'F', 'G', 'H', 'I', 'J', 'K', 'L', 'M', 'N', 'O', 'P', 'Q', 'R', 'S', 'T', 'U', 'V', 'W', 'X', 'Y', 'Z', 'a', 'b', 'c', 'd', 'e', 'f', 'g', 'h', 'i', 'j', 'k', 'l', 'm', 'n', 'o', 'p', 'q', 'r', 's', 't', 'u', 'v', 'w', 'x', 'y', 'z', '0', '1', '2', '3', '4', '5', '6', '7', '8', '9', '-', '~', '+']);
    assert forall|i: int| 0 <= i < a.len() implies '\0' <= #[trigger] a[i] <= '\u{7f}' by {
        let k = ksa_table(key)[i] as int;
        assert(a[i] == SOURCE@[k]);
    }
}

} // verus!
