use fast_webdav::utils::mix_base64::{init_ksa, MixBase64, SOURCE};

const SECRET: &str = "0pKeS1XMqmENFv~PyO5-8fUYLsbZIzkhlDVjuogaJB2HAx7CwWRG6iT3dQnr9tc4+";

#[test]
fn ksa_alphabet_is_a_permutation_of_source() {
    let secret = init_ksa("passwordmix64");
    let mut got: Vec<char> = secret.chars().collect();
    assert_eq!(got.len(), 65);
    got.sort();
    let mut want: Vec<char> = SOURCE.to_vec();
    want.sort();
    assert_eq!(got, want);
}

#[test]
fn ksa_alphabet_of_known_password() {
    assert_eq!(init_ksa("passwordmix64"), SECRET);
}

#[test]
fn new_keys_the_schedule_with_the_salted_password() {
    assert_eq!(MixBase64::new("password").secret, SECRET);
}

#[test]
fn new_keeps_a_64_byte_password_as_the_alphabet() {
    let pw = "abcdefghijklmnopqrstuvwxyzABCDEFGHIJKLMNOPQRSTUVWXYZ0123456789-_";
    assert_eq!(pw.len(), 64);
    assert_eq!(MixBase64::new(pw).secret, pw);
}

#[test]
fn decode_full_groups_and_padding() {
    let m = MixBase64::new("password");
    assert_eq!(m.decode("bXfAZX9lzTtRZXy+"), "hello world");
    assert_eq!(m.decode("bXfAZX9+"), "hello");
    assert_eq!(m.decode("bXfAZ0++"), "hell");
    assert_eq!(m.decode(""), "");
}

#[test]
fn decode_multibyte_text() {
    let m = MixBase64::new("password");
    assert_eq!(m.decode("QNTlQbUt"), "\u{4f60}\u{597d}");
}

#[test]
fn decode_bytes_gives_raw_bytes() {
    let m = MixBase64::new("password");
    assert_eq!(m.decode_bytes("bXfAZX9+"), b"hello".to_vec());
}

#[test]
fn try_decode_refuses_what_decode_does_not_take() {
    let m = MixBase64::new("password");
    assert_eq!(m.try_decode("bXfAZX9+"), Some("hello".to_string()));
    // length not a multiple of four
    assert_eq!(m.try_decode("bXfAZX9"), None);
    // character outside the alphabet
    assert_eq!(m.try_decode("bXf/ZX9+"), None);
    // not ASCII
    assert_eq!(m.try_decode("bXf\u{e9}"), None);
}

fn encode_with(alphabet: &str, data: &[u8]) -> String {
    let a: Vec<char> = alphabet.chars().collect();
    let mut out = String::new();
    for group in data.chunks(3) {
        let b0 = group[0];
        let b1 = if group.len() > 1 { group[1] } else { 0 };
        let b2 = if group.len() > 2 { group[2] } else { 0 };
        out.push(a[(b0 >> 2) as usize]);
        out.push(a[(((b0 & 3) << 4) | (b1 >> 4)) as usize]);
        out.push(if group.len() > 1 { a[(((b1 & 15) << 2) | (b2 >> 6)) as usize] } else { a[64] });
        out.push(if group.len() > 2 { a[(b2 & 63) as usize] } else { a[64] });
    }
    out
}

#[test]
fn decode_inverts_encoding_over_the_alphabet() {
    let m = MixBase64::new("password");
    for text in ["", "a", "ab", "abc", "abcd", "héllo wörld", "多字节文本"] {
        let encoded = encode_with(&m.secret, text.as_bytes());
        assert_eq!(encoded.len() % 4, 0);
        assert_eq!(m.decode(&encoded), text);
    }
    let bytes: Vec<u8> = (0..=255u8).collect();
    assert_eq!(m.decode_bytes(&encode_with(&m.secret, &bytes)), bytes);
}
