use fast_webdav::utils::aesctr::AesCTR;
use fast_webdav::utils::aesCTR::AesCTR as AesCTR64;

const KEY: [u8; 16] = [213, 140, 102, 201, 169, 143, 115, 224, 20, 68, 46, 39, 25, 78, 237, 222];
const IV: [u8; 16] = [2, 27, 188, 126, 226, 11, 113, 19, 77, 83, 226, 2, 6, 189, 111, 235];

#[test]
fn new_derives_key_and_iv() {
    let c = AesCTR::new("123456", "1024");
    assert_eq!(c.passwd_outward, "a833e459f4e0e47b4b0215c11c518ab2");
    assert_eq!(c.key, KEY);
    assert_eq!(c.iv, IV);
    assert_eq!(c.source_iv, IV);
    assert_eq!(c.position, 0);
    assert_eq!(c.password, "123456");
    assert_eq!(c.size_salt, "1024");
}

#[test]
fn encrypt_known_vector() {
    let mut c = AesCTR::new("123456", "1024");
    let out = c.encrypt(b"hello world".to_vec());
    assert_eq!(out, vec![135, 236, 46, 122, 216, 112, 193, 150, 152, 85, 188]);
    assert_eq!(c.position, 11);
}

#[test]
fn decrypt_inverts_encrypt() {
    let mut a = AesCTR::new("pw", "77");
    let mut b = AesCTR::new("pw", "77");
    let data: Vec<u8> = (0..100u8).collect();
    let enc = a.encrypt(data.clone());
    assert_ne!(enc, data);
    assert_eq!(b.decrypt(enc), data);
}

#[test]
fn encrypt_in_pieces_equals_at_once() {
    let mut a = AesCTR::new("pw", "77");
    let mut b = AesCTR::new("pw", "77");
    let data: Vec<u8> = (0..50u8).collect();
    let whole = a.encrypt(data.clone());
    let mut parts = b.encrypt(data[..17].to_vec());
    parts.extend(b.encrypt(data[17..].to_vec()));
    assert_eq!(whole, parts);
}

#[test]
fn set_position_moves_the_counter() {
    let mut c = AesCTR::new("123456", "1024");
    c.set_position(37);
    let mut iv = IV;
    iv[15] = 237;
    assert_eq!(c.iv, iv);
    assert_eq!(c.position, 5);
    assert_eq!(c.encrypt(b"abc".to_vec()), vec![78, 43, 203]);
}

#[test]
fn set_position_matches_streaming() {
    let mut a = AesCTR::new("123456", "1024");
    let mut b = AesCTR::new("123456", "1024");
    let data: Vec<u8> = (0..64u8).collect();
    let whole = a.encrypt(data.clone());
    b.set_position(37);
    assert_eq!(b.encrypt(data[37..].to_vec()), whole[37..].to_vec());
}

#[test]
fn old_cipher_decrypts_in_place() {
    let mut c = AesCTR64::new("123456", "1024");
    assert_eq!(c.key, KEY);
    assert_eq!(c.iv, IV);
    assert_eq!(c.passwdOutward, "a833e459f4e0e47b4b0215c11c518ab2");
    assert_eq!(c.sizeSalt, "1024");
    let mut buf = vec![135, 236, 46, 122, 216, 112, 193, 150, 152, 85, 188];
    c.decrypt(&mut buf);
    assert_eq!(buf, b"hello world".to_vec());
    assert_eq!(c.position, 11);
}

#[test]
fn old_cipher_set_position_restarts_at_block() {
    let mut c = AesCTR64::new("123456", "1024");
    c.set_position(37);
    let mut iv = IV;
    iv[15] = 237;
    assert_eq!(c.iv, iv);
    assert_eq!(c.position, 0);
    let mut full = AesCTR64::new("123456", "1024");
    let mut zeros = vec![0u8; 48];
    full.decrypt(&mut zeros);
    let mut part = vec![0u8; 16];
    c.decrypt(&mut part);
    assert_eq!(part, zeros[32..48].to_vec());
}

#[test]
fn old_cipher_decrypt_is_its_own_inverse() {
    let mut a = AesCTR64::new("pw", "9");
    let mut b = AesCTR64::new("pw", "9");
    let data: Vec<u8> = (0..40u8).collect();
    let mut buf = data.clone();
    a.decrypt(&mut buf);
    assert_ne!(buf, data);
    b.decrypt(&mut buf);
    assert_eq!(buf, data);
}

#[test]
fn old_cipher_decrypts_in_pieces() {
    let mut a = AesCTR64::new("pw", "9");
    let mut b = AesCTR64::new("pw", "9");
    let mut whole: Vec<u8> = (0..40u8).collect();
    a.decrypt(&mut whole);
    let mut first: Vec<u8> = (0..13u8).collect();
    let mut second: Vec<u8> = (13..40u8).collect();
    b.decrypt(&mut first);
    b.decrypt(&mut second);
    first.extend(second);
    assert_eq!(first, whole);
}

#[test]
fn set_position_matches_streaming_at_every_offset() {
    let data: Vec<u8> = (0..200u32).map(|x| (x * 7 % 256) as u8).collect();
    let mut a = AesCTR::new("123456", "1024");
    let whole = a.encrypt(data.clone());
    for p in 0..200usize {
        let mut b = AesCTR::new("123456", "1024");
        b.set_position(p);
        assert_eq!(b.encrypt(data[p..].to_vec()), whole[p..].to_vec());
    }
}

#[test]
fn set_position_carries_into_the_next_word() {
    // md5("20216527") ends in the word 0xfffffd98: 616 blocks reach 2^32.
    let salt = "20216527";
    let mut a = AesCTR::new("pw", salt);
    assert_eq!(a.iv[12..16], [0xff, 0xff, 0xfd, 0x98]);
    let zeros = vec![0u8; 16 * 700];
    let stream = a.encrypt(zeros);
    let p = 16 * 650 + 3;
    let mut b = AesCTR::new("pw", salt);
    b.set_position(p);
    assert_eq!(b.iv[8..16], [0xfe, 0x2f, 0x3a, 0x4f, 0x00, 0x00, 0x00, 0x22]);
    assert_eq!(b.encrypt(vec![0u8; 40]), stream[p..p + 40].to_vec());
}

#[test]
fn old_cipher_set_position_snaps_every_offset_to_its_block() {
    let mut full = AesCTR64::new("123456", "1024");
    let mut stream = vec![0u8; 16 * 12];
    full.decrypt(&mut stream);
    for p in 0..(16 * 11usize) {
        let mut c = AesCTR64::new("123456", "1024");
        c.set_position(p);
        let mut part = vec![0u8; 16];
        c.decrypt(&mut part);
        let start = p / 16 * 16;
        assert_eq!(part, stream[start..start + 16].to_vec());
    }
}
