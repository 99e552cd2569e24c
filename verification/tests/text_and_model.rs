use fast_webdav::model::WebdavFile;
use fast_webdav::text::{parse_u64, push_decimal, push_i64_decimal, str_chars, to_hex_lower};

#[test]
fn parse_like_std() {
    for s in ["0", "+5", "", "+", "-1", "12a", " 1", "18446744073709551615", "18446744073709551616", "007"] {
        assert_eq!(parse_u64(s), s.parse::<u64>().ok(), "{}", s);
    }
}

#[test]
fn decimal_text() {
    let mut s = String::from("n=");
    push_decimal(&mut s, 0);
    push_decimal(&mut s, 907);
    assert_eq!(s, "n=0907");
    let mut t = String::new();
    push_i64_decimal(&mut t, i64::MIN);
    assert_eq!(t, i64::MIN.to_string());
    let mut u = String::new();
    push_i64_decimal(&mut u, 42);
    assert_eq!(u, "42");
}

#[test]
fn hex_and_chars() {
    assert_eq!(to_hex_lower(&[0x00, 0xab, 0x7f]), "00ab7f");
    assert_eq!(str_chars("a\u{e9}b"), vec!['a', '\u{e9}', 'b']);
}

#[test]
fn webdav_file_metadata() {
    let root = WebdavFile::root_at(1234);
    assert_eq!(root.id, "0");
    assert_eq!(root.size, "0");
    assert!(root.is_dir());
    assert_eq!(root.len(), 0);
    assert_eq!(root.modified(), 1234);
    assert_eq!(root.created(), 1234);
    assert_eq!(root.name(), Vec::<u8>::new());
    let mut f = root.duplicate();
    f.name = "\u{4f60}".to_string();
    f.kind = 1;
    f.size = "+77".to_string();
    assert!(!f.is_dir());
    assert_eq!(f.len(), 77);
    assert_eq!(f.name(), "\u{4f60}".as_bytes().to_vec());
}
