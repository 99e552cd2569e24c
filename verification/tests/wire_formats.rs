use fast_webdav::model::{format_create_time, parse_create_time, WebdavFile};
use fast_webdav::vfs::{api_root, get_time_in_millis, get_useage_quota, slice_request_field};

#[test]
fn chunk_request_field_is_standard_base64() {
    assert_eq!(slice_request_field("{\"a\":1}"), "eyJhIjoxfQ==");
    assert_eq!(slice_request_field("ab"), "YWI=");
    assert_eq!(slice_request_field("abc"), "YWJj");
    assert_eq!(slice_request_field(""), "");
}

#[test]
fn creation_time_text() {
    assert_eq!(format_create_time(0), Some("1970-01-01 00:00:00".to_string()));
    assert_eq!(format_create_time(1431648000), Some("2015-05-15 00:00:00".to_string()));
    assert_eq!(parse_create_time("2015-05-15 00:00:00"), Some(1431648000));
    assert_eq!(parse_create_time("2015-05-15"), None);
    assert_eq!(format_create_time(i64::MAX), None);
}

#[test]
fn root_and_clock() {
    let root = WebdavFile::new_root().unwrap();
    assert_eq!(root.id, "0");
    assert!(root.create_time > 1_600_000_000);
    let t = get_time_in_millis(1, 0).unwrap();
    assert!(t > 1_600_000_000 + 86400);
    assert_eq!(api_root(), "http://127.0.0.1:8000/");
    assert_eq!(get_useage_quota(), (1024, 1000000000000));
}
