use fast_webdav::model::WebdavFile;
use fast_webdav::vfs::{
    api_url, checksum_sha1, checksum_xml, find_by_id, find_by_name, get_file_extension_name,
    get_file_sha1, get_file_type, init_upload_request, is_checksum_prop, is_ignored_name,
    is_root_dir, is_root_listing, is_url_expired, is_url_expired_at, new_upload_file, open_action, oss_expires,
    range_header, remove_uploading_file, rename_action, seconds_after, seek_position, sign,
    str_eq, to_md5, url_expired_at, split_str, lookup_dirs, OpenAction, RenameAction, SeekPos,
};

fn file(id: &str, name: &str) -> WebdavFile {
    WebdavFile {
        id: id.to_string(),
        provider: Some("tmplink".to_string()),
        name: name.to_string(),
        oriname: None,
        parent_id: "p".to_string(),
        size: "12".to_string(),
        kind: 1,
        create_time: 1_700_000_000,
        download_url: None,
        sha1: None,
        play_headers: None,
        password: None,
    }
}

#[test]
fn extension_is_text_after_last_dot() {
    assert_eq!(get_file_extension_name("a.b.txt"), "txt");
    assert_eq!(get_file_extension_name("noext"), "");
    assert_eq!(get_file_extension_name(".bashrc"), "bashrc");
    assert_eq!(get_file_extension_name("x."), "");
    assert_eq!(get_file_extension_name("\u{4f60}\u{597d}.mp4"), "mp4");
}

#[test]
fn file_type_table() {
    assert_eq!(get_file_type("t.txt"), 1);
    assert_eq!(get_file_type("i.heic"), 2);
    assert_eq!(get_file_type("movie.mkv"), 3);
    assert_eq!(get_file_type("song.mp3"), 4);
    assert_eq!(get_file_type("x.exe"), 5);
    assert_eq!(get_file_type("z.docx"), 6);
    assert_eq!(get_file_type("d.xlsx"), 7);
    assert_eq!(get_file_type("p.pptx"), 8);
    assert_eq!(get_file_type("y.pdf"), 9);
    assert_eq!(get_file_type("c.epub"), 11);
    assert_eq!(get_file_type("noext"), 5);
    assert_eq!(get_file_type("upper.TXT"), 5);
    assert_eq!(get_file_type("b.3gp"), 5);
}

#[test]
fn ignored_names() {
    assert!(is_ignored_name(".DS_Store"));
    assert!(is_ignored_name("._a.txt"));
    assert!(!is_ignored_name("a.txt"));
    assert!(!is_ignored_name("."));
}

#[test]
fn checksum_header() {
    assert_eq!(checksum_sha1(Some("SHA1:abc".to_string())), Some("abc".to_string()));
    assert_eq!(checksum_sha1(Some("ShA1:".to_string())), Some("".to_string()));
    assert_eq!(checksum_sha1(Some("sha1:a:b".to_string())), Some("a:b".to_string()));
    assert_eq!(checksum_sha1(Some("md5:abc".to_string())), None);
    assert_eq!(checksum_sha1(Some("sha1".to_string())), None);
    assert_eq!(checksum_sha1(None), None);
}

#[test]
fn digests_as_hex() {
    assert_eq!(to_md5("abc"), "900150983cd24fb0d6963f7d28e17f72");
    assert_eq!(sign("tok", "cid", -42), "a54e60c15eb447fd3e9ad7e693c44e83");
    assert_eq!(get_file_sha1(b"hello"), "aaf4c61ddcc5e8a2dabede0f3b482cd9aea9434d");
}

#[test]
fn endpoints_and_ranges() {
    assert_eq!(api_url("tmplink", "list"), "http://127.0.0.1:8000/tmplink/list");
    assert_eq!(range_header(0, 10), "bytes=0-9");
    assert_eq!(range_header(100, 1), "bytes=100-100");
    assert!(is_root_dir("0", "/"));
    assert!(!is_root_dir("0", "/a"));
    assert!(is_root_listing("/", "0"));
    assert!(!is_root_listing("/", "5"));
    assert!(str_eq("ab", "ab"));
    assert!(!str_eq("ab", "abc"));
}

#[test]
fn expiry_of_signed_urls() {
    let pairs = vec![
        ("x-oss-expires".to_string(), "abc".to_string()),
        ("b".to_string(), "2".to_string()),
        ("x-oss-expires".to_string(), "+5".to_string()),
    ];
    assert_eq!(oss_expires(&pairs), Some(5));
    assert_eq!(oss_expires(&vec![]), None);
    assert!(url_expired_at(10, 9));
    assert!(!url_expired_at(10, 8));
    assert_eq!(is_url_expired("http://x/a?x-oss-expires=1&b=2"), Some(true));
    assert_eq!(is_url_expired("http://x/a?x-oss-expires=99999999999"), Some(false));
    assert_eq!(is_url_expired("http://x/a?b=2"), Some(false));
    assert_eq!(is_url_expired("not a url"), Some(false));
    assert_eq!(is_url_expired("http://x/?x-oss-expires=0"), None);
    let u = "http://x/a?x-oss-expires=100";
    assert_eq!(is_url_expired_at(u, Some(98)), Some(false));
    assert_eq!(is_url_expired_at(u, Some(99)), Some(true));
    assert_eq!(is_url_expired_at(u, None), None);
    assert_eq!(is_url_expired_at("http://x/a", None), Some(false));
    assert_eq!(is_url_expired_at("http://x/a?x-oss-expires=%31%30", Some(9)), Some(true));
}

#[test]
fn time_offsets() {
    assert_eq!(seconds_after(1000, 1, 2), Some(1000 + 86400 + 7200));
    assert_eq!(seconds_after(1000, -1, 0), None);
    assert_eq!(seconds_after(i64::MAX as u64, 0, 1), None);
}

#[test]
fn lookups_in_listings() {
    let files = vec![file("1", "a"), file("2", "b"), file("3", "a")];
    assert_eq!(find_by_name(&files, "a").unwrap().id, "1");
    assert!(find_by_name(&files, "c").is_none());
    assert_eq!(find_by_id(&files, "3").unwrap().name, "a");
    assert!(find_by_id(&files, "9").is_none());
}

#[test]
fn removing_an_uploading_file() {
    let mut files = vec![file("1", "a"), file("2", "b"), file("3", "c")];
    remove_uploading_file(&mut files, "a");
    let names: Vec<&str> = files.iter().map(|f| f.name.as_str()).collect();
    assert_eq!(names, vec!["c", "b"]);
    remove_uploading_file(&mut files, "zzz");
    assert_eq!(files.len(), 2);
}

#[test]
fn creation_request_and_upload_entry() {
    let req = init_upload_request("tmplink", "a.txt", "parent", "hash", 7);
    assert_eq!(req.provider, "tmplink");
    assert_eq!(req.name, "hash");
    assert_eq!(req.parent_file_id, "a.txt");
    assert_eq!(req.sha1, "hash");
    assert_eq!(req.size, 7);

    let parent = file("42", "dir");
    let f = new_upload_file(&parent, "a.txt", Some(1234), None, "/dav/a.txt", 99);
    assert_eq!(f.id, "0");
    assert_eq!(f.provider, Some("tmplink".to_string()));
    assert_eq!(f.parent_id, "42");
    assert_eq!(f.size, "1234");
    assert_eq!(f.kind, 0);
    assert_eq!(f.create_time, 99);
    assert_eq!(f.sha1, Some("26ee9c3dcd34355071a27f9e4df4befa09f6ed6e".to_string()));
    assert_eq!(f.len(), 1234);

    let g = new_upload_file(&parent, "b", None, Some("abc".to_string()), "/x", 0);
    assert_eq!(g.size, "0");
    assert_eq!(g.sha1, Some("abc".to_string()));
}

#[test]
fn seeking() {
    assert_eq!(seek_position(5, 100, SeekPos::Start(7)), 7);
    assert_eq!(seek_position(5, 100, SeekPos::End(10)), 90);
    assert_eq!(seek_position(5, 100, SeekPos::End(-10)), 110);
    assert_eq!(seek_position(5, 100, SeekPos::Current(3)), 8);
}

#[test]
fn open_and_rename_decisions() {
    assert_eq!(open_action(true, true, true, true, true), OpenAction::NotImplemented);
    assert_eq!(open_action(false, true, false, true, true), OpenAction::Exists);
    assert_eq!(open_action(false, false, false, false, true), OpenAction::OpenExisting);
    assert_eq!(open_action(false, true, true, false, false), OpenAction::CreateNew);
    assert_eq!(open_action(false, false, true, false, false), OpenAction::NotFound);
    assert_eq!(rename_action(true, true), RenameAction::Rename);
    assert_eq!(rename_action(true, false), RenameAction::Forbidden);
    assert_eq!(rename_action(false, false), RenameAction::Move);
}

#[test]
fn checksum_property() {
    assert!(is_checksum_prop(Some("http://owncloud.org/ns"), "checksums"));
    assert!(!is_checksum_prop(None, "checksums"));
    assert!(!is_checksum_prop(Some("DAV:"), "checksums"));
    let xml = checksum_xml("abc");
    assert!(xml.starts_with("<?xml version=\"1.0\"?>\n"));
    assert!(xml.contains("<oc:checksum>sha1:abc</oc:checksum>"));
    assert!(xml.ends_with("</oc:checksums>\n                    "));
}

#[test]
fn split_str_keeps_empty_pieces() {
    assert_eq!(split_str("/a//b", '/'), vec!["", "a", "", "b"]);
    assert_eq!(split_str("", '/'), vec![""]);
    assert_eq!(split_str("plain", '/'), vec!["plain"]);
}

#[test]
fn lookup_dirs_walks_from_root() {
    let (dirs, name) = lookup_dirs("/a/b/c.txt");
    assert_eq!(dirs, vec!["/", "/a", "/a/b"]);
    assert_eq!(name, "c.txt");
    let (dirs, name) = lookup_dirs("/top");
    assert_eq!(dirs, vec!["/"]);
    assert_eq!(name, "top");
    let (dirs, name) = lookup_dirs("x");
    assert!(dirs.is_empty());
    assert_eq!(name, "x");
}

#[test]
fn download_headers_from_play_headers() {
    assert_eq!(fast_webdav::vfs::download_headers(None), Some(vec![]));
    assert_eq!(fast_webdav::vfs::download_headers(Some(String::new())), Some(vec![]));
    assert_eq!(fast_webdav::vfs::download_headers(Some("not json".to_string())), None);
    assert_eq!(fast_webdav::vfs::download_headers(Some("{\"a\": 1}".to_string())), None);
    assert_eq!(
        fast_webdav::vfs::download_headers(Some("{\"Referer\": \"https://x\"}".to_string())),
        Some(vec![("Referer".to_string(), "https://x".to_string())])
    );
    let mut two = fast_webdav::vfs::download_headers(Some("{\"b\": \"2\", \"a\": \"1\", \"b\": \"3\"}".to_string())).unwrap();
    two.sort();
    assert_eq!(two, vec![("a".to_string(), "1".to_string()), ("b".to_string(), "3".to_string())]);
}

#[test]
fn read_url_action_and_position() {
    assert_eq!(fast_webdav::vfs::read_url_action("", Some(false)), fast_webdav::vfs::ReadUrlAction::NotFound);
    assert_eq!(fast_webdav::vfs::read_url_action("7", None), fast_webdav::vfs::ReadUrlAction::Fetch);
    assert_eq!(fast_webdav::vfs::read_url_action("7", Some(true)), fast_webdav::vfs::ReadUrlAction::Fetch);
    assert_eq!(fast_webdav::vfs::read_url_action("7", Some(false)), fast_webdav::vfs::ReadUrlAction::UseCached);
    assert_eq!(fast_webdav::vfs::position_after_read(100, 28), 128);
}

#[test]
fn uploading_files_follow_the_listing_and_root_is_absolute() {
    let listed = vec![file("1", "a"), file("2", "b")];
    let up = vec![file("0", "c")];
    let merged = fast_webdav::vfs::with_uploading(listed, up);
    let names: Vec<&str> = merged.iter().map(|f| f.name.as_str()).collect();
    assert_eq!(names, vec!["a", "b", "c"]);
    assert_eq!(fast_webdav::vfs::root_path("/data"), "/data");
    assert_eq!(fast_webdav::vfs::root_path("data"), "/data");
    assert_eq!(fast_webdav::vfs::root_path(""), "/");
}

#[test]
fn find_in_listings_takes_the_first_listing_that_has_the_name() {
    let listings = vec![
        vec![file("1", "a")],
        vec![file("2", "b"), file("3", "c")],
        vec![file("4", "c")],
    ];
    assert_eq!(fast_webdav::vfs::find_in_listings(&listings, "c").unwrap().id, "3");
    assert_eq!(fast_webdav::vfs::find_in_listings(&listings, "a").unwrap().id, "1");
    assert!(fast_webdav::vfs::find_in_listings(&listings, "z").is_none());
    assert!(fast_webdav::vfs::find_in_listings(&vec![], "a").is_none());
}

#[test]
fn folder_action_for_create_and_remove() {
    let mut folder = file("9", "dir");
    folder.kind = 0;
    let plain = file("8", "f.txt");
    assert_eq!(fast_webdav::vfs::folder_action(None, true), fast_webdav::vfs::FolderAction::NotFound);
    assert_eq!(fast_webdav::vfs::folder_action(Some(&plain), true), fast_webdav::vfs::FolderAction::Forbidden);
    assert_eq!(fast_webdav::vfs::folder_action(Some(&folder), false), fast_webdav::vfs::FolderAction::Forbidden);
    assert_eq!(fast_webdav::vfs::folder_action(Some(&folder), true), fast_webdav::vfs::FolderAction::Proceed);
}

#[test]
fn extension_is_a_dotless_suffix() {
    let ext = get_file_extension_name("archive.tar.gz");
    assert_eq!(ext, "gz");
    assert!("archive.tar.gz".ends_with(&ext) && !ext.contains('.'));
    assert_eq!(get_file_extension_name("noext"), "");
}
