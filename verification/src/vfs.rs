//! The decisions of the WebDAV file system over the file API: file kinds by
//! extension, names to hide, checksums, signed and expiring URLs, request
//! endpoints, download ranges, and the chunked upload of a written file.
//! The network calls and the caches stay with the caller, which hands these
//! functions plain values and acts on what they return.

use std::path::Path;
use std::time::{SystemTime, UNIX_EPOCH};
use vstd::prelude::*;
use vstd::string::{StringExecFns, StringSliceAdditionalSpecFns};

use crate::crypto::{base64_encode, base64_standard, md5, md5_digest, sha1, sha1_digest};
use crate::model::{OssArgs, UploadInitRequest, UploadInitResponse, WebdavFile, clone_opt_string, opt_string_view};
use crate::text::{hex_lower, str_chars, push_decimal, push_i64_decimal, decimal_digits, i64_decimal, parse_u64_spec, to_hex_lower};

verus! {

/// Where the file API listens.
pub open spec fn api_url_spec() -> Seq<char> {
    "http://127.0.0.1:8000/"@
}

/// The address of the file API.
pub fn api_root() -> (res: String)
    ensures
        res@ == api_url_spec(),
{
    "http://127.0.0.1:8000/".to_owned()
}

/// The last position of `c` in `s`, or -1.
pub open spec fn last_index_of(s: Seq<char>, c: char) -> int
    decreases s.len(),
{
    if s.len() == 0 {
        -1
    } else if s.last() == c {
        s.len() - 1
    } else {
        last_index_of(s.drop_last(), c)
    }
}

/// `last_index_of` is -1 or the position of the last `c`, and no `c`
/// comes after it.
pub proof fn lemma_last_index_of(s: Seq<char>, c: char)
    ensures
        -1 <= last_index_of(s, c) < s.len(),
        last_index_of(s, c) >= 0 ==> s[last_index_of(s, c)] == c,
        forall|k: int| last_index_of(s, c) < k < s.len() ==> s[k] != c,
    decreases s.len(),
{
    if s.len() > 0 && s.last() != c {
        lemma_last_index_of(s.drop_last(), c);
        assert forall|k: int| last_index_of(s, c) < k < s.len() implies s[k] != c by {
            if k < s.len() - 1 {
                assert(s.drop_last()[k] == s[k]);
            }
        }
    }
}

/// The text after the last `.` of a file name, or nothing when it has no
/// `.`.
pub open spec fn extension_of(name: Seq<char>) -> Seq<char> {
    let k = last_index_of(name, '.');
    if k >= 0 {
        name.subrange(k + 1, name.len() as int)
    } else {
        Seq::empty()
    }
}

/// Whether two string slices hold the same characters.
pub fn str_eq(a: &str, b: &str) -> (res: bool)
    ensures
        res == (a@ == b@),
{
    let x = str_chars(a);
    let y = str_chars(b);
    if x.len() != y.len() {
        return false;
    }
    let mut i: usize = 0;
    while i < x.len()
        invariant
            x@ == a@,
            y@ == b@,
            x@.len() == y@.len(),
            i <= x@.len(),
            forall|k: int| 0 <= k < i ==> x@[k] == y@[k],
        decreases x@.len() - i,
    {
        if x[i] != y[i] {
            return false;
        }
        i += 1;
    }
    assert(x@ =~= y@);
    true
}

/// The extension of a file name: what follows its last `.`, or the empty
/// string.
pub fn get_file_extension_name(file_name: &str) -> (res: String)
    ensures
        res@ == extension_of(file_name@),
        res@.len() <= file_name@.len(),
        res@ == file_name@.subrange(file_name@.len() - res@.len(), file_name@.len() as int),
        forall|i: int| 0 <= i < res@.len() ==> #[trigger] res@[i] != '.',
{
    let chars = str_chars(file_name);
    let mut i: usize = chars.len();
    let ghost s = file_name@;
    proof {
        lemma_last_index_of(s, '.');
    }
    while i > 0
        invariant
            chars@ == s,
            s == file_name@,
            i <= s.len(),
            forall|k: int| i <= k < s.len() ==> s[k] != '.',
            -1 <= last_index_of(s, '.') < s.len(),
            last_index_of(s, '.') >= 0 ==> s[last_index_of(s, '.')] == '.',
            forall|k: int| last_index_of(s, '.') < k < s.len() ==> s[k] != '.',
        decreases i,
    {
        if chars[i - 1] == '.' {
            assert(last_index_of(s, '.') == i - 1);
            let ext = file_name.substring_char(i, chars.len());
            assert(ext@ =~= s.subrange(s.len() - ext@.len(), s.len() as int));
            assert forall|x: int| 0 <= x < ext@.len() implies #[trigger] ext@[x] != '.' by {
                assert(ext@[x] == s[i + x]);
            }
            return ext.to_owned();
        }
        i -= 1;
    }
    assert(last_index_of(s, '.') == -1);
    let empty = String::new();
    assert(empty@ =~= s.subrange(s.len() as int, s.len() as int));
    empty
}

/// The file kind code of an extension (1 text, 2 image, 3 video, 4 audio,
/// 5 other, 6 document, 7 spreadsheet, 8 presentation, 9 PDF, 11 e-book).
pub open spec fn file_type_of(ext: Seq<char>) -> i32 {
    if ext == "txt"@ { 1 }
    else if ext == "jpeg"@ || ext == "jpg"@ || ext == "gif"@ || ext == "bmp"@ || ext == "png"@
        || ext == "avif"@ || ext == "heic"@ { 2 }
    else if ext == "mp4"@ || ext == "mkv"@ || ext == "m4u"@ || ext == "m4v"@ || ext == "mov"@
        || ext == ".3gp"@ || ext == "asf"@ || ext == "avi"@ || ext == "wmv"@ || ext == "flv"@
        || ext == "mpe"@ || ext == "mpeg"@ || ext == "mpg"@ || ext == "mpg4"@ || ext == "mpeg4"@
        || ext == "mpga"@ || ext == "rmvb"@ || ext == "rm"@ { 3 }
    else if ext == "aac"@ || ext == "ogg"@ || ext == "wav"@ || ext == "wma"@ || ext == "m3u"@
        || ext == "m4a"@ || ext == "m4b"@ || ext == "m4p"@ || ext == "m4r"@ || ext == "mp2"@
        || ext == "mp3"@ { 4 }
    else if ext == "docx"@ || ext == "doc"@ { 6 }
    else if ext == "xls"@ || ext == "xlsx"@ { 7 }
    else if ext == "ppt"@ || ext == "pptx"@ { 8 }
    else if ext == "pdf"@ { 9 }
    else if ext == "epub"@ { 11 }
    else { 5 }
}

/// Law: the kind of each extension in the table: 1 text; 2 the image
/// extensions; 3 the video ones; 4 the audio ones; 6 and 7 word-processor
/// and spreadsheet files; 8 presentations; 9 PDF; 11 EPUB; and 5 for any
/// extension not in the table.
pub proof fn lemma_file_type_table(ext: Seq<char>)
    ensures
        file_type_of("txt"@) == 1,
        file_type_of("jpeg"@) == 2,
        file_type_of("jpg"@) == 2,
        file_type_of("gif"@) == 2,
        file_type_of("bmp"@) == 2,
        file_type_of("png"@) == 2,
        file_type_of("avif"@) == 2,
        file_type_of("heic"@) == 2,
        file_type_of("mp4"@) == 3,
        file_type_of("mkv"@) == 3,
        file_type_of("m4u"@) == 3,
        file_type_of("m4v"@) == 3,
        file_type_of("mov"@) == 3,
        file_type_of(".3gp"@) == 3,
        file_type_of("asf"@) == 3,
        file_type_of("avi"@) == 3,
        file_type_of("wmv"@) == 3,
        file_type_of("flv"@) == 3,
        file_type_of("mpe"@) == 3,
        file_type_of("mpeg"@) == 3,
        file_type_of("mpg"@) == 3,
        file_type_of("mpg4"@) == 3,
        file_type_of("mpeg4"@) == 3,
        file_type_of("mpga"@) == 3,
        file_type_of("rmvb"@) == 3,
        file_type_of("rm"@) == 3,
        file_type_of("aac"@) == 4,
        file_type_of("ogg"@) == 4,
        file_type_of("wav"@) == 4,
        file_type_of("wma"@) == 4,
        file_type_of("m3u"@) == 4,
        file_type_of("m4a"@) == 4,
        file_type_of("m4b"@) == 4,
        file_type_of("m4p"@) == 4,
        file_type_of("m4r"@) == 4,
        file_type_of("mp2"@) == 4,
        file_type_of("mp3"@) == 4,
        file_type_of("docx"@) == 6,
        file_type_of("doc"@) == 6,
        file_type_of("xls"@) == 7,
        file_type_of("xlsx"@) == 7,
        file_type_of("ppt"@) == 8,
        file_type_of("pptx"@) == 8,
        file_type_of("pdf"@) == 9,
        file_type_of("epub"@) == 11,
        ext != "txt"@ && ext != "jpeg"@ && ext != "jpg"@ && ext != "gif"@ && ext != "bmp"@ && ext != "png"@ && ext != "avif"@ && ext != "heic"@ && ext != "mp4"@ && ext != "mkv"@ && ext != "m4u"@ && ext != "m4v"@ && ext != "mov"@ && ext != ".3gp"@ && ext != "asf"@ && ext != "avi"@ && ext != "wmv"@ && ext != "flv"@ && ext != "mpe"@ && ext != "mpeg"@ && ext != "mpg"@ && ext != "mpg4"@ && ext != "mpeg4"@ && ext != "mpga"@ && ext != "rmvb"@ && ext != "rm"@ && ext != "aac"@ && ext != "ogg"@ && ext != "wav"@ && ext != "wma"@ && ext != "m3u"@ && ext != "m4a"@ && ext != "m4b"@ && ext != "m4p"@ && ext != "m4r"@ && ext != "mp2"@ && ext != "mp3"@ && ext != "docx"@ && ext != "doc"@ && ext != "xls"@ && ext != "xlsx"@ && ext != "ppt"@ && ext != "pptx"@ && ext != "pdf"@ && ext != "epub"@ ==> file_type_of(ext) == 5,
{
    reveal_strlit("txt");
    reveal_strlit("jpeg");
    reveal_strlit("jpg");
    reveal_strlit("gif");
    reveal_strlit("bmp");
    reveal_strlit("png");
    reveal_strlit("avif");
    reveal_strlit("heic");
    reveal_strlit("mp4");
    reveal_strlit("mkv");
    reveal_strlit("m4u");
    reveal_strlit("m4v");
    reveal_strlit("mov");
    reveal_strlit(".3gp");
    reveal_strlit("asf");
    reveal_strlit("avi");
    reveal_strlit("wmv");
    reveal_strlit("flv");
    reveal_strlit("mpe");
    reveal_strlit("mpeg");
    reveal_strlit("mpg");
    reveal_strlit("mpg4");
    reveal_strlit("mpeg4");
    reveal_strlit("mpga");
    reveal_strlit("rmvb");
    reveal_strlit("rm");
    reveal_strlit("aac");
    reveal_strlit("ogg");
    reveal_strlit("wav");
    reveal_strlit("wma");
    reveal_strlit("m3u");
    reveal_strlit("m4a");
    reveal_strlit("m4b");
    reveal_strlit("m4p");
    reveal_strlit("m4r");
    reveal_strlit("mp2");
    reveal_strlit("mp3");
    reveal_strlit("docx");
    reveal_strlit("doc");
    reveal_strlit("xls");
    reveal_strlit("xlsx");
    reveal_strlit("ppt");
    reveal_strlit("pptx");
    reveal_strlit("pdf");
    reveal_strlit("epub");
    assert("txt"@ =~= seq!['t', 'x', 't']);
    assert("jpeg"@ =~= seq!['j', 'p', 'e', 'g']);
    assert("jpg"@ =~= seq!['j', 'p', 'g']);
    assert("gif"@ =~= seq!['g', 'i', 'f']);
    assert("bmp"@ =~= seq!['b', 'm', 'p']);
    assert("png"@ =~= seq!['p', 'n', 'g']);
    assert("avif"@ =~= seq!['a', 'v', 'i', 'f']);
    assert("heic"@ =~= seq!['h', 'e', 'i', 'c']);
    assert("mp4"@ =~= seq!['m', 'p', '4']);
    assert("mkv"@ =~= seq!['m', 'k', 'v']);
    assert("m4u"@ =~= seq!['m', '4', 'u']);
    assert("m4v"@ =~= seq!['m', '4', 'v']);
    assert("mov"@ =~= seq!['m', 'o', 'v']);
    assert(".3gp"@ =~= seq!['.', '3', 'g', 'p']);
    assert("asf"@ =~= seq!['a', 's', 'f']);
    assert("avi"@ =~= seq!['a', 'v', 'i']);
    assert("wmv"@ =~= seq!['w', 'm', 'v']);
    assert("flv"@ =~= seq!['f', 'l', 'v']);
    assert("mpe"@ =~= seq!['m', 'p', 'e']);
    assert("mpeg"@ =~= seq!['m', 'p', 'e', 'g']);
    assert("mpg"@ =~= seq!['m', 'p', 'g']);
    assert("mpg4"@ =~= seq!['m', 'p', 'g', '4']);
    assert("mpeg4"@ =~= seq!['m', 'p', 'e', 'g', '4']);
    assert("mpga"@ =~= seq!['m', 'p', 'g', 'a']);
    assert("rmvb"@ =~= seq!['r', 'm', 'v', 'b']);
    assert("rm"@ =~= seq!['r', 'm']);
    assert("aac"@ =~= seq!['a', 'a', 'c']);
    assert("ogg"@ =~= seq!['o', 'g', 'g']);
    assert("wav"@ =~= seq!['w', 'a', 'v']);
    assert("wma"@ =~= seq!['w', 'm', 'a']);
    assert("m3u"@ =~= seq!['m', '3', 'u']);
    assert("m4a"@ =~= seq!['m', '4', 'a']);
    assert("m4b"@ =~= seq!['m', '4', 'b']);
    assert("m4p"@ =~= seq!['m', '4', 'p']);
    assert("m4r"@ =~= seq!['m', '4', 'r']);
    assert("mp2"@ =~= seq!['m', 'p', '2']);
    assert("mp3"@ =~= seq!['m', 'p', '3']);
    assert("docx"@ =~= seq!['d', 'o', 'c', 'x']);
    assert("doc"@ =~= seq!['d', 'o', 'c']);
    assert("xls"@ =~= seq!['x', 'l', 's']);
    assert("xlsx"@ =~= seq!['x', 'l', 's', 'x']);
    assert("ppt"@ =~= seq!['p', 'p', 't']);
    assert("pptx"@ =~= seq!['p', 'p', 't', 'x']);
    assert("pdf"@ =~= seq!['p', 'd', 'f']);
    assert("epub"@ =~= seq!['e', 'p', 'u', 'b']);
}

/// Law: the extension of `stem.ext`, for an `ext` without a dot, is `ext`,
/// so the kind of such a name is the kind of `ext` in the table.
pub proof fn lemma_extension_of_dotted(stem: Seq<char>, ext: Seq<char>)
    requires
        forall|i: int| 0 <= i < ext.len() ==> #[trigger] ext[i] != '.',
    ensures
        extension_of(stem + "."@ + ext) == ext,
{
    reveal_strlit(".");
    let name = stem + "."@ + ext;
    let k = stem.len() as int;
    lemma_last_index_of(name, '.');
    assert(name[k] == '.');
    assert forall|i: int| k < i < name.len() implies name[i] != '.' by {
        assert(name[i] == ext[i - k - 1]);
    }
    assert(last_index_of(name, '.') == k);
    assert(name.subrange(k + 1, name.len() as int) =~= ext);
}

/// The file kind code of a file name, by its extension; 5 when the
/// extension is not in the table.
pub fn get_file_type(file_name: &str) -> (res: i32)
    ensures
        res == file_type_of(extension_of(file_name@)),
{
    let file_ext = get_file_extension_name(file_name);
    let ext = file_ext.as_str();
    if str_eq(ext, "txt") {
        1
    } else if str_eq(ext, "jpeg") || str_eq(ext, "jpg") || str_eq(ext, "gif") || str_eq(ext, "bmp") || str_eq(ext, "png") || str_eq(ext, "avif") || str_eq(ext, "heic") {
        2
    } else if str_eq(ext, "mp4") || str_eq(ext, "mkv") || str_eq(ext, "m4u") || str_eq(ext, "m4v") || str_eq(ext, "mov") || str_eq(ext, ".3gp") || str_eq(ext, "asf") || str_eq(ext, "avi") || str_eq(ext, "wmv") || str_eq(ext, "flv") || str_eq(ext, "mpe") || str_eq(ext, "mpeg") || str_eq(ext, "mpg") || str_eq(ext, "mpg4") || str_eq(ext, "mpeg4") || str_eq(ext, "mpga") || str_eq(ext, "rmvb") || str_eq(ext, "rm") {
        3
    } else if str_eq(ext, "aac") || str_eq(ext, "ogg") || str_eq(ext, "wav") || str_eq(ext, "wma") || str_eq(ext, "m3u") || str_eq(ext, "m4a") || str_eq(ext, "m4b") || str_eq(ext, "m4p") || str_eq(ext, "m4r") || str_eq(ext, "mp2") || str_eq(ext, "mp3") {
        4
    } else if str_eq(ext, "docx") || str_eq(ext, "doc") {
        6
    } else if str_eq(ext, "xls") || str_eq(ext, "xlsx") {
        7
    } else if str_eq(ext, "ppt") || str_eq(ext, "pptx") {
        8
    } else if str_eq(ext, "pdf") {
        9
    } else if str_eq(ext, "epub") {
        11
    } else {
        5
    }
}


/// Names of files that the file system never shows or creates: the
/// `.DS_Store` and `._*` files of macOS.
pub open spec fn ignored_name_spec(name: Seq<char>) -> bool {
    name == ".DS_Store"@ || (name.len() >= 2 && name[0] == '.' && name[1] == '_')
}

/// Whether `name` is one that the file system ignores.
pub fn is_ignored_name(name: &str) -> (res: bool)
    ensures
        res == ignored_name_spec(name@),
{
    if str_eq(name, ".DS_Store") {
        return true;
    }
    let chars = str_chars(name);
    chars.len() >= 2 && chars[0] == '.' && chars[1] == '_'
}

/// Law: only the macOS metadata files are ignored: `.DS_Store` and every
/// name that starts with `._` are; a name that starts otherwise (a dot
/// file such as `.gitignore` among them) and is not `.DS_Store` is not.
pub proof fn lemma_ignored_names(name: Seq<char>)
    ensures
        ignored_name_spec(".DS_Store"@),
        name.len() >= 2 && name.take(2) == "._"@ ==> ignored_name_spec(name),
        name != ".DS_Store"@ && !(name.len() >= 2 && name.take(2) == "._"@) ==> !ignored_name_spec(name),
{
    reveal_strlit("._");
    if name.len() >= 2 && name[0] == '.' && name[1] == '_' {
        assert(name.take(2) =~= "._"@);
    }
    if name.len() >= 2 && name.take(2) == "._"@ {
        assert(name[0] == name.take(2)[0] && name[1] == name.take(2)[1]);
    }
}

/// The ASCII lower-case form of a character.
pub open spec fn ascii_lower(c: char) -> char {
    if 'A' <= c <= 'Z' {
        ((c as u32) + 32) as char
    } else {
        c
    }
}

/// The first position of `c` in `s`, or -1.
pub open spec fn first_index_of(s: Seq<char>, c: char) -> int
    decreases s.len(),
{
    if s.len() == 0 {
        -1
    } else if s[0] == c {
        0
    } else if first_index_of(s.drop_first(), c) < 0 {
        -1
    } else {
        first_index_of(s.drop_first(), c) + 1
    }
}

/// `first_index_of` is -1 or the position of the first `c`, and no `c`
/// comes before it.
pub proof fn lemma_first_index_of(s: Seq<char>, c: char)
    ensures
        -1 <= first_index_of(s, c) < s.len(),
        first_index_of(s, c) >= 0 ==> s[first_index_of(s, c)] == c,
        forall|k: int| 0 <= k < s.len() && (first_index_of(s, c) < 0 || k < first_index_of(s, c)) ==> s[k] != c,
    decreases s.len(),
{
    if s.len() > 0 && s[0] != c {
        lemma_first_index_of(s.drop_first(), c);
        assert forall|k: int| 0 <= k < s.len() && (first_index_of(s, c) < 0 || k < first_index_of(s, c)) implies s[k] != c by {
            if k > 0 {
                assert(s.drop_first()[k - 1] == s[k]);
            }
        }
    }
}

/// The SHA-1 of a WebDAV checksum header `algo:hash`: the text after the
/// first `:` when the text before it is `sha1` in any ASCII case.
pub open spec fn checksum_sha1_spec(checksum: Option<Seq<char>>) -> Option<Seq<char>> {
    match checksum {
        None => None,
        Some(c) => {
            let k = first_index_of(c, ':');
            if k == 4 && ascii_lower(c[0]) == 's' && ascii_lower(c[1]) == 'h' && ascii_lower(c[2]) == 'a'
                && c[3] == '1' {
                Some(c.subrange(k + 1, c.len() as int))
            } else {
                None
            }
        },
    }
}

/// Law: a checksum header names a SHA-1 exactly when the text before its
/// first `:` is `sha1` in any ASCII case (four characters, then the `:`);
/// the SHA-1 is then all the text after that `:`. Any other algorithm, or
/// no `:` at all, names none.
pub proof fn lemma_checksum_names_sha1_only(c: Seq<char>)
    ensures
        checksum_sha1_spec(None) is None,
        checksum_sha1_spec(Some(c)) == if c.len() >= 5 && (c[0] == 's' || c[0] == 'S') && (c[1] == 'h' || c[1]
            == 'H') && (c[2] == 'a' || c[2] == 'A') && c[3] == '1' && c[4] == ':' {
            Some(c.subrange(5, c.len() as int))
        } else {
            None
        },
{
    lemma_first_index_of(c, ':');
    let k = first_index_of(c, ':');
    if c.len() >= 5 && (c[0] == 's' || c[0] == 'S') && (c[1] == 'h' || c[1] == 'H') && (c[2] == 'a' || c[2] == 'A')
        && c[3] == '1' && c[4] == ':' {
        assert(c[0] != ':' && c[1] != ':' && c[2] != ':' && c[3] != ':');
        assert(k == 4);
    } else if k == 4 {
        assert(c[4] == ':');
        assert(ascii_lower(c[0]) == 's' ==> (c[0] == 's' || c[0] == 'S'));
        assert(ascii_lower(c[1]) == 'h' ==> (c[1] == 'h' || c[1] == 'H'));
        assert(ascii_lower(c[2]) == 'a' ==> (c[2] == 'a' || c[2] == 'A'));
    }
}

fn ascii_lower_char(c: char) -> (res: char)
    ensures
        res == ascii_lower(c),
{
    if c >= 'A' && c <= 'Z' {
        let code: u32 = (c as u32) + 32;
        let lower: u8 = code as u8;
        lower as char
    } else {
        c
    }
}

/// The SHA-1 that a checksum header names, as `open` reads it.
pub fn checksum_sha1(checksum: Option<String>) -> (res: Option<String>)
    ensures
        opt_string_view(res) == checksum_sha1_spec(opt_string_view(checksum)),
{
    match checksum {
        None => None,
        Some(c) => {
            let chars = str_chars(c.as_str());
            let ghost cs = c@;
            proof {
                lemma_first_index_of(cs, ':');
            }
            let mut k: usize = 0;
            while k < chars.len() && chars[k] != ':'
                invariant
                    chars@ == cs,
                    k <= cs.len(),
                    forall|x: int| 0 <= x < k ==> cs[x] != ':',
                decreases cs.len() - k,
            {
                k += 1;
            }
            if k == chars.len() {
                assert(first_index_of(cs, ':') < 0);
                return None;
            }
            assert(cs[k as int] == ':');
            assert(first_index_of(cs, ':') == k);
            if k == 4 && ascii_lower_char(chars[0]) == 's' && ascii_lower_char(chars[1]) == 'h'
                && ascii_lower_char(chars[2]) == 'a' && chars[3] == '1' {
                Some(c.as_str().substring_char(k + 1, chars.len()).to_owned())
            } else {
                None
            }
        },
    }
}

/// MD5 of the UTF-8 bytes of a text, as lower-case hex.
pub open spec fn md5_hex(s: Seq<char>) -> Seq<char> {
    hex_lower(md5(vstd::utf8::encode_utf8(s)))
}

/// The MD5 of a text as 32 lower-case hex digits.
pub fn to_md5(param_string: &str) -> (res: String)
    ensures
        res@ == md5_hex(param_string@),
{
    let array_of_byte = md5_digest(param_string.as_bytes());
    to_hex_lower(array_of_byte.as_slice())
}

/// The request signature: MD5 hex of the MD5 hex of token, client id and
/// the decimal time, written one after another.
pub fn sign(token: &str, cid: &str, time: i64) -> (res: String)
    ensures
        res@ == md5_hex(md5_hex(token@ + cid@ + i64_decimal(time as int))),
{
    let mut s = token.to_owned().concat(cid);
    push_i64_decimal(&mut s, time);
    let haser1 = to_md5(s.as_str());
    to_md5(haser1.as_str())
}

/// The SHA-1 of content, as 40 lower-case hex digits.
pub fn get_file_sha1(body: &[u8]) -> (res: String)
    ensures
        res@ == hex_lower(sha1(body@)),
{
    let result = sha1_digest(body);
    to_hex_lower(result.as_slice())
}

/// The endpoint of an API action for a provider: the API address, the
/// provider's name, `/`, and the action.
pub fn api_url(provider: &str, action: &str) -> (res: String)
    ensures
        res@ == api_url_spec() + provider@ + "/"@ + action@,
{
    "http://127.0.0.1:8000/".to_owned().concat(provider).concat("/").concat(action)
}

/// The `Range` header value for `size` bytes from `start_pos`:
/// `bytes=<first>-<last>`, both inclusive.
pub fn range_header(start_pos: u64, size: usize) -> (res: String)
    requires
        1 <= start_pos + size <= u64::MAX,
    ensures
        res@ == "bytes="@ + decimal_digits(start_pos as nat) + "-"@ + decimal_digits(
            (start_pos + size - 1) as nat,
        ),
{
    let end_pos = start_pos + size as u64 - 1;
    let mut range = "bytes=".to_owned();
    push_decimal(&mut range, start_pos);
    range.append("-");
    push_decimal(&mut range, end_pos);
    range
}

/// The string-to-string object that a JSON text holds, key by key, as
/// `serde_json` reads it into a `HashMap<String, String>` (a key that comes
/// twice keeps its last value), or `None` when the text is not such an
/// object.
pub uninterp spec fn json_string_object(text: Seq<char>) -> Option<Map<Seq<char>, Seq<char>>>;

/// Pairs that list a map: one pair per key, each pair in the map, no key
/// twice, in any order.
pub open spec fn pairs_list_map(v: Seq<(String, String)>, m: Map<Seq<char>, Seq<char>>) -> bool {
    &&& v.len() == m.dom().len()
    &&& forall|i: int| 0 <= i < v.len() ==> m.contains_pair(#[trigger] v[i].0@, v[i].1@)
    &&& forall|i: int, j: int| 0 <= i < j < v.len() ==> #[trigger] v[i].0@ != #[trigger] v[j].0@
}

/// `serde_json::from_str::<HashMap<String, String>>`, the map then listed
/// pair by pair: the claim is that the pairs are those of the object the
/// text holds, a function of the text alone, and `None` exactly when it
/// holds none. Their order is that of the hash map, and is not claimed.
#[verifier::external_body]
pub(crate) fn parse_json_string_object(text: &str) -> (res: Option<Vec<(String, String)>>)
    ensures
        match res {
            None => json_string_object(text@) is None,
            Some(v) => json_string_object(text@) matches Some(m) && pairs_list_map(v@, m),
        },
{
    serde_json::from_str::<std::collections::HashMap<String, String>>(text).ok().map(|m| m.into_iter().collect())
}

/// The extra request headers of a download: none when the file has no
/// header text or an empty one; else the pairs of the JSON object the text
/// holds, or `None` (no request is to be made) when it holds none.
pub fn download_headers(play_headers: Option<String>) -> (res: Option<Vec<(String, String)>>)
    ensures
        match play_headers {
            None => res matches Some(v) && v@.len() == 0,
            Some(t) => if t@.len() == 0 {
                res matches Some(v) && v@.len() == 0
            } else {
                match json_string_object(t@) {
                    None => res is None,
                    Some(m) => res matches Some(v) && pairs_list_map(v@, m),
                }
            },
        },
{
    match play_headers {
        None => Some(Vec::new()),
        Some(t) => {
            if t.as_str().is_empty() {
                Some(Vec::new())
            } else {
                parse_json_string_object(t.as_str())
            }
        },
    }
}

/// The key and value of each query pair of a URL, in order.
pub open spec fn pairs_view(pairs: Seq<(String, String)>) -> Seq<(Seq<char>, Seq<char>)> {
    pairs.map_values(|p: (String, String)| (p.0@, p.1@))
}

/// The percent-decoded query pairs of `url` as the `url` crate parses it,
/// or `None` when it does not parse as an absolute URL.
pub uninterp spec fn parsed_query_pairs(url: Seq<char>) -> Option<Seq<(Seq<char>, Seq<char>)>>;

/// `url::Url::parse` and `Url::query_pairs`: the claim is that the result
/// is a function of the text alone, `None` exactly when parsing fails.
#[verifier::external_body]
pub(crate) fn url_query_pairs(url: &str) -> (res: Option<Vec<(String, String)>>)
    ensures
        match res {
            None => parsed_query_pairs(url@) is None,
            Some(v) => parsed_query_pairs(url@) == Some(pairs_view(v@)),
        },
{
    url::Url::parse(url).ok().map(
        |u| u.query_pairs().map(|(k, v)| (k.into_owned(), v.into_owned())).collect(),
    )
}

/// The expiry time of a signed object-storage URL: the first
/// `x-oss-expires` pair whose value is a number.
pub open spec fn oss_expires_spec(pairs: Seq<(Seq<char>, Seq<char>)>) -> Option<u64>
    decreases pairs.len(),
{
    if pairs.len() == 0 {
        None
    } else if pairs[0].0 == "x-oss-expires"@ && parse_u64_spec(pairs[0].1) is Some {
        parse_u64_spec(pairs[0].1)
    } else {
        oss_expires_spec(pairs.drop_first())
    }
}

/// The first `x-oss-expires` query value that parses as a number.
pub fn oss_expires(pairs: &Vec<(String, String)>) -> (res: Option<u64>)
    ensures
        res == oss_expires_spec(pairs_view(pairs@)),
{
    let mut i: usize = 0;
    assert(pairs_view(pairs@).skip(0) =~= pairs_view(pairs@));
    while i < pairs.len()
        invariant
            i <= pairs@.len(),
            oss_expires_spec(pairs_view(pairs@)) == oss_expires_spec(pairs_view(pairs@).skip(i as int)),
        decreases pairs@.len() - i,
    {
        let ghost rest = pairs_view(pairs@).skip(i as int);
        assert(rest.drop_first() =~= pairs_view(pairs@).skip(i + 1));
        assert(rest[0] == (pairs@[i as int].0@, pairs@[i as int].1@));
        if str_eq(pairs[i].0.as_str(), "x-oss-expires") {
            match crate::text::parse_u64(pairs[i].1.as_str()) {
                Some(expires) => {
                    return Some(expires);
                },
                None => {},
            }
        }
        i += 1;
    }
    None
}

/// Whether a URL that expires at `expires` is expired at `current_ts`
/// (both in seconds since the epoch), one second early.
pub fn url_expired_at(expires: u64, current_ts: u64) -> (res: bool)
    requires
        expires >= 1,
    ensures
        res == (current_ts >= expires - 1),
{
    current_ts >= expires - 1
}

/// `SystemTime::now()` measured from `UNIX_EPOCH` in whole seconds, or
/// `None` when the clock reads before the epoch. The value comes from the
/// clock, so nothing is claimed of it.
#[verifier::external_body]
pub(crate) fn unix_now_secs() -> Option<u64> {
    SystemTime::now().duration_since(UNIX_EPOCH).ok().map(|d| d.as_secs())
}

/// Whether a signed download URL has expired at clock reading
/// `current_ts` (`None`: the clock reads before the epoch). A URL that does
/// not parse, or has no numeric `x-oss-expires`, never expires and the
/// clock is not consulted. `None` where the check cannot be made: the clock
/// reads before the epoch, or the expiry is 0 (one second early would be
/// before the epoch).
pub open spec fn url_expiry_spec(url: Seq<char>, current_ts: Option<u64>) -> Option<bool> {
    match parsed_query_pairs(url) {
        None => Some(false),
        Some(p) => match oss_expires_spec(p) {
            None => Some(false),
            Some(expires) => match current_ts {
                None => None,
                Some(now) => if expires == 0 {
                    None
                } else {
                    Some(now >= expires - 1)
                },
            },
        },
    }
}

/// Whether a signed download URL has expired at a given clock reading.
pub fn is_url_expired_at(url: &str, current_ts: Option<u64>) -> (res: Option<bool>)
    ensures
        res == url_expiry_spec(url@, current_ts),
{
    match url_query_pairs(url) {
        None => Some(false),
        Some(pairs) => match oss_expires(&pairs) {
            None => Some(false),
            Some(expires) => match current_ts {
                None => None,
                Some(now) => {
                    if expires == 0 {
                        None
                    } else {
                        Some(url_expired_at(expires, now))
                    }
                },
            },
        },
    }
}

/// Whether a signed download URL has expired now, by the system clock.
pub fn is_url_expired(url: &str) -> (res: Option<bool>)
    ensures
        exists|now: Option<u64>| res == url_expiry_spec(url@, now),
{
    let now = unix_now_secs();
    is_url_expired_at(url, now)
}

/// The epoch seconds `days` days and `hours` hours after `now_secs`, or
/// `None` past `i64::MAX` (where a negative offset lands once cast to
/// unsigned).
pub open spec fn time_after_spec(now_secs: u64, days: i64, hours: i64) -> Option<i64> {
    let total = now_secs + ((days * 86400 + hours * 3600) as u64);
    if total <= i64::MAX {
        Some(total as i64)
    } else {
        None
    }
}

/// The time `days` days and `hours` hours after `now_secs` (seconds since
/// the epoch), or `None` where the system clock type cannot hold it (past
/// `i64::MAX` seconds, which is also where a negative offset lands once
/// cast to unsigned).
pub fn seconds_after(now_secs: u64, days: i64, hours: i64) -> (res: Option<i64>)
    requires
        i64::MIN <= days * 86400 <= i64::MAX,
        i64::MIN <= hours * 3600 <= i64::MAX,
        i64::MIN <= days * 86400 + hours * 3600 <= i64::MAX,
    ensures
        res == time_after_spec(now_secs, days, hours),
{
    let seconds: u64 = (days * 86400 + hours * 3600) as u64;
    if seconds > (i64::MAX as u64) || now_secs > (i64::MAX as u64) - seconds {
        None
    } else {
        Some((now_secs + seconds) as i64)
    }
}

/// The epoch seconds `i` days and `i2` hours from now; `None` when the
/// clock reads before the epoch or the result does not fit the clock type.
pub fn get_time_in_millis(i: i64, i2: i64) -> (res: Option<i64>)
    requires
        i64::MIN <= i * 86400 <= i64::MAX,
        i64::MIN <= i2 * 3600 <= i64::MAX,
        i64::MIN <= i * 86400 + i2 * 3600 <= i64::MAX,
    ensures
        res is None || exists|now: u64| res == time_after_spec(now, i, i2),
{
    match unix_now_secs() {
        None => None,
        Some(now) => seconds_after(now, i, i2),
    }
}


/// Whether a folder is the root of the drive (id "0" at path "/"), which
/// the API does not let the file system change.
pub open spec fn is_root_dir_spec(id: Seq<char>, path: Seq<char>) -> bool {
    id == "0"@ && path == "/"@
}

/// Whether a folder is the root of the drive.
pub fn is_root_dir(id: &str, path: &str) -> (res: bool)
    ensures
        res == is_root_dir_spec(id@, path@),
{
    str_eq(id, "0") && str_eq(path, "/")
}

/// Whether a listing is of the drive's root, which the API lists itself
/// rather than a provider.
pub fn is_root_listing(path_str: &str, parent_file_id: &str) -> (res: bool)
    ensures
        res == is_root_dir_spec(parent_file_id@, path_str@),
{
    is_root_dir(parent_file_id, path_str)
}

/// The first position in `files` of an entry named `name`, or -1.
pub open spec fn position_by_name(files: Seq<WebdavFile>, name: Seq<char>) -> int
    decreases files.len(),
{
    if files.len() == 0 {
        -1
    } else if files[0].name@ == name {
        0
    } else if position_by_name(files.drop_first(), name) < 0 {
        -1
    } else {
        position_by_name(files.drop_first(), name) + 1
    }
}

/// The first position in `files` of an entry with id `id`, or -1.
pub open spec fn position_by_id(files: Seq<WebdavFile>, id: Seq<char>) -> int
    decreases files.len(),
{
    if files.len() == 0 {
        -1
    } else if files[0].id@ == id {
        0
    } else if position_by_id(files.drop_first(), id) < 0 {
        -1
    } else {
        position_by_id(files.drop_first(), id) + 1
    }
}

/// The first index of an entry named `name`.
fn find_name_index(files: &Vec<WebdavFile>, name: &str) -> (res: Option<usize>)
    ensures
        match res {
            Some(k) => k as int == position_by_name(files@, name@),
            None => position_by_name(files@, name@) == -1,
        },
{
    let mut i: usize = 0;
    assert(files@.skip(0) =~= files@);
    while i < files.len()
        invariant
            i <= files@.len(),
            position_by_name(files@.skip(i as int), name@) < 0 ==> position_by_name(files@, name@) < 0,
            position_by_name(files@.skip(i as int), name@) >= 0 ==> position_by_name(files@, name@)
                == position_by_name(files@.skip(i as int), name@) + i,
        decreases files@.len() - i,
    {
        assert(files@.skip(i as int).drop_first() =~= files@.skip(i + 1));
        if str_eq(files[i].name.as_str(), name) {
            return Some(i);
        }
        i += 1;
    }
    None
}

/// The first entry named `name` (a directory listing looked up by name).
pub fn find_by_name(files: &Vec<WebdavFile>, name: &str) -> (res: Option<WebdavFile>)
    ensures
        position_by_name(files@, name@) < 0 ==> res is None,
        position_by_name(files@, name@) >= 0 ==> res == Some(files@[position_by_name(files@, name@)]),
{
    proof {
        lemma_position_by_name_range(files@, name@);
    }
    match find_name_index(files, name) {
        Some(k) => Some(files[k].duplicate()),
        None => None,
    }
}

proof fn lemma_position_by_name_range(files: Seq<WebdavFile>, name: Seq<char>)
    ensures
        -1 <= position_by_name(files, name) < files.len(),
        position_by_name(files, name) >= 0 ==> files[position_by_name(files, name)].name@ == name,
    decreases files.len(),
{
    if files.len() > 0 && files[0].name@ != name {
        lemma_position_by_name_range(files.drop_first(), name);
    }
}

proof fn lemma_position_by_id_range(files: Seq<WebdavFile>, id: Seq<char>)
    ensures
        -1 <= position_by_id(files, id) < files.len(),
        position_by_id(files, id) >= 0 ==> files[position_by_id(files, id)].id@ == id,
    decreases files.len(),
{
    if files.len() > 0 && files[0].id@ != id {
        lemma_position_by_id_range(files.drop_first(), id);
    }
}

/// The first entry with id `file_id` (a cached listing looked up by id).
pub fn find_by_id(files: &Vec<WebdavFile>, file_id: &str) -> (res: Option<WebdavFile>)
    ensures
        position_by_id(files@, file_id@) < 0 ==> res is None,
        position_by_id(files@, file_id@) >= 0 ==> res == Some(files@[position_by_id(files@, file_id@)]),
{
    proof {
        lemma_position_by_id_range(files@, file_id@);
    }
    let mut i: usize = 0;
    assert(files@.skip(0) =~= files@);
    while i < files.len()
        invariant
            i <= files@.len(),
            position_by_id(files@.skip(i as int), file_id@) < 0 ==> position_by_id(files@, file_id@) < 0,
            position_by_id(files@.skip(i as int), file_id@) >= 0 ==> position_by_id(files@, file_id@)
                == position_by_id(files@.skip(i as int), file_id@) + i,
        decreases files@.len() - i,
    {
        assert(files@.skip(i as int).drop_first() =~= files@.skip(i + 1));
        if str_eq(files[i].id.as_str(), file_id) {
            return Some(files[i].duplicate());
        }
        i += 1;
    }
    None
}

/// Drops the first entry named `name` from the files being uploaded into
/// a folder, moving the last entry into its place (`swap_remove`).
pub fn remove_uploading_file(files: &mut Vec<WebdavFile>, name: &str)
    ensures
        position_by_name(old(files)@, name@) < 0 ==> final(files)@ == old(files)@,
        position_by_name(old(files)@, name@) >= 0 ==> final(files)@ == old(files)@.update(
            position_by_name(old(files)@, name@),
            old(files)@.last(),
        ).drop_last(),
{
    proof {
        lemma_position_by_name_range(old(files)@, name@);
    }
    if let Some(index) = find_name_index(files, name) {
        files.swap_remove(index);
    }
}

/// The request that asks a provider to create a file for upload. Its
/// `name` carries the hash and its `parent_file_id` the file's name, as
/// the API reads them.
pub fn init_upload_request(provider: &str, name: &str, parent_file_id: &str, hash: &str, size: u64) -> (res:
    UploadInitRequest)
    ensures
        res.provider@ == provider@,
        res.name@ == hash@,
        res.parent_file_id@ == name@,
        res.sha1@ == hash@,
        res.size == size,
{
    UploadInitRequest {
        provider: provider.to_owned(),
        name: hash.to_owned(),
        parent_file_id: name.to_owned(),
        sha1: hash.to_owned(),
        size: size,
    }
}

/// The entry that stands for a file while it is being uploaded: id "0",
/// the parent's provider, kind 0, the size in decimal, and as SHA-1 the
/// client's checksum or else the SHA-1 hex of the request path.
pub fn new_upload_file(
    parent: &WebdavFile,
    name: &str,
    size: Option<u64>,
    sha1_checksum: Option<String>,
    url_path: &str,
    now: i64,
) -> (res: WebdavFile)
    ensures
        res.id@ == "0"@,
        res.provider == parent.provider,
        res.kind == 0,
        res.name@ == name@,
        res.oriname is None,
        res.parent_id == parent.id,
        res.size@ == decimal_digits(
            match size {
                Some(n) => n as nat,
                None => 0nat,
            },
        ),
        res.create_time == now,
        res.download_url is None,
        opt_string_view(res.sha1) == Some(
            match sha1_checksum {
                Some(h) => h@,
                None => hex_lower(sha1(vstd::utf8::encode_utf8(url_path@))),
            },
        ),
        res.play_headers is None,
        res.password is None,
{
    let file_hash = match sha1_checksum {
        Some(h) => h,
        None => get_file_sha1(url_path.as_bytes()),
    };
    let mut size_str = String::new();
    push_decimal(
        &mut size_str,
        match size {
            Some(n) => n,
            None => 0,
        },
    );
    assert(size_str@ =~= decimal_digits(
        match size {
            Some(n) => n as nat,
            None => 0nat,
        },
    ));
    WebdavFile {
        id: "0".to_owned(),
        provider: clone_opt_string(&parent.provider),
        kind: 0,
        name: name.to_owned(),
        oriname: None,
        parent_id: parent.id.clone(),
        size: size_str,
        create_time: now,
        download_url: None,
        sha1: Some(file_hash),
        play_headers: None,
        password: None,
    }
}


/// Where a file being written stands in its chunked upload.
#[derive(Debug, Clone)]
pub struct UploadState {
    /// The size that the client announced.
    pub size: u64,
    /// Written bytes not sent yet.
    pub buffer: Vec<u8>,
    /// How many chunks the upload has; 0 before it is prepared.
    pub chunk_count: u64,
    /// The number of the next chunk to send, from 1.
    pub chunk: u64,
    pub upload_id: String,
    pub oss_args: Option<OssArgs>,
    pub sha1: Option<String>,
}

impl Default for UploadState {
    fn default() -> (res: Self)
        ensures
            res.size == 0,
            res.buffer@.len() == 0,
            res.chunk_count == 0,
            res.chunk == 1,
            res.upload_id@.len() == 0,
            res.oss_args is None,
            res.sha1 is None,
    {
        UploadState {
            size: 0,
            buffer: Vec::new(),
            chunk_count: 0,
            chunk: 1,
            upload_id: String::new(),
            oss_args: None,
            sha1: None,
        }
    }
}

impl UploadState {
    /// The state of a file opened for writing `size` bytes with an optional
    /// client checksum: nothing buffered, not prepared, chunk 1 next.
    pub fn for_file(size: u64, sha1: Option<String>) -> (res: Self)
        ensures
            res.size == size,
            res.sha1 == sha1,
            res.buffer@.len() == 0,
            res.chunk_count == 0,
            res.chunk == 1,
            res.upload_id@.len() == 0,
            res.oss_args is None,
    {
        let mut state = UploadState::default();
        state.size = size;
        state.sha1 = sha1;
        state
    }

    /// Appends written bytes to the buffer.
    pub fn write_bytes(&mut self, buf: &[u8])
        ensures
            final(self).buffer@ == old(self).buffer@ + buf@,
            final(self).size == old(self).size,
            final(self).chunk_count == old(self).chunk_count,
            final(self).chunk == old(self).chunk,
            final(self).upload_id == old(self).upload_id,
            final(self).oss_args == old(self).oss_args,
            final(self).sha1 == old(self).sha1,
    {
        let ghost before = self.buffer@;
        self.buffer.extend_from_slice(buf);
        assert(self.buffer@ =~= before + buf@);
    }
}

/// The number of chunks of `size` bytes in chunks of `chunk_size`, the
/// last one possibly shorter.
pub open spec fn chunk_count_spec(size: nat, chunk_size: nat) -> nat
    recommends
        chunk_size > 0,
{
    (size / chunk_size + if size % chunk_size != 0 { 1nat } else { 0nat }) as nat
}

/// The number of chunks of `size` bytes in chunks of `chunk_size`.
pub fn chunk_count(size: u64, chunk_size: u64) -> (res: u64)
    requires
        chunk_size > 0,
    ensures
        res == chunk_count_spec(size as nat, chunk_size as nat),
{
    assert(size % chunk_size != 0 ==> size / chunk_size < u64::MAX) by (nonlinear_arith)
        requires
            chunk_size > 0,
    {
        if size % chunk_size != 0 {
            assert(chunk_size >= 2);
            assert(size / chunk_size <= size / 2);
        }
    }
    size / chunk_size + if size % chunk_size != 0 {
        1
    } else {
        0
    }
}

/// Law: the chunks cover the announced size and no more than one chunk
/// is short: `chunk_count` chunks of `chunk_size` bytes hold `size` bytes,
/// and one chunk fewer would not.
pub proof fn lemma_chunk_count_covers(size: nat, chunk_size: nat)
    requires
        chunk_size > 0,
    ensures
        chunk_count_spec(size, chunk_size) * chunk_size >= size,
        chunk_count_spec(size, chunk_size) > 0 ==> (chunk_count_spec(size, chunk_size) - 1) * chunk_size < size,
{
    let q = size / chunk_size;
    let r = size % chunk_size;
    vstd::arithmetic::div_mod::lemma_fundamental_div_mod(size as int, chunk_size as int);
    vstd::arithmetic::div_mod::lemma_mod_bound(size as int, chunk_size as int);
    assert(size == chunk_size * q + r);
    if r != 0 {
        assert((q + 1) * chunk_size == chunk_size * q + chunk_size) by (nonlinear_arith);
        assert(q * chunk_size == chunk_size * q) by (nonlinear_arith);
    } else {
        assert(q * chunk_size == chunk_size * q) by (nonlinear_arith);
        if q > 0 {
            assert((q - 1) * chunk_size == chunk_size * q - chunk_size) by (nonlinear_arith);
        }
    }
}

/// What `prepare_for_upload` does next.
#[derive(Debug, Clone, Copy, PartialEq, Eq, Structural)]
pub enum PrepareStep {
    /// Go on writing: the upload is prepared, or has nothing to create.
    Proceed,
    /// An existing file of the announced size is kept; skip the upload.
    SkipSameSize,
    /// Delete the existing file first (its failure is only logged), then
    /// take `step_after_remove`.
    RemoveExisting,
    /// Ask the provider to create the file (`init_upload_request`), then
    /// `accept_init_response`.
    CreateFile,
}

/// The first decision of `prepare_for_upload` for the file being written.
pub fn prepare_step(state: &UploadState, file: &WebdavFile, skip_upload_same_size: bool) -> (res: PrepareStep)
    requires
        state.chunk_count == 0 && file.id@.len() > 0 && skip_upload_same_size ==> parse_u64_spec(file.size@) is Some,
    ensures
        state.chunk_count != 0 ==> res == PrepareStep::Proceed,
        state.chunk_count == 0 && file.id@.len() > 0 ==> res == if skip_upload_same_size && parse_u64_spec(
            file.size@,
        ) == Some(state.size) {
            PrepareStep::SkipSameSize
        } else {
            PrepareStep::RemoveExisting
        },
        state.chunk_count == 0 && file.id@.len() == 0 ==> res == if state.size > 0 {
            PrepareStep::CreateFile
        } else {
            PrepareStep::Proceed
        },
{
    if state.chunk_count == 0 {
        if !file.id.as_str().is_empty() {
            if skip_upload_same_size && file.len() == state.size {
                return PrepareStep::SkipSameSize;
            }
            return PrepareStep::RemoveExisting;
        }
        step_after_remove(state)
    } else {
        PrepareStep::Proceed
    }
}

/// The decision of `prepare_for_upload` once an existing file is removed.
pub fn step_after_remove(state: &UploadState) -> (res: PrepareStep)
    ensures
        res == if state.size > 0 {
            PrepareStep::CreateFile
        } else {
            PrepareStep::Proceed
        },
{
    if state.size > 0 {
        PrepareStep::CreateFile
    } else {
        PrepareStep::Proceed
    }
}

/// The upload arguments that an accepted creation gives: the uploader,
/// the SHA-1 and the chunk size the provider chose, and its extra data.
pub open spec fn oss_args_of(resp: UploadInitResponse) -> OssArgs {
    OssArgs {
        uploader: resp.data.uploader,
        sha1: resp.data.fileSha1,
        chunkSize: resp.data.chunkSize,
        extra_init: resp.extra,
        extra_last: None,
    }
}

/// Law: the upload arguments of an accepted creation are the provider's:
/// every chunk is sent with the uploader, SHA-1 and chunk size of the
/// answer, its extra data as the first extra, and no last extra yet.
pub proof fn lemma_accepted_args_are_the_providers(resp: UploadInitResponse)
    ensures
        oss_args_of(resp).uploader == resp.data.uploader,
        oss_args_of(resp).sha1 == resp.data.fileSha1,
        oss_args_of(resp).chunkSize == resp.data.chunkSize,
        oss_args_of(resp).extra_init == resp.extra,
        oss_args_of(resp).extra_last is None,
{
}

/// The upload id that the provider's arguments give (`get_pre_upload_info`):
/// the file's SHA-1.
pub fn get_pre_upload_info(oss_args: &OssArgs) -> (res: String)
    ensures
        res == oss_args.sha1,
{
    oss_args.sha1.clone()
}

/// Takes the provider's answer to a creation: the chunk size becomes the
/// provider's, the chunk count follows from it, and the upload arguments
/// and id are kept. Returns the new upload buffer size.
pub fn accept_init_response(state: &mut UploadState, resp: UploadInitResponse) -> (upload_buffer_size: u64)
    requires
        resp.code == 200,
        resp.data.chunkSize > 0,
    ensures
        upload_buffer_size == resp.data.chunkSize,
        final(state).chunk_count == chunk_count_spec(old(state).size as nat, resp.data.chunkSize as nat),
        final(state).oss_args == Some(oss_args_of(resp)),
        final(state).oss_args matches Some(a) && a.uploader == resp.data.uploader && a.sha1
            == resp.data.fileSha1 && a.chunkSize == resp.data.chunkSize && a.extra_init == resp.extra
            && a.extra_last is None,
        final(state).upload_id == resp.data.fileSha1,
        final(state).size == old(state).size,
        final(state).buffer == old(state).buffer,
        final(state).chunk == old(state).chunk,
        final(state).sha1 == old(state).sha1,
{
    let upload_buffer_size = resp.data.chunkSize;
    state.chunk_count = chunk_count(state.size, upload_buffer_size);
    let oss_args = OssArgs {
        uploader: resp.data.uploader,
        sha1: resp.data.fileSha1,
        chunkSize: resp.data.chunkSize,
        extra_init: resp.extra,
        extra_last: None,
    };
    state.upload_id = get_pre_upload_info(&oss_args);
    state.oss_args = Some(oss_args);
    upload_buffer_size
}

/// What `maybe_upload_chunk` does next.
pub enum ChunkStep {
    /// Nothing to send yet.
    Wait,
    /// A chunk left the buffer, but no upload arguments are known.
    MissingArgs,
    /// Send `data` as chunk number `chunk` with these arguments.
    Send { data: Vec<u8>, chunk: u64, oss_args: OssArgs },
}

/// Takes the next chunk off the buffer when one is due: a full chunk of
/// `upload_buffer_size` bytes, or with `remaining` whatever is left, as
/// long as chunks remain to be sent.
pub fn next_chunk(state: &mut UploadState, remaining: bool, upload_buffer_size: usize) -> (res: ChunkStep)
    ensures
        ({
            let chunk_size = if remaining {
                old(state).buffer@.len()
            } else {
                upload_buffer_size as nat
            };
            let due = chunk_size > 0 && old(state).buffer@.len() >= chunk_size && old(state).chunk
                <= old(state).chunk_count;
            &&& !due ==> res is Wait && *final(state) == *old(state)
            &&& due ==> final(state).buffer@ == old(state).buffer@.skip(chunk_size as int)
            &&& due && old(state).oss_args is None ==> res is MissingArgs
            &&& due && old(state).oss_args is Some ==> (res matches ChunkStep::Send { data, chunk, oss_args }
                && data@ == old(state).buffer@.take(chunk_size as int) && chunk == old(state).chunk && oss_args
                == old(state).oss_args.unwrap() && data@ + final(state).buffer@ == old(state).buffer@)
            &&& final(state).size == old(state).size
            &&& final(state).chunk_count == old(state).chunk_count
            &&& final(state).chunk == old(state).chunk
            &&& final(state).upload_id == old(state).upload_id
            &&& final(state).oss_args == old(state).oss_args
            &&& final(state).sha1 == old(state).sha1
        }),
{
    let chunk_size = if remaining {
        state.buffer.len()
    } else {
        upload_buffer_size
    };
    let current_chunk = state.chunk;
    if chunk_size > 0 && state.buffer.len() >= chunk_size && current_chunk <= state.chunk_count {
        let mut chunk_data = state.buffer.split_off(chunk_size);
        std::mem::swap(&mut chunk_data, &mut state.buffer);
        match &state.oss_args {
            Some(oss_args) => ChunkStep::Send { data: chunk_data, chunk: current_chunk, oss_args: oss_args.duplicate() },
            None => ChunkStep::MissingArgs,
        }
    } else {
        ChunkStep::Wait
    }
}


/// The upload arguments after a chunk is accepted: the extra data of the
/// answer, when it has some, becomes the last extra data.
pub open spec fn args_after_chunk(oss_args: OssArgs, part_extra: Option<String>) -> OssArgs {
    match part_extra {
        Some(e) => OssArgs { extra_last: Some(e), ..oss_args },
        None => oss_args,
    }
}

/// Records that chunk `current_chunk` was accepted. Returns whether it was
/// the last one; the caller then completes the upload with the arguments
/// it sent the chunk with and calls `upload_completed`. Otherwise the next
/// chunk number is due.
pub fn chunk_sent(state: &mut UploadState, oss_args: OssArgs, part_extra: Option<String>, current_chunk: u64) -> (last:
    bool)
    requires
        old(state).chunk < u64::MAX,
    ensures
        last == (current_chunk == old(state).chunk_count),
        final(state).oss_args == Some(args_after_chunk(oss_args, part_extra)),
        final(state).chunk == if last {
            old(state).chunk
        } else {
            (old(state).chunk + 1) as u64
        },
        final(state).size == old(state).size,
        final(state).buffer == old(state).buffer,
        final(state).chunk_count == old(state).chunk_count,
        final(state).upload_id == old(state).upload_id,
        final(state).sha1 == old(state).sha1,
{
    state.oss_args = match part_extra {
        Some(res) => {
            let mut t = oss_args;
            t.extra_last = Some(res);
            Some(t)
        },
        None => Some(oss_args),
    };
    if current_chunk == state.chunk_count {
        true
    } else {
        state.chunk += 1;
        false
    }
}

/// The state after the last chunk: back to the default, and (as the chunk
/// counter always moves on after a chunk) chunk 2 next.
pub fn upload_completed(state: &mut UploadState)
    ensures
        final(state).size == 0,
        final(state).buffer@.len() == 0,
        final(state).chunk_count == 0,
        final(state).chunk == 2,
        final(state).upload_id@.len() == 0,
        final(state).oss_args is None,
        final(state).sha1 is None,
{
    *state = UploadState::default();
    state.chunk += 1;
}

/// A seek request: from the start, back from the end, or from the
/// current position.
#[derive(Debug, Clone, Copy, PartialEq, Eq, Structural)]
pub enum SeekPos {
    Start(u64),
    End(i64),
    Current(i64),
}

/// The position that a seek moves to. From the end, the offset is taken
/// away from the size (both as signed numbers); from the current position
/// it is added as an unsigned number.
pub fn seek_position(current_pos: u64, file_size: u64, pos: SeekPos) -> (res: u64)
    requires
        pos matches SeekPos::End(p) ==> i64::MIN <= (file_size as i64) - p <= i64::MAX,
        pos matches SeekPos::Current(d) ==> current_pos + (d as u64) <= u64::MAX,
    ensures
        res == match pos {
            SeekPos::Start(p) => p,
            SeekPos::End(p) => ((file_size as i64) - p) as u64,
            SeekPos::Current(d) => (current_pos + (d as u64)) as u64,
        },
{
    match pos {
        SeekPos::Start(p) => p,
        SeekPos::End(p) => ((file_size as i64) - p) as u64,
        SeekPos::Current(d) => current_pos + d as u64,
    }
}


/// What `open` does once the parent folder is found.
#[derive(Debug, Clone, Copy, PartialEq, Eq, Structural)]
pub enum OpenAction {
    /// Appending is not supported.
    NotImplemented,
    /// The file exists but was to be created anew.
    Exists,
    /// Open the existing file.
    OpenExisting,
    /// Create the file for upload (see `new_upload_file`).
    CreateNew,
    /// There is no such file and none is to be created.
    NotFound,
}

/// The decision of `open` from the open options and whether the file exists.
pub fn open_action(append: bool, write: bool, create: bool, create_new: bool, file_exists: bool) -> (res: OpenAction)
    ensures
        res == if append {
            OpenAction::NotImplemented
        } else if file_exists {
            if write && create_new {
                OpenAction::Exists
            } else {
                OpenAction::OpenExisting
            }
        } else if write && (create || create_new) {
            OpenAction::CreateNew
        } else {
            OpenAction::NotFound
        },
{
    if append {
        OpenAction::NotImplemented
    } else if file_exists {
        if write && create_new {
            OpenAction::Exists
        } else {
            OpenAction::OpenExisting
        }
    } else if write && (create || create_new) {
        OpenAction::CreateNew
    } else {
        OpenAction::NotFound
    }
}

/// What `rename` does.
#[derive(Debug, Clone, Copy, PartialEq, Eq, Structural)]
pub enum RenameAction {
    /// Rename in place (same parent folder).
    Rename,
    /// Move to the other parent folder.
    Move,
    /// The target has no name.
    Forbidden,
}

/// The decision of `rename`: within one folder it renames (the target must
/// have a name), across folders it moves.
pub fn rename_action(same_parent: bool, target_has_name: bool) -> (res: RenameAction)
    ensures
        res == if same_parent {
            if target_has_name {
                RenameAction::Rename
            } else {
                RenameAction::Forbidden
            }
        } else {
            RenameAction::Move
        },
{
    if same_parent {
        if target_has_name {
            RenameAction::Rename
        } else {
            RenameAction::Forbidden
        }
    } else {
        RenameAction::Move
    }
}

/// Whether a property request asks for ownCloud checksums.
pub fn is_checksum_prop(namespace: Option<&str>, name: &str) -> (res: bool)
    ensures
        res == (namespace matches Some(ns) && ns@ == "http://owncloud.org/ns"@ && name@ == "checksums"@),
{
    match namespace {
        Some(ns) => str_eq(ns, "http://owncloud.org/ns") && str_eq(name, "checksums"),
        None => false,
    }
}

/// The text of the ownCloud checksum property before the hash.
pub open spec fn checksum_xml_head() -> Seq<char> {
    "<?xml version=\"1.0\"?>\n                        <oc:checksums xmlns:d=\"DAV:\" xmlns:nc=\"http://nextcloud.org/ns\" xmlns:oc=\"http://owncloud.org/ns\">\n                            <oc:checksum>sha1:"@
}

/// The text of the ownCloud checksum property after the hash.
pub open spec fn checksum_xml_tail() -> Seq<char> {
    "</oc:checksum>\n                        </oc:checksums>\n                    "@
}

/// The ownCloud checksum property of a file with this SHA-1.
pub fn checksum_xml(sha1: &str) -> (res: String)
    ensures
        res@ == checksum_xml_head() + sha1@ + checksum_xml_tail(),
{
    "<?xml version=\"1.0\"?>\n                        <oc:checksums xmlns:d=\"DAV:\" xmlns:nc=\"http://nextcloud.org/ns\" xmlns:oc=\"http://owncloud.org/ns\">\n                            <oc:checksum>sha1:".to_owned().concat(
        sha1,
    ).concat("</oc:checksum>\n                        </oc:checksums>\n                    ")
}


/// The `slice_req` form field of a chunk upload: the JSON text of the
/// chunk request in standard Base64 of its UTF-8 bytes.
pub fn slice_request_field(req_json: &str) -> (res: String)
    requires
        vstd::utf8::encode_utf8(req_json@).len() <= usize::MAX / 2,
    ensures
        res@ == base64_standard(vstd::utf8::encode_utf8(req_json@)),
{
    base64_encode(req_json.as_bytes())
}

/// The quota that the file system reports: bytes used and bytes in all.
pub fn get_useage_quota() -> (res: (u64, u64))
    ensures
        res == (1024u64, 1000000000000u64),
{
    (1024, 1000000000000)
}


/// The pieces of `s` between the separators `c`, as `str::split` gives them:
/// always at least one, empty pieces included.
pub open spec fn split_on(s: Seq<char>, c: char) -> Seq<Seq<char>>
    decreases s.len(),
{
    let k = first_index_of(s, c);
    if k < 0 {
        seq![s]
    } else {
        proof {
            lemma_first_index_of(s, c);
        }
        seq![s.take(k)] + split_on(s.skip(k + 1), c)
    }
}

/// A path with one more component, as `PathBuf::push` documents it on
/// Unix: a component that starts with `/` replaces the path; otherwise it
/// is appended, after a `/` when the path is not empty and does not end
/// with one.
pub open spec fn path_join_spec(base: Seq<char>, part: Seq<char>) -> Seq<char> {
    if part.len() > 0 && part[0] == '/' {
        part
    } else if base.len() == 0 || base.last() == '/' {
        base + part
    } else {
        base + "/"@ + part
    }
}

/// `Path::new(base).join(part)` read back as text: the claim is what std
/// documents for `PathBuf::push` on Unix (see `path_join_spec`).
#[verifier::external_body]
pub(crate) fn path_join(base: &str, part: &str) -> (res: String)
    ensures
        res@ == path_join_spec(base@, part@),
{
    Path::new(base).join(part).to_string_lossy().into_owned()
}

/// The folders in which a path's last component is looked up: `/` joined
/// with each leading piece of the path in turn.
pub open spec fn lookup_dirs_spec(parts: Seq<Seq<char>>) -> Seq<Seq<char>>
    decreases parts.len(),
{
    if parts.len() <= 1 {
        Seq::empty()
    } else {
        let before = lookup_dirs_spec(parts.drop_last());
        let prefix = if before.len() == 0 {
            "/"@
        } else {
            before.last()
        };
        before.push(path_join_spec(prefix, parts[parts.len() - 2]))
    }
}

/// Splits `s` at each `c`.
pub fn split_str(s: &str, c: char) -> (res: Vec<String>)
    ensures
        res@.map_values(|p: String| p@) == split_on(s@, c),
{
    let chars = str_chars(s);
    let ghost sv = s@;
    let mut out: Vec<String> = Vec::new();
    let mut start: usize = 0;
    let mut i: usize = 0;
    let ghost mut done: Seq<Seq<char>> = Seq::empty();
    assert(sv.skip(0) =~= sv);
    while i < chars.len()
        invariant
            chars@ == sv,
            sv == s@,
            start <= i <= sv.len(),
            forall|x: int| start <= x < i ==> sv[x] != c,
            out@.map_values(|p: String| p@) == done,
            done + split_on(sv.skip(start as int), c) == split_on(sv, c),
        decreases sv.len() - i,
    {
        if chars[i] == c {
            let ghost rest = sv.skip(start as int);
            proof {
                lemma_first_index_of(rest, c);
                assert(rest[i - start] == c);
                assert(first_index_of(rest, c) == i - start);
                assert(rest.take(i - start) =~= sv.subrange(start as int, i as int));
                assert(rest.skip(i - start + 1) =~= sv.skip(i + 1));
                assert(split_on(rest, c) == seq![rest.take(i - start)] + split_on(rest.skip(i - start + 1), c));
            }
            let piece = s.substring_char(start, i).to_owned();
            out.push(piece);
            proof {
                done = done.push(sv.subrange(start as int, i as int));
                assert(out@.map_values(|p: String| p@) =~= done);
                assert(done + split_on(sv.skip(i + 1), c) =~= done.drop_last() + (seq![sv.subrange(start as int, i as int)] + split_on(sv.skip(i + 1), c)));
            }
            start = i + 1;
        }
        i += 1;
    }
    let ghost rest = sv.skip(start as int);
    proof {
        lemma_first_index_of(rest, c);
        assert forall|x: int| 0 <= x < rest.len() implies rest[x] != c by {
            assert(rest[x] == sv[start + x]);
        }
        assert(first_index_of(rest, c) < 0);
        assert(rest =~= sv.subrange(start as int, sv.len() as int));
    }
    let piece = s.substring_char(start, chars.len()).to_owned();
    out.push(piece);
    proof {
        assert(out@.map_values(|p: String| p@) =~= done.push(rest));
        assert(done.push(rest) =~= done + seq![rest]);
    }
    out
}

/// The folders to search for a path's last component, and that component:
/// the path is split at each `/`, and `/` is joined with the leading
/// pieces one by one.
pub fn lookup_dirs(path_str: &str) -> (res: (Vec<String>, String))
    ensures
        res.0@.map_values(|p: String| p@) == lookup_dirs_spec(split_on(path_str@, '/')),
        res.1@ == split_on(path_str@, '/').last(),
{
    let parts = split_str(path_str, '/');
    let ghost pv = split_on(path_str@, '/');
    assert(parts@.len() == pv.len());
    proof {
        lemma_split_nonempty(path_str@, '/');
    }
    let n = parts.len();
    let mut dirs: Vec<String> = Vec::new();
    let mut prefix = "/".to_owned();
    let mut k: usize = 0;
    while k + 1 < n
        invariant
            n == parts@.len(),
            n == pv.len(),
            n >= 1,
            parts@.map_values(|p: String| p@) == pv,
            k + 1 <= n,
            dirs@.map_values(|p: String| p@) == lookup_dirs_spec(pv.take(k as int + 1)),
            prefix@ == if k == 0 {
                "/"@
            } else {
                lookup_dirs_spec(pv.take(k as int + 1)).last()
            },
            k > 0 ==> lookup_dirs_spec(pv.take(k as int + 1)).len() == k,
            k == 0 ==> lookup_dirs_spec(pv.take(k as int + 1)).len() == 0,
        decreases n - k,
    {
        assert(parts@.map_values(|p: String| p@)[k as int] == parts@[k as int]@);
        let next = path_join(prefix.as_str(), parts[k].as_str());
        proof {
            let t = pv.take(k as int + 2);
            assert(t.drop_last() =~= pv.take(k as int + 1));
            assert(t[t.len() - 2] == pv[k as int]);
        }
        dirs.push(next.clone());
        assert(dirs@.map_values(|p: String| p@) =~= lookup_dirs_spec(pv.take(k as int + 2)));
        prefix = next;
        k += 1;
    }
    assert(pv.take(n as int) =~= pv);
    assert(parts@.map_values(|p: String| p@)[n - 1] == parts@[n - 1]@);
    let name = parts[n - 1].clone();
    (dirs, name)
}

proof fn lemma_split_nonempty(s: Seq<char>, c: char)
    ensures
        split_on(s, c).len() >= 1,
    decreases s.len(),
{
    lemma_first_index_of(s, c);
    let k = first_index_of(s, c);
    if k >= 0 {
        lemma_split_nonempty(s.skip(k + 1), c);
    }
}


/// Where `read_bytes` takes its download URL from.
#[derive(Debug, Clone, Copy, PartialEq, Eq, Structural)]
pub enum ReadUrlAction {
    /// The file is still being uploaded (no id): nothing to read.
    NotFound,
    /// The URL kept from the last read has not expired: use it.
    UseCached,
    /// Ask the API for a download URL.
    Fetch,
}

/// The first decision of `read_bytes`, from the file's id and the expiry
/// of the URL kept from the last read (`None` when none is kept).
pub fn read_url_action(file_id: &str, cached_url_expired: Option<bool>) -> (res: ReadUrlAction)
    ensures
        res == if file_id@.len() == 0 {
            ReadUrlAction::NotFound
        } else if cached_url_expired == Some(false) {
            ReadUrlAction::UseCached
        } else {
            ReadUrlAction::Fetch
        },
{
    if file_id.is_empty() {
        ReadUrlAction::NotFound
    } else {
        match cached_url_expired {
            Some(false) => ReadUrlAction::UseCached,
            _ => ReadUrlAction::Fetch,
        }
    }
}

/// The read position after `read` more bytes arrived.
pub fn position_after_read(current_pos: u64, read: usize) -> (res: u64)
    requires
        current_pos + read <= u64::MAX,
    ensures
        res == current_pos + read,
{
    current_pos + read as u64
}

/// A folder's listing with the files being uploaded into it after the
/// listed ones.
pub fn with_uploading(files: Vec<WebdavFile>, uploading: Vec<WebdavFile>) -> (res: Vec<WebdavFile>)
    ensures
        res@ == files@ + uploading@,
{
    let mut out = files;
    let mut more = uploading;
    out.append(&mut more);
    out
}

/// The root folder of the file system: the configured root when it starts
/// with `/`, else `/` joined with it.
pub fn root_path(root: &str) -> (res: String)
    ensures
        res@ == if root@.len() > 0 && root@[0] == '/' {
            root@
        } else {
            "/"@ + root@
        },
{
    let chars = str_chars(root);
    proof {
        reveal_strlit("/");
    }
    if chars.len() > 0 && chars[0] == '/' {
        root.to_owned()
    } else {
        path_join("/", root)
    }
}


/// The first entry named `name` in the first of the listings that has one.
pub open spec fn first_in_listings(listings: Seq<Vec<WebdavFile>>, name: Seq<char>) -> Option<WebdavFile>
    decreases listings.len(),
{
    if listings.len() == 0 {
        None
    } else if position_by_name(listings[0]@, name) >= 0 {
        Some(listings[0]@[position_by_name(listings[0]@, name)])
    } else {
        first_in_listings(listings.drop_first(), name)
    }
}

/// Looks a name up in the listings of the folders on a path, in order
/// (`get_by_path` over the cached listings): the first entry named `name`
/// in the first listing that holds one.
pub fn find_in_listings(listings: &Vec<Vec<WebdavFile>>, name: &str) -> (res: Option<WebdavFile>)
    ensures
        res == first_in_listings(listings@, name@),
{
    let mut i: usize = 0;
    assert(listings@.skip(0) =~= listings@);
    while i < listings.len()
        invariant
            i <= listings@.len(),
            first_in_listings(listings@, name@) == first_in_listings(listings@.skip(i as int), name@),
        decreases listings@.len() - i,
    {
        assert(listings@.skip(i as int).drop_first() =~= listings@.skip(i + 1));
        assert(listings@.skip(i as int)[0] == listings@[i as int]);
        match find_by_name(&listings[i], name) {
            Some(f) => {
                return Some(f);
            },
            None => {},
        }
        i += 1;
    }
    None
}

/// What `create_dir` and `remove_dir` do with the folder they act on
/// (the parent of a new folder, or the folder to remove).
#[derive(Debug, Clone, Copy, PartialEq, Eq, Structural)]
pub enum FolderAction {
    /// There is no such entry.
    NotFound,
    /// The entry is not a folder, or the new folder has no name.
    Forbidden,
    /// Go on with the request.
    Proceed,
}

/// The decision of `create_dir` (on the parent, and whether the path has
/// a last component) and of `remove_dir` (on the folder, with a name).
pub fn folder_action(target: Option<&WebdavFile>, has_name: bool) -> (res: FolderAction)
    ensures
        res == match target {
            None => FolderAction::NotFound,
            Some(f) => if f.kind != 0 || !has_name {
                FolderAction::Forbidden
            } else {
                FolderAction::Proceed
            },
        },
{
    match target {
        None => FolderAction::NotFound,
        Some(f) => {
            if !f.is_dir() || !has_name {
                FolderAction::Forbidden
            } else {
                FolderAction::Proceed
            }
        },
    }
}

} // verus!
