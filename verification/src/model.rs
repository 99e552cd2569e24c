//! The records exchanged with the file API and the WebDAV layer. Times are
//! held as whole seconds since the Unix epoch (UTC); JSON values that the
//! library only carries are held as `serde_json::Value`.

use chrono::TimeZone;
use vstd::prelude::*;
use vstd::string::StringSliceAdditionalSpecFns;

use crate::text::{parse_u64, parse_u64_spec};
use crate::vfs::unix_now_secs;

verus! {

/// The JSON value type of `serde_json`, carried through unread.
#[verifier::external_type_specification]
#[verifier::external_body]
pub struct ExJsonValue(serde_json::Value);

#[derive(Debug, Clone)]
pub struct LoginResponse {
    pub code: u32,
    pub message: String,
    pub submessage: String,
    pub data: LoginData,
}

#[derive(Debug, Clone)]
pub struct LoginRequest {
    pub token: String,
}

#[derive(Debug, Clone)]
pub struct LoginData {
    pub token: String,
    pub id: String,
}

#[derive(Debug, Clone)]
pub struct CreateFolderRequest<'a> {
    pub name: &'a str,
    pub parent_id: &'a str,
    pub parend_file: WebdavFile,
    pub path_str: &'a str,
}

#[derive(Debug, Clone)]
pub struct RemoveFileRequest {
    pub file: WebdavFile,
    pub remove_path: String,
}

#[derive(Debug, Clone)]
pub struct RenameFileRequest<'a> {
    pub file: WebdavFile,
    pub new_name: &'a str,
    pub from: String,
    pub to: String,
}

#[derive(Debug, Clone)]
pub struct MoveFileRequest<'a> {
    pub file: WebdavFile,
    pub new_parent_id: &'a str,
    pub from: String,
    pub to: String,
}

#[derive(Debug, Clone)]
pub struct CopyFileRequest<'a> {
    pub file: WebdavFile,
    pub new_parent_id: &'a str,
}

#[derive(Debug, Clone)]
pub struct DelFileRequest {
    pub ids: Vec<String>,
}

#[derive(Debug, Clone)]
pub struct MoveTo {
    pub parent_id: String,
}

#[derive(Debug, Clone)]
pub struct RefreshTokenResponse {
    pub access_token: String,
    pub refresh_token: String,
    pub expires_in: u64,
    pub token_type: String,
}

#[derive(Debug, Clone, Copy, PartialEq, Eq, Structural)]
pub enum FileType {
    Folder,
    File,
}

#[derive(Debug, Clone)]
pub struct QuotaResponse {
    pub kind: String,
    pub expires_at: String,
    pub quota: Quota,
}

#[derive(Debug, Clone)]
pub struct Quota {
    pub kind: String,
    pub limit: u64,
    pub usage: u64,
    pub usage_in_trash: u64,
    pub play_times_limit: u64,
    pub play_times_usage: u64,
}

#[derive(Debug, Clone)]
pub struct UploadInitRequest {
    pub provider: String,
    pub name: String,
    pub parent_file_id: String,
    pub sha1: String,
    pub size: u64,
}

#[derive(Debug, Clone)]
pub struct UploadInitResponse {
    pub code: u64,
    pub message: String,
    pub extra: Option<String>,
    pub data: InitResponseData,
}

#[derive(Debug, Clone)]
pub struct InitResponseData {
    pub uploader: String,
    pub fileName: String,
    pub fileSize: u64,
    pub chunkSize: u64,
    pub fileSha1: String,
}

#[derive(Debug, Clone)]
pub struct ObjProvider {
    pub provider: String,
}

#[derive(Debug, Clone)]
pub struct OssArgs {
    pub uploader: String,
    pub sha1: String,
    pub chunkSize: u64,
    pub extra_init: Option<String>,
    pub extra_last: Option<String>,
}

#[derive(Debug, Clone)]
pub struct CompleteFileUpload {
    pub data: FileUploadInfo,
    pub status: u64,
}

#[derive(Debug, Clone)]
pub struct AddFileResponse {
    pub code: u64,
    pub message: String,
    pub submessage: String,
    pub count: u64,
    pub stime: u64,
}

#[derive(Debug, Clone)]
pub struct CompleteUploadRequest {
    pub file: WebdavFile,
    pub oss_args: OssArgs,
    pub upload_tags: String,
    pub upload_id: String,
}

#[derive(Debug, Clone)]
pub struct SliceUploadRequest {
    pub file: WebdavFile,
    pub oss_args: OssArgs,
    pub upload_id: String,
    pub current_chunk: u64,
}

#[derive(Debug, Clone)]
pub struct SliceUploadResponse {
    pub code: u64,
    pub message: String,
    pub extra: Option<String>,
    pub data: FileUploadInfo,
}

#[derive(Debug, Clone)]
pub struct FileUploadInfo {
    pub fileName: String,
    pub fileSize: u64,
    pub fileHash: String,
    pub chunkIndex: u64,
    pub chunkSize: u64,
    pub uploadState: u64,
}

#[derive(Debug, Clone)]
pub struct PartInfo {
    pub chunkIndex: u64,
    pub chunkSize: u64,
}

#[derive(Debug, Clone)]
pub struct UploadResponse {
    pub upload_type: String,
    pub resumable: Resumable,
    pub file: WebdavFile,
}

#[derive(Debug, Clone)]
pub struct PrepareFileResponse {
    pub data: PrepareInfo,
    pub status: u64,
}

#[derive(Debug, Clone)]
pub struct CompleteUploadResponse {
    pub data: String,
    pub status: u64,
}

#[derive(Debug, Clone, PartialEq, Eq, Structural)]
pub struct PrepareInfo {
    pub next: u64,
    pub total: u64,
    pub wait: u64,
    pub uploading: u64,
    pub success: u64,
}

#[derive(Debug, Clone, PartialEq, Eq, Structural)]
pub enum SliceNextResult {
    Bool(bool),
    Int(i64),
}

#[derive(Debug, Clone)]
pub struct FileResponse {
    pub data: String,
    pub status: u64,
}

#[derive(Debug, Clone)]
pub struct FileUploadResponse {
    pub data: UploaderResponse,
    pub status: u64,
}

#[derive(Debug, Clone)]
pub struct UploaderResponse {
    pub utoken: String,
    pub uploader: String,
    pub src: String,
}

#[derive(Debug, Clone)]
pub struct Resumable {
    pub kind: String,
    pub provider: String,
    pub params: UploadParams,
}

#[derive(Debug, Clone)]
pub struct UploadParams {
    pub access_key_id: String,
    pub access_key_secret: String,
    pub bucket: String,
    pub endpoint: String,
    pub expiration: String,
    pub key: String,
    pub security_token: String,
}

#[derive(Debug, Clone)]
pub struct InitiateMultipartUploadResult {
    pub Bucket: String,
    pub Key: String,
    pub UploadId: String,
}

/// A file or folder as the API describes it. `kind` 0 is a folder;
/// `size` is the decimal byte count; `create_time` is in seconds since the
/// Unix epoch.
#[derive(Debug, Clone)]
pub struct WebdavFile {
    pub id: String,
    pub provider: Option<String>,
    pub name: String,
    pub oriname: Option<String>,
    pub parent_id: String,
    pub size: String,
    pub kind: u64,
    pub create_time: i64,
    pub download_url: Option<String>,
    pub sha1: Option<String>,
    pub play_headers: Option<String>,
    pub password: Option<String>,
}

#[derive(Debug, Clone)]
pub struct FilesListRequest {
    pub path_str: String,
    pub parent_file_id: String,
}

#[derive(Debug)]
pub struct FilesListResponse {
    pub data: FilesList,
    pub code: serde_json::Value,
    pub ts: serde_json::Value,
    pub stime: serde_json::Value,
}

#[derive(Debug)]
pub struct FilesList {
    pub data: Vec<WebdavFile>,
    pub pageNum: serde_json::Value,
    pub pageSize: serde_json::Value,
    pub count: serde_json::Value,
    pub totalPage: serde_json::Value,
}

impl WebdavFile {
    /// The byte count that `size` states.
    pub fn len(&self) -> (res: u64)
        requires
            parse_u64_spec(self.size@) is Some,
        ensures
            Some(res) == parse_u64_spec(self.size@),
    {
        match parse_u64(self.size.as_str()) {
            Some(n) => n,
            None => 0,
        }
    }

    /// Seconds since the Unix epoch of the last change: the creation time
    /// (cast to unsigned as the original `as u64` does).
    pub fn modified(&self) -> (res: u64)
        ensures
            res == self.create_time as u64,
    {
        self.create_time as u64
    }

    /// Seconds since the Unix epoch of the creation.
    pub fn created(&self) -> (res: u64)
        ensures
            res == self.create_time as u64,
    {
        self.create_time as u64
    }

    /// Whether this entry is a folder (kind 0).
    pub fn is_dir(&self) -> (res: bool)
        ensures
            res == (self.kind == 0),
    {
        self.kind == 0
    }

    /// The UTF-8 bytes of the name.
    pub fn name(&self) -> (res: Vec<u8>)
        ensures
            res@ == vstd::utf8::encode_utf8(self.name@),
    {
        vstd::slice::slice_to_vec(self.name.as_str().as_bytes())
    }

    /// The root folder, created now (by the system clock); `None` when the
    /// clock reads before the epoch or past `i64::MAX` seconds.
    pub fn new_root() -> (res: Option<Self>)
        ensures
            res matches Some(r) ==> {
                &&& r.id@ == "0"@
                &&& r.provider is None
                &&& r.kind == 0
                &&& r.name@ == ""@
                &&& r.oriname is None
                &&& r.parent_id@ == ""@
                &&& r.size@ == "0"@
                &&& r.download_url is None
                &&& r.sha1 is None
                &&& r.play_headers is None
                &&& r.password is None
            },
    {
        match unix_now_secs() {
            Some(now) => {
                if now <= i64::MAX as u64 {
                    Some(WebdavFile::root_at(now as i64))
                } else {
                    None
                }
            },
            None => None,
        }
    }

    /// The root folder: id "0", no provider, kind 0, empty name and
    /// parent, size "0", created at `now` (seconds since the epoch).
    pub fn root_at(now: i64) -> (res: Self)
        ensures
            res.id@ == "0"@,
            res.provider is None,
            res.kind == 0,
            res.name@ == ""@,
            res.oriname is None,
            res.parent_id@ == ""@,
            res.size@ == "0"@,
            res.create_time == now,
            res.download_url is None,
            res.sha1 is None,
            res.play_headers is None,
            res.password is None,
    {
        WebdavFile {
            id: "0".to_owned(),
            provider: None,
            kind: 0,
            name: "".to_owned(),
            oriname: None,
            parent_id: "".to_owned(),
            size: "0".to_owned(),
            create_time: now,
            download_url: None,
            sha1: None,
            play_headers: None,
            password: None,
        }
    }

    /// A field-by-field copy.
    pub fn duplicate(&self) -> (res: Self)
        ensures
            res == *self,
    {
        WebdavFile {
            id: self.id.clone(),
            provider: clone_opt_string(&self.provider),
            name: self.name.clone(),
            oriname: clone_opt_string(&self.oriname),
            parent_id: self.parent_id.clone(),
            size: self.size.clone(),
            kind: self.kind,
            create_time: self.create_time,
            download_url: clone_opt_string(&self.download_url),
            sha1: clone_opt_string(&self.sha1),
            play_headers: clone_opt_string(&self.play_headers),
            password: clone_opt_string(&self.password),
        }
    }
}

impl OssArgs {
    /// A field-by-field copy.
    pub fn duplicate(&self) -> (res: Self)
        ensures
            res == *self,
    {
        OssArgs {
            uploader: self.uploader.clone(),
            sha1: self.sha1.clone(),
            chunkSize: self.chunkSize,
            extra_init: clone_opt_string(&self.extra_init),
            extra_last: clone_opt_string(&self.extra_last),
        }
    }
}

/// The text that chrono writes for a UTC time given in seconds since the
/// epoch, in the strftime-style format `fmt`, or `None` for a time outside
/// chrono's range.
pub uninterp spec fn utc_format(fmt: Seq<char>, ts: i64) -> Option<Seq<char>>;

/// The seconds since the epoch of a UTC time that chrono reads from `s`
/// in the strftime-style format `fmt`, or `None` when it does not read.
pub uninterp spec fn utc_parse(fmt: Seq<char>, s: Seq<char>) -> Option<i64>;

/// The view of an optional string.
pub open spec fn opt_string_view(s: Option<String>) -> Option<Seq<char>> {
    match s {
        None => None,
        Some(t) => Some(t@),
    }
}

/// The strftime-style formats made of literal text and the specifiers
/// `%Y`, `%m`, `%d`, `%H`, `%M` and `%S` alone: every `%` is followed by
/// one of those letters. chrono writes each of them for any date, so
/// formatting with such a format cannot fail.
pub open spec fn plain_date_format(fmt: Seq<char>) -> bool {
    forall|i: int|
        0 <= i < fmt.len() && #[trigger] fmt[i] == '%' ==> i + 1 < fmt.len() && (fmt[i + 1] == 'Y' || fmt[i
            + 1] == 'm' || fmt[i + 1] == 'd' || fmt[i + 1] == 'H' || fmt[i + 1] == 'M' || fmt[i + 1] == 'S')
}

/// The format in which the API sends creation times.
pub open spec fn create_time_format() -> Seq<char> {
    "%Y-%m-%d %H:%M:%S"@
}

/// `Utc.timestamp_opt(ts, 0)` then `format(fmt)`: the claim is that the
/// text is a function of the format and the time alone, `None` outside
/// chrono's range. The `requires` keeps to formats whose writing cannot
/// fail (`to_string` panics on a format error).
#[verifier::external_body]
fn format_utc(fmt: &str, ts: i64) -> (res: Option<String>)
    requires
        plain_date_format(fmt@),
    ensures
        opt_string_view(res) == utc_format(fmt@, ts),
{
    chrono::Utc.timestamp_opt(ts, 0).single().map(|d| d.format(fmt).to_string())
}

/// `Utc.datetime_from_str(s, fmt)` then `timestamp()`: the claim is that
/// the result is a function of the format and the text alone.
#[verifier::external_body]
#[allow(deprecated)]
fn parse_utc(fmt: &str, s: &str) -> (res: Option<i64>)
    ensures
        res == utc_parse(fmt@, s@),
{
    chrono::Utc.datetime_from_str(s, fmt).ok().map(|d| d.timestamp())
}

/// The text that a creation time is sent as: `%Y-%m-%d %H:%M:%S` in UTC.
pub fn format_create_time(ts: i64) -> (res: Option<String>)
    ensures
        opt_string_view(res) == utc_format(create_time_format(), ts),
{
    let fmt = "%Y-%m-%d %H:%M:%S";
    proof {
        reveal_strlit("%Y-%m-%d %H:%M:%S");
    }
    assert(plain_date_format(fmt@));
    format_utc(fmt, ts)
}

/// The creation time that a `%Y-%m-%d %H:%M:%S` UTC text stands for.
pub fn parse_create_time(s: &str) -> (res: Option<i64>)
    ensures
        res == utc_parse(create_time_format(), s@),
{
    let fmt = "%Y-%m-%d %H:%M:%S";
    proof {
        reveal_strlit("%Y-%m-%d %H:%M:%S");
    }
    parse_utc(fmt, s)
}

/// A copy of an optional string.
pub fn clone_opt_string(s: &Option<String>) -> (res: Option<String>)
    ensures
        res == *s,
{
    match s {
        Some(t) => Some(t.clone()),
        None => None,
    }
}

} // verus!
