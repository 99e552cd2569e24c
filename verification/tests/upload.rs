use fast_webdav::model::{InitResponseData, UploadInitResponse, WebdavFile};
use fast_webdav::vfs::{
    accept_init_response, chunk_count, chunk_sent, get_pre_upload_info, next_chunk, prepare_step,
    step_after_remove, upload_completed, ChunkStep, PrepareStep, UploadState,
};

fn file(id: &str, size: &str) -> WebdavFile {
    WebdavFile {
        id: id.to_string(),
        provider: Some("p".to_string()),
        name: "f".to_string(),
        oriname: None,
        parent_id: "0".to_string(),
        size: size.to_string(),
        kind: 1,
        create_time: 0,
        download_url: None,
        sha1: None,
        play_headers: None,
        password: None,
    }
}

fn init_response(chunk_size: u64, extra: Option<&str>) -> UploadInitResponse {
    UploadInitResponse {
        code: 200,
        message: "ok".to_string(),
        extra: extra.map(|e| e.to_string()),
        data: InitResponseData {
            uploader: "up".to_string(),
            fileName: "f".to_string(),
            fileSize: 10,
            chunkSize: chunk_size,
            fileSha1: "sha".to_string(),
        },
    }
}

#[test]
fn chunk_counts() {
    assert_eq!(chunk_count(10, 4), 3);
    assert_eq!(chunk_count(8, 4), 2);
    assert_eq!(chunk_count(0, 4), 0);
    assert_eq!(chunk_count(u64::MAX, 1), u64::MAX);
}

#[test]
fn default_state() {
    let s = UploadState::default();
    assert_eq!(s.chunk, 1);
    assert_eq!(s.chunk_count, 0);
    assert!(s.buffer.is_empty());
    let t = UploadState::for_file(10, Some("h".to_string()));
    assert_eq!(t.size, 10);
    assert_eq!(t.sha1, Some("h".to_string()));
}

#[test]
fn preparation_decisions() {
    let s = UploadState::for_file(12, None);
    assert_eq!(prepare_step(&s, &file("", "0"), false), PrepareStep::CreateFile);
    assert_eq!(prepare_step(&s, &file("7", "12"), true), PrepareStep::SkipSameSize);
    assert_eq!(prepare_step(&s, &file("7", "11"), true), PrepareStep::RemoveExisting);
    assert_eq!(prepare_step(&s, &file("7", "12"), false), PrepareStep::RemoveExisting);
    assert_eq!(step_after_remove(&s), PrepareStep::CreateFile);
    let empty = UploadState::for_file(0, None);
    assert_eq!(prepare_step(&empty, &file("", "0"), false), PrepareStep::Proceed);
    let mut prepared = UploadState::for_file(12, None);
    prepared.chunk_count = 3;
    assert_eq!(prepare_step(&prepared, &file("7", "x"), true), PrepareStep::Proceed);
}

#[test]
fn a_whole_upload() {
    let mut s = UploadState::for_file(10, None);
    let size = accept_init_response(&mut s, init_response(4, Some("init")));
    assert_eq!(size, 4);
    assert_eq!(s.chunk_count, 3);
    assert_eq!(s.upload_id, "sha");
    let args = s.oss_args.clone().unwrap();
    assert_eq!(args.extra_init, Some("init".to_string()));
    assert_eq!(get_pre_upload_info(&args), "sha");

    s.write_bytes(&[1, 2, 3, 4, 5]);
    let (data, chunk, args) = match next_chunk(&mut s, false, 4) {
        ChunkStep::Send { data, chunk, oss_args } => (data, chunk, oss_args),
        _ => panic!("a full chunk is due"),
    };
    assert_eq!(data, vec![1, 2, 3, 4]);
    assert_eq!(chunk, 1);
    assert_eq!(s.buffer, vec![5]);
    assert!(!chunk_sent(&mut s, args, Some("p1".to_string()), chunk));
    assert_eq!(s.chunk, 2);
    assert_eq!(s.oss_args.as_ref().unwrap().extra_last, Some("p1".to_string()));

    assert!(matches!(next_chunk(&mut s, false, 4), ChunkStep::Wait));
    s.write_bytes(&[6, 7, 8, 9, 10]);
    let (data, chunk, args) = match next_chunk(&mut s, false, 4) {
        ChunkStep::Send { data, chunk, oss_args } => (data, chunk, oss_args),
        _ => panic!("a full chunk is due"),
    };
    assert_eq!(data, vec![5, 6, 7, 8]);
    assert_eq!(chunk, 2);
    assert!(!chunk_sent(&mut s, args, None, chunk));

    let (data, chunk, args) = match next_chunk(&mut s, true, 4) {
        ChunkStep::Send { data, chunk, oss_args } => (data, chunk, oss_args),
        _ => panic!("the rest is due on flush"),
    };
    assert_eq!(data, vec![9, 10]);
    assert_eq!(chunk, 3);
    assert!(s.buffer.is_empty());
    assert!(chunk_sent(&mut s, args, None, chunk));
    upload_completed(&mut s);
    assert_eq!(s.chunk, 2);
    assert_eq!(s.chunk_count, 0);
    assert!(s.oss_args.is_none());
}

#[test]
fn chunk_without_arguments() {
    let mut s = UploadState::for_file(4, None);
    s.chunk_count = 1;
    s.write_bytes(&[1, 2, 3, 4]);
    assert!(matches!(next_chunk(&mut s, false, 4), ChunkStep::MissingArgs));
    assert!(s.buffer.is_empty());
}

#[test]
fn no_chunk_past_the_count() {
    let mut s = UploadState::for_file(4, None);
    s.write_bytes(&[1, 2, 3, 4]);
    assert!(matches!(next_chunk(&mut s, true, 4), ChunkStep::Wait));
    assert_eq!(s.buffer.len(), 4);
}

#[test]
fn chunk_count_covers_the_size_with_at_most_one_short_chunk() {
    for size in 0..200u64 {
        for cs in 1..20u64 {
            let n = chunk_count(size, cs);
            assert!(n * cs >= size);
            if n > 0 {
                assert!((n - 1) * cs < size);
            }
        }
    }
}
