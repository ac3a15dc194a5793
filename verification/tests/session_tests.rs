//! Chunked upload sessions: out-of-order chunks, re-sent chunks, missing
//! chunks, ownership, staleness sweeping, and the chunked pipeline.

use media_ingest::catalog::Catalog;
use media_ingest::mime::MediaClass;
use media_ingest::model::{AppError, PlatformUser, UploadOutcome};
use media_ingest::pipeline::{upload_chunked_complete, PipelineStep};
use media_ingest::sessions::SessionStore;

fn user() -> PlatformUser {
    PlatformUser {
        provider: "osu".to_owned(),
        id: 7,
        username: "alice".to_owned(),
        avatar_url: String::new(),
    }
}

fn stranger() -> PlatformUser {
    PlatformUser {
        provider: "osu".to_owned(),
        id: 8,
        username: "mallory".to_owned(),
        avatar_url: String::new(),
    }
}

fn mp4_chunk0() -> Vec<u8> {
    let mut c = vec![0u8; 600];
    c[4] = b'f';
    c[5] = b't';
    c[6] = b'y';
    c[7] = b'p';
    for i in 8..600 {
        c[i] = (i * 31 % 251) as u8;
    }
    c
}

fn mp4_chunk1() -> Vec<u8> {
    (0..400).map(|i| (i * 17 % 239) as u8).collect()
}

fn init(store: &mut SessionStore, id: &str, now: u64) {
    store
        .init_upload(MediaClass::Video, "video/mp4", &user(), now, id.to_owned())
        .expect("init should accept video/mp4");
}

#[test]
fn init_rejects_disallowed_type() {
    let mut store = SessionStore::new();
    match store.init_upload(MediaClass::Video, "video/x-flv", &user(), 10, "up-1".to_owned()) {
        Err(AppError::InvalidFileType) => {}
        _ => panic!("expected the type rejection"),
    }
    assert!(!store.contains_session("up-1"));
}

#[test]
fn out_of_order_chunks_assemble_in_index_order() {
    let mut store = SessionStore::new();
    init(&mut store, "up-1", 10);
    // chunk 1 arrives before chunk 0
    let r = store.put_chunk("up-1", 1, mp4_chunk1(), &user()).expect("chunk 1");
    assert_eq!(r, 400);
    let r = store.put_chunk("up-1", 0, mp4_chunk0(), &user()).expect("chunk 0");
    assert_eq!(r, 600);
    let (ct, data) = store.complete_upload("up-1", &user()).expect("complete");
    assert_eq!(ct, "video/mp4");
    let mut expected = mp4_chunk0();
    expected.extend_from_slice(&mp4_chunk1());
    assert_eq!(data, expected);
    assert!(!store.contains_session("up-1"));
}

#[test]
fn in_order_chunks_assemble_identically() {
    let mut store = SessionStore::new();
    init(&mut store, "up-1", 10);
    store.put_chunk("up-1", 0, mp4_chunk0(), &user()).unwrap();
    store.put_chunk("up-1", 1, mp4_chunk1(), &user()).unwrap();
    let (_, in_order) = store.complete_upload("up-1", &user()).unwrap();

    let mut store2 = SessionStore::new();
    init(&mut store2, "up-2", 10);
    store2.put_chunk("up-2", 1, mp4_chunk1(), &user()).unwrap();
    store2.put_chunk("up-2", 0, mp4_chunk0(), &user()).unwrap();
    let (_, out_of_order) = store2.complete_upload("up-2", &user()).unwrap();

    assert_eq!(in_order, out_of_order);
}

#[test]
fn resent_chunk_overwrites_its_slot() {
    let mut store = SessionStore::new();
    init(&mut store, "up-1", 10);
    store.put_chunk("up-1", 0, vec![1, 2, 3, 4], &user()).unwrap();
    store.put_chunk("up-1", 0, vec![9, 9], &user()).unwrap();
    let (_, data) = store.complete_upload("up-1", &user()).unwrap();
    assert_eq!(data, vec![9, 9]);
}

#[test]
fn missing_chunk_fails_completion() {
    let mut store = SessionStore::new();
    init(&mut store, "up-1", 10);
    store.put_chunk("up-1", 1, mp4_chunk1(), &user()).unwrap();
    match store.complete_upload("up-1", &user()) {
        Err(AppError::Internal(_)) => {}
        _ => panic!("a missing chunk must fail completion, not skip"),
    }
    // failed completion consumes the session
    assert!(!store.contains_session("up-1"));
}

#[test]
fn ownership_is_enforced_and_reported_as_not_found() {
    let mut store = SessionStore::new();
    init(&mut store, "up-1", 10);
    match store.put_chunk("up-1", 0, vec![0, 1], &stranger()) {
        Err(AppError::VideoNotFound) => {}
        _ => panic!("a stranger's chunk write must read as not-found"),
    }
    match store.complete_upload("up-1", &stranger()) {
        Err(AppError::VideoNotFound) => {}
        _ => panic!("a stranger's completion must read as not-found"),
    }
    // the denied completion left the session in place for its owner
    assert!(store.contains_session("up-1"));
    match store.put_chunk("up-404", 0, vec![0, 1], &user()) {
        Err(AppError::VideoNotFound) => {}
        _ => panic!("an unknown id must read as not-found"),
    }
}

#[test]
fn oversized_chunk_is_rejected() {
    let mut store = SessionStore::new();
    init(&mut store, "up-1", 10);
    let big = vec![0u8; 6 * 1024 * 1024 + 1];
    match store.put_chunk("up-1", 0, big, &user()) {
        Err(AppError::FileTooLarge) => {}
        _ => panic!("expected the per-chunk cap"),
    }
}

#[test]
fn stale_sessions_are_swept_on_init() {
    let mut store = SessionStore::new();
    init(&mut store, "up-old", 0);
    init(&mut store, "up-new", 3000);
    assert!(store.contains_session("up-old")); // not yet stale at 3000
    init(&mut store, "up-later", 6500);
    assert!(!store.contains_session("up-old")); // swept: older than an hour
    assert!(store.contains_session("up-new")); // an hour has not yet passed
    assert!(store.contains_session("up-later"));
}

#[test]
fn chunked_pipeline_commits_assembled_payload() {
    let mut store = SessionStore::new();
    let mut cat = Catalog::new();
    init(&mut store, "up-1", 10);
    store.put_chunk("up-1", 1, mp4_chunk1(), &user()).unwrap();
    store.put_chunk("up-1", 0, mp4_chunk0(), &user()).unwrap();
    let r = upload_chunked_complete(
        &mut store,
        &mut cat,
        "up-1",
        MediaClass::Video,
        "  chunked video  ",
        &user(),
        false,
        false,
        true,
        2000,
        "vid-1".to_owned(),
    );
    match r {
        Ok(PipelineStep::Done(UploadOutcome::Committed { item })) => {
            assert_eq!(item.id, "vid-1");
            assert_eq!(item.title, "chunked video");
            assert_eq!(item.content_type, "video/mp4");
            assert_eq!(item.size_bytes, 1000);
            assert_eq!(item.filename, "vid-1.mp4");
        }
        _ => panic!("expected the assembled payload to commit"),
    }
    assert!(!store.contains_session("up-1"));
    assert_eq!(cat.files.len(), 1);
}

#[test]
fn chunked_pipeline_checks_title_before_consuming_session() {
    let mut store = SessionStore::new();
    let mut cat = Catalog::new();
    init(&mut store, "up-1", 10);
    store.put_chunk("up-1", 0, mp4_chunk0(), &user()).unwrap();
    let r = upload_chunked_complete(
        &mut store,
        &mut cat,
        "up-1",
        MediaClass::Video,
        "   ",
        &user(),
        false,
        false,
        true,
        2000,
        "vid-1".to_owned(),
    );
    assert!(matches!(r, Err(AppError::InvalidTitle)));
    // the invalid title left the session alive
    assert!(store.contains_session("up-1"));
}

#[test]
fn error_status_codes() {
    assert_eq!(AppError::NotAuthenticated.status(), 401);
    assert_eq!(AppError::Forbidden.status(), 403);
    assert_eq!(AppError::FileTooLarge.status(), 413);
    assert_eq!(AppError::InvalidFileType.status(), 415);
    assert_eq!(AppError::MagicMismatch.status(), 415);
    assert_eq!(AppError::InvalidTitle.status(), 400);
    assert_eq!(AppError::InvalidComment.status(), 400);
    assert_eq!(AppError::VideoNotFound.status(), 404);
    assert_eq!(AppError::Internal(String::new()).status(), 500);
}
