//! Catalog behavior: the dedup decision tree, referential integrity on
//! delete, flag updates, listing, and startup recovery.

use media_ingest::catalog::Catalog;
use media_ingest::mime::MediaClass;
use media_ingest::model::{AppError, PlatformUser, UploadOutcome, VideoMeta};
use media_ingest::pipeline::{upload_single, PipelineStep};
use sha2::Digest;

fn user() -> PlatformUser {
    PlatformUser {
        provider: "osu".to_owned(),
        id: 7,
        username: "alice".to_owned(),
        avatar_url: String::new(),
    }
}

fn other_user() -> PlatformUser {
    PlatformUser {
        provider: "github".to_owned(),
        id: 9,
        username: "bob".to_owned(),
        avatar_url: String::new(),
    }
}

fn text_payload() -> Vec<u8> {
    // A 50-byte plain-text buffer that starts with "hello".
    let mut data = b"hello".to_vec();
    data.resize(50, b' ');
    data
}

/// A deterministic pseudo-random video buffer with the canonical container
/// magic, long and varied enough for the fuzzy digest to exist.
fn mp4_payload(seed: u64) -> Vec<u8> {
    let mut data = vec![0u8; 1024];
    data[4] = b'f';
    data[5] = b't';
    data[6] = b'y';
    data[7] = b'p';
    let mut x = seed.wrapping_mul(2862933555777941757).wrapping_add(3037000493);
    for i in 8..1024 {
        x = x.wrapping_mul(6364136223846793005).wrapping_add(1442695040888963407);
        data[i] = (x >> 33) as u8;
    }
    data
}

fn commit_text(cat: &mut Catalog, title: &str, data: Vec<u8>, id: &str) -> UploadOutcome {
    match upload_single(
        cat,
        MediaClass::Text,
        title,
        "text/plain",
        data,
        &user(),
        false,
        false,
        true,
        1000,
        id.to_owned(),
    ) {
        Ok(PipelineStep::Done(outcome)) => outcome,
        other => panic!("expected a committed outcome, got {:?}", kind_of(&other)),
    }
}

fn kind_of(r: &Result<PipelineStep, AppError>) -> &'static str {
    match r {
        Ok(PipelineStep::Done(_)) => "done",
        Ok(PipelineStep::NeedsTranscode(_)) => "needs-transcode",
        Err(_) => "error",
    }
}

#[test]
fn text_upload_commits_with_exact_digest() {
    let mut cat = Catalog::new();
    let data = text_payload();
    let expected_sha = hex::encode(sha2::Sha256::digest(&data));
    let outcome = commit_text(&mut cat, "My note", data, "id-1");
    match outcome {
        UploadOutcome::Committed { item } => {
            assert_eq!(item.id, "id-1");
            assert_eq!(item.title, "My note");
            assert_eq!(item.filename, "id-1.txt");
            assert_eq!(item.content_type, "text/plain");
            assert_eq!(item.size_bytes, 50);
            assert_eq!(item.sha256, expected_sha);
            assert!(item.tlsh_hash.is_none()); // no fuzzy digest for text
            assert!(item.references_id.is_none());
            assert_eq!(item.uploaded_by_provider, "osu");
            assert_eq!(item.uploaded_by_id, 7);
            assert_eq!(item.uploaded_at, 1000);
        }
        _ => panic!("expected a new owning item"),
    }
    assert_eq!(cat.items.len(), 1);
    assert_eq!(cat.files.len(), 1);
    assert_eq!(cat.exact_index.len(), 1);
    assert_eq!(cat.fuzzy_index.len(), 0);
}

#[test]
fn exact_duplicate_is_rejected_and_stores_nothing() {
    let mut cat = Catalog::new();
    commit_text(&mut cat, "first", text_payload(), "id-1");
    let outcome = commit_text(&mut cat, "second", text_payload(), "id-2");
    match outcome {
        UploadOutcome::ExactDuplicate { existing_id } => assert_eq!(existing_id, "id-1"),
        _ => panic!("expected an exact-duplicate outcome"),
    }
    // never two files on disk for one payload
    assert_eq!(cat.files.len(), 1);
    assert_eq!(cat.items.len(), 1);
    assert_eq!(cat.exact_index.len(), 1);
}

#[test]
fn repeated_uploads_one_owner_rest_duplicates() {
    let mut cat = Catalog::new();
    let mut new_count = 0;
    let mut dup_count = 0;
    for i in 0..5 {
        let outcome = commit_text(&mut cat, "same", text_payload(), &format!("id-{}", i));
        match outcome {
            UploadOutcome::Committed { .. } => new_count += 1,
            UploadOutcome::ExactDuplicate { existing_id } => {
                assert_eq!(existing_id, "id-0");
                dup_count += 1;
            }
            _ => panic!("unexpected outcome"),
        }
    }
    assert_eq!(new_count, 1);
    assert_eq!(dup_count, 4);
    assert_eq!(cat.files.len(), 1);
    assert_eq!(cat.items.len(), 1);
}

#[test]
fn magic_mismatch_leaves_no_trace() {
    let mut cat = Catalog::new();
    let mut png = vec![0u8; 64];
    png[0] = 0x89;
    png[1] = 0x50;
    png[2] = 0x4E;
    png[3] = 0x47;
    let r = upload_single(
        &mut cat,
        MediaClass::Video,
        "spoofed",
        "video/mp4",
        png,
        &user(),
        false,
        false,
        true,
        1000,
        "id-x".to_owned(),
    );
    match r {
        Err(AppError::MagicMismatch) => {}
        _ => panic!("expected the magic-byte rejection"),
    }
    assert_eq!(cat.items.len(), 0);
    assert_eq!(cat.files.len(), 0);
    assert_eq!(cat.exact_index.len(), 0);
}

#[test]
fn title_and_type_validation() {
    let mut cat = Catalog::new();
    let r = upload_single(
        &mut cat,
        MediaClass::Text,
        "   ",
        "text/plain",
        text_payload(),
        &user(),
        false,
        false,
        true,
        1000,
        "id-1".to_owned(),
    );
    assert!(matches!(r, Err(AppError::InvalidTitle)));
    let long_title = "x".repeat(201);
    let r = upload_single(
        &mut cat,
        MediaClass::Text,
        &long_title,
        "text/plain",
        text_payload(),
        &user(),
        false,
        false,
        true,
        1000,
        "id-1".to_owned(),
    );
    assert!(matches!(r, Err(AppError::InvalidTitle)));
    let r = upload_single(
        &mut cat,
        MediaClass::Text,
        "ok",
        "text/html",
        text_payload(),
        &user(),
        false,
        false,
        true,
        1000,
        "id-1".to_owned(),
    );
    assert!(matches!(r, Err(AppError::InvalidFileType)));
    // the trimmed title is what gets stored
    let outcome = commit_text(&mut cat, "  padded  ", text_payload(), "id-1");
    match outcome {
        UploadOutcome::Committed { item } => assert_eq!(item.title, "padded"),
        _ => panic!("expected a commit"),
    }
}

#[test]
fn fuzzy_duplicate_links_to_original() {
    let mut cat = Catalog::new();
    let a = mp4_payload(1);
    let mut b = mp4_payload(1);
    for i in 100..110 {
        b[i] ^= 0x5A; // a small mutation: near-duplicate, not byte-identical
    }
    let r1 = upload_single(
        &mut cat,
        MediaClass::Video,
        "original",
        "video/mp4",
        a,
        &user(),
        false,
        false,
        true,
        1000,
        "vid-a".to_owned(),
    );
    match r1 {
        Ok(PipelineStep::Done(UploadOutcome::Committed { item })) => {
            assert!(item.tlsh_hash.is_some(), "video commit must carry a fuzzy digest");
            assert_eq!(item.filename, "vid-a.mp4");
        }
        _ => panic!("expected the first video to commit"),
    }
    assert_eq!(cat.fuzzy_index.len(), 1);
    let r2 = upload_single(
        &mut cat,
        MediaClass::Video,
        "reposted",
        "video/mp4",
        b,
        &user(),
        true,
        false,
        true,
        2000,
        "vid-b".to_owned(),
    );
    match r2 {
        Ok(PipelineStep::Done(UploadOutcome::Linked { item, original_id })) => {
            assert_eq!(original_id, "vid-a");
            assert_eq!(item.id, "vid-b");
            assert_eq!(item.references_id.as_deref(), Some("vid-a"));
            assert_eq!(item.filename, "vid-a.mp4"); // shares the original's file
            assert_eq!(item.title, "reposted");
            assert!(item.nsfw);
        }
        _ => panic!("expected the near-duplicate to link"),
    }
    // still a single backing file; the linked entry resolves to it
    assert_eq!(cat.files.len(), 1);
    assert_eq!(cat.items.len(), 2);
    let resolved = cat.resolve_file("vid-b").expect("resolvable");
    assert_eq!(resolved.0, "vid-a.mp4");
    assert_eq!(resolved.1, "video/mp4");
}

#[test]
fn transcode_is_requested_for_non_canonical_video() {
    let mut cat = Catalog::new();
    let webm = {
        let mut d = vec![0u8; 256];
        d[0] = 0x1A;
        d[1] = 0x45;
        d[2] = 0xDF;
        d[3] = 0xA3;
        d
    };
    let r = upload_single(
        &mut cat,
        MediaClass::Video,
        "needs work",
        "video/webm",
        webm,
        &user(),
        false,
        false,
        true,
        1000,
        "vid-w".to_owned(),
    );
    match r {
        Ok(PipelineStep::NeedsTranscode(prep)) => {
            assert_eq!(prep.content_type, "video/webm");
            assert_eq!(prep.title, "needs work");
            assert!(prep.needs_transcode);
        }
        _ => panic!("expected a transcode request"),
    }
    assert_eq!(cat.items.len(), 0); // nothing committed yet
}

#[test]
fn delete_respects_references() {
    let mut cat = Catalog::new();
    let a = mp4_payload(2);
    let mut b = mp4_payload(2);
    for i in 200..208 {
        b[i] ^= 0x33;
    }
    upload_single(
        &mut cat,
        MediaClass::Video,
        "original",
        "video/mp4",
        a,
        &user(),
        false,
        false,
        true,
        1000,
        "vid-a".to_owned(),
    )
    .unwrap();
    let r2 = upload_single(
        &mut cat,
        MediaClass::Video,
        "copy",
        "video/mp4",
        b,
        &user(),
        false,
        false,
        true,
        2000,
        "vid-b".to_owned(),
    );
    assert!(matches!(r2, Ok(PipelineStep::Done(UploadOutcome::Linked { .. }))));
    // deleting the owner while a referrer remains keeps file and indices
    let deleted = cat.delete("vid-a").expect("delete original");
    assert_eq!(deleted.id, "vid-a");
    assert_eq!(cat.files.len(), 1);
    assert_eq!(cat.exact_index.len(), 1);
    assert_eq!(cat.fuzzy_index.len(), 1);
    assert_eq!(cat.items.len(), 1);
    // deleting the last referrer collects the file and both index entries
    cat.delete("vid-b").expect("delete referrer");
    assert_eq!(cat.files.len(), 0);
    assert_eq!(cat.exact_index.len(), 0);
    assert_eq!(cat.fuzzy_index.len(), 0);
    assert_eq!(cat.items.len(), 0);
    // unknown ids are reported as not found
    match cat.delete("vid-a") {
        Err(AppError::VideoNotFound) => {}
        _ => panic!("expected not-found"),
    }
}

#[test]
fn delete_without_references_collects_everything() {
    let mut cat = Catalog::new();
    commit_text(&mut cat, "solo", text_payload(), "id-1");
    cat.delete("id-1").expect("delete");
    assert_eq!(cat.items.len(), 0);
    assert_eq!(cat.files.len(), 0);
    assert_eq!(cat.exact_index.len(), 0);
}

#[test]
fn flag_updates() {
    let mut cat = Catalog::new();
    commit_text(&mut cat, "note", text_payload(), "id-1");
    let updated = cat.set_nsfw("id-1", true).expect("set nsfw");
    assert!(updated.nsfw);
    assert!(cat.get("id-1").unwrap().nsfw);
    assert!(matches!(cat.set_nsfw("missing", true), Err(AppError::VideoNotFound)));

    // the owner may toggle comments; a stranger may not; an admin may
    let r = cat.set_comments_disabled("id-1", false, &user(), false).expect("owner toggles");
    assert!(!r.comments_disabled);
    match cat.set_comments_disabled("id-1", true, &other_user(), false) {
        Err(AppError::Forbidden) => {}
        _ => panic!("expected forbidden"),
    }
    let r = cat.set_comments_disabled("id-1", true, &other_user(), true).expect("admin toggles");
    assert!(r.comments_disabled);
}

#[test]
fn listing_filters_and_sorts_newest_first() {
    let mut cat = Catalog::new();
    for (i, t) in [(10u64, "a"), (30, "b"), (20, "c")] {
        let mut data = text_payload();
        data[0] = t.as_bytes()[0]; // distinct payloads
        let r = upload_single(
            &mut cat,
            MediaClass::Text,
            t,
            "text/plain",
            data,
            &user(),
            false,
            false,
            true,
            i,
            format!("id-{}", t),
        );
        assert!(matches!(r, Ok(PipelineStep::Done(UploadOutcome::Committed { .. }))));
    }
    // an unlisted item stays out of listings
    let mut data = text_payload();
    data[0] = b'z';
    upload_single(
        &mut cat,
        MediaClass::Text,
        "hidden",
        "text/plain",
        data,
        &user(),
        false,
        true,
        true,
        99,
        "id-z".to_owned(),
    )
    .unwrap();
    let listed = cat.handle_list("text/");
    assert_eq!(listed.len(), 3);
    assert_eq!(listed[0].title, "b");
    assert_eq!(listed[1].title, "c");
    assert_eq!(listed[2].title, "a");
    assert_eq!(cat.handle_list("video/").len(), 0);
}

#[test]
fn recovery_rebuilds_catalog_and_indices() {
    let mut cat = Catalog::new();
    let a = mp4_payload(3);
    let mut b = mp4_payload(3);
    for i in 300..306 {
        b[i] ^= 0x11;
    }
    upload_single(
        &mut cat,
        MediaClass::Video,
        "original",
        "video/mp4",
        a,
        &user(),
        false,
        false,
        true,
        1000,
        "vid-a".to_owned(),
    )
    .unwrap();
    upload_single(
        &mut cat,
        MediaClass::Video,
        "copy",
        "video/mp4",
        b,
        &user(),
        false,
        false,
        true,
        2000,
        "vid-b".to_owned(),
    )
    .unwrap();
    let metas: Vec<VideoMeta> = cat.items.iter().map(clone_meta).collect();
    let recovered = Catalog::recover(metas);
    assert_eq!(recovered.items.len(), 2);
    assert_eq!(recovered.files.len(), 1);
    assert_eq!(recovered.exact_index.len(), 1);
    assert_eq!(recovered.fuzzy_index.len(), 1);
    let sha = &cat.items[0].sha256;
    assert_eq!(recovered.exact_lookup(sha).as_deref(), Some("vid-a"));
    let resolved = recovered.resolve_file("vid-b").expect("resolvable after recovery");
    assert_eq!(resolved.0, "vid-a.mp4");
}

fn clone_meta(m: &VideoMeta) -> VideoMeta {
    VideoMeta {
        id: m.id.clone(),
        title: m.title.clone(),
        filename: m.filename.clone(),
        content_type: m.content_type.clone(),
        size_bytes: m.size_bytes,
        sha256: m.sha256.clone(),
        tlsh_hash: m.tlsh_hash.clone(),
        uploaded_by_provider: m.uploaded_by_provider.clone(),
        uploaded_by_id: m.uploaded_by_id,
        uploaded_by_name: m.uploaded_by_name.clone(),
        uploaded_at: m.uploaded_at,
        nsfw: m.nsfw,
        unlisted: m.unlisted,
        comments_disabled: m.comments_disabled,
        references_id: m.references_id.clone(),
        original_extension: m.original_extension.clone(),
    }
}
