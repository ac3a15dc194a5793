//! Principals, the admin registry, the daily-pick queue, and the
//! id-generating pipeline entry points.

use media_ingest::admin::{add_to_daily_queue, remove_from_daily_queue, AdminEntry, AdminRegistry};
use media_ingest::comments::CommentStore;
use media_ingest::model::AppError;
use media_ingest::pipeline::check_segment_range;
use media_ingest::pipeline::segment_time_text;
use media_ingest::comments::add_comment_checked;
use media_ingest::pipeline::upload_single;
use media_ingest::catalog::Catalog;
use media_ingest::fingerprint::generate_id;
use media_ingest::mime::MediaClass;
use media_ingest::model::{GithubUser, OsuUser, PlatformUser, UploadOutcome, UserCtx};
use media_ingest::pipeline::{init_upload_fresh, upload_single_fresh, PipelineStep};
use media_ingest::sessions::SessionStore;

#[test]
fn principals_from_providers() {
    let osu = OsuUser {
        id: 42,
        username: "peppy".to_owned(),
        avatar_url: "a".to_owned(),
        is_restricted: false,
    };
    let p = PlatformUser::from_osu(&osu);
    assert_eq!(p.provider, "osu");
    assert_eq!(p.id, 42);
    assert_eq!(p.username, "peppy");
    let gh = GithubUser { id: 9, login: "octo".to_owned(), avatar_url: "b".to_owned() };
    let q = PlatformUser::from_github(&gh);
    assert_eq!(q.provider, "github");
    assert_eq!(q.username, "octo");
    let ctx = UserCtx::from_platform(&q);
    assert_eq!(ctx.provider, "github");
    assert_eq!(ctx.id, 9);
}

#[test]
fn admin_registry_lookup() {
    let reg = AdminRegistry {
        entries: vec![
            AdminEntry { provider: "osu".to_owned(), ids: vec![1, 2, 3] },
            AdminEntry { provider: "github".to_owned(), ids: vec![9] },
        ],
    };
    assert!(reg.is_admin("osu", 2));
    assert!(reg.is_admin("github", 9));
    assert!(!reg.is_admin("osu", 9));
    assert!(!reg.is_admin("github", 2));
    assert!(!reg.is_admin("gitlab", 1));
    assert!(!AdminRegistry::new().is_admin("osu", 1));
}

#[test]
fn daily_queue_adds_once_and_removes() {
    let mut queue: Vec<String> = Vec::new();
    add_to_daily_queue(&mut queue, "a".to_owned());
    add_to_daily_queue(&mut queue, "b".to_owned());
    add_to_daily_queue(&mut queue, "a".to_owned());
    assert_eq!(queue, vec!["a".to_owned(), "b".to_owned()]);
    remove_from_daily_queue(&mut queue, "a");
    assert_eq!(queue, vec!["b".to_owned()]);
    remove_from_daily_queue(&mut queue, "missing");
    assert_eq!(queue, vec!["b".to_owned()]);
}

#[test]
fn generated_ids_are_hyphenated_uuids() {
    let a = generate_id();
    let b = generate_id();
    assert_eq!(a.len(), 36);
    assert_eq!(b.len(), 36);
    assert_ne!(a, b);
    assert_eq!(a.matches('-').count(), 4);
}

#[test]
fn fresh_entry_points_generate_usable_ids() {
    let user = PlatformUser {
        provider: "osu".to_owned(),
        id: 7,
        username: "alice".to_owned(),
        avatar_url: String::new(),
    };
    let mut cat = Catalog::new();
    let mut data = b"hello".to_vec();
    data.resize(50, b' ');
    let r = upload_single_fresh(
        &mut cat,
        MediaClass::Text,
        "note",
        "text/plain",
        data,
        &user,
        false,
        false,
        true,
        1000,
    );
    match r {
        Ok(PipelineStep::Done(UploadOutcome::Committed { item })) => {
            assert_eq!(item.id.len(), 36);
            assert!(item.filename.ends_with(".txt"));
        }
        _ => panic!("expected a committed outcome under a fresh id"),
    }
    let mut store = SessionStore::new();
    let id = init_upload_fresh(&mut store, MediaClass::Video, "video/mp4", &user, 10)
        .expect("init under a fresh id");
    assert_eq!(id.len(), 36);
    assert!(store.contains_session(&id));
}

#[test]
fn comments_lifecycle() {
    let alice = PlatformUser {
        provider: "osu".to_owned(),
        id: 7,
        username: "alice".to_owned(),
        avatar_url: String::new(),
    };
    let bob = PlatformUser {
        provider: "osu".to_owned(),
        id: 8,
        username: "bob".to_owned(),
        avatar_url: String::new(),
    };
    let mut store = CommentStore::new();
    assert!(store.get_comments("vid-1").is_empty());
    let c1 = store
        .add_comment("vid-1", "  nice!  ", &alice, 100, "c-1".to_owned())
        .expect("valid comment");
    assert_eq!(c1.text, "nice!");
    assert_eq!(c1.author_name, "alice");
    store.add_comment("vid-1", "second", &bob, 200, "c-2".to_owned()).expect("valid comment");
    store.add_comment("vid-2", "elsewhere", &bob, 300, "c-3".to_owned()).expect("valid comment");
    assert_eq!(store.get_comments("vid-1").len(), 2);
    assert_eq!(store.get_comments("vid-2").len(), 1);
    // empty and oversized texts are rejected
    assert!(matches!(
        store.add_comment("vid-1", "   ", &alice, 100, "c-4".to_owned()),
        Err(AppError::InvalidComment)
    ));
    let long = "y".repeat(2001);
    assert!(matches!(
        store.add_comment("vid-1", &long, &alice, 100, "c-5".to_owned()),
        Err(AppError::InvalidComment)
    ));
    // only the author or an admin may delete
    assert!(matches!(
        store.delete_comment("vid-1", "c-1", &bob, false),
        Err(AppError::Forbidden)
    ));
    store.delete_comment("vid-1", "c-1", &alice, false).expect("author deletes");
    assert_eq!(store.get_comments("vid-1").len(), 1);
    store.delete_comment("vid-1", "c-2", &alice, true).expect("admin deletes");
    assert!(store.get_comments("vid-1").is_empty());
    assert!(matches!(
        store.delete_comment("vid-1", "c-404", &alice, true),
        Err(AppError::VideoNotFound)
    ));
    // deleting an item drops its whole list and nothing else
    store.delete_comments("vid-2");
    assert!(store.get_comments("vid-2").is_empty());
}

#[test]
fn segment_range_is_checked() {
    assert!(check_segment_range(0, None).is_ok());
    assert!(check_segment_range(1000, Some(2000)).is_ok());
    assert!(check_segment_range(2000, Some(2000)).is_err());
    assert!(check_segment_range(2000, Some(100)).is_err());
}

#[test]
fn segment_time_text_matches_millisecond_format() {
    for ms in [0u64, 5, 42, 999, 1000, 1234, 61005, 3600000, 86399999] {
        assert_eq!(segment_time_text(ms), format!("{}.{:03}", ms / 1000, ms % 1000));
    }
}

#[test]
fn comment_creation_is_gated_on_the_catalog_entry() {
    let user = PlatformUser {
        provider: "osu".to_owned(),
        id: 7,
        username: "alice".to_owned(),
        avatar_url: String::new(),
    };
    let mut cat = Catalog::new();
    let mut comments = CommentStore::new();
    // no such item
    assert!(matches!(
        add_comment_checked(&cat, &mut comments, "vid-1", "hi there", &user, 5, "c-1".to_owned()),
        Err(AppError::VideoNotFound)
    ));
    // the item exists but its comments are disabled
    let mut data = b"hello".to_vec();
    data.resize(50, b' ');
    upload_single(
        &mut cat,
        MediaClass::Text,
        "note",
        "text/plain",
        data,
        &user,
        false,
        false,
        true,
        5,
        "vid-1".to_owned(),
    )
    .unwrap();
    assert!(matches!(
        add_comment_checked(&cat, &mut comments, "vid-1", "hi there", &user, 5, "c-1".to_owned()),
        Err(AppError::Forbidden)
    ));
    // enabled: the comment lands
    cat.set_comments_disabled("vid-1", false, &user, false).expect("owner toggles");
    let c = add_comment_checked(&cat, &mut comments, "vid-1", " hi there ", &user, 5, "c-1".to_owned())
        .expect("accepted");
    assert_eq!(c.text, "hi there");
    assert_eq!(comments.get_comments("vid-1").len(), 1);
    // bad text is still rejected first
    assert!(matches!(
        add_comment_checked(&cat, &mut comments, "vid-1", "  ", &user, 5, "c-2".to_owned()),
        Err(AppError::InvalidComment)
    ));
}
