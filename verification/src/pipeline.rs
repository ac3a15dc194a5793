//! The ingestion pipeline: validates an upload (title, size cap,
//! declared-type allow-list, magic bytes, and UTF-8 for plain text),
//! decides whether the payload needs transcoding into the canonical video
//! container, and commits validated bytes into the catalog. Transcoding
//! itself is an outside process: when it is needed the pipeline hands the
//! prepared upload back to the caller and resumes on the transcoded bytes.

use vstd::prelude::*;

verus! {

use vstd::utf8::{valid_utf8, encode_utf8};
use vstd::string::StrSliceExecFns;
use crate::model::{AppError, PlatformUser, UploadOutcome};
use crate::mime::{
    MediaClass, mime_allowed, spec_mime_allowed, base_mime, spec_base_mime, is_video_mime,
    spec_is_video_mime,
};
use crate::magic::{verify_magic_bytes, spec_magic_ok};
use crate::encoding::is_valid_utf8;
use crate::strutil::{trim_str, trim_spec, str_eq};
use crate::catalog::Catalog;
use crate::sessions::{SessionStore, has_session, session_at, assemble_upto, prefix_overflow};
use crate::fingerprint::generate_id;
use crate::{MAX_FILE_BYTES, MAGIC_READ_BYTES};

/// A valid title: non-empty once trimmed, and at most 200 bytes.
pub open spec fn spec_title_ok(title: Seq<char>) -> bool {
    trim_spec(title).len() > 0 && encode_utf8(trim_spec(title)).len() <= 200
}

/// Validates a display title, returning the trimmed form it is stored as.
pub fn validate_title(title: &str) -> (r: Option<String>)
    ensures
        match r {
            Some(t) => spec_title_ok(title@) && t@ == trim_spec(title@),
            None => !spec_title_ok(title@),
        },
{
    broadcast use vstd::slice::axiom_spec_len;

    let t = trim_str(title);
    let byte_len = t.as_bytes().len();
    if t.unicode_len() == 0 || byte_len > 200 {
        None
    } else {
        Some(t.to_owned())
    }
}

/// The leading bytes the magic-byte validator inspects.
pub open spec fn spec_magic_prefix(data: Seq<u8>) -> Seq<u8> {
    if data.len() < MAGIC_READ_BYTES {
        data
    } else {
        data.take(MAGIC_READ_BYTES as int)
    }
}

/// A payload acceptable under a media class: within the size cap, declared
/// type in the allow-list, magic bytes consistent with the declared type,
/// and, for plain text, entirely valid UTF-8.
pub open spec fn spec_payload_ok(class: MediaClass, ct: Seq<char>, data: Seq<u8>) -> bool {
    &&& spec_mime_allowed(class, ct)
    &&& data.len() <= MAX_FILE_BYTES
    &&& spec_magic_ok(spec_magic_prefix(data), ct)
    &&& (ct == "text/plain"@ ==> valid_utf8(data))
}

/// True when a validated payload must be transcoded before commit: video
/// that is not already in the canonical `video/mp4` container.
pub open spec fn spec_needs_transcode(ct: Seq<char>) -> bool {
    spec_is_video_mime(ct) && ct != "video/mp4"@
}

/// An upload that passed validation: the trimmed title, the base declared
/// type, the payload, and whether transcoding is still owed.
pub struct PreparedUpload {
    pub class: MediaClass,
    pub title: String,
    pub content_type: String,
    pub data: Vec<u8>,
    pub needs_transcode: bool,
}

/// Validates a payload against its media class and base declared type.
/// Rejections, in order of precedence: a type outside the allow-list, a
/// payload over the size cap, and bytes that contradict the declared type
/// (including non-UTF-8 plain text).
pub fn validate_payload(class: MediaClass, title: String, content_type: String, data: Vec<u8>) -> (r:
    Result<PreparedUpload, AppError>)
    ensures
        match r {
            Ok(prep) => {
                &&& spec_payload_ok(class, content_type@, data@)
                &&& prep.class == class
                &&& prep.title == title
                &&& prep.content_type == content_type
                &&& prep.data == data
                &&& prep.needs_transcode == spec_needs_transcode(content_type@)
            },
            Err(AppError::InvalidFileType) => !spec_mime_allowed(class, content_type@),
            Err(AppError::FileTooLarge) => spec_mime_allowed(class, content_type@) && data@.len()
                > MAX_FILE_BYTES,
            Err(AppError::MagicMismatch) => {
                &&& spec_mime_allowed(class, content_type@)
                &&& data@.len() <= MAX_FILE_BYTES
                &&& (!spec_magic_ok(spec_magic_prefix(data@), content_type@) || (content_type@
                    == "text/plain"@ && !valid_utf8(data@)))
            },
            Err(_) => false,
        },
{
    if !mime_allowed(class, content_type.as_str()) {
        return Err(AppError::InvalidFileType);
    }
    if data.len() as u64 > MAX_FILE_BYTES {
        return Err(AppError::FileTooLarge);
    }
    let n = if data.len() < MAGIC_READ_BYTES {
        data.len()
    } else {
        MAGIC_READ_BYTES
    };
    let prefix = &data.as_slice()[0..n];
    proof {
        assert(prefix@ =~= spec_magic_prefix(data@));
    }
    if !verify_magic_bytes(prefix, content_type.as_str()) {
        return Err(AppError::MagicMismatch);
    }
    let is_text = str_eq(content_type.as_str(), "text/plain");
    if is_text && !is_valid_utf8(data.as_slice()) {
        return Err(AppError::MagicMismatch);
    }
    let needs = is_video_mime(content_type.as_str()) && !str_eq(
        content_type.as_str(),
        "video/mp4",
    );
    Ok(
        PreparedUpload {
            class,
            title,
            content_type,
            data,
            needs_transcode: needs,
        },
    )
}

/// Validates a raw upload request: title, then base declared type, then
/// the payload checks of [`validate_payload`].
pub fn prepare_upload(class: MediaClass, title: &str, content_type: &str, data: Vec<u8>) -> (r:
    Result<PreparedUpload, AppError>)
    ensures
        match r {
            Ok(prep) => {
                &&& spec_title_ok(title@)
                &&& spec_payload_ok(class, spec_base_mime(content_type@), data@)
                &&& prep.class == class
                &&& prep.title@ == trim_spec(title@)
                &&& prep.content_type@ == spec_base_mime(content_type@)
                &&& prep.data == data
                &&& prep.needs_transcode == spec_needs_transcode(spec_base_mime(content_type@))
            },
            Err(AppError::InvalidTitle) => !spec_title_ok(title@),
            Err(AppError::InvalidFileType) => spec_title_ok(title@) && !spec_mime_allowed(
                class,
                spec_base_mime(content_type@),
            ),
            Err(AppError::FileTooLarge) => {
                &&& spec_title_ok(title@)
                &&& spec_mime_allowed(class, spec_base_mime(content_type@))
                &&& data@.len() > MAX_FILE_BYTES
            },
            Err(AppError::MagicMismatch) => {
                &&& spec_title_ok(title@)
                &&& spec_mime_allowed(class, spec_base_mime(content_type@))
                &&& data@.len() <= MAX_FILE_BYTES
                &&& (!spec_magic_ok(spec_magic_prefix(data@), spec_base_mime(content_type@)) || (
                spec_base_mime(content_type@) == "text/plain"@ && !valid_utf8(data@)))
            },
            Err(_) => false,
        },
{
    let trimmed = match validate_title(title) {
        Some(t) => t,
        None => {
            return Err(AppError::InvalidTitle);
        },
    };
    let base = base_mime(content_type);
    validate_payload(class, trimmed, base, data)
}

/// Validates a clip-extraction request before the external encoder is
/// asked for the segment: an end not after the start is a caller error
/// and is never attempted.
pub fn check_segment_range(start_ms: u64, end_ms: Option<u64>) -> (r: Result<(), AppError>)
    ensures
        match r {
            Ok(()) => (end_ms matches Some(e) ==> e > start_ms),
            Err(e) => {
                &&& e is Internal
                &&& (end_ms matches Some(em) && em <= start_ms)
            },
        },
{
    match end_ms {
        Some(e) => {
            if e <= start_ms {
                Err(AppError::Internal("end must be greater than start".to_owned()))
            } else {
                Ok(())
            }
        },
        None => Ok(()),
    }
}

/// The decimal digit character of a value below ten.
pub open spec fn spec_dec_digit(n: int) -> char {
    if n == 0 {
        '0'
    } else if n == 1 {
        '1'
    } else if n == 2 {
        '2'
    } else if n == 3 {
        '3'
    } else if n == 4 {
        '4'
    } else if n == 5 {
        '5'
    } else if n == 6 {
        '6'
    } else if n == 7 {
        '7'
    } else if n == 8 {
        '8'
    } else {
        '9'
    }
}

/// The decimal text of a number, most significant digit first, no leading
/// zeros except for zero itself.
pub open spec fn spec_dec(n: int) -> Seq<char>
    decreases n,
{
    if n < 10 {
        seq![spec_dec_digit(n)]
    } else {
        spec_dec(n / 10).push(spec_dec_digit(n % 10))
    }
}

/// The time-offset text handed to the external encoder for a millisecond
/// count: whole seconds, a dot, and exactly three millisecond digits.
pub open spec fn spec_segment_time_text(ms: u64) -> Seq<char> {
    let r = (ms as int) % 1000;
    spec_dec((ms as int) / 1000) + seq![
        '.',
        spec_dec_digit(r / 100),
        spec_dec_digit((r / 10) % 10),
        spec_dec_digit(r % 10),
    ]
}

fn dec_digit(n: u64) -> (r: char)
    requires
        n < 10,
    ensures
        r == spec_dec_digit(n as int),
{
    if n == 0 {
        '0'
    } else if n == 1 {
        '1'
    } else if n == 2 {
        '2'
    } else if n == 3 {
        '3'
    } else if n == 4 {
        '4'
    } else if n == 5 {
        '5'
    } else if n == 6 {
        '6'
    } else if n == 7 {
        '7'
    } else if n == 8 {
        '8'
    } else {
        '9'
    }
}

fn push_dec(n: u64, out: &mut Vec<char>)
    ensures
        final(out)@ == old(out)@ + spec_dec(n as int),
    decreases n,
{
    if n < 10 {
        out.push(dec_digit(n));
        proof {
            assert(final(out)@ =~= old(out)@ + spec_dec(n as int));
        }
    } else {
        push_dec(n / 10, out);
        out.push(dec_digit(n % 10));
        proof {
            assert(final(out)@ =~= old(out)@ + spec_dec(n as int));
        }
    }
}

/// Renders a millisecond offset in the form the external encoder takes:
/// seconds, a dot, and three zero-padded millisecond digits.
pub fn segment_time_text(ms: u64) -> (r: String)
    ensures
        r@ == spec_segment_time_text(ms),
{
    let mut out: Vec<char> = Vec::new();
    push_dec(ms / 1000, &mut out);
    let rem = ms % 1000;
    out.push('.');
    out.push(dec_digit(rem / 100));
    out.push(dec_digit((rem / 10) % 10));
    out.push(dec_digit(rem % 10));
    proof {
        assert(out@ =~= spec_segment_time_text(ms));
    }
    crate::util::chars_to_string(out)
}

/// What the pipeline hands back: a committed outcome, or a prepared upload
/// that still needs the outside transcoder before it can be committed.
pub enum PipelineStep {
    Done(UploadOutcome),
    NeedsTranscode(PreparedUpload),
}

/// Runs the single-shot upload pipeline: validation, then either the
/// commit with its dedup decision, or a request to transcode first.
pub fn upload_single(
    cat: &mut Catalog,
    class: MediaClass,
    title: &str,
    content_type: &str,
    data: Vec<u8>,
    owner: &PlatformUser,
    nsfw: bool,
    unlisted: bool,
    comments_disabled: bool,
    now: u64,
    new_id: String,
) -> (r: Result<PipelineStep, AppError>)
    requires
        old(cat).wf(),
        old(cat).spec_fresh_for_commit(new_id@, spec_base_mime(content_type@)),
    ensures
        final(cat).wf(),
        match r {
            Ok(PipelineStep::Done(outcome)) => {
                &&& spec_title_ok(title@)
                &&& spec_payload_ok(class, spec_base_mime(content_type@), data@)
                &&& !spec_needs_transcode(spec_base_mime(content_type@))
                &&& Catalog::spec_commit(
                    *old(cat),
                    *final(cat),
                    outcome,
                    trim_spec(title@),
                    spec_base_mime(content_type@),
                    data@,
                    *owner,
                    nsfw,
                    unlisted,
                    comments_disabled,
                    now,
                    new_id@,
                )
            },
            Ok(PipelineStep::NeedsTranscode(prep)) => {
                &&& spec_title_ok(title@)
                &&& spec_payload_ok(class, spec_base_mime(content_type@), data@)
                &&& spec_needs_transcode(spec_base_mime(content_type@))
                &&& prep.class == class
                &&& prep.title@ == trim_spec(title@)
                &&& prep.content_type@ == spec_base_mime(content_type@)
                &&& prep.data@ == data@
                &&& prep.needs_transcode
                &&& *final(cat) == *old(cat)
            },
            Err(e) => {
                &&& *final(cat) == *old(cat)
                &&& match e {
                    AppError::InvalidTitle => !spec_title_ok(title@),
                    AppError::InvalidFileType => spec_title_ok(title@) && !spec_mime_allowed(
                        class,
                        spec_base_mime(content_type@),
                    ),
                    AppError::FileTooLarge => spec_title_ok(title@) && spec_mime_allowed(
                        class,
                        spec_base_mime(content_type@),
                    ) && data@.len() > MAX_FILE_BYTES,
                    AppError::MagicMismatch => {
                        &&& spec_title_ok(title@)
                        &&& spec_mime_allowed(class, spec_base_mime(content_type@))
                        &&& data@.len() <= MAX_FILE_BYTES
                        &&& (!spec_magic_ok(
                            spec_magic_prefix(data@),
                            spec_base_mime(content_type@),
                        ) || (spec_base_mime(content_type@) == "text/plain"@ && !valid_utf8(
                            data@,
                        )))
                    },
                    _ => false,
                }
            },
        },
{
    let prep = match prepare_upload(class, title, content_type, data) {
        Ok(p) => p,
        Err(e) => {
            return Err(e);
        },
    };
    if prep.needs_transcode {
        return Ok(PipelineStep::NeedsTranscode(prep));
    }
    let outcome = cat.commit(
        prep.title.as_str(),
        prep.content_type.as_str(),
        prep.data.as_slice(),
        owner,
        nsfw,
        unlisted,
        comments_disabled,
        now,
        new_id,
    );
    Ok(PipelineStep::Done(outcome))
}

/// Resumes the pipeline on the transcoder's output: the payload is now in
/// the canonical `video/mp4` container and is committed as such.
pub fn resume_after_transcode(
    cat: &mut Catalog,
    prep: PreparedUpload,
    transcoded: Vec<u8>,
    owner: &PlatformUser,
    nsfw: bool,
    unlisted: bool,
    comments_disabled: bool,
    now: u64,
    new_id: String,
) -> (r: UploadOutcome)
    requires
        old(cat).wf(),
        old(cat).spec_fresh_for_commit(new_id@, "video/mp4"@),
    ensures
        final(cat).wf(),
        Catalog::spec_commit(
            *old(cat),
            *final(cat),
            r,
            prep.title@,
            "video/mp4"@,
            transcoded@,
            *owner,
            nsfw,
            unlisted,
            comments_disabled,
            now,
            new_id@,
        ),
{
    cat.commit(
        prep.title.as_str(),
        "video/mp4",
        transcoded.as_slice(),
        owner,
        nsfw,
        unlisted,
        comments_disabled,
        now,
        new_id,
    )
}

/// Completes a chunked upload and runs the assembled payload through the
/// same validation and commit pipeline as a single-shot upload. The title
/// is checked first, leaving the session untouched when it is invalid; in
/// every later outcome, successful or failed, the session is consumed.
pub fn upload_chunked_complete(
    store: &mut SessionStore,
    cat: &mut Catalog,
    upload_id: &str,
    class: MediaClass,
    title: &str,
    owner: &PlatformUser,
    nsfw: bool,
    unlisted: bool,
    comments_disabled: bool,
    now: u64,
    new_id: String,
) -> (r: Result<PipelineStep, AppError>)
    requires
        old(store).wf(),
        old(cat).wf(),
        has_session(old(store).sessions@, upload_id@) ==> old(cat).spec_fresh_for_commit(
            new_id@,
            session_at(old(store).sessions@, upload_id@).content_type@,
        ),
    ensures
        final(store).wf(),
        final(cat).wf(),
        ({
            let sessions = old(store).sessions@;
            let sess = session_at(sessions, upload_id@);
            let assembled = assemble_upto(sess.chunks@, sess.chunk_count as int);
            match r {
                Ok(PipelineStep::Done(outcome)) => {
                    &&& spec_title_ok(title@)
                    &&& has_session(sessions, upload_id@)
                    &&& sess.owned_by(owner.provider@, owner.id)
                    &&& assembled matches Some(data)
                    &&& spec_payload_ok(class, sess.content_type@, assembled->0)
                    &&& !spec_needs_transcode(sess.content_type@)
                    &&& final(store).sessions@ == sessions.remove(
                        crate::sessions::session_idx(sessions, upload_id@),
                    )
                    &&& Catalog::spec_commit(
                        *old(cat),
                        *final(cat),
                        outcome,
                        trim_spec(title@),
                        sess.content_type@,
                        assembled->0,
                        *owner,
                        nsfw,
                        unlisted,
                        comments_disabled,
                        now,
                        new_id@,
                    )
                },
                Ok(PipelineStep::NeedsTranscode(prep)) => {
                    &&& spec_title_ok(title@)
                    &&& has_session(sessions, upload_id@)
                    &&& sess.owned_by(owner.provider@, owner.id)
                    &&& assembled matches Some(data) && prep.data@ == data
                    &&& spec_payload_ok(class, sess.content_type@, assembled->0)
                    &&& spec_needs_transcode(sess.content_type@)
                    &&& prep.title@ == trim_spec(title@)
                    &&& prep.content_type@ == sess.content_type@
                    &&& prep.needs_transcode
                    &&& final(store).sessions@ == sessions.remove(
                        crate::sessions::session_idx(sessions, upload_id@),
                    )
                    &&& *final(cat) == *old(cat)
                },
                Err(e) => {
                    &&& *final(cat) == *old(cat)
                    &&& match e {
                        AppError::InvalidTitle => !spec_title_ok(title@) && final(store).sessions@
                            == sessions,
                        AppError::VideoNotFound => {
                            &&& spec_title_ok(title@)
                            &&& (!has_session(sessions, upload_id@) || !sess.owned_by(
                                owner.provider@,
                                owner.id,
                            ))
                            &&& final(store).sessions@ == sessions
                        },
                        AppError::FileTooLarge => {
                            &&& spec_title_ok(title@)
                            &&& has_session(sessions, upload_id@)
                            &&& sess.owned_by(owner.provider@, owner.id)
                            &&& (prefix_overflow(sess.chunks@, sess.chunk_count as int) || (
                            assembled is Some && spec_mime_allowed(class, sess.content_type@)
                                && assembled->0.len() > MAX_FILE_BYTES))
                            &&& final(store).sessions@ == sessions.remove(
                                crate::sessions::session_idx(sessions, upload_id@),
                            )
                        },
                        AppError::Internal(_) => {
                            &&& spec_title_ok(title@)
                            &&& has_session(sessions, upload_id@)
                            &&& sess.owned_by(owner.provider@, owner.id)
                            &&& assembled is None
                            &&& final(store).sessions@ == sessions.remove(
                                crate::sessions::session_idx(sessions, upload_id@),
                            )
                        },
                        AppError::InvalidFileType => {
                            &&& spec_title_ok(title@)
                            &&& has_session(sessions, upload_id@)
                            &&& sess.owned_by(owner.provider@, owner.id)
                            &&& assembled is Some
                            &&& !spec_mime_allowed(class, sess.content_type@)
                            &&& final(store).sessions@ == sessions.remove(
                                crate::sessions::session_idx(sessions, upload_id@),
                            )
                        },
                        AppError::MagicMismatch => {
                            &&& spec_title_ok(title@)
                            &&& has_session(sessions, upload_id@)
                            &&& sess.owned_by(owner.provider@, owner.id)
                            &&& assembled matches Some(data)
                            &&& spec_mime_allowed(class, sess.content_type@)
                            &&& (!spec_magic_ok(spec_magic_prefix(assembled->0), sess.content_type@)
                                || (sess.content_type@ == "text/plain"@ && !valid_utf8(
                                assembled->0,
                            )))
                            &&& final(store).sessions@ == sessions.remove(
                                crate::sessions::session_idx(sessions, upload_id@),
                            )
                        },
                        _ => false,
                    }
                },
            }
        }),
{
    let trimmed = match validate_title(title) {
        Some(t) => t,
        None => {
            return Err(AppError::InvalidTitle);
        },
    };
    let (content_type, data) = match store.complete_upload(upload_id, owner) {
        Ok(p) => p,
        Err(e) => {
            return Err(e);
        },
    };
    let prep = match validate_payload(class, trimmed, content_type, data) {
        Ok(p) => p,
        Err(e) => {
            return Err(e);
        },
    };
    if prep.needs_transcode {
        return Ok(PipelineStep::NeedsTranscode(prep));
    }
    let outcome = cat.commit(
        prep.title.as_str(),
        prep.content_type.as_str(),
        prep.data.as_slice(),
        owner,
        nsfw,
        unlisted,
        comments_disabled,
        now,
        new_id,
    );
    Ok(PipelineStep::Done(outcome))
}

/// Runs the single-shot pipeline under a freshly generated id. The one
/// failure of its own is an id collision with the catalog, reported as an
/// internal error.
pub fn upload_single_fresh(
    cat: &mut Catalog,
    class: MediaClass,
    title: &str,
    content_type: &str,
    data: Vec<u8>,
    owner: &PlatformUser,
    nsfw: bool,
    unlisted: bool,
    comments_disabled: bool,
    now: u64,
) -> (r: Result<PipelineStep, AppError>)
    requires
        old(cat).wf(),
    ensures
        final(cat).wf(),
        match r {
            Ok(PipelineStep::Done(outcome)) => exists|id: Seq<char>|
                #[trigger] Catalog::spec_commit(
                    *old(cat),
                    *final(cat),
                    outcome,
                    trim_spec(title@),
                    spec_base_mime(content_type@),
                    data@,
                    *owner,
                    nsfw,
                    unlisted,
                    comments_disabled,
                    now,
                    id,
                ),
            Ok(PipelineStep::NeedsTranscode(prep)) => *final(cat) == *old(cat)
                && spec_needs_transcode(spec_base_mime(content_type@)) && prep.data@ == data@
                && prep.title@ == trim_spec(title@) && prep.content_type@ == spec_base_mime(
                content_type@,
            ),
            Err(e) => {
                &&& *final(cat) == *old(cat)
                &&& match e {
                    AppError::InvalidTitle => !spec_title_ok(title@),
                    AppError::InvalidFileType => spec_title_ok(title@) && !spec_mime_allowed(
                        class,
                        spec_base_mime(content_type@),
                    ),
                    AppError::FileTooLarge => spec_title_ok(title@) && spec_mime_allowed(
                        class,
                        spec_base_mime(content_type@),
                    ) && data@.len() > MAX_FILE_BYTES,
                    AppError::MagicMismatch => {
                        &&& spec_title_ok(title@)
                        &&& spec_mime_allowed(class, spec_base_mime(content_type@))
                        &&& data@.len() <= MAX_FILE_BYTES
                        &&& (!spec_magic_ok(
                            spec_magic_prefix(data@),
                            spec_base_mime(content_type@),
                        ) || (spec_base_mime(content_type@) == "text/plain"@ && !valid_utf8(
                            data@,
                        )))
                    },
                    // the one failure of this wrapper's own: the freshly
                    // drawn id collided with the catalog
                    AppError::Internal(_) => true,
                    _ => false,
                }
            },
        },
{
    let new_id = generate_id();
    let base = base_mime(content_type);
    if !cat.fresh_for_commit(new_id.as_str(), base.as_str()) {
        return Err(AppError::Internal("id collision".to_owned()));
    }
    upload_single(
        cat,
        class,
        title,
        content_type,
        data,
        owner,
        nsfw,
        unlisted,
        comments_disabled,
        now,
        new_id,
    )
}

/// Opens a chunked upload under a freshly generated upload id. The one
/// failure of its own is an id collision, reported as an internal error.
pub fn init_upload_fresh(
    store: &mut SessionStore,
    class: MediaClass,
    content_type: &str,
    owner: &PlatformUser,
    now: u64,
) -> (r: Result<String, AppError>)
    requires
        old(store).wf(),
    ensures
        final(store).wf(),
        match r {
            Ok(id) => spec_mime_allowed(class, spec_base_mime(content_type@)) && has_session(
                final(store).sessions@,
                id@,
            ),
            Err(AppError::InvalidFileType) => !spec_mime_allowed(
                class,
                spec_base_mime(content_type@),
            ) && final(store).sessions@ == old(store).sessions@,
            Err(AppError::Internal(_)) => final(store).sessions@ == old(store).sessions@,
            Err(_) => false,
        },
{
    let new_id = generate_id();
    if store.contains_session(new_id.as_str()) {
        return Err(AppError::Internal("id collision".to_owned()));
    }
    match store.init_upload(class, content_type, owner, now, new_id) {
        Ok(id) => {
            proof {
                let s = store.sessions@;
                assert(s[s.len() - 1].upload_id@ == id@);
            }
            Ok(id)
        },
        Err(e) => Err(e),
    }
}

} // verus!
