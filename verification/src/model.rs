//! Data model: principals, catalog entries, upload sessions, request
//! bodies, response shapes, and the error taxonomy of the pipeline.

use vstd::prelude::*;

verus! {

/// Default used for the comments-disabled flag of older metadata records
/// that lack the field.
pub fn default_true() -> (r: bool)
    ensures
        r == true,
{
    true
}

/// Token response of the osu! OAuth flow.
pub struct OsuTokenResponse {
    pub access_token: String,
    pub token_type: String,
    pub expires_in: u64,
    pub refresh_token: Option<String>,
}

/// Profile record of an osu! account.
pub struct OsuUser {
    pub id: u64,
    pub username: String,
    pub avatar_url: String,
    pub is_restricted: bool,
}

/// Token response of the GitHub OAuth flow.
pub struct GithubTokenResponse {
    pub access_token: String,
    pub token_type: String,
    pub scope: Option<String>,
}

/// Profile record of a GitHub account.
pub struct GithubUser {
    pub id: u64,
    pub login: String,
    pub avatar_url: String,
}

/// An authenticated principal: a provider namespace, a numeric id inside
/// it, and display data.
pub struct PlatformUser {
    pub provider: String,
    pub id: u64,
    pub username: String,
    pub avatar_url: String,
}

impl Clone for PlatformUser {
    fn clone(&self) -> (r: Self)
        ensures
            r == *self,
    {
        PlatformUser {
            provider: self.provider.clone(),
            id: self.id,
            username: self.username.clone(),
            avatar_url: self.avatar_url.clone(),
        }
    }
}

impl PlatformUser {
    /// Builds the principal for an osu! account.
    pub fn from_osu(u: &OsuUser) -> (r: Self)
        ensures
            r.provider@ == "osu"@,
            r.id == u.id,
            r.username == u.username,
            r.avatar_url == u.avatar_url,
    {
        PlatformUser {
            provider: "osu".to_owned(),
            id: u.id,
            username: u.username.clone(),
            avatar_url: u.avatar_url.clone(),
        }
    }

    /// Builds the principal for a GitHub account.
    pub fn from_github(u: &GithubUser) -> (r: Self)
        ensures
            r.provider@ == "github"@,
            r.id == u.id,
            r.username == u.login,
            r.avatar_url == u.avatar_url,
    {
        PlatformUser {
            provider: "github".to_owned(),
            id: u.id,
            username: u.login.clone(),
            avatar_url: u.avatar_url.clone(),
        }
    }
}

/// A request principal whose session was accepted.
pub struct AuthenticatedUser(pub PlatformUser);

/// A request principal that was also found in the admin registry.
pub struct AdminUser(pub PlatformUser);

/// The fields of a principal that the page templates consume.
pub struct UserCtx {
    pub id: u64,
    pub username: String,
    pub avatar_url: String,
    pub provider: String,
}

impl UserCtx {
    /// Projects a principal into the template shape.
    pub fn from_platform(u: &PlatformUser) -> (r: Self)
        ensures
            r.id == u.id,
            r.username == u.username,
            r.avatar_url == u.avatar_url,
            r.provider == u.provider,
    {
        UserCtx {
            id: u.id,
            username: u.username.clone(),
            avatar_url: u.avatar_url.clone(),
            provider: u.provider.clone(),
        }
    }
}

/// Configuration of the osu! OAuth client.
pub struct OsuOAuthConfig {
    pub client_id: u64,
    pub client_secret: String,
    pub redirect_uri: String,
}

/// Configuration of the GitHub OAuth client.
pub struct GithubOAuthConfig {
    pub client_id: String,
    pub client_secret: String,
    pub redirect_uri: String,
}

/// One committed catalog entry. Exactly one of two shapes holds: an owning
/// item (`references_id` is `None`) has its own backing file named
/// `filename`; a referencing item shares the backing file of the owning
/// item its `references_id` names.
pub struct VideoMeta {
    pub id: String,
    pub title: String,
    pub filename: String,
    pub content_type: String,
    pub size_bytes: u64,
    pub sha256: String,
    pub tlsh_hash: Option<String>,
    pub uploaded_by_provider: String,
    pub uploaded_by_id: u64,
    pub uploaded_by_name: String,
    pub uploaded_at: u64,
    pub nsfw: bool,
    pub unlisted: bool,
    pub comments_disabled: bool,
    pub references_id: Option<String>,
    pub original_extension: Option<String>,
}

impl Clone for VideoMeta {
    fn clone(&self) -> (r: Self)
        ensures
            r == *self,
    {
        VideoMeta {
            id: self.id.clone(),
            title: self.title.clone(),
            filename: self.filename.clone(),
            content_type: self.content_type.clone(),
            size_bytes: self.size_bytes,
            sha256: self.sha256.clone(),
            tlsh_hash: match &self.tlsh_hash {
                Some(s) => Some(s.clone()),
                None => None,
            },
            uploaded_by_provider: self.uploaded_by_provider.clone(),
            uploaded_by_id: self.uploaded_by_id,
            uploaded_by_name: self.uploaded_by_name.clone(),
            uploaded_at: self.uploaded_at,
            nsfw: self.nsfw,
            unlisted: self.unlisted,
            comments_disabled: self.comments_disabled,
            references_id: match &self.references_id {
                Some(s) => Some(s.clone()),
                None => None,
            },
            original_extension: match &self.original_extension {
                Some(s) => Some(s.clone()),
                None => None,
            },
        }
    }
}

impl VideoMeta {
    /// True when this entry owns its backing file.
    pub open spec fn is_owning(&self) -> bool {
        self.references_id is None
    }
}

/// One comment under a catalog entry.
pub struct Comment {
    pub id: String,
    pub video_id: String,
    pub author_provider: String,
    pub author_id: u64,
    pub author_name: String,
    pub text: String,
    pub created_at: u64,
}

impl Clone for Comment {
    fn clone(&self) -> (r: Self)
        ensures
            r == *self,
    {
        Comment {
            id: self.id.clone(),
            video_id: self.video_id.clone(),
            author_provider: self.author_provider.clone(),
            author_id: self.author_id,
            author_name: self.author_name.clone(),
            text: self.text.clone(),
            created_at: self.created_at,
        }
    }
}

/// Bookkeeping for one chunked upload in progress. Chunks are kept sparse,
/// keyed by index; `chunk_count` is one past the highest index received.
pub struct UploadSession {
    pub user_provider: String,
    pub user_id: u64,
    pub content_type: String,
    pub created_at: u64,
    pub chunk_count: usize,
    pub chunks: Vec<(usize, Vec<u8>)>,
}

/// The `Range` header of a streaming request, when one was sent.
pub struct RangeHeader(pub Option<String>);

/// A ranged media response: the bytes to send and the headers that
/// describe them. The status is an HTTP status code.
pub struct MediaResponse {
    pub data: Vec<u8>,
    pub content_type: String,
    pub content_range: String,
    pub status: u16,
}

/// The older video-only response shape: a flag instead of a status code.
pub struct VideoResponse {
    pub data: Vec<u8>,
    pub content_type: String,
    pub content_range: String,
    pub partial: bool,
}

/// Body of the moderation request that sets the adult-content flag.
pub struct NsfwPatch {
    pub nsfw: bool,
}

/// Body of a comment creation request.
pub struct CommentBody {
    pub text: String,
}

/// Body of the request that toggles whether comments are accepted.
pub struct CommentsDisabledPatch {
    pub comments_disabled: bool,
}

/// Body of the admin request that queues an item as a daily pick.
pub struct DailyQueueBody {
    pub media_id: String,
}

/// The error taxonomy of the pipeline and catalog.
#[derive(Debug)]
pub enum AppError {
    /// No session: the caller must log in first.
    NotAuthenticated,
    /// Authenticated but lacking rights: not the owner and not an admin.
    Forbidden,
    /// The upload or chunk exceeds the size cap.
    FileTooLarge,
    /// The declared MIME type is not in the allow-list.
    InvalidFileType,
    /// The title is empty after trimming, or longer than the cap.
    InvalidTitle,
    /// The buffer's leading bytes contradict the declared MIME type.
    MagicMismatch,
    /// The comment text is empty after trimming, or longer than the cap.
    InvalidComment,
    /// Unknown id, unknown upload id, or an ownership mismatch, which is
    /// deliberately reported the same way.
    VideoNotFound,
    /// An internal failure, with a description.
    Internal(String),
}

impl AppError {
    /// The HTTP status code each error is reported with.
    pub fn status(&self) -> (r: u16)
        ensures
            r == self.spec_status(),
    {
        match self {
            AppError::NotAuthenticated => 401,
            AppError::Forbidden => 403,
            AppError::FileTooLarge => 413,
            AppError::InvalidFileType => 415,
            AppError::InvalidTitle => 400,
            AppError::MagicMismatch => 415,
            AppError::InvalidComment => 400,
            AppError::VideoNotFound => 404,
            AppError::Internal(_) => 500,
        }
    }

    /// [`AppError::status`], as a specification.
    pub open spec fn spec_status(&self) -> u16 {
        match self {
            AppError::NotAuthenticated => 401,
            AppError::Forbidden => 403,
            AppError::FileTooLarge => 413,
            AppError::InvalidFileType => 415,
            AppError::InvalidTitle => 400,
            AppError::MagicMismatch => 415,
            AppError::InvalidComment => 400,
            AppError::VideoNotFound => 404,
            AppError::Internal(_) => 500,
        }
    }
}

/// How an accepted upload was resolved against the catalog.
pub enum UploadOutcome {
    /// A genuinely new payload: a new owning item was committed.
    Committed { item: VideoMeta },
    /// A near-duplicate: a new referencing item was committed; it shares
    /// the backing file of the owning item `original_id`.
    Linked { item: VideoMeta, original_id: String },
    /// A byte-exact duplicate: nothing was committed; `existing_id` is the
    /// entry the exact-hash index already maps this payload to.
    ExactDuplicate { existing_id: String },
}

} // verus!
