//! The upload session store: bookkeeping for chunked uploads in progress.
//! Chunks are buffered individually, keyed by index; out-of-order and
//! re-sent chunks are accepted, a re-sent chunk overwrites its slot.
//! Completion concatenates chunks in index order; a missing index is a
//! fatal assembly error, and a cumulative size check aborts early once the
//! running total exceeds the file cap. Stale sessions are swept on each
//! new session creation.

use vstd::prelude::*;

verus! {

use crate::model::{UploadSession, AppError, PlatformUser};
use crate::mime::{MediaClass, mime_allowed, spec_mime_allowed, base_mime, spec_base_mime};
use crate::strutil::str_eq;
use crate::{MAX_FILE_BYTES, MAX_CHUNK_BYTES};

/// Seconds after which an upload session counts as stale.
pub const SESSION_STALE_SECONDS: u64 = 3600;

/// True when a session created at `created_at` is stale at `now`.
pub open spec fn is_stale(created_at: u64, now: u64) -> bool {
    created_at + SESSION_STALE_SECONDS < now
}

/// True when some chunk with index `i` was received.
pub open spec fn has_chunk(chunks: Seq<(usize, Vec<u8>)>, i: int) -> bool {
    exists|k: int| 0 <= k < chunks.len() && (#[trigger] chunks[k]).0 == i
}

/// The position of chunk `i`; meaningful under unique indices.
pub open spec fn chunk_idx(chunks: Seq<(usize, Vec<u8>)>, i: int) -> int {
    choose|k: int| 0 <= k < chunks.len() && (#[trigger] chunks[k]).0 == i
}

/// The bytes of chunk `i`; meaningful under unique indices.
pub open spec fn chunk_data(chunks: Seq<(usize, Vec<u8>)>, i: int) -> Seq<u8> {
    chunks[chunk_idx(chunks, i)].1@
}

/// No two buffered chunks share an index.
pub open spec fn chunks_unique(chunks: Seq<(usize, Vec<u8>)>) -> bool {
    forall|k: int, l: int|
        0 <= k < l < chunks.len() ==> (#[trigger] chunks[k]).0 != (#[trigger] chunks[l]).0
}

/// Every buffered chunk sits below the recorded count and respects the
/// per-chunk size cap.
pub open spec fn chunks_wf(chunks: Seq<(usize, Vec<u8>)>, count: usize) -> bool {
    &&& chunks_unique(chunks)
    &&& forall|k: int|
        0 <= k < chunks.len() ==> (#[trigger] chunks[k]).0 < count && chunks[k].1@.len()
            <= MAX_CHUNK_BYTES
}

impl UploadSession {
    /// The session's invariant.
    pub open spec fn wf(&self) -> bool {
        chunks_wf(self.chunks@, self.chunk_count)
    }

    /// True when `provider`/`id` is the principal that created this
    /// session.
    pub open spec fn owned_by(&self, provider: Seq<char>, id: u64) -> bool {
        self.user_provider@ == provider && self.user_id == id
    }
}

/// Pins the chunk found at a concrete position as *the* chunk of its
/// index.
pub proof fn lemma_chunk_at(chunks: Seq<(usize, Vec<u8>)>, i: int, k: int)
    requires
        chunks_unique(chunks),
        0 <= k < chunks.len(),
        chunks[k].0 == i,
    ensures
        has_chunk(chunks, i),
        chunk_idx(chunks, i) == k,
        chunk_data(chunks, i) == chunks[k].1@,
{
    assert(has_chunk(chunks, i));
    let l = chunk_idx(chunks, i);
    assert(0 <= l < chunks.len() && chunks[l].0 == i);
    if k != l {
        if k < l {
            assert(chunks[k].0 != chunks[l].0);
        } else {
            assert(chunks[l].0 != chunks[k].0);
        }
    }
}

/// The concatenation of chunks `0 .. n` in index order, or `None` when
/// one of them is missing.
pub open spec fn assemble_upto(chunks: Seq<(usize, Vec<u8>)>, n: int) -> Option<Seq<u8>>
    decreases n,
{
    if n <= 0 {
        Some(Seq::empty())
    } else {
        match assemble_upto(chunks, n - 1) {
            Some(p) => if has_chunk(chunks, n - 1) {
                Some(p + chunk_data(chunks, n - 1))
            } else {
                None
            },
            None => None,
        }
    }
}

/// True when some fully-present chunk prefix already exceeds the file
/// size cap, which makes completion abort with the size error.
pub open spec fn prefix_overflow(chunks: Seq<(usize, Vec<u8>)>, count: int) -> bool {
    exists|n: int|
        0 <= n <= count && ((#[trigger] assemble_upto(chunks, n)) matches Some(p) && p.len()
            > MAX_FILE_BYTES)
}

/// Assembled prefixes only grow: a shorter prefix assembles whenever a
/// longer one does, to no greater length.
pub proof fn lemma_assemble_prefix(chunks: Seq<(usize, Vec<u8>)>, m: int, n: int)
    requires
        0 <= m <= n,
        assemble_upto(chunks, n) is Some,
    ensures
        assemble_upto(chunks, m) is Some,
        assemble_upto(chunks, m)->0.len() <= assemble_upto(chunks, n)->0.len(),
    decreases n - m,
{
    if m < n {
        assert(assemble_upto(chunks, n - 1) is Some);
        lemma_assemble_prefix(chunks, m, n - 1);
    }
}

/// Assembly is a function of the chunk map and count alone: two chunk
/// buffers that hold the same data at every index assemble identically,
/// whatever order their chunks arrived in.
pub proof fn lemma_assembly_determined(
    c1: Seq<(usize, Vec<u8>)>,
    c2: Seq<(usize, Vec<u8>)>,
    n: int,
)
    requires
        forall|i: int| 0 <= i < n ==> #[trigger] has_chunk(c1, i) == has_chunk(c2, i),
        forall|i: int|
            0 <= i < n && has_chunk(c1, i) ==> #[trigger] chunk_data(c1, i) == chunk_data(c2, i),
    ensures
        assemble_upto(c1, n) == assemble_upto(c2, n),
    decreases n,
{
    if n > 0 {
        lemma_assembly_determined(c1, c2, n - 1);
    }
}

/// One session store entry: the opaque upload id and its session.
pub struct SessionEntry {
    pub upload_id: String,
    pub session: UploadSession,
}

/// True when the store holds a session under `id`.
pub open spec fn has_session(s: Seq<SessionEntry>, id: Seq<char>) -> bool {
    exists|k: int| 0 <= k < s.len() && (#[trigger] s[k]).upload_id@ == id
}

/// The position of the session under `id`; meaningful under unique ids.
pub open spec fn session_idx(s: Seq<SessionEntry>, id: Seq<char>) -> int {
    choose|k: int| 0 <= k < s.len() && (#[trigger] s[k]).upload_id@ == id
}

/// The session under `id`; meaningful under unique ids.
pub open spec fn session_at(s: Seq<SessionEntry>, id: Seq<char>) -> UploadSession {
    s[session_idx(s, id)].session
}

/// No two entries share an upload id.
pub open spec fn session_ids_unique(s: Seq<SessionEntry>) -> bool {
    forall|k: int, l: int|
        0 <= k < l < s.len() ==> (#[trigger] s[k]).upload_id@ != (#[trigger] s[l]).upload_id@
}

/// Every entry's session satisfies its own invariant.
pub open spec fn sessions_wf(s: Seq<SessionEntry>) -> bool {
    forall|k: int| 0 <= k < s.len() ==> (#[trigger] s[k]).session.wf()
}

/// Pins the entry found at a concrete position as *the* entry of that id.
pub proof fn lemma_session_at(s: Seq<SessionEntry>, id: Seq<char>, k: int)
    requires
        session_ids_unique(s),
        0 <= k < s.len(),
        s[k].upload_id@ == id,
    ensures
        has_session(s, id),
        session_idx(s, id) == k,
        session_at(s, id) == s[k].session,
{
    assert(has_session(s, id));
    let l = session_idx(s, id);
    assert(0 <= l < s.len() && s[l].upload_id@ == id);
    if k != l {
        if k < l {
            assert(s[k].upload_id@ != s[l].upload_id@);
        } else {
            assert(s[l].upload_id@ != s[k].upload_id@);
        }
    }
}

/// The store without its stale entries.
pub open spec fn sweep_stale(s: Seq<SessionEntry>, now: u64) -> Seq<SessionEntry>
    decreases s.len(),
{
    if s.len() == 0 {
        Seq::empty()
    } else {
        let rest = sweep_stale(s.drop_last(), now);
        if !is_stale(s.last().session.created_at, now) {
            rest.push(s.last())
        } else {
            rest
        }
    }
}

proof fn lemma_sweep_step(s: Seq<SessionEntry>, now: u64, k: int)
    requires
        0 <= k < s.len(),
    ensures
        sweep_stale(s.take(k + 1), now) == if !is_stale(s[k].session.created_at, now) {
            sweep_stale(s.take(k), now).push(s[k])
        } else {
            sweep_stale(s.take(k), now)
        },
{
    let t = s.take(k + 1);
    assert(t.drop_last() =~= s.take(k));
    assert(t.last() == s[k]);
}

proof fn lemma_sweep_elems(s: Seq<SessionEntry>, now: u64)
    ensures
        forall|k: int|
            0 <= k < sweep_stale(s, now).len() ==> exists|l: int|
                0 <= l < s.len() && #[trigger] sweep_stale(s, now)[k] == s[l],
    decreases s.len(),
{
    let g = sweep_stale(s, now);
    if s.len() > 0 {
        let rest = s.drop_last();
        lemma_sweep_elems(rest, now);
        let gr = sweep_stale(rest, now);
        assert forall|k: int| 0 <= k < g.len() implies exists|l: int|
            0 <= l < s.len() && #[trigger] g[k] == s[l] by {
            if k < gr.len() {
                assert(g[k] == gr[k]);
                let l = choose|l: int| 0 <= l < rest.len() && gr[k] == rest[l];
                assert(g[k] == s[l]);
            } else {
                assert(g[k] == s[s.len() - 1]);
            }
        }
    }
}

proof fn lemma_sweep_props(s: Seq<SessionEntry>, now: u64)
    requires
        session_ids_unique(s),
        sessions_wf(s),
    ensures
        session_ids_unique(sweep_stale(s, now)),
        sessions_wf(sweep_stale(s, now)),
        forall|id: Seq<char>|
            #[trigger] has_session(sweep_stale(s, now), id) ==> has_session(s, id),
    decreases s.len(),
{
    let g = sweep_stale(s, now);
    if s.len() > 0 {
        let rest = s.drop_last();
        lemma_sweep_props(rest, now);
        let gr = sweep_stale(rest, now);
        assert forall|id: Seq<char>| #[trigger] has_session(g, id) implies has_session(s, id) by {
            let k = choose|k: int| 0 <= k < g.len() && g[k].upload_id@ == id;
            if k < gr.len() {
                assert(g[k] == gr[k]);
                assert(has_session(gr, id));
                let l = choose|l: int| 0 <= l < rest.len() && rest[l].upload_id@ == id;
                assert(s[l].upload_id@ == id);
            } else {
                assert(g[k] == s[s.len() - 1]);
                assert(s[s.len() - 1].upload_id@ == id);
            }
        }
        assert forall|k: int, l: int| 0 <= k < l < g.len() implies (#[trigger] g[k]).upload_id@
            != (#[trigger] g[l]).upload_id@ by {
            if l < gr.len() {
                assert(g[k] == gr[k] && g[l] == gr[l]);
            } else {
                assert(g[l] == s.last());
                assert(g[k] == gr[k]);
                lemma_sweep_elems(rest, now);
                let k0 = choose|k0: int| 0 <= k0 < rest.len() && gr[k] == rest[k0];
                assert(rest[k0] == s[k0]);
                assert(s[k0].upload_id@ != s[s.len() - 1].upload_id@);
            }
        }
        assert forall|k: int| 0 <= k < g.len() implies (#[trigger] g[k]).session.wf() by {
            if k < gr.len() {
                assert(g[k] == gr[k]);
            } else {
                assert(g[k] == s[s.len() - 1]);
            }
        }
    }
}

/// The store of chunked uploads in progress, keyed by opaque upload id.
pub struct SessionStore {
    pub sessions: Vec<SessionEntry>,
}

impl SessionStore {
    /// The store's invariant: unique upload ids, well-formed sessions.
    pub open spec fn wf(&self) -> bool {
        &&& session_ids_unique(self.sessions@)
        &&& sessions_wf(self.sessions@)
    }

    /// An empty store.
    pub fn new() -> (r: Self)
        ensures
            r.wf(),
            r.sessions@.len() == 0,
    {
        SessionStore { sessions: Vec::new() }
    }

    /// Finds the position of the session under the given upload id.
    fn find_index(&self, upload_id: &str) -> (r: Option<usize>)
        ensures
            match r {
                Some(k) => k < self.sessions@.len() && self.sessions@[k as int].upload_id@
                    == upload_id@,
                None => !has_session(self.sessions@, upload_id@),
            },
    {
        let n = self.sessions.len();
        let mut k: usize = 0;
        while k < n
            invariant
                0 <= k <= n,
                n == self.sessions@.len(),
                forall|l: int| 0 <= l < k ==> (#[trigger] self.sessions@[l]).upload_id@
                    != upload_id@,
            decreases n - k,
        {
            if str_eq(self.sessions[k].upload_id.as_str(), upload_id) {
                return Some(k);
            }
            k += 1;
        }
        None
    }

    /// True when a session exists under the given upload id.
    pub fn contains_session(&self, upload_id: &str) -> (r: bool)
        ensures
            r == has_session(self.sessions@, upload_id@),
    {
        match self.find_index(upload_id) {
            Some(_) => true,
            None => false,
        }
    }
}

/// How one chunk write changes the chunk map: slot `index` now holds `d`,
/// every other slot is unchanged.
pub open spec fn chunk_map_updated(
    oldc: Seq<(usize, Vec<u8>)>,
    newc: Seq<(usize, Vec<u8>)>,
    index: int,
    d: Seq<u8>,
) -> bool {
    &&& forall|i: int| #![trigger has_chunk(newc, i)]
        has_chunk(newc, i) <==> (i == index || has_chunk(oldc, i))
    &&& chunk_data(newc, index) == d
    &&& forall|i: int| #![trigger chunk_data(newc, i)]
        i != index && has_chunk(oldc, i) ==> chunk_data(newc, i) == chunk_data(oldc, i)
}

impl SessionStore {
    /// Opens a new chunked upload under a fresh id after validating the
    /// declared content type, sweeping sessions older than the staleness
    /// threshold along with their buffered chunks.
    pub fn init_upload(
        &mut self,
        class: MediaClass,
        content_type: &str,
        owner: &PlatformUser,
        now: u64,
        new_id: String,
    ) -> (r: Result<String, AppError>)
        requires
            old(self).wf(),
            !has_session(old(self).sessions@, new_id@),
        ensures
            final(self).wf(),
            match r {
                Ok(id) => {
                    &&& id@ == new_id@
                    &&& spec_mime_allowed(class, spec_base_mime(content_type@))
                    &&& final(self).sessions@.len() == sweep_stale(old(self).sessions@, now).len()
                        + 1
                    &&& final(self).sessions@.drop_last() == sweep_stale(
                        old(self).sessions@,
                        now,
                    )
                    &&& {
                        let e = final(self).sessions@.last();
                        &&& e.upload_id@ == new_id@
                        &&& e.session.owned_by(owner.provider@, owner.id)
                        &&& e.session.content_type@ == spec_base_mime(content_type@)
                        &&& e.session.created_at == now
                        &&& e.session.chunk_count == 0
                        &&& e.session.chunks@.len() == 0
                    }
                },
                Err(e) => {
                    &&& e is InvalidFileType
                    &&& !spec_mime_allowed(class, spec_base_mime(content_type@))
                    &&& final(self).sessions@ == old(self).sessions@
                },
            },
    {
        let base = base_mime(content_type);
        if !mime_allowed(class, base.as_str()) {
            return Err(AppError::InvalidFileType);
        }
        let ghost orig = self.sessions@;
        let mut k: usize = 0;
        let mut jj: Ghost<int> = Ghost(0);
        while k < self.sessions.len()
            invariant
                0 <= k <= self.sessions@.len(),
                k <= jj@ <= orig.len(),
                self.sessions@.take(k as int) == sweep_stale(orig.take(jj@), now),
                self.sessions@.skip(k as int) == orig.skip(jj@),
            decreases orig.len() - jj@,
        {
            proof {
                assert(self.sessions@.skip(k as int).len() == orig.skip(jj@).len());
                assert(jj@ < orig.len());
                assert(self.sessions@.skip(k as int)[0] == self.sessions@[k as int]);
                assert(orig.skip(jj@)[0] == orig[jj@]);
                assert(self.sessions@[k as int] == orig[jj@]);
                lemma_sweep_step(orig, now, jj@);
                assert(orig.take(jj@ + 1).drop_last() =~= orig.take(jj@));
                assert(sweep_stale(orig.take(jj@ + 1), now) == if !is_stale(
                    orig[jj@].session.created_at,
                    now,
                ) {
                    sweep_stale(orig.take(jj@), now).push(orig[jj@])
                } else {
                    sweep_stale(orig.take(jj@), now)
                }) by {
                    let t = orig.take(jj@ + 1);
                    assert(t.drop_last() =~= orig.take(jj@));
                    assert(t.last() == orig[jj@]);
                }
            }
            let created = self.sessions[k].session.created_at;
            let stale = if now <= SESSION_STALE_SECONDS {
                false
            } else {
                created < now - SESSION_STALE_SECONDS
            };
            if stale {
                let ghost pre = self.sessions@;
                self.sessions.remove(k);
                proof {
                    assert(self.sessions@.take(k as int) =~= pre.take(k as int));
                    assert(self.sessions@.skip(k as int) =~= pre.skip(k as int + 1));
                    assert(pre.skip(k as int) == orig.skip(jj@));
                    assert forall|x: int|
                        0 <= x < pre.skip(k as int + 1).len() implies #[trigger] pre.skip(
                        k as int + 1,
                    )[x] == orig.skip(jj@ + 1)[x] by {
                        assert(pre.skip(k as int)[x + 1] == orig.skip(jj@)[x + 1]);
                    }
                    assert(pre.skip(k as int + 1) =~= orig.skip(jj@ + 1));
                    jj@ = jj@ + 1;
                }
            } else {
                proof {
                    assert(self.sessions@.take(k as int + 1) =~= self.sessions@.take(
                        k as int,
                    ).push(orig[jj@]));
                    assert forall|x: int|
                        0 <= x < self.sessions@.skip(k as int + 1).len() implies #[trigger] self.sessions@.skip(
                        k as int + 1,
                    )[x] == orig.skip(jj@ + 1)[x] by {
                        assert(self.sessions@.skip(k as int)[x + 1] == orig.skip(jj@)[x + 1]);
                    }
                    assert(self.sessions@.skip(k as int + 1) =~= orig.skip(jj@ + 1));
                    jj@ = jj@ + 1;
                }
                k += 1;
            }
        }
        proof {
            assert(self.sessions@.skip(k as int).len() == 0);
            assert(orig.skip(jj@).len() == 0);
            assert(jj@ == orig.len());
            assert(orig.take(jj@) =~= orig);
            assert(self.sessions@.take(k as int) =~= self.sessions@);
            lemma_sweep_props(orig, now);
        }
        let entry = SessionEntry {
            upload_id: new_id.clone(),
            session: UploadSession {
                user_provider: owner.provider.clone(),
                user_id: owner.id,
                content_type: base,
                created_at: now,
                chunk_count: 0,
                chunks: Vec::new(),
            },
        };
        let ghost swept = self.sessions@;
        self.sessions.push(entry);
        proof {
            assert(self.sessions@.drop_last() =~= swept);
            assert(!has_session(swept, new_id@));
            assert forall|a: int, b: int| 0 <= a < b < self.sessions@.len() implies (
            #[trigger] self.sessions@[a]).upload_id@ != (
            #[trigger] self.sessions@[b]).upload_id@ by {
                if b == self.sessions@.len() - 1 {
                    assert(self.sessions@[a] == swept[a]);
                } else {
                    assert(self.sessions@[a] == swept[a]);
                    assert(self.sessions@[b] == swept[b]);
                }
            }
            assert forall|a: int| 0 <= a < self.sessions@.len() implies (
            #[trigger] self.sessions@[a]).session.wf() by {
                if a < self.sessions@.len() - 1 {
                    assert(self.sessions@[a] == swept[a]);
                }
            }
        }
        Ok(new_id)
    }
}

/// Finds the buffer position of chunk `index`, if received.
fn chunk_pos(chunks: &Vec<(usize, Vec<u8>)>, index: usize) -> (r: Option<usize>)
    ensures
        match r {
            Some(p) => p < chunks@.len() && chunks@[p as int].0 == index,
            None => !has_chunk(chunks@, index as int),
        },
{
    let n = chunks.len();
    let mut p: usize = 0;
    while p < n
        invariant
            0 <= p <= n,
            n == chunks@.len(),
            forall|l: int| 0 <= l < p ==> (#[trigger] chunks@[l]).0 != index,
        decreases n - p,
    {
        if chunks[p].0 == index {
            return Some(p);
        }
        p += 1;
    }
    None
}

impl SessionStore {
    /// Buffers one chunk of an upload in progress. The write must come
    /// from the session's owner; an ownership mismatch is reported the
    /// same as an unknown id. A re-sent index overwrites its slot; the
    /// recorded chunk count advances to one past the highest index seen.
    pub fn put_chunk(
        &mut self,
        upload_id: &str,
        index: usize,
        data: Vec<u8>,
        owner: &PlatformUser,
    ) -> (r: Result<usize, AppError>)
        requires
            old(self).wf(),
            index < usize::MAX,
        ensures
            final(self).wf(),
            match r {
                Ok(received) => {
                    &&& has_session(old(self).sessions@, upload_id@)
                    &&& session_at(old(self).sessions@, upload_id@).owned_by(
                        owner.provider@,
                        owner.id,
                    )
                    &&& received == data@.len()
                    &&& data@.len() <= MAX_CHUNK_BYTES
                    &&& {
                        let idx = session_idx(old(self).sessions@, upload_id@);
                        let olds = old(self).sessions@[idx].session;
                        let news = final(self).sessions@[idx].session;
                        &&& final(self).sessions@.len() == old(self).sessions@.len()
                        &&& (forall|l: int|
                            0 <= l < final(self).sessions@.len() && l != idx
                                ==> final(self).sessions@[l] == #[trigger] old(self).sessions@[l])
                        &&& final(self).sessions@[idx].upload_id@ == upload_id@
                        &&& news.user_provider == olds.user_provider
                        &&& news.user_id == olds.user_id
                        &&& news.content_type == olds.content_type
                        &&& news.created_at == olds.created_at
                        &&& news.chunk_count == (if index + 1 > olds.chunk_count {
                            index + 1
                        } else {
                            olds.chunk_count as int
                        })
                        &&& chunk_map_updated(olds.chunks@, news.chunks@, index as int, data@)
                    }
                },
                Err(AppError::VideoNotFound) => {
                    &&& (!has_session(old(self).sessions@, upload_id@) || !session_at(
                        old(self).sessions@,
                        upload_id@,
                    ).owned_by(owner.provider@, owner.id))
                    &&& final(self).sessions@ == old(self).sessions@
                },
                Err(AppError::FileTooLarge) => {
                    &&& has_session(old(self).sessions@, upload_id@)
                    &&& session_at(old(self).sessions@, upload_id@).owned_by(
                        owner.provider@,
                        owner.id,
                    )
                    &&& data@.len() > MAX_CHUNK_BYTES
                    &&& final(self).sessions@ == old(self).sessions@
                },
                Err(_) => false,
            },
    {
        let k = match self.find_index(upload_id) {
            Some(k) => k,
            None => {
                return Err(AppError::VideoNotFound);
            },
        };
        proof {
            lemma_session_at(self.sessions@, upload_id@, k as int);
        }
        let owned = self.sessions[k].session.user_id == owner.id && str_eq(
            self.sessions[k].session.user_provider.as_str(),
            owner.provider.as_str(),
        );
        if !owned {
            return Err(AppError::VideoNotFound);
        }
        if data.len() as u64 > MAX_CHUNK_BYTES {
            return Err(AppError::FileTooLarge);
        }
        let mut entry = self.sessions.remove(k);
        let ghost oldchunks = entry.session.chunks@;
        let n = entry.session.chunks.len();
        let pos = chunk_pos(&entry.session.chunks, index);
        let p = match pos {
            Some(p) => p,
            None => n,
        };
        if p < n {
            proof {
                assert(oldchunks[p as int].0 == index);
            }
            entry.session.chunks.remove(p);
            proof {
                let mid = entry.session.chunks@;
                assert forall|a: int| 0 <= a < mid.len() implies mid[a] == oldchunks[
                    if a < p {
                        a
                    } else {
                        a + 1
                    }
                ] by {}
            }
        }
        let ghost mid = entry.session.chunks@;
        entry.session.chunks.push((index, data));
        if index >= entry.session.chunk_count {
            entry.session.chunk_count = index + 1;
        }
        proof {
            let newc = entry.session.chunks@;
            let olds = old(self).sessions@[k as int].session;
            assert(newc.drop_last() =~= mid);
            // chunks without slot `index`, mapped back into the old buffer
            assert forall|a: int| 0 <= a < mid.len() implies (#[trigger] mid[a]).0 != index
                && exists|b: int| 0 <= b < oldchunks.len() && mid[a] == oldchunks[b] by {
                if p < n {
                    let b: int = if a < p {
                        a
                    } else {
                        a + 1
                    };
                    assert(mid[a] == oldchunks[b]);
                    if a < p {
                        assert(oldchunks[a].0 != index);
                    } else {
                        if oldchunks[a + 1].0 == index {
                            assert(oldchunks[p as int].0 == oldchunks[a + 1].0);
                            assert(false);
                        }
                    }
                } else {
                    assert(mid[a] == oldchunks[a]);
                    assert(oldchunks[a].0 != index);
                }
            }
            assert forall|a: int, b: int| 0 <= a < b < newc.len() implies (
            #[trigger] newc[a]).0 != (#[trigger] newc[b]).0 by {
                if b == newc.len() - 1 {
                    assert(newc[a] == mid[a]);
                    assert(mid[a].0 != index);
                } else {
                    assert(newc[a] == mid[a] && newc[b] == mid[b]);
                    let a0 = choose|a0: int| 0 <= a0 < oldchunks.len() && mid[a] == oldchunks[a0];
                    let b0 = choose|b0: int| 0 <= b0 < oldchunks.len() && mid[b] == oldchunks[b0];
                    if a0 == b0 {
                        if p < n {
                            let am: int = if a < p {
                                a
                            } else {
                                a + 1
                            };
                            let bm: int = if b < p {
                                b
                            } else {
                                b + 1
                            };
                            assert(mid[a] == oldchunks[am] && mid[b] == oldchunks[bm]);
                            assert(oldchunks[am].0 != oldchunks[bm].0);
                        } else {
                            assert(mid[a] == oldchunks[a] && mid[b] == oldchunks[b]);
                            assert(oldchunks[a].0 != oldchunks[b].0);
                        }
                    } else {
                        if a0 < b0 {
                            assert(oldchunks[a0].0 != oldchunks[b0].0);
                        } else {
                            assert(oldchunks[b0].0 != oldchunks[a0].0);
                        }
                    }
                }
            }
            assert forall|a: int|
                0 <= a < newc.len() implies (#[trigger] newc[a]).0 < entry.session.chunk_count
                    && newc[a].1@.len() <= MAX_CHUNK_BYTES by {
                if a == newc.len() - 1 {
                } else {
                    assert(newc[a] == mid[a]);
                    let b = choose|b: int| 0 <= b < oldchunks.len() && mid[a] == oldchunks[b];
                    assert(oldchunks[b].0 < olds.chunk_count);
                }
            }
            assert(chunks_unique(newc));
            // the functional description of the write
            assert forall|i: int| #[trigger] has_chunk(newc, i) implies (i == index
                || has_chunk(oldchunks, i)) by {
                if i != index {
                    let a = choose|a: int| 0 <= a < newc.len() && newc[a].0 == i;
                    assert(newc[a] == mid[a]);
                    let b = choose|b: int| 0 <= b < oldchunks.len() && mid[a] == oldchunks[b];
                    assert(oldchunks[b].0 == i);
                }
            }
            assert forall|i: int| i == index || has_chunk(oldchunks, i) implies #[trigger] has_chunk(
                newc,
                i,
            ) by {
                if i == index {
                    assert(newc[newc.len() - 1].0 == index);
                } else {
                    let b = choose|b: int| 0 <= b < oldchunks.len() && oldchunks[b].0 == i;
                    if p < n {
                        let a: int = if b < p {
                            b
                        } else {
                            b - 1
                        };
                        assert(b != p);
                        assert(mid[a] == oldchunks[b]);
                        assert(newc[a] == mid[a]);
                        assert(newc[a].0 == i);
                    } else {
                        assert(mid[b] == oldchunks[b]);
                        assert(newc[b].0 == i);
                    }
                }
            }
            assert(chunk_data(newc, index as int) == data@) by {
                lemma_chunk_at(newc, index as int, newc.len() - 1);
            }
            assert forall|i: int|
                i != index && has_chunk(oldchunks, i) implies #[trigger] chunk_data(newc, i)
                == chunk_data(oldchunks, i) by {
                let b = choose|b: int| 0 <= b < oldchunks.len() && oldchunks[b].0 == i;
                lemma_chunk_at(oldchunks, i, b);
                if p < n {
                    let a: int = if b < p {
                        b
                    } else {
                        b - 1
                    };
                    assert(b != p);
                    assert(mid[a] == oldchunks[b]);
                    assert(newc[a] == mid[a]);
                    lemma_chunk_at(newc, i, a);
                } else {
                    assert(newc[b] == oldchunks[b]);
                    lemma_chunk_at(newc, i, b);
                }
            }
        }
        let received = data_len_of(&entry, index);
        let ghost mids = self.sessions@;
        self.sessions.insert(k, entry);
        proof {
            let news = self.sessions@;
            let olds = old(self).sessions@;
            assert forall|a: int| 0 <= a < news.len() && a != k implies news[a] == #[trigger] olds[a] by {
                if a < k {
                    assert(news[a] == mids[a]);
                    assert(mids[a] == olds[a]);
                } else {
                    assert(news[a] == mids[a - 1]);
                    assert(mids[a - 1] == olds[a]);
                }
            }
            assert forall|a: int, b: int| 0 <= a < b < news.len() implies (
            #[trigger] news[a]).upload_id@ != (#[trigger] news[b]).upload_id@ by {
                assert(news[a].upload_id@ == olds[a].upload_id@);
                assert(news[b].upload_id@ == olds[b].upload_id@);
            }
            assert forall|a: int| 0 <= a < news.len() implies (#[trigger] news[a]).session.wf() by {
                if a != k {
                    assert(news[a] == olds[a]);
                }
            }
        }
        Ok(received)
    }
}

/// The received length of the chunk just written: its slot's byte count.
fn data_len_of(entry: &SessionEntry, index: usize) -> (r: usize)
    requires
        chunks_unique(entry.session.chunks@),
        has_chunk(entry.session.chunks@, index as int),
    ensures
        r == chunk_data(entry.session.chunks@, index as int).len(),
{
    let n = entry.session.chunks.len();
    let mut p: usize = 0;
    while p < n
        invariant
            0 <= p <= n,
            n == entry.session.chunks@.len(),
            chunks_unique(entry.session.chunks@),
            has_chunk(entry.session.chunks@, index as int),
            forall|l: int| 0 <= l < p ==> (#[trigger] entry.session.chunks@[l]).0 != index,
        decreases n - p,
    {
        if entry.session.chunks[p].0 == index {
            proof {
                lemma_chunk_at(entry.session.chunks@, index as int, p as int);
            }
            return entry.session.chunks[p].1.len();
        }
        p += 1;
    }
    proof {
        assert(!has_chunk(entry.session.chunks@, index as int));
    }
    unreached()
}

impl SessionStore {
    /// Completes a chunked upload: concatenates chunks `0 .. chunk_count`
    /// in index order into one buffer and hands it back with the session's
    /// declared content type. Only the owner may complete; a mismatch is
    /// reported as not-found and leaves the session in place. On every
    /// other path, successful or failed, the session and its chunks are
    /// removed. A missing index is a fatal assembly error; the assembly is
    /// abandoned with the size error as soon as the running total exceeds
    /// the file cap.
    #[verifier::loop_isolation(false)]
    pub fn complete_upload(&mut self, upload_id: &str, owner: &PlatformUser) -> (r: Result<
        (String, Vec<u8>),
        AppError,
    >)
        requires
            old(self).wf(),
        ensures
            final(self).wf(),
            match r {
                Ok(p) => {
                    &&& has_session(old(self).sessions@, upload_id@)
                    &&& {
                        let sess = session_at(old(self).sessions@, upload_id@);
                        &&& sess.owned_by(owner.provider@, owner.id)
                        &&& p.0@ == sess.content_type@
                        &&& assemble_upto(sess.chunks@, sess.chunk_count as int) == Some(p.1@)
                        &&& p.1@.len() <= MAX_FILE_BYTES
                    }
                    &&& final(self).sessions@ == old(self).sessions@.remove(
                        session_idx(old(self).sessions@, upload_id@),
                    )
                },
                Err(AppError::VideoNotFound) => {
                    &&& (!has_session(old(self).sessions@, upload_id@) || !session_at(
                        old(self).sessions@,
                        upload_id@,
                    ).owned_by(owner.provider@, owner.id))
                    &&& final(self).sessions@ == old(self).sessions@
                },
                Err(AppError::FileTooLarge) => {
                    &&& has_session(old(self).sessions@, upload_id@)
                    &&& {
                        let sess = session_at(old(self).sessions@, upload_id@);
                        &&& sess.owned_by(owner.provider@, owner.id)
                        &&& prefix_overflow(sess.chunks@, sess.chunk_count as int)
                    }
                    &&& final(self).sessions@ == old(self).sessions@.remove(
                        session_idx(old(self).sessions@, upload_id@),
                    )
                },
                Err(AppError::Internal(_)) => {
                    &&& has_session(old(self).sessions@, upload_id@)
                    &&& {
                        let sess = session_at(old(self).sessions@, upload_id@);
                        &&& sess.owned_by(owner.provider@, owner.id)
                        &&& !prefix_overflow(sess.chunks@, sess.chunk_count as int)
                        &&& assemble_upto(sess.chunks@, sess.chunk_count as int) is None
                    }
                    &&& final(self).sessions@ == old(self).sessions@.remove(
                        session_idx(old(self).sessions@, upload_id@),
                    )
                },
                Err(_) => false,
            },
    {
        let k = match self.find_index(upload_id) {
            Some(k) => k,
            None => {
                return Err(AppError::VideoNotFound);
            },
        };
        proof {
            lemma_session_at(self.sessions@, upload_id@, k as int);
        }
        let owned = self.sessions[k].session.user_id == owner.id && str_eq(
            self.sessions[k].session.user_provider.as_str(),
            owner.provider.as_str(),
        );
        if !owned {
            return Err(AppError::VideoNotFound);
        }
        let entry = self.sessions.remove(k);
        proof {
            let news = self.sessions@;
            let olds = old(self).sessions@;
            assert forall|a: int| 0 <= a < news.len() implies news[a] == olds[
                if a < k {
                    a
                } else {
                    a + 1
                }
            ] by {}
            assert forall|a: int, b: int| 0 <= a < b < news.len() implies (
            #[trigger] news[a]).upload_id@ != (#[trigger] news[b]).upload_id@ by {
                let a0: int = if a < k {
                    a
                } else {
                    a + 1
                };
                let b0: int = if b < k {
                    b
                } else {
                    b + 1
                };
                assert(news[a] == olds[a0] && news[b] == olds[b0]);
            }
            assert forall|a: int| 0 <= a < news.len() implies (#[trigger] news[a]).session.wf() by {
                let a0: int = if a < k {
                    a
                } else {
                    a + 1
                };
                assert(news[a] == olds[a0]);
            }
        }
        let sess = entry.session;
        let ghost chunks = sess.chunks@;
        let count = sess.chunk_count;
        let mut out: Vec<u8> = Vec::new();
        let mut i: usize = 0;
        while i < count
            invariant
                0 <= i <= count,
                chunks == sess.chunks@,
                count == sess.chunk_count,
                chunks_wf(chunks, count),
                assemble_upto(chunks, i as int) == Some(out@),
                out@.len() <= MAX_FILE_BYTES,
            decreases count - i,
        {
            let p = match chunk_pos(&sess.chunks, i) {
                Some(p) => p,
                None => {
                    proof {
                        assert(assemble_upto(chunks, i as int + 1) is None);
                        if assemble_upto(chunks, count as int) is Some {
                            lemma_assemble_prefix(chunks, i as int + 1, count as int);
                        }
                        assert(assemble_upto(chunks, count as int) is None);
                        assert forall|n: int| 0 <= n <= count implies !((
                        #[trigger] assemble_upto(chunks, n)) matches Some(q) && q.len()
                            > MAX_FILE_BYTES) by {
                            if n <= i {
                                lemma_assemble_prefix(chunks, n, i as int);
                            } else {
                                if assemble_upto(chunks, n) is Some {
                                    lemma_assemble_prefix(chunks, i as int + 1, n);
                                }
                            }
                        }
                    }
                    return Err(AppError::Internal("missing chunk".to_owned()));
                },
            };
            proof {
                lemma_chunk_at(chunks, i as int, p as int);
            }
            let clen = sess.chunks[p].1.len();
            if out.len() as u64 > MAX_FILE_BYTES - clen as u64 {
                proof {
                    assert(assemble_upto(chunks, i as int + 1) == Some(out@ + chunk_data(chunks, i as int)));
                    assert((out@ + chunk_data(chunks, i as int)).len() > MAX_FILE_BYTES);
                    assert(prefix_overflow(chunks, count as int));
                }
                return Err(AppError::FileTooLarge);
            }
            out.extend_from_slice(sess.chunks[p].1.as_slice());
            proof {
                assert(assemble_upto(chunks, i as int + 1) == Some(out@));
            }
            i += 1;
        }
        proof {
            assert(!prefix_overflow(chunks, count as int)) by {
                assert forall|n: int| 0 <= n <= count implies !((#[trigger] assemble_upto(
                    chunks,
                    n,
                )) matches Some(q) && q.len() > MAX_FILE_BYTES) by {
                    lemma_assemble_prefix(chunks, n, count as int);
                }
            }
        }
        Ok((sess.content_type, out))
    }
}

} // verus!
