//! Comments under catalog entries: validation, ownership checks for
//! deletion, and the per-item comment lists.

use vstd::prelude::*;

verus! {

use vstd::string::{StrSliceExecFns, StringSliceAdditionalSpecFns};
use crate::model::{Comment, AppError, PlatformUser};
use crate::strutil::{str_eq, trim_str, trim_spec};
use crate::catalog::{Catalog, has_item_id, item_at};

/// A valid comment text: non-empty once trimmed, at most 2000 bytes.
pub open spec fn spec_comment_ok(text: Seq<char>) -> bool {
    trim_spec(text).len() > 0 && vstd::utf8::encode_utf8(trim_spec(text)).len() <= 2000
}

/// The comment lists of all items, keyed by item id.
pub struct CommentStore {
    pub entries: Vec<(String, Vec<Comment>)>,
}

/// True when the store has a list under `video_id`.
pub open spec fn has_comments(s: Seq<(String, Vec<Comment>)>, video_id: Seq<char>) -> bool {
    exists|k: int| 0 <= k < s.len() && (#[trigger] s[k]).0@ == video_id
}

/// The position of the list under `video_id`; meaningful under unique keys.
pub open spec fn comments_idx(s: Seq<(String, Vec<Comment>)>, video_id: Seq<char>) -> int {
    choose|k: int| 0 <= k < s.len() && (#[trigger] s[k]).0@ == video_id
}

/// The comments under `video_id`, or none when no list exists yet.
pub open spec fn comments_of(s: Seq<(String, Vec<Comment>)>, video_id: Seq<char>) -> Seq<Comment> {
    if has_comments(s, video_id) {
        s[comments_idx(s, video_id)].1@
    } else {
        Seq::empty()
    }
}

/// No two lists share a key.
pub open spec fn comment_keys_unique(s: Seq<(String, Vec<Comment>)>) -> bool {
    forall|k: int, l: int| 0 <= k < l < s.len() ==> (#[trigger] s[k]).0@ != (#[trigger] s[l]).0@
}

proof fn lemma_comments_at(s: Seq<(String, Vec<Comment>)>, video_id: Seq<char>, k: int)
    requires
        comment_keys_unique(s),
        0 <= k < s.len(),
        s[k].0@ == video_id,
    ensures
        has_comments(s, video_id),
        comments_idx(s, video_id) == k,
        comments_of(s, video_id) == s[k].1@,
{
    assert(has_comments(s, video_id));
    let l = comments_idx(s, video_id);
    assert(0 <= l < s.len() && s[l].0@ == video_id);
    if k != l {
        if k < l {
            assert(s[k].0@ != s[l].0@);
        } else {
            assert(s[l].0@ != s[k].0@);
        }
    }
}

/// Finds the position of the comment with the given id in a list.
fn comment_pos(list: &Vec<Comment>, comment_id: &str) -> (r: Option<usize>)
    ensures
        match r {
            Some(i) => i < list@.len() && list@[i as int].id@ == comment_id@,
            None => forall|l: int| 0 <= l < list@.len() ==> (#[trigger] list@[l]).id@
                != comment_id@,
        },
{
    let n = list.len();
    let mut i: usize = 0;
    while i < n
        invariant
            0 <= i <= n,
            n == list@.len(),
            forall|l: int| 0 <= l < i ==> (#[trigger] list@[l]).id@ != comment_id@,
        decreases n - i,
    {
        if str_eq(list[i].id.as_str(), comment_id) {
            return Some(i);
        }
        i += 1;
    }
    None
}

impl CommentStore {
    /// The store's invariant: one list per item id.
    pub open spec fn wf(&self) -> bool {
        comment_keys_unique(self.entries@)
    }

    /// An empty store.
    pub fn new() -> (r: Self)
        ensures
            r.wf(),
            r.entries@.len() == 0,
    {
        CommentStore { entries: Vec::new() }
    }

    fn find_index(&self, video_id: &str) -> (r: Option<usize>)
        ensures
            match r {
                Some(k) => k < self.entries@.len() && self.entries@[k as int].0@ == video_id@,
                None => !has_comments(self.entries@, video_id@),
            },
    {
        let n = self.entries.len();
        let mut k: usize = 0;
        while k < n
            invariant
                0 <= k <= n,
                n == self.entries@.len(),
                forall|l: int| 0 <= l < k ==> (#[trigger] self.entries@[l]).0@ != video_id@,
            decreases n - k,
        {
            if str_eq(self.entries[k].0.as_str(), video_id) {
                return Some(k);
            }
            k += 1;
        }
        None
    }

    /// The comments under an item, in insertion order.
    pub fn get_comments(&self, video_id: &str) -> (r: Vec<Comment>)
        requires
            self.wf(),
        ensures
            r@ == comments_of(self.entries@, video_id@),
    {
        let k = match self.find_index(video_id) {
            Some(k) => k,
            None => {
                return Vec::new();
            },
        };
        proof {
            lemma_comments_at(self.entries@, video_id@, k as int);
        }
        let list = &self.entries[k].1;
        let n = list.len();
        let mut out: Vec<Comment> = Vec::new();
        let mut i: usize = 0;
        while i < n
            invariant
                0 <= i <= n,
                n == list@.len(),
                out@ == list@.take(i as int),
            decreases n - i,
        {
            out.push(list[i].clone());
            proof {
                assert(out@ =~= list@.take(i as int + 1));
            }
            i += 1;
        }
        proof {
            assert(list@.take(n as int) =~= list@);
        }
        out
    }

    /// Appends a comment under an item after validating its text, which is
    /// stored trimmed. The caller gates on the item's comments-disabled
    /// flag and supplies the timestamp and the fresh comment id.
    pub fn add_comment(
        &mut self,
        video_id: &str,
        text: &str,
        author: &PlatformUser,
        now: u64,
        comment_id: String,
    ) -> (r: Result<Comment, AppError>)
        requires
            old(self).wf(),
        ensures
            final(self).wf(),
            match r {
                Ok(c) => {
                    &&& spec_comment_ok(text@)
                    &&& c.id@ == comment_id@
                    &&& c.video_id@ == video_id@
                    &&& c.text@ == trim_spec(text@)
                    &&& c.author_provider@ == author.provider@
                    &&& c.author_id == author.id
                    &&& c.author_name@ == author.username@
                    &&& c.created_at == now
                    &&& comments_of(final(self).entries@, video_id@) == comments_of(
                        old(self).entries@,
                        video_id@,
                    ).push(c)
                    &&& forall|v: Seq<char>|
                        v != video_id@ ==> #[trigger] comments_of(final(self).entries@, v)
                            == comments_of(old(self).entries@, v)
                },
                Err(e) => {
                    &&& e is InvalidComment
                    &&& !spec_comment_ok(text@)
                    &&& final(self).entries@ == old(self).entries@
                },
            },
    {
        broadcast use vstd::slice::axiom_spec_len;

        let trimmed = trim_str(text);
        if trimmed.unicode_len() == 0 || trimmed.as_bytes().len() > 2000 {
            return Err(AppError::InvalidComment);
        }
        let comment = Comment {
            id: comment_id,
            video_id: video_id.to_owned(),
            author_provider: author.provider.clone(),
            author_id: author.id,
            author_name: author.username.clone(),
            text: trimmed.to_owned(),
            created_at: now,
        };
        let result = comment.clone();
        let ghost olde = self.entries@;
        match self.find_index(video_id) {
            Some(k) => {
                proof {
                    lemma_comments_at(olde, video_id@, k as int);
                }
                let mut entry = self.entries.remove(k);
                entry.1.push(comment);
                self.entries.insert(k, entry);
                proof {
                    let news = self.entries@;
                    assert(news =~= olde.update(k as int, news[k as int]));
                    assert(news[k as int].0@ == video_id@);
                    assert forall|a: int, b: int| 0 <= a < b < news.len() implies (
                    #[trigger] news[a]).0@ != (#[trigger] news[b]).0@ by {
                        assert(news[a].0@ == olde[a].0@ && news[b].0@ == olde[b].0@);
                    }
                    lemma_comments_at(news, video_id@, k as int);
                    assert forall|v: Seq<char>| v != video_id@ implies #[trigger] comments_of(
                        news,
                        v,
                    ) == comments_of(olde, v) by {
                        if has_comments(news, v) {
                            let l = comments_idx(news, v);
                            assert(news[l].0@ == v);
                            assert(l != k);
                            assert(olde[l] == news[l]);
                            lemma_comments_at(olde, v, l);
                        }
                        if has_comments(olde, v) {
                            let l = comments_idx(olde, v);
                            assert(olde[l].0@ == v);
                            assert(l != k);
                            assert(news[l] == olde[l]);
                            lemma_comments_at(news, v, l);
                        }
                    }
                }
            },
            None => {
                let mut list: Vec<Comment> = Vec::new();
                list.push(comment);
                self.entries.push((video_id.to_owned(), list));
                proof {
                    let news = self.entries@;
                    let k = news.len() - 1;
                    assert forall|a: int, b: int| 0 <= a < b < news.len() implies (
                    #[trigger] news[a]).0@ != (#[trigger] news[b]).0@ by {
                        if b == k {
                            assert(news[a] == olde[a]);
                            assert(!has_comments(olde, video_id@));
                        } else {
                            assert(news[a] == olde[a] && news[b] == olde[b]);
                        }
                    }
                    lemma_comments_at(news, video_id@, k);
                    assert(comments_of(news, video_id@) =~= comments_of(olde, video_id@).push(
                        result,
                    ));
                    assert forall|v: Seq<char>| v != video_id@ implies #[trigger] comments_of(
                        news,
                        v,
                    ) == comments_of(olde, v) by {
                        if has_comments(news, v) {
                            let l = comments_idx(news, v);
                            assert(news[l].0@ == v);
                            assert(l != k);
                            assert(olde[l] == news[l]);
                            lemma_comments_at(olde, v, l);
                        }
                        if has_comments(olde, v) {
                            let l = comments_idx(olde, v);
                            assert(olde[l].0@ == v);
                            assert(news[l] == olde[l]);
                            lemma_comments_at(news, v, l);
                        }
                    }
                }
            },
        }
        Ok(result)
    }

    /// Deletes one comment. Only the comment's author or an admin may do
    /// so; an unknown item or comment id is reported as not found.
    pub fn delete_comment(
        &mut self,
        video_id: &str,
        comment_id: &str,
        user: &PlatformUser,
        is_admin: bool,
    ) -> (r: Result<(), AppError>)
        requires
            old(self).wf(),
        ensures
            final(self).wf(),
            ({
                let cs = comments_of(old(self).entries@, video_id@);
                match r {
                    Ok(()) => exists|i: int|
                        0 <= i < cs.len() && (#[trigger] cs[i]).id@ == comment_id@ && (is_admin || (
                        cs[i].author_id == user.id && cs[i].author_provider@ == user.provider@))
                            && comments_of(final(self).entries@, video_id@) == cs.remove(i),
                    Err(AppError::VideoNotFound) => {
                        &&& final(self).entries@ == old(self).entries@
                        &&& forall|i: int|
                            0 <= i < cs.len() ==> (#[trigger] cs[i]).id@ != comment_id@
                    },
                    Err(AppError::Forbidden) => {
                        &&& final(self).entries@ == old(self).entries@
                        &&& !is_admin
                        &&& exists|i: int|
                            0 <= i < cs.len() && (#[trigger] cs[i]).id@ == comment_id@ && !(
                            cs[i].author_id == user.id && cs[i].author_provider@
                                == user.provider@)
                    },
                    Err(_) => false,
                }
            }),
    {
        let k = match self.find_index(video_id) {
            Some(k) => k,
            None => {
                return Err(AppError::VideoNotFound);
            },
        };
        proof {
            lemma_comments_at(self.entries@, video_id@, k as int);
        }
        let ghost olde = self.entries@;
        let idx = match comment_pos(&self.entries[k].1, comment_id) {
            Some(idx) => idx,
            None => {
                return Err(AppError::VideoNotFound);
            },
        };
        let own = self.entries[k].1[idx].author_id == user.id && str_eq(
            self.entries[k].1[idx].author_provider.as_str(),
            user.provider.as_str(),
        );
        if !own && !is_admin {
            return Err(AppError::Forbidden);
        }
        let mut entry = self.entries.remove(k);
        entry.1.remove(idx);
        self.entries.insert(k, entry);
        proof {
            let news = self.entries@;
            assert(news =~= olde.update(k as int, news[k as int]));
            assert(news[k as int].0@ == video_id@);
            assert forall|a: int, b: int| 0 <= a < b < news.len() implies (#[trigger] news[a]).0@
                != (#[trigger] news[b]).0@ by {
                assert(news[a].0@ == olde[a].0@ && news[b].0@ == olde[b].0@);
            }
            lemma_comments_at(olde, video_id@, k as int);
            lemma_comments_at(news, video_id@, k as int);
            let cs = comments_of(olde, video_id@);
            assert(cs[idx as int].id@ == comment_id@);
            assert(comments_of(news, video_id@) == cs.remove(idx as int));
        }
        Ok(())
    }

    /// Drops the whole comment list of an item, as deleting the item does.
    pub fn delete_comments(&mut self, video_id: &str)
        requires
            old(self).wf(),
        ensures
            final(self).wf(),
            !has_comments(final(self).entries@, video_id@),
            forall|v: Seq<char>|
                v != video_id@ ==> #[trigger] comments_of(final(self).entries@, v) == comments_of(
                    old(self).entries@,
                    v,
                ),
    {
        let k = match self.find_index(video_id) {
            Some(k) => k,
            None => {
                return ;
            },
        };
        let ghost olde = self.entries@;
        self.entries.remove(k);
        proof {
            let news = self.entries@;
            assert forall|a: int| 0 <= a < news.len() implies news[a] == olde[
                if a < k {
                    a
                } else {
                    a + 1
                }
            ] by {}
            assert forall|a: int, b: int| 0 <= a < b < news.len() implies (#[trigger] news[a]).0@
                != (#[trigger] news[b]).0@ by {
                let a0: int = if a < k {
                    a
                } else {
                    a + 1
                };
                let b0: int = if b < k {
                    b
                } else {
                    b + 1
                };
                assert(news[a] == olde[a0] && news[b] == olde[b0]);
            }
            assert forall|a: int| 0 <= a < news.len() implies (#[trigger] news[a]).0@
                != video_id@ by {
                let a0: int = if a < k {
                    a
                } else {
                    a + 1
                };
                assert(news[a] == olde[a0]);
                if a0 < k {
                    assert(olde[a0].0@ != olde[k as int].0@);
                } else {
                    assert(olde[k as int].0@ != olde[a0].0@);
                }
            }
            assert forall|v: Seq<char>| v != video_id@ implies #[trigger] comments_of(news, v)
                == comments_of(olde, v) by {
                if has_comments(news, v) {
                    let l = comments_idx(news, v);
                    assert(news[l].0@ == v);
                    let l0: int = if l < k {
                        l
                    } else {
                        l + 1
                    };
                    assert(news[l] == olde[l0]);
                    lemma_comments_at(olde, v, l0);
                    lemma_comments_at(news, v, l);
                }
                if has_comments(olde, v) {
                    let l0 = comments_idx(olde, v);
                    assert(olde[l0].0@ == v);
                    assert(l0 != k);
                    let l: int = if l0 < k {
                        l0
                    } else {
                        l0 - 1
                    };
                    assert(news[l] == olde[l0]);
                    lemma_comments_at(news, v, l);
                }
            }
        }
    }
}

/// Adds a comment under a catalog entry, enforcing the gates the routes
/// apply in order: a valid text, a present item, and comments not
/// disabled on it.
pub fn add_comment_checked(
    cat: &Catalog,
    store: &mut CommentStore,
    video_id: &str,
    text: &str,
    author: &PlatformUser,
    now: u64,
    comment_id: String,
) -> (r: Result<Comment, AppError>)
    requires
        cat.wf(),
        old(store).wf(),
    ensures
        final(store).wf(),
        match r {
            Ok(c) => {
                &&& spec_comment_ok(text@)
                &&& has_item_id(cat.items@, video_id@)
                &&& !item_at(cat.items@, video_id@).comments_disabled
                &&& c.id@ == comment_id@
                &&& c.video_id@ == video_id@
                &&& c.text@ == trim_spec(text@)
                &&& c.author_provider@ == author.provider@
                &&& c.author_id == author.id
                &&& c.author_name@ == author.username@
                &&& c.created_at == now
                &&& comments_of(final(store).entries@, video_id@) == comments_of(
                    old(store).entries@,
                    video_id@,
                ).push(c)
                &&& forall|v: Seq<char>|
                    v != video_id@ ==> #[trigger] comments_of(final(store).entries@, v)
                        == comments_of(old(store).entries@, v)
            },
            Err(e) => {
                &&& final(store).entries@ == old(store).entries@
                &&& match e {
                    AppError::InvalidComment => !spec_comment_ok(text@),
                    AppError::VideoNotFound => spec_comment_ok(text@) && !has_item_id(
                        cat.items@,
                        video_id@,
                    ),
                    AppError::Forbidden => {
                        &&& spec_comment_ok(text@)
                        &&& has_item_id(cat.items@, video_id@)
                        &&& item_at(cat.items@, video_id@).comments_disabled
                    },
                    _ => false,
                }
            },
        },
{
    broadcast use vstd::slice::axiom_spec_len;

    let t = trim_str(text);
    if t.unicode_len() == 0 || t.as_bytes().len() > 2000 {
        return Err(AppError::InvalidComment);
    }
    let item = match cat.get(video_id) {
        Some(m) => m,
        None => {
            return Err(AppError::VideoNotFound);
        },
    };
    if item.comments_disabled {
        return Err(AppError::Forbidden);
    }
    store.add_comment(video_id, text, author, now, comment_id)
}

} // verus!
