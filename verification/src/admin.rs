//! The admin registry (which principals hold moderation rights, per
//! provider namespace) and the admin-curated daily-pick queue.

use vstd::prelude::*;

verus! {

use crate::strutil::str_eq;

/// The admin ids of one provider namespace.
pub struct AdminEntry {
    pub provider: String,
    pub ids: Vec<u64>,
}

/// Which principals hold moderation rights.
pub struct AdminRegistry {
    pub entries: Vec<AdminEntry>,
}

/// True when `provider`/`id` is registered as an admin.
pub open spec fn spec_is_admin(entries: Seq<AdminEntry>, provider: Seq<char>, id: u64) -> bool {
    exists|k: int|
        0 <= k < entries.len() && (#[trigger] entries[k]).provider@ == provider
            && entries[k].ids@.contains(id)
}

impl AdminRegistry {
    /// An empty registry: nobody holds moderation rights.
    pub fn new() -> (r: Self)
        ensures
            r.entries@.len() == 0,
    {
        AdminRegistry { entries: Vec::new() }
    }

    /// Decides whether a principal holds moderation rights.
    pub fn is_admin(&self, provider: &str, user_id: u64) -> (r: bool)
        ensures
            r == spec_is_admin(self.entries@, provider@, user_id),
    {
        let n = self.entries.len();
        let mut k: usize = 0;
        while k < n
            invariant
                0 <= k <= n,
                n == self.entries@.len(),
                forall|l: int|
                    0 <= l < k ==> !((#[trigger] self.entries@[l]).provider@ == provider@
                        && self.entries@[l].ids@.contains(user_id)),
            decreases n - k,
        {
            if str_eq(self.entries[k].provider.as_str(), provider) {
                let ids = &self.entries[k].ids;
                let m = ids.len();
                let mut l: usize = 0;
                while l < m
                    invariant
                        0 <= l <= m,
                        m == ids@.len(),
                        k < n,
                        n == self.entries@.len(),
                        self.entries@[k as int].provider@ == provider@,
                        ids@ == self.entries@[k as int].ids@,
                        forall|x: int| 0 <= x < l ==> ids@[x] != user_id,
                    decreases m - l,
                {
                    if ids[l] == user_id {
                        proof {
                            assert(ids@[l as int] == user_id);
                            assert(ids@.contains(user_id));
                            assert(self.entries@[k as int].provider@ == provider@
                                && self.entries@[k as int].ids@.contains(user_id));
                        }
                        return true;
                    }
                    l += 1;
                }
                proof {
                    assert(!ids@.contains(user_id));
                }
            }
            k += 1;
        }
        false
    }
}

/// True when the queue already lists `id`.
pub open spec fn queue_has(q: Seq<String>, id: Seq<char>) -> bool {
    exists|k: int| 0 <= k < q.len() && (#[trigger] q[k])@ == id
}

/// The queue without any entry for `id`.
pub open spec fn queue_without(q: Seq<String>, id: Seq<char>) -> Seq<String>
    decreases q.len(),
{
    if q.len() == 0 {
        Seq::empty()
    } else {
        let rest = queue_without(q.drop_last(), id);
        if q.last()@ != id {
            rest.push(q.last())
        } else {
            rest
        }
    }
}

proof fn lemma_queue_without_step(q: Seq<String>, id: Seq<char>, k: int)
    requires
        0 <= k < q.len(),
    ensures
        queue_without(q.take(k + 1), id) == if q[k]@ != id {
            queue_without(q.take(k), id).push(q[k])
        } else {
            queue_without(q.take(k), id)
        },
{
    let t = q.take(k + 1);
    assert(t.drop_last() =~= q.take(k));
    assert(t.last() == q[k]);
}

/// Queues an item as a daily pick, once: an id already queued is not
/// queued again.
pub fn add_to_daily_queue(queue: &mut Vec<String>, media_id: String)
    ensures
        queue_has(old(queue)@, media_id@) ==> final(queue)@ == old(queue)@,
        !queue_has(old(queue)@, media_id@) ==> final(queue)@ == old(queue)@.push(media_id),
{
    let n = queue.len();
    let mut k: usize = 0;
    while k < n
        invariant
            0 <= k <= n,
            n == queue@.len(),
            queue@ == old(queue)@,
            forall|l: int| 0 <= l < k ==> (#[trigger] queue@[l])@ != media_id@,
        decreases n - k,
    {
        if str_eq(queue[k].as_str(), media_id.as_str()) {
            return ;
        }
        k += 1;
    }
    queue.push(media_id);
}

/// Removes an item from the daily-pick queue, wherever it appears.
pub fn remove_from_daily_queue(queue: &mut Vec<String>, media_id: &str)
    ensures
        final(queue)@ == queue_without(old(queue)@, media_id@),
{
    let n = queue.len();
    let mut out: Vec<String> = Vec::new();
    let mut k: usize = 0;
    while k < n
        invariant
            0 <= k <= n,
            n == queue@.len(),
            queue@ == old(queue)@,
            out@ == queue_without(queue@.take(k as int), media_id@),
        decreases n - k,
    {
        proof {
            lemma_queue_without_step(queue@, media_id@, k as int);
        }
        if !str_eq(queue[k].as_str(), media_id) {
            out.push(queue[k].clone());
        }
        k += 1;
    }
    proof {
        assert(queue@.take(n as int) =~= queue@);
    }
    *queue = out;
}

} // verus!
