//! The deduplication and referential-integrity laws of the catalog,
//! stated and proved over the commit and delete contracts.

use vstd::prelude::*;

verus! {

use crate::model::{VideoMeta, UploadOutcome, PlatformUser};
use crate::catalog::{
    Catalog, has_item_id, item_at, any_references, any_filename, has_file, has_exact,
    exact_item_for, gc_exact, gc_fuzzy, lemma_item_at, lemma_exact_at,
};
use crate::fingerprint::spec_exact_digest;

/// Law: a payload whose exact digest is already indexed is always turned
/// away as an exact duplicate of the item the index maps it to, and the
/// commit changes nothing: no new file, no new entry, no index growth.
/// With commits serialized per catalog, any number of commits of the same
/// bytes therefore produce exactly one owning entry, and every commit
/// after the first reports the duplicate.
pub proof fn lemma_duplicate_payload_rejected(
    pre: Catalog,
    post: Catalog,
    r: UploadOutcome,
    title: Seq<char>,
    content_type: Seq<char>,
    data: Seq<u8>,
    owner: PlatformUser,
    nsfw: bool,
    unlisted: bool,
    comments_disabled: bool,
    now: u64,
    new_id: Seq<char>,
)
    requires
        pre.wf(),
        Catalog::spec_commit(
            pre,
            post,
            r,
            title,
            content_type,
            data,
            owner,
            nsfw,
            unlisted,
            comments_disabled,
            now,
            new_id,
        ),
        has_exact(pre.exact_index@, spec_exact_digest(data)),
    ensures
        r matches UploadOutcome::ExactDuplicate { existing_id } && existing_id@ == exact_item_for(
            pre.exact_index@,
            spec_exact_digest(data),
        ),
        post.items@ == pre.items@,
        post.files@ == pre.files@,
        post.exact_index@ == pre.exact_index@,
        post.fuzzy_index@ == pre.fuzzy_index@,
{
}

/// Law: committing the same byte buffer twice never stores a second file.
/// When the first commit created a new owning item, the second commit of
/// the same bytes is reported as an exact duplicate naming that item's id,
/// and leaves the catalog exactly as the first commit left it.
pub proof fn lemma_exact_dedup_idempotent(
    c0: Catalog,
    c1: Catalog,
    c2: Catalog,
    r1: UploadOutcome,
    r2: UploadOutcome,
    data: Seq<u8>,
    title1: Seq<char>,
    content_type1: Seq<char>,
    owner1: PlatformUser,
    nsfw1: bool,
    unlisted1: bool,
    comments_disabled1: bool,
    now1: u64,
    id1: Seq<char>,
    title2: Seq<char>,
    content_type2: Seq<char>,
    owner2: PlatformUser,
    nsfw2: bool,
    unlisted2: bool,
    comments_disabled2: bool,
    now2: u64,
    id2: Seq<char>,
)
    requires
        c0.wf(),
        c1.wf(),
        Catalog::spec_commit(
            c0,
            c1,
            r1,
            title1,
            content_type1,
            data,
            owner1,
            nsfw1,
            unlisted1,
            comments_disabled1,
            now1,
            id1,
        ),
        r1 is Committed,
        Catalog::spec_commit(
            c1,
            c2,
            r2,
            title2,
            content_type2,
            data,
            owner2,
            nsfw2,
            unlisted2,
            comments_disabled2,
            now2,
            id2,
        ),
    ensures
        r2 matches UploadOutcome::ExactDuplicate { existing_id } && existing_id@ == id1,
        c2.items@ == c1.items@,
        c2.files@ == c1.files@,
        c2.exact_index@ == c1.exact_index@,
        c2.fuzzy_index@ == c1.fuzzy_index@,
{
    let sha = spec_exact_digest(data);
    let n = c1.exact_index@.len() - 1;
    assert(c1.exact_index@[n].sha256@ == sha);
    lemma_exact_at(c1.exact_index@, sha, n);
    assert(exact_item_for(c1.exact_index@, sha) == id1);
}

/// Law: a near-duplicate commit links, it does not copy. The new entry is
/// a referencing item that shares the backing file of the still-present
/// owning original, and the file set does not grow.
pub proof fn lemma_fuzzy_link_shares_file(
    pre: Catalog,
    post: Catalog,
    r: UploadOutcome,
    item: VideoMeta,
    original_id: String,
    title: Seq<char>,
    content_type: Seq<char>,
    data: Seq<u8>,
    owner: PlatformUser,
    nsfw: bool,
    unlisted: bool,
    comments_disabled: bool,
    now: u64,
    new_id: Seq<char>,
)
    requires
        pre.wf(),
        post.wf(),
        Catalog::spec_commit(
            pre,
            post,
            r,
            title,
            content_type,
            data,
            owner,
            nsfw,
            unlisted,
            comments_disabled,
            now,
            new_id,
        ),
        r == (UploadOutcome::Linked { item, original_id }),
    ensures
        post.files@ == pre.files@,
        has_item_id(post.items@, item.id@),
        item_at(post.items@, item.id@) == item,
        has_item_id(post.items@, original_id@),
        item_at(post.items@, original_id@).is_owning(),
        item.references_id matches Some(rid) && rid@ == original_id@,
        item.filename@ == item_at(post.items@, original_id@).filename@,
        has_file(post.files@, item.filename@),
{
    lemma_item_at(post.items@, item.id@, post.items@.len() - 1);
    let j = crate::catalog::item_idx(pre.items@, original_id@);
    assert(0 <= j < pre.items@.len() && pre.items@[j].id@ == original_id@);
    assert(post.items@[j] == pre.items@[j]);
    lemma_item_at(post.items@, original_id@, j);
    assert(item_at(pre.items@, original_id@) == item_at(post.items@, original_id@));
}

/// Law: deleting an owning item that other items still reference keeps its
/// backing file and both of its index entries.
pub proof fn lemma_delete_preserves_referenced(
    pre: Catalog,
    post: Catalog,
    meta: VideoMeta,
    id: Seq<char>,
)
    requires
        pre.wf(),
        Catalog::spec_delete(pre, post, Ok(meta), id),
        meta.is_owning(),
        any_references(post.items@, meta.id@),
    ensures
        post.files@ == pre.files@,
        post.exact_index@ == pre.exact_index@,
        post.fuzzy_index@ == pre.fuzzy_index@,
{
}

/// Law: deleting an owning item that nothing references any more removes
/// its backing file and the index entries of its payload. The one
/// hypothesis beyond the catalog's own invariant concerns dangling
/// references (whose owning item was deleted earlier): none of them may
/// record the deleted item's filename; every other alias is excluded by
/// the invariant itself.
pub proof fn lemma_delete_collects_unreferenced(
    pre: Catalog,
    post: Catalog,
    meta: VideoMeta,
    id: Seq<char>,
)
    requires
        pre.wf(),
        Catalog::spec_delete(pre, post, Ok(meta), id),
        meta.is_owning(),
        !any_references(post.items@, meta.id@),
        forall|k: int| #![trigger post.items@[k]]
            0 <= k < post.items@.len() && post.items@[k].references_id is Some && !has_item_id(
                post.items@,
                post.items@[k].references_id->0@,
            ) ==> post.items@[k].filename@ != meta.filename@,
    ensures
        !has_item_id(post.items@, meta.id@),
        !has_file(post.files@, meta.filename@),
        post.exact_index@ == gc_exact(pre.exact_index@, meta.id@),
        post.fuzzy_index@ == gc_fuzzy(pre.fuzzy_index@, meta.id@),
{
    lemma_no_alias_after_owner_delete(pre, post, meta, id);
    let idx = crate::catalog::item_idx(pre.items@, id);
    assert(meta == pre.items@[idx]);
    assert forall|k: int| 0 <= k < post.items@.len() implies (#[trigger] post.items@[k]).id@
        != meta.id@ by {
        let k0: int = if k < idx {
            k
        } else {
            k + 1
        };
        assert(post.items@[k] == pre.items@[k0]);
        if k0 < idx {
            assert(pre.items@[k0].id@ != pre.items@[idx].id@);
        } else {
            assert(pre.items@[idx].id@ != pre.items@[k0].id@);
        }
    }
    assert(!has_item_id(post.items@, meta.id@));
    lemma_gc_files_no_name(pre.files@, meta.filename@);
}

/// After deleting an owning item, no remaining item records its filename:
/// owning aliases are excluded by distinct owning filenames, references to
/// still-present owners share those owners' (distinct) filenames, and
/// dangling aliases are excluded by hypothesis.
proof fn lemma_no_alias_after_owner_delete(
    pre: Catalog,
    post: Catalog,
    meta: VideoMeta,
    id: Seq<char>,
)
    requires
        pre.wf(),
        Catalog::spec_delete(pre, post, Ok(meta), id),
        meta.is_owning(),
        !any_references(post.items@, meta.id@),
        forall|k: int| #![trigger post.items@[k]]
            0 <= k < post.items@.len() && post.items@[k].references_id is Some && !has_item_id(
                post.items@,
                post.items@[k].references_id->0@,
            ) ==> post.items@[k].filename@ != meta.filename@,
    ensures
        !any_filename(post.items@, meta.filename@),
{
    let idx = crate::catalog::item_idx(pre.items@, id);
    assert(0 <= idx < pre.items@.len() && pre.items@[idx].id@ == id);
    assert(meta == pre.items@[idx]);
    assert forall|k: int| 0 <= k < post.items@.len() implies (#[trigger] post.items@[k]).filename@
        != meta.filename@ by {
        let k0: int = if k < idx {
            k
        } else {
            k + 1
        };
        assert(post.items@[k] == pre.items@[k0]);
        let x = post.items@[k];
        if x.is_owning() {
            if k0 < idx {
                assert(pre.items@[k0].filename@ != pre.items@[idx].filename@);
            } else {
                assert(pre.items@[idx].filename@ != pre.items@[k0].filename@);
            }
        } else {
            let rid = x.references_id->0@;
            if has_item_id(post.items@, rid) {
                let l = crate::catalog::item_idx(post.items@, rid);
                assert(0 <= l < post.items@.len() && post.items@[l].id@ == rid);
                let l0: int = if l < idx {
                    l
                } else {
                    l + 1
                };
                assert(post.items@[l] == pre.items@[l0]);
                assert(crate::catalog::references_id_of(pre.items@[k0], pre.items@[l0].id@));
                assert(pre.items@[k0].filename@ == pre.items@[l0].filename@);
                assert(pre.items@[l0].is_owning());
                if l0 == idx {
                    assert(rid == meta.id@);
                    assert(any_references(post.items@, meta.id@));
                    assert(false);
                }
                if l0 < idx {
                    assert(pre.items@[l0].filename@ != pre.items@[idx].filename@);
                } else {
                    assert(pre.items@[idx].filename@ != pre.items@[l0].filename@);
                }
            } else {
                if rid == meta.id@ {
                    assert(crate::catalog::references_id_of(post.items@[k], meta.id@));
                    assert(any_references(post.items@, meta.id@));
                    assert(false);
                }
            }
        }
    }
}

/// Law: deleting the last referencing item of an already-deleted owner
/// removes the shared backing file and the owner's index entries. The
/// deleted item's reference is dangling here, so the catalog's invariant
/// cannot tie its filename to anything: that no remaining item records the
/// name is a hypothesis, which holds along commit-built histories.
pub proof fn lemma_delete_last_referrer_collects(
    pre: Catalog,
    post: Catalog,
    meta: VideoMeta,
    id: Seq<char>,
)
    requires
        pre.wf(),
        Catalog::spec_delete(pre, post, Ok(meta), id),
        meta.references_id is Some,
        !has_item_id(post.items@, meta.references_id->0@),
        !any_references(post.items@, meta.references_id->0@),
        !any_filename(post.items@, meta.filename@),
    ensures
        !has_file(post.files@, meta.filename@),
        post.exact_index@ == gc_exact(pre.exact_index@, meta.references_id->0@),
        post.fuzzy_index@ == gc_fuzzy(pre.fuzzy_index@, meta.references_id->0@),
{
    lemma_gc_files_no_name(pre.files@, meta.filename@);
}

/// The garbage-collected file set no longer holds the collected name.
proof fn lemma_gc_files_no_name(files: Seq<String>, name: Seq<char>)
    ensures
        !has_file(crate::catalog::gc_files(files, name), name),
    decreases files.len(),
{
    let g = crate::catalog::gc_files(files, name);
    if files.len() > 0 {
        lemma_gc_files_no_name(files.drop_last(), name);
        let gr = crate::catalog::gc_files(files.drop_last(), name);
        assert forall|k: int| 0 <= k < g.len() implies g[k]@ != name by {
            if k < gr.len() {
                assert(g[k] == gr[k]);
                assert(has_file(gr, name) || gr[k]@ != name);
            }
        }
    }
}

} // verus!
