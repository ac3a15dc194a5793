//! The catalog: the map of committed media items, the exact-hash and
//! fuzzy-hash indices used for deduplication, and the set of backing
//! files. All mutation goes through the committed API here, which keeps
//! the catalog's invariants: unique ids, one-hop references, a unique
//! exact-hash key per payload, and one backing file per owning item.

use vstd::prelude::*;

verus! {

use vstd::string::StringExecFns;
use crate::model::{VideoMeta, UploadOutcome, AppError, PlatformUser};
use crate::strutil::str_eq;
use crate::mime::{is_video_mime, spec_is_video_mime, extension_for_mime, spec_extension_for_mime};
use crate::fingerprint::{
    exact_digest, spec_exact_digest, fuzzy_digest, spec_fuzzy_digest, similar, spec_similar,
};

/// One exact-hash index entry: an exact digest and the id of the owning
/// item committed for that payload.
pub struct ExactEntry {
    pub sha256: String,
    pub item_id: String,
}

impl Clone for ExactEntry {
    fn clone(&self) -> (r: Self)
        ensures
            r == *self,
    {
        ExactEntry { sha256: self.sha256.clone(), item_id: self.item_id.clone() }
    }
}

/// One fuzzy-hash index entry: an item id and the fuzzy digest recorded
/// for its payload.
pub struct FuzzyEntry {
    pub item_id: String,
    pub tlsh: String,
}

impl Clone for FuzzyEntry {
    fn clone(&self) -> (r: Self)
        ensures
            r == *self,
    {
        FuzzyEntry { item_id: self.item_id.clone(), tlsh: self.tlsh.clone() }
    }
}

/// True when some item in `items` has id `id`.
pub open spec fn has_item_id(items: Seq<VideoMeta>, id: Seq<char>) -> bool {
    exists|i: int| 0 <= i < items.len() && items[i].id@ == id
}

/// The index of the item with id `id`; meaningful under unique ids.
pub open spec fn item_idx(items: Seq<VideoMeta>, id: Seq<char>) -> int {
    choose|i: int| 0 <= i < items.len() && items[i].id@ == id
}

/// The item with id `id`; meaningful under unique ids.
pub open spec fn item_at(items: Seq<VideoMeta>, id: Seq<char>) -> VideoMeta {
    items[item_idx(items, id)]
}

/// True when `m` is a referencing item pointing at `id`.
pub open spec fn references_id_of(m: VideoMeta, id: Seq<char>) -> bool {
    m.references_id matches Some(r) && r@ == id
}

/// True when some item in `items` references `id`.
pub open spec fn any_references(items: Seq<VideoMeta>, id: Seq<char>) -> bool {
    exists|i: int| 0 <= i < items.len() && references_id_of(#[trigger] items[i], id)
}

/// True when some item references `id` but records a filename other than
/// `filename`: keeping both would break the shared-file invariant.
pub open spec fn ref_filename_conflict(
    items: Seq<VideoMeta>,
    id: Seq<char>,
    filename: Seq<char>,
) -> bool {
    exists|k: int|
        0 <= k < items.len() && references_id_of(#[trigger] items[k], id) && items[k].filename@
            != filename
}

/// True when some item in `items` records `name` as its filename.
pub open spec fn any_filename(items: Seq<VideoMeta>, name: Seq<char>) -> bool {
    exists|i: int| 0 <= i < items.len() && (#[trigger] items[i]).filename@ == name
}

/// True when `files` holds a file named `name`.
pub open spec fn has_file(files: Seq<String>, name: Seq<char>) -> bool {
    exists|i: int| 0 <= i < files.len() && files[i]@ == name
}

/// True when the exact-hash index has an entry for digest `sha`.
pub open spec fn has_exact(ix: Seq<ExactEntry>, sha: Seq<char>) -> bool {
    exists|i: int| 0 <= i < ix.len() && ix[i].sha256@ == sha
}

/// The index of the exact-hash entry for `sha`; meaningful under unique
/// keys.
pub open spec fn exact_idx(ix: Seq<ExactEntry>, sha: Seq<char>) -> int {
    choose|i: int| 0 <= i < ix.len() && ix[i].sha256@ == sha
}

/// The item id the exact-hash index maps `sha` to.
pub open spec fn exact_item_for(ix: Seq<ExactEntry>, sha: Seq<char>) -> Seq<char> {
    ix[exact_idx(ix, sha)].item_id@
}

/// No two items share an id.
pub open spec fn items_ids_unique(items: Seq<VideoMeta>) -> bool {
    forall|i: int, j: int|
        0 <= i < j < items.len() ==> (#[trigger] items[i]).id@ != (#[trigger] items[j]).id@
}

/// References reach an owning item in one hop: an item that another item
/// references is itself never a reference.
pub open spec fn items_one_hop(items: Seq<VideoMeta>) -> bool {
    forall|i: int, j: int|
        0 <= i < items.len() && 0 <= j < items.len() && references_id_of(
            #[trigger] items[i],
            (#[trigger] items[j]).id@,
        ) ==> items[j].is_owning()
}

/// A referencing item records the same filename as the owning item it
/// references, whenever that item is present: the pair share one backing
/// file.
pub open spec fn refs_share_filename(items: Seq<VideoMeta>) -> bool {
    forall|i: int, j: int|
        0 <= i < items.len() && 0 <= j < items.len() && references_id_of(
            #[trigger] items[i],
            (#[trigger] items[j]).id@,
        ) ==> items[i].filename@ == items[j].filename@
}

/// No two owning items share a filename.
pub open spec fn owning_filenames_distinct(items: Seq<VideoMeta>) -> bool {
    forall|i: int, j: int|
        0 <= i < j < items.len() && (#[trigger] items[i]).is_owning() && (
        #[trigger] items[j]).is_owning() ==> items[i].filename@ != items[j].filename@
}

/// Every owning item's backing file is present.
pub open spec fn owning_files_present(items: Seq<VideoMeta>, files: Seq<String>) -> bool {
    forall|i: int|
        0 <= i < items.len() && (#[trigger] items[i]).is_owning() ==> has_file(
            files,
            items[i].filename@,
        )
}

/// No two exact-hash entries share a digest.
pub open spec fn exact_keys_unique(ix: Seq<ExactEntry>) -> bool {
    forall|i: int, j: int|
        0 <= i < j < ix.len() ==> (#[trigger] ix[i]).sha256@ != (#[trigger] ix[j]).sha256@
}

/// No two files share a name.
pub open spec fn files_unique(files: Seq<String>) -> bool {
    forall|i: int, j: int| 0 <= i < j < files.len() ==> files[i]@ != files[j]@
}

/// Pins the item found at a concrete index as *the* item of that id.
pub proof fn lemma_item_at(items: Seq<VideoMeta>, id: Seq<char>, i: int)
    requires
        items_ids_unique(items),
        0 <= i < items.len(),
        items[i].id@ == id,
    ensures
        has_item_id(items, id),
        item_idx(items, id) == i,
        item_at(items, id) == items[i],
{
    assert(has_item_id(items, id));
    let j = item_idx(items, id);
    assert(0 <= j < items.len() && items[j].id@ == id);
    if i != j {
        if i < j {
            assert(items[i].id@ != items[j].id@);
        } else {
            assert(items[j].id@ != items[i].id@);
        }
    }
}

/// Pins the exact-hash entry found at a concrete index as *the* entry of
/// that digest.
pub proof fn lemma_exact_at(ix: Seq<ExactEntry>, sha: Seq<char>, i: int)
    requires
        exact_keys_unique(ix),
        0 <= i < ix.len(),
        ix[i].sha256@ == sha,
    ensures
        has_exact(ix, sha),
        exact_idx(ix, sha) == i,
        exact_item_for(ix, sha) == ix[i].item_id@,
{
    assert(has_exact(ix, sha));
    let j = exact_idx(ix, sha);
    assert(0 <= j < ix.len() && ix[j].sha256@ == sha);
    if i != j {
        if i < j {
            assert(ix[i].sha256@ != ix[j].sha256@);
        } else {
            assert(ix[j].sha256@ != ix[i].sha256@);
        }
    }
}

/// The catalog of committed media items, its two dedup indices, and the
/// names of the backing files on disk.
pub struct Catalog {
    pub items: Vec<VideoMeta>,
    pub exact_index: Vec<ExactEntry>,
    pub fuzzy_index: Vec<FuzzyEntry>,
    pub files: Vec<String>,
}

impl Catalog {
    /// The catalog's invariant, established by the constructor and kept by
    /// every mutation.
    pub open spec fn wf(&self) -> bool {
        &&& items_ids_unique(self.items@)
        &&& items_one_hop(self.items@)
        &&& refs_share_filename(self.items@)
        &&& owning_filenames_distinct(self.items@)
        &&& owning_files_present(self.items@, self.files@)
        &&& exact_keys_unique(self.exact_index@)
        &&& files_unique(self.files@)
    }

    /// An empty catalog.
    pub fn new() -> (r: Self)
        ensures
            r.wf(),
            r.items@.len() == 0,
            r.exact_index@.len() == 0,
            r.fuzzy_index@.len() == 0,
            r.files@.len() == 0,
    {
        Catalog {
            items: Vec::new(),
            exact_index: Vec::new(),
            fuzzy_index: Vec::new(),
            files: Vec::new(),
        }
    }

    /// Finds the position of the item with the given id.
    fn find_index(&self, id: &str) -> (r: Option<usize>)
        ensures
            match r {
                Some(i) => i < self.items@.len() && self.items@[i as int].id@ == id@,
                None => !has_item_id(self.items@, id@),
            },
    {
        let n = self.items.len();
        let mut i: usize = 0;
        while i < n
            invariant
                0 <= i <= n,
                n == self.items@.len(),
                forall|k: int| 0 <= k < i ==> (#[trigger] self.items@[k]).id@ != id@,
            decreases n - i,
        {
            if str_eq(self.items[i].id.as_str(), id) {
                return Some(i);
            }
            i += 1;
        }
        None
    }

    /// True when the catalog has an item with the given id.
    pub fn contains_item(&self, id: &str) -> (r: bool)
        ensures
            r == has_item_id(self.items@, id@),
    {
        match self.find_index(id) {
            Some(_) => true,
            None => false,
        }
    }

    /// Looks an item up by id.
    pub fn get(&self, id: &str) -> (r: Option<VideoMeta>)
        requires
            self.wf(),
        ensures
            match r {
                Some(m) => has_item_id(self.items@, id@) && m == item_at(self.items@, id@),
                None => !has_item_id(self.items@, id@),
            },
    {
        match self.find_index(id) {
            Some(i) => {
                proof {
                    lemma_item_at(self.items@, id@, i as int);
                }
                Some(self.items[i].clone())
            },
            None => None,
        }
    }

    /// True when the catalog holds a backing file of the given name.
    pub fn has_stored_file(&self, name: &str) -> (r: bool)
        ensures
            r == has_file(self.files@, name@),
    {
        let n = self.files.len();
        let mut i: usize = 0;
        while i < n
            invariant
                0 <= i <= n,
                n == self.files@.len(),
                forall|k: int| 0 <= k < i ==> self.files@[k]@ != name@,
            decreases n - i,
        {
            if str_eq(self.files[i].as_str(), name) {
                return true;
            }
            i += 1;
        }
        false
    }

    /// True when some item references the given id.
    pub fn is_referenced(&self, id: &str) -> (r: bool)
        ensures
            r == any_references(self.items@, id@),
    {
        let n = self.items.len();
        let mut i: usize = 0;
        while i < n
            invariant
                0 <= i <= n,
                n == self.items@.len(),
                forall|k: int| 0 <= k < i ==> !references_id_of(#[trigger] self.items@[k], id@),
            decreases n - i,
        {
            match &self.items[i].references_id {
                Some(r) => {
                    if str_eq(r.as_str(), id) {
                        return true;
                    }
                },
                None => {},
            }
            i += 1;
        }
        false
    }

    /// True when some item references `id` under a filename other than
    /// `filename`.
    fn has_ref_filename_conflict(&self, id: &str, filename: &str) -> (r: bool)
        ensures
            r == ref_filename_conflict(self.items@, id@, filename@),
    {
        let n = self.items.len();
        let mut i: usize = 0;
        while i < n
            invariant
                0 <= i <= n,
                n == self.items@.len(),
                forall|k: int|
                    0 <= k < i ==> !(references_id_of(#[trigger] self.items@[k], id@)
                        && self.items@[k].filename@ != filename@),
            decreases n - i,
        {
            match &self.items[i].references_id {
                Some(r) => {
                    if str_eq(r.as_str(), id) && !str_eq(self.items[i].filename.as_str(), filename)
                    {
                        return true;
                    }
                },
                None => {},
            }
            i += 1;
        }
        false
    }

    /// Looks a digest up in the exact-hash index.
    pub fn exact_lookup(&self, sha: &str) -> (r: Option<String>)
        requires
            self.wf(),
        ensures
            match r {
                Some(id) => has_exact(self.exact_index@, sha@) && exact_item_for(
                    self.exact_index@,
                    sha@,
                ) == id@,
                None => !has_exact(self.exact_index@, sha@),
            },
    {
        let n = self.exact_index.len();
        let mut i: usize = 0;
        while i < n
            invariant
                0 <= i <= n,
                n == self.exact_index@.len(),
                self.wf(),
                forall|k: int| 0 <= k < i ==> (#[trigger] self.exact_index@[k]).sha256@ != sha@,
            decreases n - i,
        {
            if str_eq(self.exact_index[i].sha256.as_str(), sha) {
                proof {
                    lemma_exact_at(self.exact_index@, sha@, i as int);
                }
                return Some(self.exact_index[i].item_id.clone());
            }
            i += 1;
        }
        None
    }

    /// Scans the fuzzy-hash index for an entry of a present owning item
    /// whose digest is within the similarity threshold of `new_tlsh`.
    pub fn find_similar_tlsh(&self, new_tlsh: &str) -> (r: Option<String>)
        requires
            self.wf(),
        ensures
            match r {
                Some(id) => {
                    &&& has_item_id(self.items@, id@)
                    &&& item_at(self.items@, id@).is_owning()
                    &&& exists|k: int|
                        0 <= k < self.fuzzy_index@.len() && (#[trigger] self.fuzzy_index@[k]).item_id@
                            == id@ && spec_similar(self.fuzzy_index@[k].tlsh@, new_tlsh@)
                },
                None => forall|k: int|
                    0 <= k < self.fuzzy_index@.len() && has_item_id(
                        self.items@,
                        (#[trigger] self.fuzzy_index@[k]).item_id@,
                    ) && item_at(self.items@, self.fuzzy_index@[k].item_id@).is_owning()
                        ==> !spec_similar(self.fuzzy_index@[k].tlsh@, new_tlsh@),
            },
    {
        let n = self.fuzzy_index.len();
        let mut i: usize = 0;
        while i < n
            invariant
                0 <= i <= n,
                n == self.fuzzy_index@.len(),
                self.wf(),
                forall|k: int|
                    0 <= k < i && has_item_id(
                        self.items@,
                        (#[trigger] self.fuzzy_index@[k]).item_id@,
                    ) && item_at(self.items@, self.fuzzy_index@[k].item_id@).is_owning()
                        ==> !spec_similar(self.fuzzy_index@[k].tlsh@, new_tlsh@),
            decreases n - i,
        {
            let entry_similar = similar(self.fuzzy_index[i].tlsh.as_str(), new_tlsh);
            if entry_similar {
                match self.find_index(self.fuzzy_index[i].item_id.as_str()) {
                    Some(j) => {
                        proof {
                            lemma_item_at(
                                self.items@,
                                self.fuzzy_index@[i as int].item_id@,
                                j as int,
                            );
                        }
                        if self.items[j].references_id.is_none() {
                            return Some(self.fuzzy_index[i].item_id.clone());
                        }
                    },
                    None => {},
                }
            }
            i += 1;
        }
        None
    }

    /// True when `id` is usable for a new commit: no item has it, no item
    /// references it, and no stored file bears the name it would get.
    pub open spec fn spec_fresh_for_commit(&self, id: Seq<char>, content_type: Seq<char>) -> bool {
        &&& !has_item_id(self.items@, id)
        &&& !any_references(self.items@, id)
        &&& !has_file(self.files@, id + spec_extension_for_mime(content_type))
    }

    /// Decides [`Catalog::spec_fresh_for_commit`] for a candidate id.
    pub fn fresh_for_commit(&self, id: &str, content_type: &str) -> (r: bool)
        ensures
            r == self.spec_fresh_for_commit(id@, content_type@),
    {
        if self.contains_item(id) {
            return false;
        }
        if self.is_referenced(id) {
            return false;
        }
        let mut filename = id.to_owned();
        filename.append(extension_for_mime(content_type));
        !self.has_stored_file(filename.as_str())
    }

    /// Resolves the backing file and content type served for an item,
    /// following a reference exactly one hop when the referenced owner is
    /// still present.
    pub fn resolve_file(&self, id: &str) -> (r: Option<(String, String)>)
        requires
            self.wf(),
        ensures
            match r {
                Some(p) => {
                    &&& has_item_id(self.items@, id@)
                    &&& {
                        let m = item_at(self.items@, id@);
                        match m.references_id {
                            Some(rid) => {
                                if has_item_id(self.items@, rid@) {
                                    p.0@ == item_at(self.items@, rid@).filename@ && p.1@ == item_at(
                                        self.items@,
                                        rid@,
                                    ).content_type@
                                } else {
                                    p.0@ == m.filename@ && p.1@ == m.content_type@
                                }
                            },
                            None => p.0@ == m.filename@ && p.1@ == m.content_type@,
                        }
                    }
                },
                None => !has_item_id(self.items@, id@),
            },
    {
        let i = match self.find_index(id) {
            Some(i) => i,
            None => {
                return None;
            },
        };
        proof {
            lemma_item_at(self.items@, id@, i as int);
        }
        match &self.items[i].references_id {
            Some(rid) => {
                match self.find_index(rid.as_str()) {
                    Some(j) => {
                        proof {
                            lemma_item_at(self.items@, self.items@[i as int].references_id->0@, j as int);
                        }
                        Some((self.items[j].filename.clone(), self.items[j].content_type.clone()))
                    },
                    None => Some(
                        (self.items[i].filename.clone(), self.items[i].content_type.clone()),
                    ),
                }
            },
            None => Some((self.items[i].filename.clone(), self.items[i].content_type.clone())),
        }
    }
}

/// The metadata fields every commit writes, whatever branch it takes:
/// identity, fingerprints, size, owner, flags, and timestamp.
pub open spec fn candidate_fields(
    m: VideoMeta,
    title: Seq<char>,
    content_type: Seq<char>,
    data: Seq<u8>,
    owner: PlatformUser,
    nsfw: bool,
    unlisted: bool,
    comments_disabled: bool,
    now: u64,
    id: Seq<char>,
) -> bool {
    &&& m.id@ == id
    &&& m.title@ == title
    &&& m.content_type@ == content_type
    &&& m.size_bytes == data.len()
    &&& m.sha256@ == spec_exact_digest(data)
    &&& (match m.tlsh_hash {
        Some(t) => spec_fuzzy_digest(data, spec_is_video_mime(content_type)) == Some(t@),
        None => spec_fuzzy_digest(data, spec_is_video_mime(content_type)) is None,
    })
    &&& m.uploaded_by_provider@ == owner.provider@
    &&& m.uploaded_by_id == owner.id
    &&& m.uploaded_by_name@ == owner.username@
    &&& m.uploaded_at == now
    &&& m.nsfw == nsfw
    &&& m.unlisted == unlisted
    &&& m.comments_disabled == comments_disabled
    &&& m.original_extension is None
}

impl Catalog {
    /// What [`Catalog::commit`] guarantees: the dedup decision tree's
    /// outcome, stated over the catalog before (`pre`) and after (`post`)
    /// the call.
    pub open spec fn spec_commit(
        pre: Catalog,
        post: Catalog,
        r: UploadOutcome,
        title: Seq<char>,
        content_type: Seq<char>,
        data: Seq<u8>,
        owner: PlatformUser,
        nsfw: bool,
        unlisted: bool,
        comments_disabled: bool,
        now: u64,
        new_id: Seq<char>,
    ) -> bool {

                let sha = spec_exact_digest(data);
                let fz = spec_fuzzy_digest(data, spec_is_video_mime(content_type));
                match r {
                    UploadOutcome::ExactDuplicate { existing_id } => {
                        &&& has_exact(pre.exact_index@, sha)
                        &&& existing_id@ == exact_item_for(pre.exact_index@, sha)
                        &&& post.items@ == pre.items@
                        &&& post.exact_index@ == pre.exact_index@
                        &&& post.fuzzy_index@ == pre.fuzzy_index@
                        &&& post.files@ == pre.files@
                    },
                    UploadOutcome::Linked { item, original_id } => {
                        &&& !has_exact(pre.exact_index@, sha)
                        &&& has_item_id(pre.items@, original_id@)
                        &&& item_at(pre.items@, original_id@).is_owning()
                        &&& (fz matches Some(t) && exists|k: int|
                            0 <= k < pre.fuzzy_index@.len() && (#[trigger] pre.fuzzy_index@[k]).item_id@ == original_id@ && spec_similar(
                                pre.fuzzy_index@[k].tlsh@,
                                t,
                            ))
                        &&& candidate_fields(
                            item,
                            title,
                            content_type,
                            data,
                            owner,
                            nsfw,
                            unlisted,
                            comments_disabled,
                            now,
                            new_id,
                        )
                        &&& (item.references_id matches Some(rid) && rid@ == original_id@)
                        &&& item.filename@ == item_at(pre.items@, original_id@).filename@
                        &&& post.items@ == pre.items@.push(item)
                        &&& post.exact_index@ == pre.exact_index@
                        &&& post.fuzzy_index@ == pre.fuzzy_index@
                        &&& post.files@ == pre.files@
                    },
                    UploadOutcome::Committed { item } => {
                        &&& !has_exact(pre.exact_index@, sha)
                        &&& candidate_fields(
                            item,
                            title,
                            content_type,
                            data,
                            owner,
                            nsfw,
                            unlisted,
                            comments_disabled,
                            now,
                            new_id,
                        )
                        &&& item.is_owning()
                        &&& item.filename@ == new_id + spec_extension_for_mime(content_type)
                        &&& post.items@ == pre.items@.push(item)
                        &&& post.files@.len() == pre.files@.len() + 1
                        &&& post.files@.drop_last() == pre.files@
                        &&& post.files@.last()@ == item.filename@
                        &&& post.exact_index@.len() == pre.exact_index@.len() + 1
                        &&& post.exact_index@.drop_last() == pre.exact_index@
                        &&& post.exact_index@.last().sha256@ == sha
                        &&& post.exact_index@.last().item_id@ == new_id
                        &&& (match fz {
                            Some(t) => post.fuzzy_index@.len() == pre.fuzzy_index@.len() + 1
                                && post.fuzzy_index@.drop_last() == pre.fuzzy_index@
                                && post.fuzzy_index@.last().item_id@ == new_id
                                && post.fuzzy_index@.last().tlsh@ == t,
                            None => post.fuzzy_index@ == pre.fuzzy_index@,
                        })
                        &&& (fz matches Some(t) ==> forall|k: int|
                            0 <= k < pre.fuzzy_index@.len() && has_item_id(
                                pre.items@,
                                (#[trigger] pre.fuzzy_index@[k]).item_id@,
                            ) && item_at(
                                pre.items@,
                                pre.fuzzy_index@[k].item_id@,
                            ).is_owning() ==> !spec_similar(pre.fuzzy_index@[k].tlsh@, t))
                    },
                }
    }

    /// Commits an upload whose bytes are already validated and in their
    /// canonical form. The dedup decision tree, in order: a payload whose
    /// exact digest is already indexed is rejected as an exact duplicate
    /// and nothing changes; else a payload whose fuzzy digest is within
    /// the similarity threshold of a present owning item's digest becomes
    /// a new referencing item sharing that item's backing file; else a new
    /// owning item is committed, its file stored, and both indices extended.
    #[verifier::rlimit(100)]
    #[verifier::spinoff_prover]
    pub fn commit(
        &mut self,
        title: &str,
        content_type: &str,
        data: &[u8],
        owner: &PlatformUser,
        nsfw: bool,
        unlisted: bool,
        comments_disabled: bool,
        now: u64,
        new_id: String,
    ) -> (r: UploadOutcome)
        requires
            old(self).wf(),
            old(self).spec_fresh_for_commit(new_id@, content_type@),
        ensures
            final(self).wf(),
            Catalog::spec_commit(
                *old(self),
                *final(self),
                r,
                title@,
                content_type@,
                data@,
                *owner,
                nsfw,
                unlisted,
                comments_disabled,
                now,
                new_id@,
            ),
    {
        let sha_hex = exact_digest(data);
        let is_video = is_video_mime(content_type);
        let tlsh_hex = fuzzy_digest(data, is_video);

        if let Some(existing) = self.exact_lookup(sha_hex.as_str()) {
            return UploadOutcome::ExactDuplicate { existing_id: existing };
        }

        if let Some(ref new_tlsh) = tlsh_hex {
            if let Some(original_id) = self.find_similar_tlsh(new_tlsh.as_str()) {
                let original = match self.get(original_id.as_str()) {
                    Some(m) => m,
                    None => {
                        proof {
                            assert(false);
                        }
                        unreached()
                    },
                };
                let item = VideoMeta {
                    id: new_id,
                    title: title.to_owned(),
                    filename: original.filename,
                    content_type: content_type.to_owned(),
                    size_bytes: data.len() as u64,
                    sha256: sha_hex,
                    tlsh_hash: tlsh_hex,
                    uploaded_by_provider: owner.provider.clone(),
                    uploaded_by_id: owner.id,
                    uploaded_by_name: owner.username.clone(),
                    uploaded_at: now,
                    nsfw,
                    unlisted,
                    comments_disabled,
                    references_id: Some(original_id.clone()),
                    original_extension: None,
                };
                let result_item = item.clone();
                self.items.push(item);
                proof {
                    let items = self.items@;
                    let olds = old(self).items@;
                    assert forall|i: int, j: int| 0 <= i < j < items.len() implies (
                    #[trigger] items[i]).id@ != (#[trigger] items[j]).id@ by {
                        if j == items.len() - 1 {
                            assert(items[i] == olds[i]);
                            assert(!has_item_id(olds, items[j].id@));
                        }
                    }
                    assert forall|i: int, j: int|
                        0 <= i < items.len() && 0 <= j < items.len() && references_id_of(
                            #[trigger] items[i],
                            (#[trigger] items[j]).id@,
                        ) implies items[j].is_owning() by {
                        if i < items.len() - 1 && j < items.len() - 1 {
                            assert(items[i] == olds[i] && items[j] == olds[j]);
                        } else if i == items.len() - 1 && j < items.len() - 1 {
                            assert(items[j] == olds[j]);
                            lemma_item_at(olds, original_id@, j);
                        } else if j == items.len() - 1 {
                            if i < items.len() - 1 {
                                assert(items[i] == olds[i]);
                                assert(any_references(olds, new_id@));
                            }
                        }
                    }
                    assert forall|i: int, j: int|
                        0 <= i < items.len() && 0 <= j < items.len() && references_id_of(
                            #[trigger] items[i],
                            (#[trigger] items[j]).id@,
                        ) implies items[i].filename@ == items[j].filename@ by {
                        if i < items.len() - 1 && j < items.len() - 1 {
                            assert(items[i] == olds[i] && items[j] == olds[j]);
                        } else if i == items.len() - 1 && j < items.len() - 1 {
                            assert(items[j] == olds[j]);
                            lemma_item_at(olds, original_id@, j);
                        } else if j == items.len() - 1 {
                            if i < items.len() - 1 {
                                assert(items[i] == olds[i]);
                                assert(any_references(olds, new_id@));
                            } else {
                                assert(has_item_id(olds, original_id@));
                                assert(original_id@ != new_id@);
                            }
                        }
                    }
                    assert forall|i: int, j: int|
                        0 <= i < j < items.len() && (#[trigger] items[i]).is_owning() && (
                        #[trigger] items[j]).is_owning() implies items[i].filename@
                        != items[j].filename@ by {
                        if j < items.len() - 1 {
                            assert(items[i] == olds[i] && items[j] == olds[j]);
                        }
                    }
                    assert forall|i: int|
                        0 <= i < items.len() && (#[trigger] items[i]).is_owning() implies has_file(
                        self.files@,
                        items[i].filename@,
                    ) by {
                        if i < items.len() - 1 {
                            assert(items[i] == olds[i]);
                        }
                    }
                }
                return UploadOutcome::Linked { item: result_item, original_id };
            }
        }

        let mut filename = new_id.clone();
        filename.append(extension_for_mime(content_type));
        let item = VideoMeta {
            id: new_id.clone(),
            title: title.to_owned(),
            filename: filename.clone(),
            content_type: content_type.to_owned(),
            size_bytes: data.len() as u64,
            sha256: sha_hex.clone(),
            tlsh_hash: match &tlsh_hex {
                Some(t) => Some(t.clone()),
                None => None,
            },
            uploaded_by_provider: owner.provider.clone(),
            uploaded_by_id: owner.id,
            uploaded_by_name: owner.username.clone(),
            uploaded_at: now,
            nsfw,
            unlisted,
            comments_disabled,
            references_id: None,
            original_extension: None,
        };
        let result_item = item.clone();
        self.files.push(filename);
        self.exact_index.push(ExactEntry { sha256: sha_hex, item_id: new_id.clone() });
        if let Some(t) = tlsh_hex {
            self.fuzzy_index.push(FuzzyEntry { item_id: new_id.clone(), tlsh: t });
        }
        self.items.push(item);
        proof {
            let items = self.items@;
            let olds = old(self).items@;
            let files = self.files@;
            let oldf = old(self).files@;
            assert(files.drop_last() =~= oldf);
            assert(self.exact_index@.drop_last() =~= old(self).exact_index@);
            if self.fuzzy_index@.len() == old(self).fuzzy_index@.len() + 1 {
                assert(self.fuzzy_index@.drop_last() =~= old(self).fuzzy_index@);
            }
            assert forall|i: int, j: int| 0 <= i < j < items.len() implies (#[trigger] items[i]).id@
                != (#[trigger] items[j]).id@ by {
                if j == items.len() - 1 {
                    assert(items[i] == olds[i]);
                    assert(!has_item_id(olds, items[j].id@));
                }
            }
            assert forall|i: int, j: int|
                0 <= i < items.len() && 0 <= j < items.len() && references_id_of(
                    #[trigger] items[i],
                    (#[trigger] items[j]).id@,
                ) implies items[j].is_owning() by {
                if i < items.len() - 1 && j < items.len() - 1 {
                    assert(items[i] == olds[i] && items[j] == olds[j]);
                } else if i == items.len() - 1 {
                    assert(items[i].references_id is None);
                } else if j == items.len() - 1 {
                    assert(items[i] == olds[i]);
                    assert(any_references(olds, new_id@));
                }
            }
            assert forall|i: int, j: int|
                0 <= i < items.len() && 0 <= j < items.len() && references_id_of(
                    #[trigger] items[i],
                    (#[trigger] items[j]).id@,
                ) implies items[i].filename@ == items[j].filename@ by {
                if i < items.len() - 1 && j < items.len() - 1 {
                    assert(items[i] == olds[i] && items[j] == olds[j]);
                } else if i == items.len() - 1 {
                    assert(items[i].references_id is None);
                } else if j == items.len() - 1 {
                    assert(items[i] == olds[i]);
                    assert(any_references(olds, new_id@));
                }
            }
            assert forall|i: int, j: int|
                0 <= i < j < items.len() && (#[trigger] items[i]).is_owning() && (
                #[trigger] items[j]).is_owning() implies items[i].filename@ != items[j].filename@ by {
                if j < items.len() - 1 {
                    assert(items[i] == olds[i] && items[j] == olds[j]);
                } else if i < items.len() - 1 {
                    assert(items[i] == olds[i]);
                    assert(has_file(oldf, items[i].filename@));
                    assert(!has_file(oldf, items[j].filename@));
                }
            }
            assert forall|i: int|
                0 <= i < items.len() && (#[trigger] items[i]).is_owning() implies has_file(
                files,
                items[i].filename@,
            ) by {
                if i < items.len() - 1 {
                    assert(items[i] == olds[i]);
                    assert(has_file(oldf, items[i].filename@));
                    let k = choose|k: int| 0 <= k < oldf.len() && oldf[k]@ == items[i].filename@;
                    assert(files[k]@ == items[i].filename@);
                } else {
                    assert(files.last()@ == items[i].filename@);
                }
            }
            assert forall|i: int, j: int| 0 <= i < j < self.exact_index@.len() implies (
            #[trigger] self.exact_index@[i]).sha256@ != (#[trigger] self.exact_index@[j]).sha256@ by {
                if j == self.exact_index@.len() - 1 {
                    assert(self.exact_index@[i] == old(self).exact_index@[i]);
                    assert(!has_exact(old(self).exact_index@, spec_exact_digest(data@)));
                }
            }
            assert forall|i: int, j: int| 0 <= i < j < files.len() implies files[i]@
                != files[j]@ by {
                if j == files.len() - 1 {
                    assert(files[i] == oldf[i]);
                    assert(!has_file(oldf, files[j]@));
                }
            }
        }
        UploadOutcome::Committed { item: result_item }
    }
}

/// The exact-hash index without the entries that map to `owner`.
pub open spec fn gc_exact(s: Seq<ExactEntry>, owner: Seq<char>) -> Seq<ExactEntry>
    decreases s.len(),
{
    if s.len() == 0 {
        Seq::empty()
    } else {
        let rest = gc_exact(s.drop_last(), owner);
        if s.last().item_id@ != owner {
            rest.push(s.last())
        } else {
            rest
        }
    }
}

/// The fuzzy-hash index without the entries of item `owner`.
pub open spec fn gc_fuzzy(s: Seq<FuzzyEntry>, owner: Seq<char>) -> Seq<FuzzyEntry>
    decreases s.len(),
{
    if s.len() == 0 {
        Seq::empty()
    } else {
        let rest = gc_fuzzy(s.drop_last(), owner);
        if s.last().item_id@ != owner {
            rest.push(s.last())
        } else {
            rest
        }
    }
}

/// The file set without the file named `name`.
pub open spec fn gc_files(s: Seq<String>, name: Seq<char>) -> Seq<String>
    decreases s.len(),
{
    if s.len() == 0 {
        Seq::empty()
    } else {
        let rest = gc_files(s.drop_last(), name);
        if s.last()@ != name {
            rest.push(s.last())
        } else {
            rest
        }
    }
}

proof fn lemma_gc_exact_step(s: Seq<ExactEntry>, owner: Seq<char>, k: int)
    requires
        0 <= k < s.len(),
    ensures
        gc_exact(s.take(k + 1), owner) == if s[k].item_id@ != owner {
            gc_exact(s.take(k), owner).push(s[k])
        } else {
            gc_exact(s.take(k), owner)
        },
{
    let t = s.take(k + 1);
    assert(t.drop_last() =~= s.take(k));
    assert(t.last() == s[k]);
}

proof fn lemma_gc_fuzzy_step(s: Seq<FuzzyEntry>, owner: Seq<char>, k: int)
    requires
        0 <= k < s.len(),
    ensures
        gc_fuzzy(s.take(k + 1), owner) == if s[k].item_id@ != owner {
            gc_fuzzy(s.take(k), owner).push(s[k])
        } else {
            gc_fuzzy(s.take(k), owner)
        },
{
    let t = s.take(k + 1);
    assert(t.drop_last() =~= s.take(k));
    assert(t.last() == s[k]);
}

proof fn lemma_gc_files_step(s: Seq<String>, name: Seq<char>, k: int)
    requires
        0 <= k < s.len(),
    ensures
        gc_files(s.take(k + 1), name) == if s[k]@ != name {
            gc_files(s.take(k), name).push(s[k])
        } else {
            gc_files(s.take(k), name)
        },
{
    let t = s.take(k + 1);
    assert(t.drop_last() =~= s.take(k));
    assert(t.last() == s[k]);
}

proof fn lemma_gc_exact_props(s: Seq<ExactEntry>, owner: Seq<char>)
    requires
        exact_keys_unique(s),
    ensures
        exact_keys_unique(gc_exact(s, owner)),
        forall|k: int|
            0 <= k < gc_exact(s, owner).len() ==> exists|b: int|
                0 <= b < s.len() && #[trigger] gc_exact(s, owner)[k] == s[b],
    decreases s.len(),
{
    if s.len() > 0 {
        let rest = s.drop_last();
        lemma_gc_exact_props(rest, owner);
        let g = gc_exact(s, owner);
        let gr = gc_exact(rest, owner);
        assert forall|k: int| 0 <= k < g.len() implies exists|b: int|
            0 <= b < s.len() && #[trigger] g[k] == s[b] by {
            if k < gr.len() {
                assert(g[k] == gr[k]);
                let b = choose|b: int| 0 <= b < rest.len() && gr[k] == rest[b];
                assert(g[k] == s[b]);
            } else {
                assert(g[k] == s.last());
                assert(g[k] == s[s.len() - 1]);
            }
        }
        assert forall|a: int, b: int| 0 <= a < b < g.len() implies (#[trigger] g[a]).sha256@ != (
        #[trigger] g[b]).sha256@ by {
            if b < gr.len() {
                assert(g[a] == gr[a] && g[b] == gr[b]);
            } else {
                assert(g[b] == s.last());
                assert(g[a] == gr[a]);
                let a0 = choose|a0: int| 0 <= a0 < rest.len() && gr[a] == rest[a0];
                assert(s[a0].sha256@ != s[s.len() - 1].sha256@);
            }
        }
    }
}

proof fn lemma_gc_files_props(s: Seq<String>, name: Seq<char>)
    requires
        files_unique(s),
    ensures
        files_unique(gc_files(s, name)),
        forall|k: int| 0 <= k < gc_files(s, name).len() ==> (#[trigger] gc_files(s, name)[k])@
            != name,
        forall|n2: Seq<char>|
            n2 != name ==> (#[trigger] has_file(gc_files(s, name), n2) <==> has_file(s, n2)),
    decreases s.len(),
{
    let g = gc_files(s, name);
    if s.len() == 0 {
        assert forall|n2: Seq<char>| n2 != name implies (#[trigger] has_file(g, n2) <==> has_file(
            s,
            n2,
        )) by {}
    } else {
        let rest = s.drop_last();
        lemma_gc_files_props(rest, name);
        let gr = gc_files(rest, name);
        assert forall|k: int| 0 <= k < g.len() implies (#[trigger] g[k])@ != name by {
            if k < gr.len() {
                assert(g[k] == gr[k]);
            }
        }
        assert forall|a: int, b: int| 0 <= a < b < g.len() implies g[a]@ != g[b]@ by {
            if b < gr.len() {
                assert(g[a] == gr[a] && g[b] == gr[b]);
            } else {
                assert(g[b] == s.last());
                assert(g[a] == gr[a]);
                assert(gr[a]@ != name);
                assert(has_file(gr, gr[a]@));
                assert(has_file(rest, gr[a]@));
                let a0 = choose|a0: int| 0 <= a0 < rest.len() && rest[a0]@ == gr[a]@;
                assert(s[a0]@ != s[s.len() - 1]@);
            }
        }
        assert forall|n2: Seq<char>| n2 != name implies (#[trigger] has_file(g, n2) <==> has_file(
            s,
            n2,
        )) by {
            if has_file(g, n2) {
                let k = choose|k: int| 0 <= k < g.len() && g[k]@ == n2;
                if k < gr.len() {
                    assert(has_file(gr, n2));
                    let b = choose|b: int| 0 <= b < rest.len() && rest[b]@ == n2;
                    assert(s[b]@ == n2);
                } else {
                    assert(s[s.len() - 1]@ == n2);
                }
            }
            if has_file(s, n2) {
                let b = choose|b: int| 0 <= b < s.len() && s[b]@ == n2;
                if b < s.len() - 1 {
                    assert(rest[b]@ == n2);
                    assert(has_file(rest, n2));
                    assert(has_file(gr, n2));
                    let k = choose|k: int| 0 <= k < gr.len() && gr[k]@ == n2;
                    assert(g[k]@ == n2);
                } else {
                    assert(s.last()@ == n2);
                    assert(g.last()@ == n2);
                }
            }
        }
    }
}

fn filter_exact(ix: &Vec<ExactEntry>, owner: &str) -> (r: Vec<ExactEntry>)
    ensures
        r@ == gc_exact(ix@, owner@),
{
    let n = ix.len();
    let mut out: Vec<ExactEntry> = Vec::new();
    let mut k: usize = 0;
    while k < n
        invariant
            0 <= k <= n,
            n == ix@.len(),
            out@ == gc_exact(ix@.take(k as int), owner@),
        decreases n - k,
    {
        proof {
            lemma_gc_exact_step(ix@, owner@, k as int);
        }
        if !str_eq(ix[k].item_id.as_str(), owner) {
            out.push(ix[k].clone());
        }
        k += 1;
    }
    proof {
        assert(ix@.take(n as int) =~= ix@);
    }
    out
}

fn filter_fuzzy(ix: &Vec<FuzzyEntry>, owner: &str) -> (r: Vec<FuzzyEntry>)
    ensures
        r@ == gc_fuzzy(ix@, owner@),
{
    let n = ix.len();
    let mut out: Vec<FuzzyEntry> = Vec::new();
    let mut k: usize = 0;
    while k < n
        invariant
            0 <= k <= n,
            n == ix@.len(),
            out@ == gc_fuzzy(ix@.take(k as int), owner@),
        decreases n - k,
    {
        proof {
            lemma_gc_fuzzy_step(ix@, owner@, k as int);
        }
        if !str_eq(ix[k].item_id.as_str(), owner) {
            out.push(ix[k].clone());
        }
        k += 1;
    }
    proof {
        assert(ix@.take(n as int) =~= ix@);
    }
    out
}

fn filter_files(files: &Vec<String>, name: &str) -> (r: Vec<String>)
    ensures
        r@ == gc_files(files@, name@),
{
    let n = files.len();
    let mut out: Vec<String> = Vec::new();
    let mut k: usize = 0;
    while k < n
        invariant
            0 <= k <= n,
            n == files@.len(),
            out@ == gc_files(files@.take(k as int), name@),
        decreases n - k,
    {
        proof {
            lemma_gc_files_step(files@, name@, k as int);
        }
        if !str_eq(files[k].as_str(), name) {
            out.push(files[k].clone());
        }
        k += 1;
    }
    proof {
        assert(files@.take(n as int) =~= files@);
    }
    out
}

impl Catalog {
    /// What [`Catalog::delete`] guarantees, stated over the catalog before
    /// (`pre`) and after (`post`) the call.
    pub open spec fn spec_delete(
        pre: Catalog,
        post: Catalog,
        r: Result<VideoMeta, AppError>,
        id: Seq<char>,
    ) -> bool {
        match r {
                Ok(meta) => {
                    &&& has_item_id(pre.items@, id)
                    &&& meta == item_at(pre.items@, id)
                    &&& post.items@ == pre.items@.remove(
                        item_idx(pre.items@, id),
                    )
                    &&& {
                        let origin = match meta.references_id {
                            Some(rid) => rid@,
                            None => meta.id@,
                        };
                        if !has_item_id(post.items@, origin) && !any_references(
                            post.items@,
                            origin,
                        ) {
                            &&& post.exact_index@ == gc_exact(
                                pre.exact_index@,
                                origin,
                            )
                            &&& post.fuzzy_index@ == gc_fuzzy(
                                pre.fuzzy_index@,
                                origin,
                            )
                            &&& post.files@ == (if any_filename(
                                post.items@,
                                meta.filename@,
                            ) {
                                pre.files@
                            } else {
                                gc_files(pre.files@, meta.filename@)
                            })
                        } else {
                            &&& post.exact_index@ == pre.exact_index@
                            &&& post.fuzzy_index@ == pre.fuzzy_index@
                            &&& post.files@ == pre.files@
                        }
                    }
                },
                Err(e) => {
                    &&& e is VideoNotFound
                    &&& !has_item_id(pre.items@, id)
                    &&& post.items@ == pre.items@
                    &&& post.exact_index@ == pre.exact_index@
                    &&& post.fuzzy_index@ == pre.fuzzy_index@
                    &&& post.files@ == pre.files@
                },
            }
    }

    /// True when some item records `name` as its filename.
    pub fn any_item_filename(&self, name: &str) -> (r: bool)
        ensures
            r == any_filename(self.items@, name@),
    {
        let n = self.items.len();
        let mut i: usize = 0;
        while i < n
            invariant
                0 <= i <= n,
                n == self.items@.len(),
                forall|k: int| 0 <= k < i ==> (#[trigger] self.items@[k]).filename@ != name@,
            decreases n - i,
        {
            if str_eq(self.items[i].filename.as_str(), name) {
                return true;
            }
            i += 1;
        }
        false
    }

    /// Deletes an item. The entry always goes; the backing file and the
    /// index entries of its payload go only when nothing depends on them
    /// any more: the owning item (the item itself, or the item it
    /// references) must be gone and no remaining item may reference it,
    /// and the file goes only when no remaining item names it.
    pub fn delete(&mut self, id: &str) -> (r: Result<VideoMeta, AppError>)
        requires
            old(self).wf(),
        ensures
            final(self).wf(),
            Catalog::spec_delete(*old(self), *final(self), r, id@),
    {
        let i = match self.find_index(id) {
            Some(i) => i,
            None => {
                return Err(AppError::VideoNotFound);
            },
        };
        proof {
            lemma_item_at(old(self).items@, id@, i as int);
        }
        let meta = self.items.remove(i);
        proof {
            let olds = old(self).items@;
            let items = self.items@;
            assert forall|a: int| 0 <= a < items.len() implies items[a] == olds[
                if a < i {
                    a
                } else {
                    a + 1
                }
            ] by {}
            assert forall|a: int, b: int| 0 <= a < b < items.len() implies (
            #[trigger] items[a]).id@ != (#[trigger] items[b]).id@ by {
                let a0: int = if a < i {
                    a
                } else {
                    a + 1
                };
                let b0: int = if b < i {
                    b
                } else {
                    b + 1
                };
                assert(items[a] == olds[a0] && items[b] == olds[b0]);
            }
            assert forall|a: int, b: int|
                0 <= a < items.len() && 0 <= b < items.len() && references_id_of(
                    #[trigger] items[a],
                    (#[trigger] items[b]).id@,
                ) implies items[b].is_owning() by {
                let a0: int = if a < i {
                    a
                } else {
                    a + 1
                };
                let b0: int = if b < i {
                    b
                } else {
                    b + 1
                };
                assert(items[a] == olds[a0] && items[b] == olds[b0]);
                assert(references_id_of(olds[a0], olds[b0].id@));
            }
            assert forall|a: int, b: int|
                0 <= a < items.len() && 0 <= b < items.len() && references_id_of(
                    #[trigger] items[a],
                    (#[trigger] items[b]).id@,
                ) implies items[a].filename@ == items[b].filename@ by {
                let a0: int = if a < i {
                    a
                } else {
                    a + 1
                };
                let b0: int = if b < i {
                    b
                } else {
                    b + 1
                };
                assert(items[a] == olds[a0] && items[b] == olds[b0]);
                assert(references_id_of(olds[a0], olds[b0].id@));
            }
            assert forall|a: int, b: int|
                0 <= a < b < items.len() && (#[trigger] items[a]).is_owning() && (
                #[trigger] items[b]).is_owning() implies items[a].filename@
                != items[b].filename@ by {
                let a0: int = if a < i {
                    a
                } else {
                    a + 1
                };
                let b0: int = if b < i {
                    b
                } else {
                    b + 1
                };
                assert(items[a] == olds[a0] && items[b] == olds[b0]);
            }
        }
        let origin: String = match &meta.references_id {
            Some(rid) => rid.clone(),
            None => meta.id.clone(),
        };
        let origin_present = self.contains_item(origin.as_str());
        let origin_referenced = self.is_referenced(origin.as_str());
        if !origin_present && !origin_referenced {
            self.fuzzy_index = filter_fuzzy(&self.fuzzy_index, origin.as_str());
            self.exact_index = filter_exact(&self.exact_index, origin.as_str());
            proof {
                lemma_gc_exact_props(old(self).exact_index@, origin@);
            }
            let keep_file = self.any_item_filename(meta.filename.as_str());
            if !keep_file {
                self.files = filter_files(&self.files, meta.filename.as_str());
                proof {
                    lemma_gc_files_props(old(self).files@, meta.filename@);
                    let items = self.items@;
                    let olds = old(self).items@;
                    assert forall|a: int|
                        0 <= a < items.len() && (#[trigger] items[a]).is_owning() implies has_file(
                        self.files@,
                        items[a].filename@,
                    ) by {
                        let a0: int = if a < i {
                            a
                        } else {
                            a + 1
                        };
                        assert(items[a] == olds[a0]);
                        assert(has_file(old(self).files@, items[a].filename@));
                        assert(items[a].filename@ != meta.filename@);
                    }
                }
            } else {
                proof {
                    let items = self.items@;
                    let olds = old(self).items@;
                    assert forall|a: int|
                        0 <= a < items.len() && (#[trigger] items[a]).is_owning() implies has_file(
                        self.files@,
                        items[a].filename@,
                    ) by {
                        let a0: int = if a < i {
                            a
                        } else {
                            a + 1
                        };
                        assert(items[a] == olds[a0]);
                    }
                }
            }
        } else {
            proof {
                let items = self.items@;
                let olds = old(self).items@;
                assert forall|a: int|
                    0 <= a < items.len() && (#[trigger] items[a]).is_owning() implies has_file(
                    self.files@,
                    items[a].filename@,
                ) by {
                    let a0: int = if a < i {
                        a
                    } else {
                        a + 1
                    };
                    assert(items[a] == olds[a0]);
                }
            }
        }
        Ok(meta)
    }
}

/// True when an item appears in listings under the given content-type
/// prefix: it is not unlisted and its content type carries the prefix.
pub open spec fn listed(m: VideoMeta, prefix: Seq<char>) -> bool {
    !m.unlisted && crate::strutil::spec_starts_with(m.content_type@, prefix)
}

/// The items of `s` that appear in listings under `prefix`, in catalog
/// order.
pub open spec fn listing_of(s: Seq<VideoMeta>, prefix: Seq<char>) -> Seq<VideoMeta>
    decreases s.len(),
{
    if s.len() == 0 {
        Seq::empty()
    } else {
        let rest = listing_of(s.drop_last(), prefix);
        if listed(s.last(), prefix) {
            rest.push(s.last())
        } else {
            rest
        }
    }
}

proof fn lemma_listing_step(s: Seq<VideoMeta>, prefix: Seq<char>, k: int)
    requires
        0 <= k < s.len(),
    ensures
        listing_of(s.take(k + 1), prefix) == if listed(s[k], prefix) {
            listing_of(s.take(k), prefix).push(s[k])
        } else {
            listing_of(s.take(k), prefix)
        },
{
    let t = s.take(k + 1);
    assert(t.drop_last() =~= s.take(k));
    assert(t.last() == s[k]);
}

/// Newest first: timestamps never increase along the sequence.
pub open spec fn sorted_desc(s: Seq<VideoMeta>) -> bool {
    forall|a: int, b: int|
        0 <= a < b < s.len() ==> (#[trigger] s[a]).uploaded_at >= (#[trigger] s[b]).uploaded_at
}

#[verifier::rlimit(60)]
#[verifier::spinoff_prover]
fn insert_sorted_desc(out: &mut Vec<VideoMeta>, x: VideoMeta)
    requires
        sorted_desc(old(out)@),
    ensures
        sorted_desc(final(out)@),
        final(out)@.to_multiset() == old(out)@.to_multiset().insert(x),
        final(out)@.len() == old(out)@.len() + 1,
{
    let n = out.len();
    let mut p: usize = 0;
    while p < n && out[p].uploaded_at >= x.uploaded_at
        invariant
            0 <= p <= n,
            n == out@.len(),
            forall|a: int| 0 <= a < p ==> (#[trigger] out@[a]).uploaded_at >= x.uploaded_at,
        decreases n - p,
    {
        p += 1;
    }
    let ghost s = out@;
    let ghost pp = p as int;
    out.insert(p, x);
    proof {
        assert(out@ =~= (s.take(pp).push(x)) + s.skip(pp));
        vstd::seq_lib::lemma_multiset_commutative(s.take(pp).push(x), s.skip(pp));
        vstd::seq_lib::lemma_multiset_commutative(s.take(pp), s.skip(pp));
        s.take(pp).to_multiset_ensures();
        assert(s =~= s.take(pp) + s.skip(pp));
        assert(out@.to_multiset() =~= s.to_multiset().insert(x));
        assert forall|a: int, b: int| 0 <= a < b < out@.len() implies (
        #[trigger] out@[a]).uploaded_at >= (#[trigger] out@[b]).uploaded_at by {
            if b < pp {
                assert(out@[a] == s[a] && out@[b] == s[b]);
            } else if a > pp {
                assert(out@[a] == s[a - 1] && out@[b] == s[b - 1]);
            } else if a < pp && b == pp {
                assert(out@[a] == s[a] && out@[b] == x);
                assert(s[a].uploaded_at >= x.uploaded_at);
            } else {
                assert(b > pp);
                assert(out@[b] == s[b - 1]);
                assert(pp < s.len());
                assert(s[pp].uploaded_at < x.uploaded_at);
                if b - 1 > pp {
                    assert(s[pp].uploaded_at >= s[b - 1].uploaded_at);
                }
                if a == pp {
                    assert(out@[a] == x);
                } else {
                    assert(a < pp);
                    assert(out@[a] == s[a]);
                    assert(s[a].uploaded_at >= x.uploaded_at);
                }
            }
        }
    }
}

impl Catalog {
    /// Sets the adult-content flag of an item; moderation-only in the
    /// routes above this call.
    pub fn set_nsfw(&mut self, id: &str, value: bool) -> (r: Result<VideoMeta, AppError>)
        requires
            old(self).wf(),
        ensures
            final(self).wf(),
            final(self).exact_index@ == old(self).exact_index@,
            final(self).fuzzy_index@ == old(self).fuzzy_index@,
            final(self).files@ == old(self).files@,
            match r {
                Ok(updated) => {
                    &&& has_item_id(old(self).items@, id@)
                    &&& updated == (VideoMeta { nsfw: value, ..item_at(old(self).items@, id@) })
                    &&& final(self).items@ == old(self).items@.update(
                        item_idx(old(self).items@, id@),
                        updated,
                    )
                },
                Err(e) => {
                    &&& e is VideoNotFound
                    &&& !has_item_id(old(self).items@, id@)
                    &&& final(self).items@ == old(self).items@
                },
            },
    {
        let i = match self.find_index(id) {
            Some(i) => i,
            None => {
                return Err(AppError::VideoNotFound);
            },
        };
        proof {
            lemma_item_at(old(self).items@, id@, i as int);
        }
        let mut m = self.items.remove(i);
        m.nsfw = value;
        let updated = m.clone();
        self.items.insert(i, m);
        proof {
            let olds = old(self).items@;
            let items = self.items@;
            assert(items =~= olds.update(i as int, updated));
            assert forall|a: int| 0 <= a < items.len() implies items[a] == (if a == i {
                updated
            } else {
                olds[a]
            }) by {}
            assert forall|a: int, b: int| 0 <= a < b < items.len() implies (
            #[trigger] items[a]).id@ != (#[trigger] items[b]).id@ by {
                assert(olds[a].id@ != olds[b].id@);
            }
            assert forall|a: int, b: int|
                0 <= a < items.len() && 0 <= b < items.len() && references_id_of(
                    #[trigger] items[a],
                    (#[trigger] items[b]).id@,
                ) implies items[b].is_owning() by {
                assert(references_id_of(olds[a], olds[b].id@));
            }
            assert forall|a: int, b: int|
                0 <= a < items.len() && 0 <= b < items.len() && references_id_of(
                    #[trigger] items[a],
                    (#[trigger] items[b]).id@,
                ) implies items[a].filename@ == items[b].filename@ by {
                assert(references_id_of(olds[a], olds[b].id@));
                assert(items[a].filename@ == olds[a].filename@);
                assert(items[b].filename@ == olds[b].filename@);
            }
            assert forall|a: int, b: int|
                0 <= a < b < items.len() && (#[trigger] items[a]).is_owning() && (
                #[trigger] items[b]).is_owning() implies items[a].filename@
                != items[b].filename@ by {
                assert(olds[a].is_owning() && olds[b].is_owning());
            }
            assert forall|a: int|
                0 <= a < items.len() && (#[trigger] items[a]).is_owning() implies has_file(
                self.files@,
                items[a].filename@,
            ) by {
                assert(olds[a].is_owning());
            }
        }
        Ok(updated)
    }

    /// Toggles whether an item accepts comments. Only the item's owner or
    /// an admin may do so.
    pub fn set_comments_disabled(
        &mut self,
        id: &str,
        value: bool,
        user: &PlatformUser,
        is_admin: bool,
    ) -> (r: Result<VideoMeta, AppError>)
        requires
            old(self).wf(),
        ensures
            final(self).wf(),
            final(self).exact_index@ == old(self).exact_index@,
            final(self).fuzzy_index@ == old(self).fuzzy_index@,
            final(self).files@ == old(self).files@,
            match r {
                Ok(updated) => {
                    &&& has_item_id(old(self).items@, id@)
                    &&& {
                        let m = item_at(old(self).items@, id@);
                        &&& (is_admin || (m.uploaded_by_id == user.id && m.uploaded_by_provider@
                            == user.provider@))
                        &&& updated == (VideoMeta { comments_disabled: value, ..m })
                        &&& final(self).items@ == old(self).items@.update(
                            item_idx(old(self).items@, id@),
                            updated,
                        )
                    }
                },
                Err(e) => {
                    &&& final(self).items@ == old(self).items@
                    &&& match e {
                        AppError::VideoNotFound => !has_item_id(old(self).items@, id@),
                        AppError::Forbidden => {
                            &&& has_item_id(old(self).items@, id@)
                            &&& !is_admin
                            &&& {
                                let m = item_at(old(self).items@, id@);
                                !(m.uploaded_by_id == user.id && m.uploaded_by_provider@
                                    == user.provider@)
                            }
                        },
                        _ => false,
                    }
                },
            },
    {
        let i = match self.find_index(id) {
            Some(i) => i,
            None => {
                return Err(AppError::VideoNotFound);
            },
        };
        proof {
            lemma_item_at(old(self).items@, id@, i as int);
        }
        let is_owner = self.items[i].uploaded_by_id == user.id && str_eq(
            self.items[i].uploaded_by_provider.as_str(),
            user.provider.as_str(),
        );
        if !is_owner && !is_admin {
            return Err(AppError::Forbidden);
        }
        let mut m = self.items.remove(i);
        m.comments_disabled = value;
        let updated = m.clone();
        self.items.insert(i, m);
        proof {
            let olds = old(self).items@;
            let items = self.items@;
            assert(items =~= olds.update(i as int, updated));
            assert forall|a: int| 0 <= a < items.len() implies items[a] == (if a == i {
                updated
            } else {
                olds[a]
            }) by {}
            assert forall|a: int, b: int| 0 <= a < b < items.len() implies (
            #[trigger] items[a]).id@ != (#[trigger] items[b]).id@ by {
                assert(olds[a].id@ != olds[b].id@);
            }
            assert forall|a: int, b: int|
                0 <= a < items.len() && 0 <= b < items.len() && references_id_of(
                    #[trigger] items[a],
                    (#[trigger] items[b]).id@,
                ) implies items[b].is_owning() by {
                assert(references_id_of(olds[a], olds[b].id@));
            }
            assert forall|a: int, b: int|
                0 <= a < items.len() && 0 <= b < items.len() && references_id_of(
                    #[trigger] items[a],
                    (#[trigger] items[b]).id@,
                ) implies items[a].filename@ == items[b].filename@ by {
                assert(references_id_of(olds[a], olds[b].id@));
                assert(items[a].filename@ == olds[a].filename@);
                assert(items[b].filename@ == olds[b].filename@);
            }
            assert forall|a: int, b: int|
                0 <= a < b < items.len() && (#[trigger] items[a]).is_owning() && (
                #[trigger] items[b]).is_owning() implies items[a].filename@
                != items[b].filename@ by {
                assert(olds[a].is_owning() && olds[b].is_owning());
            }
            assert forall|a: int|
                0 <= a < items.len() && (#[trigger] items[a]).is_owning() implies has_file(
                self.files@,
                items[a].filename@,
            ) by {
                assert(olds[a].is_owning());
            }
        }
        Ok(updated)
    }

    /// The items listed under a content-type prefix, newest first.
    pub fn handle_list(&self, prefix: &str) -> (r: Vec<VideoMeta>)
        ensures
            sorted_desc(r@),
            r@.to_multiset() == listing_of(self.items@, prefix@).to_multiset(),
    {
        let n = self.items.len();
        let mut out: Vec<VideoMeta> = Vec::new();
        let mut k: usize = 0;
        while k < n
            invariant
                0 <= k <= n,
                n == self.items@.len(),
                sorted_desc(out@),
                out@.to_multiset() == listing_of(self.items@.take(k as int), prefix@).to_multiset(),
            decreases n - k,
        {
            proof {
                lemma_listing_step(self.items@, prefix@, k as int);
                listing_of(self.items@.take(k as int), prefix@).to_multiset_ensures();
            }
            let m = &self.items[k];
            if !m.unlisted && crate::strutil::str_starts_with(m.content_type.as_str(), prefix) {
                insert_sorted_desc(&mut out, m.clone());
            }
            k += 1;
        }
        proof {
            assert(self.items@.take(n as int) =~= self.items@);
        }
        out
    }
}

/// The invariants a sequence of items can satisfy on its own: unique ids,
/// one-hop references, and distinct owning filenames.
pub open spec fn items_wf(items: Seq<VideoMeta>) -> bool {
    &&& items_ids_unique(items)
    &&& items_one_hop(items)
    &&& refs_share_filename(items)
    &&& owning_filenames_distinct(items)
}

/// True when some owning item in `items` records `name` as its filename.
pub open spec fn owner_holds_file(items: Seq<VideoMeta>, name: Seq<char>) -> bool {
    exists|t: int|
        0 <= t < items.len() && (#[trigger] items[t]).is_owning() && items[t].filename@ == name
}

/// Every file's name is some owning item's filename.
pub open spec fn files_from_owners(items: Seq<VideoMeta>, files: Seq<String>) -> bool {
    forall|w: int| #![trigger files[w]]
        0 <= w < files.len() ==> owner_holds_file(items, files[w]@)
}

/// True when `m` is one of the first `j` records of `metas`.
pub open spec fn from_metas(metas: Seq<VideoMeta>, m: VideoMeta, j: int) -> bool {
    exists|j2: int| 0 <= j2 < j && m == #[trigger] metas[j2]
}

/// Every item is one of the first `j` recovered records.
pub open spec fn items_from(items: Seq<VideoMeta>, metas: Seq<VideoMeta>, j: int) -> bool {
    forall|k: int| #![trigger items[k]]
        0 <= k < items.len() ==> from_metas(metas, items[k], j)
}

/// True when some present owning item carries exactly this entry's id and
/// digest.
pub open spec fn exact_entry_from(items: Seq<VideoMeta>, e: ExactEntry) -> bool {
    exists|t: int|
        0 <= t < items.len() && (#[trigger] items[t]).is_owning() && items[t].id@ == e.item_id@
            && items[t].sha256@ == e.sha256@
}

/// The exact-hash index matches the items exactly: every entry names a
/// present owning item whose digest is the entry's key, and every present
/// owning item's digest is indexed.
pub open spec fn exact_index_matches(items: Seq<VideoMeta>, ix: Seq<ExactEntry>) -> bool {
    &&& forall|k: int| #![trigger ix[k]] 0 <= k < ix.len() ==> exact_entry_from(items, ix[k])
    &&& forall|t: int| #![trigger items[t]]
        0 <= t < items.len() && items[t].is_owning() ==> has_exact(ix, items[t].sha256@)
}

/// True when the fuzzy-hash index has an entry binding `id` to `tlsh`.
pub open spec fn fuzzy_entry_for(ix: Seq<FuzzyEntry>, id: Seq<char>, tlsh: Seq<char>) -> bool {
    exists|k: int| 0 <= k < ix.len() && (#[trigger] ix[k]).item_id@ == id && ix[k].tlsh@ == tlsh
}

/// True when some present owning item carries exactly this entry's id and
/// fuzzy digest.
pub open spec fn fuzzy_entry_from(items: Seq<VideoMeta>, e: FuzzyEntry) -> bool {
    exists|t: int|
        0 <= t < items.len() && (#[trigger] items[t]).is_owning() && items[t].id@ == e.item_id@
            && (match items[t].tlsh_hash {
            Some(h) => h@ == e.tlsh@,
            None => false,
        })
}

/// The fuzzy-hash index matches the items exactly: every entry is a
/// present owning item's id bound to that item's fuzzy digest, and every
/// present owning item that carries one is indexed under it.
pub open spec fn fuzzy_index_matches(items: Seq<VideoMeta>, ix: Seq<FuzzyEntry>) -> bool {
    &&& forall|k: int| #![trigger ix[k]] 0 <= k < ix.len() ==> fuzzy_entry_from(items, ix[k])
    &&& forall|t: int| #![trigger items[t]]
        0 <= t < items.len() && items[t].is_owning() && items[t].tlsh_hash is Some
            ==> fuzzy_entry_for(ix, items[t].id@, items[t].tlsh_hash->0@)
}

#[verifier::rlimit(60)]
#[verifier::spinoff_prover]
proof fn recover_push_wf(pre: Catalog, cur: Catalog, metas: Seq<VideoMeta>, j: int)
    requires
        pre.wf(),
        0 <= j < metas.len(),
        cur.items@ == pre.items@.push(metas[j]),
        !has_item_id(pre.items@, metas[j].id@),
        metas[j].is_owning() ==> !has_file(pre.files@, metas[j].filename@),
        metas[j].is_owning() ==> cur.files@.len() == pre.files@.len() + 1 && cur.files@.drop_last()
            == pre.files@ && cur.files@.last()@ == metas[j].filename@,
        !metas[j].is_owning() ==> cur.files@ == pre.files@,
        (metas[j].is_owning() && !has_exact(pre.exact_index@, metas[j].sha256@))
            ==> cur.exact_index@.len() == pre.exact_index@.len() + 1 && cur.exact_index@.drop_last()
            == pre.exact_index@ && cur.exact_index@.last().sha256@ == metas[j].sha256@
            && cur.exact_index@.last().item_id@ == metas[j].id@,
        (!metas[j].is_owning() || has_exact(pre.exact_index@, metas[j].sha256@))
            ==> cur.exact_index@ == pre.exact_index@,
        !metas[j].is_owning() ==> metas[j].references_id->0@ != metas[j].id@,
        !metas[j].is_owning() ==> !(has_item_id(pre.items@, metas[j].references_id->0@)
            && !item_at(pre.items@, metas[j].references_id->0@).is_owning()),
        !metas[j].is_owning() ==> !(has_item_id(pre.items@, metas[j].references_id->0@)
            && item_at(pre.items@, metas[j].references_id->0@).filename@ != metas[j].filename@),
        !metas[j].is_owning() ==> !any_references(pre.items@, metas[j].id@),
        metas[j].is_owning() ==> !ref_filename_conflict(
            pre.items@,
            metas[j].id@,
            metas[j].filename@,
        ),
    ensures
        cur.wf(),
{
    let items = cur.items@;
    let olds = pre.items@;
    let mm = metas[j];
    assert forall|a: int, b: int| 0 <= a < b < items.len() implies (#[trigger] items[a]).id@ != (
    #[trigger] items[b]).id@ by {
        if b == items.len() - 1 {
            assert(items[a] == olds[a]);
            assert(!has_item_id(olds, items[b].id@));
        } else {
            assert(items[a] == olds[a] && items[b] == olds[b]);
        }
    }
    assert forall|a: int, b: int|
        0 <= a < items.len() && 0 <= b < items.len() && references_id_of(
            #[trigger] items[a],
            (#[trigger] items[b]).id@,
        ) implies items[b].is_owning() by {
        if a < items.len() - 1 && b < items.len() - 1 {
            assert(items[a] == olds[a] && items[b] == olds[b]);
        } else if a == items.len() - 1 && b < items.len() - 1 {
            assert(items[b] == olds[b]);
            assert(!mm.is_owning());
            let rid = mm.references_id->0@;
            assert(rid == olds[b].id@);
            assert(has_item_id(olds, rid));
            lemma_item_at(olds, rid, b);
            assert(item_at(olds, rid).is_owning());
        } else if a < items.len() - 1 && b == items.len() - 1 {
            assert(items[a] == olds[a]);
            assert(any_references(olds, mm.id@));
            assert(!mm.is_owning() ==> false);
        } else {
            if !mm.is_owning() {
                assert(mm.references_id->0@ != mm.id@);
            }
        }
    }
    assert forall|a: int, b: int|
        0 <= a < items.len() && 0 <= b < items.len() && references_id_of(
            #[trigger] items[a],
            (#[trigger] items[b]).id@,
        ) implies items[a].filename@ == items[b].filename@ by {
        if a < items.len() - 1 && b < items.len() - 1 {
            assert(items[a] == olds[a] && items[b] == olds[b]);
        } else if a == items.len() - 1 && b < items.len() - 1 {
            assert(items[b] == olds[b]);
            assert(!mm.is_owning());
            let rid = mm.references_id->0@;
            assert(rid == olds[b].id@);
            assert(has_item_id(olds, rid));
            lemma_item_at(olds, rid, b);
            assert(item_at(olds, rid).filename@ == mm.filename@);
        } else if a < items.len() - 1 && b == items.len() - 1 {
            assert(items[a] == olds[a]);
            assert(any_references(olds, mm.id@));
            assert(!mm.is_owning() ==> false);
            assert(!ref_filename_conflict(olds, mm.id@, mm.filename@));
            assert(olds[a].filename@ == mm.filename@);
        } else {
            if !mm.is_owning() {
                assert(mm.references_id->0@ != mm.id@);
            }
        }
    }
    assert forall|a: int, b: int|
        0 <= a < b < items.len() && (#[trigger] items[a]).is_owning() && (
        #[trigger] items[b]).is_owning() implies items[a].filename@ != items[b].filename@ by {
        if b == items.len() - 1 {
            assert(items[a] == olds[a]);
            assert(has_file(pre.files@, items[a].filename@));
            assert(!has_file(pre.files@, mm.filename@));
        } else {
            assert(items[a] == olds[a] && items[b] == olds[b]);
        }
    }
    assert forall|a: int|
        0 <= a < items.len() && (#[trigger] items[a]).is_owning() implies has_file(
        cur.files@,
        items[a].filename@,
    ) by {
        if a < items.len() - 1 {
            assert(items[a] == olds[a]);
            assert(has_file(pre.files@, items[a].filename@));
            let w = choose|w: int| 0 <= w < pre.files@.len() && pre.files@[w]@ == items[a].filename@;
            if mm.is_owning() {
                assert(cur.files@[w] == cur.files@.drop_last()[w]);
                assert(cur.files@[w]@ == items[a].filename@);
            }
        } else {
            if mm.is_owning() {
                assert(cur.files@.last()@ == mm.filename@);
                assert(cur.files@[cur.files@.len() - 1]@ == mm.filename@);
            }
        }
    }
    assert forall|a: int, b: int| 0 <= a < b < cur.exact_index@.len() implies (
    #[trigger] cur.exact_index@[a]).sha256@ != (#[trigger] cur.exact_index@[b]).sha256@ by {
        if cur.exact_index@.len() == pre.exact_index@.len() + 1 {
            if b == cur.exact_index@.len() - 1 {
                assert(cur.exact_index@[a] == cur.exact_index@.drop_last()[a]);
                assert(cur.exact_index@[a] == pre.exact_index@[a]);
                assert(!has_exact(pre.exact_index@, cur.exact_index@[b].sha256@));
            } else {
                assert(cur.exact_index@[a] == pre.exact_index@[a]);
                assert(cur.exact_index@[b] == pre.exact_index@[b]);
            }
        } else {
            assert(cur.exact_index@ == pre.exact_index@);
        }
    }
    assert forall|a: int, b: int| 0 <= a < b < cur.files@.len() implies cur.files@[a]@
        != cur.files@[b]@ by {
        if cur.files@.len() == pre.files@.len() + 1 {
            if b == cur.files@.len() - 1 {
                assert(cur.files@[a] == pre.files@[a]);
                assert(!has_file(pre.files@, cur.files@[b]@));
            } else {
                assert(cur.files@[a] == pre.files@[a]);
                assert(cur.files@[b] == pre.files@[b]);
            }
        } else {
            assert(cur.files@ == pre.files@);
        }
    }
}

#[verifier::rlimit(60)]
#[verifier::spinoff_prover]
proof fn recover_push_provenance(pre: Catalog, cur: Catalog, metas: Seq<VideoMeta>, j: int)
    requires
        pre.wf(),
        0 <= j < metas.len(),
        items_from(pre.items@, metas, j),
        files_from_owners(pre.items@, pre.files@),
        items_wf(metas) ==> pre.items@ == metas.take(j),
        cur.items@ == pre.items@.push(metas[j]),
        metas[j].is_owning() ==> !has_file(pre.files@, metas[j].filename@),
        metas[j].is_owning() ==> cur.files@.len() == pre.files@.len() + 1 && cur.files@.drop_last()
            == pre.files@ && cur.files@.last()@ == metas[j].filename@,
        !metas[j].is_owning() ==> cur.files@ == pre.files@,
    ensures
        items_from(cur.items@, metas, j + 1),
        files_from_owners(cur.items@, cur.files@),
        items_wf(metas) ==> cur.items@ == metas.take(j + 1),
{
    let items = cur.items@;
    let olds = pre.items@;
    let mm = metas[j];
    assert forall|k: int| #![trigger items[k]] 0 <= k < items.len() implies from_metas(
        metas,
        items[k],
        j + 1,
    ) by {
        if k < items.len() - 1 {
            assert(items[k] == olds[k]);
            assert(from_metas(metas, olds[k], j));
            let j2 = choose|j2: int| 0 <= j2 < j && olds[k] == metas[j2];
            assert(items[k] == metas[j2]);
        } else {
            assert(items[k] == metas[j]);
        }
    }
    assert forall|w: int| #![trigger cur.files@[w]] 0 <= w < cur.files@.len() implies
        owner_holds_file(cur.items@, cur.files@[w]@) by {
        if mm.is_owning() && w == cur.files@.len() - 1 && cur.files@.len() == pre.files@.len()
            + 1 {
            let t = cur.items@.len() - 1;
            assert(cur.items@[t] == mm);
            assert(cur.files@[w]@ == mm.filename@);
        } else {
            if mm.is_owning() {
                assert(w < cur.files@.len() - 1);
                assert(cur.files@[w] == cur.files@.drop_last()[w]);
            }
            assert(cur.files@[w] == pre.files@[w]);
            assert(owner_holds_file(pre.items@, pre.files@[w]@));
            let t = choose|t: int|
                0 <= t < pre.items@.len() && (#[trigger] pre.items@[t]).is_owning()
                    && pre.items@[t].filename@ == pre.files@[w]@;
            assert(cur.items@[t] == pre.items@[t]);
            assert(cur.items@[t].filename@ == cur.files@[w]@);
        }
    }
    if items_wf(metas) {
        assert(metas.take(j + 1) =~= metas.take(j).push(mm));
    }
}

#[verifier::rlimit(100)]
#[verifier::spinoff_prover]
proof fn recover_push_indices(pre: Catalog, cur: Catalog, metas: Seq<VideoMeta>, j: int)
    requires
        pre.wf(),
        0 <= j < metas.len(),
        exact_index_matches(pre.items@, pre.exact_index@),
        fuzzy_index_matches(pre.items@, pre.fuzzy_index@),
        cur.items@ == pre.items@.push(metas[j]),
        !has_item_id(pre.items@, metas[j].id@),
        (metas[j].is_owning() && !has_exact(pre.exact_index@, metas[j].sha256@))
            ==> cur.exact_index@.len() == pre.exact_index@.len() + 1 && cur.exact_index@.drop_last()
            == pre.exact_index@ && cur.exact_index@.last().sha256@ == metas[j].sha256@
            && cur.exact_index@.last().item_id@ == metas[j].id@,
        (!metas[j].is_owning() || has_exact(pre.exact_index@, metas[j].sha256@))
            ==> cur.exact_index@ == pre.exact_index@,
        (metas[j].is_owning() && metas[j].tlsh_hash is Some) ==> cur.fuzzy_index@.len()
            == pre.fuzzy_index@.len() + 1 && cur.fuzzy_index@.drop_last() == pre.fuzzy_index@
            && cur.fuzzy_index@.last().item_id@ == metas[j].id@ && cur.fuzzy_index@.last().tlsh@
            == metas[j].tlsh_hash->0@,
        (!metas[j].is_owning() || metas[j].tlsh_hash is None) ==> cur.fuzzy_index@
            == pre.fuzzy_index@,
    ensures
        exact_index_matches(cur.items@, cur.exact_index@),
        fuzzy_index_matches(cur.items@, cur.fuzzy_index@),
{
    let items = cur.items@;
    let olds = pre.items@;
    let mm = metas[j];
    assert forall|k: int| #![trigger cur.exact_index@[k]]
        0 <= k < cur.exact_index@.len() implies exact_entry_from(
        cur.items@,
        cur.exact_index@[k],
    ) by {
        if k < pre.exact_index@.len() {
            if cur.exact_index@.len() == pre.exact_index@.len() + 1 {
                assert(cur.exact_index@[k] == cur.exact_index@.drop_last()[k]);
            }
            assert(cur.exact_index@[k] == pre.exact_index@[k]);
            assert(exact_entry_from(pre.items@, pre.exact_index@[k]));
            let t = choose|t: int|
                0 <= t < pre.items@.len() && (#[trigger] pre.items@[t]).is_owning()
                    && pre.items@[t].id@ == pre.exact_index@[k].item_id@ && pre.items@[t].sha256@
                    == pre.exact_index@[k].sha256@;
            assert(cur.items@[t] == pre.items@[t]);
        } else {
            assert(cur.exact_index@.len() > pre.exact_index@.len());
            assert(mm.is_owning() && !has_exact(pre.exact_index@, mm.sha256@));
            let t = cur.items@.len() - 1;
            assert(cur.items@[t] == mm);
            assert(cur.exact_index@[k] == cur.exact_index@.last());
            assert(cur.items@[t].id@ == cur.exact_index@[k].item_id@);
            assert(cur.items@[t].sha256@ == cur.exact_index@[k].sha256@);
        }
    }
    assert forall|k: int| #![trigger cur.fuzzy_index@[k]]
        0 <= k < cur.fuzzy_index@.len() implies fuzzy_entry_from(
        cur.items@,
        cur.fuzzy_index@[k],
    ) by {
        if k < pre.fuzzy_index@.len() {
            if cur.fuzzy_index@.len() == pre.fuzzy_index@.len() + 1 {
                assert(cur.fuzzy_index@[k] == cur.fuzzy_index@.drop_last()[k]);
            }
            assert(cur.fuzzy_index@[k] == pre.fuzzy_index@[k]);
            assert(fuzzy_entry_from(pre.items@, pre.fuzzy_index@[k]));
            let t = choose|t: int|
                0 <= t < pre.items@.len() && (#[trigger] pre.items@[t]).is_owning()
                    && pre.items@[t].id@ == pre.fuzzy_index@[k].item_id@ && (
                match pre.items@[t].tlsh_hash {
                    Some(h) => h@ == pre.fuzzy_index@[k].tlsh@,
                    None => false,
                });
            assert(cur.items@[t] == pre.items@[t]);
        } else {
            assert(cur.fuzzy_index@.len() > pre.fuzzy_index@.len());
            assert(mm.is_owning() && mm.tlsh_hash is Some);
            let t = cur.items@.len() - 1;
            assert(cur.items@[t] == mm);
            assert(cur.fuzzy_index@[k] == cur.fuzzy_index@.last());
            assert(cur.items@[t].id@ == cur.fuzzy_index@[k].item_id@);
            assert(cur.fuzzy_index@[k].tlsh@ == mm.tlsh_hash->0@);
        }
    }
    assert forall|t: int| #![trigger cur.items@[t]]
        0 <= t < cur.items@.len() && cur.items@[t].is_owning() implies has_exact(
        cur.exact_index@,
        cur.items@[t].sha256@,
    ) by {
        if t < cur.items@.len() - 1 {
            assert(cur.items@[t] == olds[t]);
            assert(has_exact(pre.exact_index@, olds[t].sha256@));
            let w = choose|w: int|
                0 <= w < pre.exact_index@.len() && pre.exact_index@[w].sha256@ == olds[t].sha256@;
            if cur.exact_index@.len() == pre.exact_index@.len() + 1 {
                assert(cur.exact_index@[w] == cur.exact_index@.drop_last()[w]);
            }
            assert(cur.exact_index@[w].sha256@ == cur.items@[t].sha256@);
        } else {
            if mm.is_owning() {
                if has_exact(pre.exact_index@, mm.sha256@) {
                    let w = choose|w: int|
                        0 <= w < pre.exact_index@.len() && pre.exact_index@[w].sha256@
                            == mm.sha256@;
                    assert(cur.exact_index@[w].sha256@ == mm.sha256@);
                } else {
                    assert(cur.exact_index@.last().sha256@ == mm.sha256@);
                    assert(cur.exact_index@[cur.exact_index@.len() - 1].sha256@ == mm.sha256@);
                }
            }
        }
    }
    assert forall|t: int| #![trigger cur.items@[t]]
        0 <= t < cur.items@.len() && cur.items@[t].is_owning() && cur.items@[t].tlsh_hash is Some
            implies fuzzy_entry_for(
        cur.fuzzy_index@,
        cur.items@[t].id@,
        cur.items@[t].tlsh_hash->0@,
    ) by {
        if t < cur.items@.len() - 1 {
            assert(cur.items@[t] == olds[t]);
            assert(fuzzy_entry_for(pre.fuzzy_index@, olds[t].id@, olds[t].tlsh_hash->0@));
            let w = choose|w: int|
                0 <= w < pre.fuzzy_index@.len() && (#[trigger] pre.fuzzy_index@[w]).item_id@
                    == olds[t].id@ && pre.fuzzy_index@[w].tlsh@ == olds[t].tlsh_hash->0@;
            if cur.fuzzy_index@.len() == pre.fuzzy_index@.len() + 1 {
                assert(cur.fuzzy_index@[w] == cur.fuzzy_index@.drop_last()[w]);
            }
            assert(cur.fuzzy_index@[w] == pre.fuzzy_index@[w]);
        } else {
            assert(cur.fuzzy_index@.len() > pre.fuzzy_index@.len());
            assert(cur.fuzzy_index@.last().item_id@ == mm.id@);
            assert(cur.fuzzy_index@[cur.fuzzy_index@.len() - 1].item_id@ == mm.id@);
            assert(cur.fuzzy_index@[cur.fuzzy_index@.len() - 1].tlsh@ == mm.tlsh_hash->0@);
        }
    }
}

proof fn recover_no_skip(cur: Catalog, metas: Seq<VideoMeta>, j: int)
    requires
        items_wf(metas),
        0 <= j < metas.len(),
        cur.wf(),
        files_from_owners(cur.items@, cur.files@),
        cur.items@ == metas.take(j),
    ensures
        !has_item_id(cur.items@, metas[j].id@),
        metas[j].is_owning() ==> !has_file(cur.files@, metas[j].filename@),
        !metas[j].is_owning() ==> metas[j].references_id->0@ != metas[j].id@,
        !metas[j].is_owning() ==> !(has_item_id(cur.items@, metas[j].references_id->0@)
            && !item_at(cur.items@, metas[j].references_id->0@).is_owning()),
        !metas[j].is_owning() ==> !(has_item_id(cur.items@, metas[j].references_id->0@)
            && item_at(cur.items@, metas[j].references_id->0@).filename@ != metas[j].filename@),
        !metas[j].is_owning() ==> !any_references(cur.items@, metas[j].id@),
        metas[j].is_owning() ==> !ref_filename_conflict(
            cur.items@,
            metas[j].id@,
            metas[j].filename@,
        ),
{
    let taken = cur.items@;
    let mm = metas[j];
    assert forall|k: int| 0 <= k < taken.len() implies (#[trigger] taken[k]).id@ != mm.id@ by {
        assert(taken[k] == metas[k]);
        assert(metas[k].id@ != metas[j].id@);
    }
    if mm.is_owning() {
        assert forall|w: int| 0 <= w < cur.files@.len() implies (#[trigger] cur.files@[w])@
            != mm.filename@ by {
            assert(owner_holds_file(taken, cur.files@[w]@));
            let t = choose|t: int|
                0 <= t < taken.len() && (#[trigger] taken[t]).is_owning() && taken[t].filename@
                    == cur.files@[w]@;
            assert(taken[t] == metas[t]);
            assert(metas[t].filename@ != metas[j].filename@);
        }
        assert forall|k: int|
            0 <= k < taken.len() implies !(references_id_of(#[trigger] taken[k], mm.id@)
                && taken[k].filename@ != mm.filename@) by {
            assert(taken[k] == metas[k]);
            if references_id_of(metas[k], metas[j].id@) {
                assert(metas[k].filename@ == metas[j].filename@);
            }
        }
    } else {
        let rid = mm.references_id->0@;
        if rid == mm.id@ {
            assert(references_id_of(metas[j], metas[j].id@));
            assert(metas[j].is_owning());
            assert(false);
        }
        if has_item_id(taken, rid) {
            let k = item_idx(taken, rid);
            assert(0 <= k < taken.len() && taken[k].id@ == rid);
            assert(taken[k] == metas[k]);
            assert(references_id_of(metas[j], metas[k].id@));
            assert(metas[k].is_owning());
            assert(metas[j].filename@ == metas[k].filename@);
            lemma_item_at(taken, rid, k);
        }
        assert forall|k: int| 0 <= k < taken.len() implies !references_id_of(
            #[trigger] taken[k],
            mm.id@,
        ) by {
            assert(taken[k] == metas[k]);
            if references_id_of(metas[k], metas[j].id@) {
                assert(metas[j].is_owning());
            }
        }
    }
}

impl Catalog {
    /// True when `rid` names a present item that a record with filename
    /// `filename` cannot reference: one that is itself a reference (the
    /// link would chain) or one whose backing file is not the record's.
    fn bad_link_target(&self, rid: &str, filename: &str) -> (r: bool)
        requires
            self.wf(),
        ensures
            r == (has_item_id(self.items@, rid@) && (!item_at(self.items@, rid@).is_owning()
                || item_at(self.items@, rid@).filename@ != filename@)),
    {
        match self.find_index(rid) {
            Some(t) => {
                proof {
                    lemma_item_at(self.items@, rid@, t as int);
                }
                self.items[t].references_id.is_some() || !str_eq(
                    self.items[t].filename.as_str(),
                    filename,
                )
            },
            None => false,
        }
    }

    /// Rebuilds the catalog from the metadata records recovered from disk.
    /// Every kept owning item is registered in the file set, in the
    /// exact-hash index, and, when it carries a fuzzy digest, in the
    /// fuzzy-hash index. A record that would break the catalog's
    /// invariants (a repeated id, a repeated owning filename, or a
    /// reference that does not reach an owning item in one hop) is
    /// dropped; on a well-formed record set nothing is dropped.
    #[verifier::rlimit(100)]
    #[verifier::spinoff_prover]
    pub fn recover(metas: Vec<VideoMeta>) -> (r: Catalog)
        ensures
            r.wf(),
            items_from(r.items@, metas@, metas@.len() as int),
            files_from_owners(r.items@, r.files@),
            exact_index_matches(r.items@, r.exact_index@),
            fuzzy_index_matches(r.items@, r.fuzzy_index@),
            items_wf(metas@) ==> r.items@ == metas@,
    {
        let n = metas.len();
        let mut cat = Catalog::new();
        let mut j: usize = 0;
        while j < n
            invariant
                0 <= j <= n,
                n == metas@.len(),
                cat.wf(),
                items_from(cat.items@, metas@, j as int),
                files_from_owners(cat.items@, cat.files@),
                exact_index_matches(cat.items@, cat.exact_index@),
                fuzzy_index_matches(cat.items@, cat.fuzzy_index@),
                items_wf(metas@) ==> cat.items@ == metas@.take(j as int),
            decreases n - j,
        {
            let ghost pre = cat;
            let m = &metas[j];
            let id_taken = cat.contains_item(m.id.as_str());
            let is_owning_item = m.references_id.is_none();
            let file_dup = if is_owning_item {
                cat.has_stored_file(m.filename.as_str())
            } else {
                false
            };
            let alias_conflict = if is_owning_item {
                cat.has_ref_filename_conflict(m.id.as_str(), m.filename.as_str())
            } else {
                false
            };
            let mut self_ref = false;
            let mut bad_target = false;
            let mut referenced = false;
            match &m.references_id {
                Some(rid) => {
                    self_ref = str_eq(rid.as_str(), m.id.as_str());
                    bad_target = cat.bad_link_target(rid.as_str(), m.filename.as_str());
                    referenced = cat.is_referenced(m.id.as_str());
                },
                None => {},
            }
            let skip = id_taken || file_dup || alias_conflict || self_ref || bad_target || referenced;
            if !skip {
                let item = m.clone();
                if is_owning_item {
                    let exact_present = match cat.exact_lookup(item.sha256.as_str()) {
                        Some(_) => true,
                        None => false,
                    };
                    cat.files.push(item.filename.clone());
                    if !exact_present {
                        cat.exact_index.push(
                            ExactEntry { sha256: item.sha256.clone(), item_id: item.id.clone() },
                        );
                    }
                    match &item.tlsh_hash {
                        Some(h) => {
                            cat.fuzzy_index.push(
                                FuzzyEntry { item_id: item.id.clone(), tlsh: h.clone() },
                            );
                        },
                        None => {},
                    }
                }
                cat.items.push(item);
                proof {
                    if is_owning_item {
                        assert(cat.files@.drop_last() =~= pre.files@);
                        if cat.exact_index@.len() == pre.exact_index@.len() + 1 {
                            assert(cat.exact_index@.drop_last() =~= pre.exact_index@);
                        }
                        if cat.fuzzy_index@.len() == pre.fuzzy_index@.len() + 1 {
                            assert(cat.fuzzy_index@.drop_last() =~= pre.fuzzy_index@);
                        }
                    }
                    recover_push_wf(pre, cat, metas@, j as int);
                    recover_push_provenance(pre, cat, metas@, j as int);
                    recover_push_indices(pre, cat, metas@, j as int);
                }
            } else {
                proof {
                    if items_wf(metas@) {
                        recover_no_skip(cat, metas@, j as int);
                        assert(!skip);
                    }
                }
            }
            j += 1;
        }
        proof {
            assert(metas@.take(n as int) =~= metas@);
        }
        cat
    }
}

} // verus!
