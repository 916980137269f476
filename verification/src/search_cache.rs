//! The cache of one search: what was matched, what changed since, and the pages that
//! are read from both.

use crate::keys;
use crate::keys::key_of;
use crate::outside;
use crate::outside::Bits;
use crate::rows;
use crate::scene::Scene;
use crate::search::FileEntry;
use crate::sort_cache;
use crate::sort_cache::unpack_matched;
use crate::text;
use crate::volume_map;
use crate::volume_map::{Shelf, ShelfModel, VolumeMap};
use std::collections::{BTreeMap, HashMap, HashSet};
use std::time::Instant;
use vstd::prelude::*;

verus! {

broadcast use {
    vstd::std_specs::hash::group_hash_axioms,
    vstd::std_specs::btree::group_btree_axioms,
    vstd::laws_cmp::group_laws_cmp,
};

/// How long a cache is good for, in seconds.
pub const CACHE_TTL_SECS: u64 = 3600;

/// What was matched when the search was made.
pub struct BaseCache {
    /// Packed positions of the matched files.
    pub matched: Vec<u32>,
    /// Changes whenever `matched` does.
    pub matched_generation: u64,
}

/// What changed since the volumes were scanned, and was not merged into them.
pub struct DeltaCache {
    /// Files that were added, with their volumes. Only ever appended to.
    pub new_files: Vec<(u8, FileEntry)>,
    /// Places in `new_files` by key.
    pub file_id_index: HashMap<u64, usize>,
    /// Keys of files that were removed.
    pub deleted_ids: HashSet<u64>,
    /// Keys that were removed and added again: they hide the matched file, but not the
    /// one that was added.
    pub renamed_fids: HashSet<u64>,
    /// Files that were changed, by key.
    pub modified: BTreeMap<u64, FileEntry>,
    /// Packed positions in `new_files` of the files that are not removed.
    pub matched: Vec<u32>,
    pub generation: u64,
}

/// A search and its results.
pub struct SearchCache {
    pub query: String,
    pub files_only: bool,
    pub directories_only: bool,
    pub created_at: Instant,
    pub base: BaseCache,
    pub delta: DeltaCache,
    /// How many matched files are shown, where it was counted; kept up to date from
    /// then on.
    pub active_base_count: Option<usize>,
    /// For each volume number one bit for each file id, set for those that were matched.
    pub base_file_bitvec: Option<Vec<Bits>>,
}

/// The query of a cache, where it is not blank.
pub open spec fn query_model(query: Seq<char>, today: i32) -> Option<crate::query::QueryModel> {
    if text::is_blank(query) {
        None
    } else {
        Some(crate::query::QueryModel::of_text(query, today))
    }
}

impl DeltaCache {
    /// No changes.
    pub fn new() -> (r: Self)
        ensures
            r.is_clear(),
            r.generation == 0,
    {
        DeltaCache {
            new_files: Vec::new(),
            file_id_index: HashMap::new(),
            deleted_ids: HashSet::new(),
            renamed_fids: HashSet::new(),
            modified: BTreeMap::new(),
            matched: Vec::new(),
            generation: 0,
        }
    }

    /// Whether nothing changed.
    pub open spec fn is_clear(&self) -> bool {
        &&& self.new_files@ == Seq::<(u8, FileEntry)>::empty()
        &&& self.file_id_index@ == Map::<u64, usize>::empty()
        &&& self.deleted_ids@ == Set::<u64>::empty()
        &&& self.renamed_fids@ == Set::<u64>::empty()
        &&& self.modified@ == Map::<u64, FileEntry>::empty()
        &&& self.matched@ == Seq::<u32>::empty()
    }
}

impl SearchCache {
    /// What the result list is made from, on the given volumes and day.
    pub open spec fn scene(&self, shelf: Seq<ShelfModel>, today: i32) -> Scene {
        Scene {
            shelf,
            matched: self.base.matched@,
            new_files: self.delta.new_files@,
            deleted: self.delta.deleted_ids@,
            renamed: self.delta.renamed_fids@,
            modified: self.delta.modified@,
            query: query_model(self.query@, today),
            files_only: self.files_only,
            directories_only: self.directories_only,
        }
    }

    /// Whether places fit 32 bits.
    pub open spec fn wf(&self) -> bool {
        self.base.matched@.len() <= u32::MAX
    }

    /// Whether nothing but the count of shown files differs.
    pub open spec fn same_but_count(&self, other: SearchCache) -> bool {
        &&& self.query == other.query
        &&& self.files_only == other.files_only
        &&& self.directories_only == other.directories_only
        &&& self.base == other.base
        &&& self.delta == other.delta
        &&& self.base_file_bitvec == other.base_file_bitvec
    }

    /// How many matched files are shown: what was counted, or what would be counted now.
    pub open spec fn base_count(&self, shelf: Seq<ShelfModel>, today: i32) -> int {
        let s = self.scene(shelf, today);
        if s.deleted.is_empty() && s.modified.is_empty() {
            s.base_places().len() as int
        } else {
            match self.active_base_count {
                Some(n) => n as int,
                None => s.active_count() as int,
            }
        }
    }

    /// How many rows the result list is taken to have.
    pub open spec fn claimed(&self, shelf: Seq<ShelfModel>, today: i32) -> int {
        rows::least(
            self.base_count(shelf, today) + self.scene(shelf, today).delta_rows().len(),
            usize::MAX as int,
        )
    }

    /// The same, where the shown files are not counted.
    pub open spec fn uncounted(&self) -> SearchCache {
        SearchCache { active_base_count: None, ..*self }
    }

    /// Whether this is the cache of a search that was just made, where `delta` changed
    /// before it.
    pub open spec fn is_fresh(
        &self,
        query: Seq<char>,
        files_only: bool,
        directories_only: bool,
        matched: Seq<u32>,
        generation: u64,
        delta: DeltaCache,
    ) -> bool {
        &&& self.query@ == query
        &&& self.files_only == files_only
        &&& self.directories_only == directories_only
        &&& self.base.matched@ == matched
        &&& self.base.matched_generation == generation
        &&& self.delta == delta
        &&& self.active_base_count is None
        &&& self.base_file_bitvec is None
    }

    /// The cache of a search that was made now, where `delta` changed before it.
    pub fn new(
        query: &str,
        files_only: bool,
        directories_only: bool,
        matched: Vec<u32>,
        generation: u64,
        delta: DeltaCache,
    ) -> (r: Self)
        ensures
            r.is_fresh(query@, files_only, directories_only, matched@, generation, delta),
    {
        SearchCache {
            query: query.to_string(),
            files_only,
            directories_only,
            created_at: outside::instant_now(),
            base: BaseCache { matched, matched_generation: generation },
            delta,
            active_base_count: None,
            base_file_bitvec: None,
        }
    }

    /// Whether a cache of this age, in seconds, is good.
    pub fn is_valid_at(age: u64) -> (r: bool)
        ensures
            r == (age < CACHE_TTL_SECS),
    {
        age < CACHE_TTL_SECS
    }

    /// Whether the cache is good now. Nothing is said of the result: it depends on the
    /// clock.
    pub fn is_valid(&self) -> (r: bool) {
        Self::is_valid_at(outside::seconds_since(&self.created_at))
    }

    /// Lets the cache be good from the moment `now` on.
    pub fn refresh_at(&mut self, now: Instant)
        ensures
            *final(self) == old(self).refreshed(now),
    {
        self.created_at = now;
    }

    /// Lets the cache be good from now on, by the clock.
    pub fn refresh(&mut self)
        ensures
            exists|now: Instant|
                *final(self) == (#[trigger] old(self).refreshed(now)),
    {
        let now = outside::instant_now();
        self.refresh_at(now);
        assert(*self == old(self).refreshed(now));
    }

    /// The cache where it is good from the moment `now` on.
    pub open spec fn refreshed(&self, now: Instant) -> SearchCache {
        SearchCache { created_at: now, ..*self }
    }

    /// Whether the matched file of volume `vol` with the id `fid` is not shown because it
    /// changed since.
    pub(crate) fn hides(&self, vol: u8, fid: u32) -> (r: bool)
        ensures
            r == (self.delta.deleted_ids@.contains(keys::key(vol, fid))
                || self.delta.modified@.contains_key(keys::key(vol, fid))),
    {
        let k: u64 = key_of(vol, fid);
        self.delta.deleted_ids.contains(&k) || self.delta.modified.contains_key(&k)
    }

    /// Whether the file `fid` of volume `vol` is marked in the bits of matched file ids.
    pub open spec fn marks(&self, vol: u8, fid: u32) -> bool {
        self.base_file_bitvec matches Some(b) && marked(b@, vol, fid)
    }

    /// Whether a matched file of volume `vol` has the id `fid`.
    pub open spec fn base_has(&self, shelf: Seq<ShelfModel>, vol: u8, fid: u32) -> bool {
        exists|i: int|
            0 <= i < self.base.matched@.len() && has_id(
                shelf,
                #[trigger] self.base.matched@[i],
                vol,
                fid,
            )
    }

    /// Whether `after` is the same cache with the bits of matched file ids. They are
    /// made where they are not there, but not where nothing was matched, nor where an id
    /// is over the number of bits that the machine can hold.
    pub open spec fn bits_made(&self, after: SearchCache, shelf: Seq<ShelfModel>) -> bool {
        &&& after.same_but_bits(*self)
        &&& if self.base_file_bitvec is Some {
            after.base_file_bitvec == self.base_file_bitvec
        } else if after.base_file_bitvec is Some {
            &&& self.base.matched@.len() > 0
            &&& forall|vol: u8, fid: u32| #[trigger]
                after.marks(vol, fid) <==> self.base_has(shelf, vol, fid)
        } else {
            ||| self.base.matched@.len() == 0
            ||| exists|vol: u8, fid: u32| #[trigger]
                self.base_has(shelf, vol, fid) && fid >= usize::MAX / 8
        }
    }

    /// For each volume of the shelf how many bits its matched file ids need; nothing
    /// where that is more than the machine can hold.
    fn bits_needed(&self, shelf: &Shelf) -> (r: Option<Vec<usize>>)
        requires
            shelf.wf(),
        ensures
            match r {
                Some(sizes) => {
                    &&& sizes@.len() == shelf@.len()
                    &&& forall|v: int|
                        0 <= v < sizes@.len() ==> #[trigger] sizes@[v] <= usize::MAX / 8
                    &&& forall|vol: u8, fid: u32| #[trigger]
                        self.base_has(shelf@, vol, fid) ==> fid < sizes@[vol as int]
                },
                None => exists|vol: u8, fid: u32| #[trigger]
                    self.base_has(shelf@, vol, fid) && fid >= usize::MAX / 8,
            },
    {
        let mut sizes: Vec<usize> = Vec::new();
        let mut n: usize = 0;
        while n < shelf.names.len()
            invariant
                n <= shelf.names@.len(),
                sizes@.len() == n,
                forall|v: int| 0 <= v < n ==> #[trigger] sizes@[v] == 0,
            decreases shelf.names@.len() - n,
        {
            sizes.push(0);
            n += 1;
        }
        let ghost matched = self.base.matched@;
        let mut i: usize = 0;
        while i < self.base.matched.len()
            invariant
                i <= matched.len(),
                matched == self.base.matched@,
                shelf.wf(),
                sizes@.len() == shelf@.len(),
                forall|v: int| 0 <= v < sizes@.len() ==> #[trigger] sizes@[v] <= usize::MAX / 8,
                forall|j: int, vol: u8, fid: u32|
                    0 <= j < i && #[trigger] has_id(shelf@, matched[j], vol, fid) ==> fid
                        < sizes@[vol as int],
            decreases matched.len() - i,
        {
            if let Some(f) = shelf.file(self.base.matched[i]) {
                let (vol, _) = unpack_matched(self.base.matched[i]);
                let fid: usize = f.file_id as usize;
                assert(has_id(shelf@, matched[i as int], vol, f.file_id));
                if fid >= usize::MAX / 8 {
                    assert(self.base_has(shelf@, vol, f.file_id));
                    return None;
                }
                if fid >= sizes[vol as usize] {
                    sizes[vol as usize] = fid + 1;
                }
            }
            i += 1;
        }
        proof {
            assert forall|vol: u8, fid: u32| #[trigger] self.base_has(shelf@, vol, fid) implies fid
                < sizes@[vol as int] by {
                let j = choose|j: int|
                    0 <= j < matched.len() && has_id(shelf@, #[trigger] matched[j], vol, fid);
                assert(has_id(shelf@, matched[j], vol, fid));
            }
        }
        Some(sizes)
    }

    /// Makes the bits of matched file ids, where they are not there. Gives whether they
    /// are there: not where nothing was matched, nor where an id is over the number of
    /// bits that the machine can hold.
    pub fn ensure_base_file_bitvec(&mut self, volumes: &VolumeMap, vol_names: &Vec<String>) -> (r:
        bool)
        requires
            volumes.wf(),
        ensures
            old(self).bits_made(*final(self), volume_map::shelf_of(volumes@, vol_names@)),
            r == (final(self).base_file_bitvec is Some),
    {
        if self.base_file_bitvec.is_some() {
            return true;
        }
        if self.base.matched.len() == 0 {
            return false;
        }
        let shelf = Shelf::new(volumes, vol_names);
        let ghost shelf_model = volume_map::shelf_of(volumes@, vol_names@);
        let ghost matched = self.base.matched@;
        let sizes: Vec<usize> = match self.bits_needed(&shelf) {
            Some(sizes) => sizes,
            None => {
                return false;
            },
        };
        let mut bits: Vec<Bits> = Vec::new();
        let mut n: usize = 0;
        while n < sizes.len()
            invariant
                n <= sizes@.len(),
                bits@.len() == n,
                forall|v: int| 0 <= v < sizes@.len() ==> #[trigger] sizes@[v] <= usize::MAX / 8,
                forall|v: int|
                    0 <= v < n ==> outside::bits_of(#[trigger] bits@[v]).len() == sizes@[v],
                forall|vol: u8, fid: u32| !#[trigger] marked(bits@, vol, fid),
            decreases sizes@.len() - n,
        {
            let mut fresh = outside::bits_with_capacity(sizes[n]);
            outside::bits_resize(&mut fresh, sizes[n], false);
            let ghost before = bits@;
            bits.push(fresh);
            proof {
                assert forall|vol: u8, fid: u32| !#[trigger] marked(bits@, vol, fid) by {
                    assert(!marked(before, vol, fid));
                    if vol < n {
                        assert(bits@[vol as int] == before[vol as int]);
                    }
                }
            }
            n += 1;
        }
        let mut k: usize = 0;
        while k < self.base.matched.len()
            invariant
                k <= self.base.matched@.len(),
                self.base.matched@ == matched,
                *self == *old(self),
                shelf.wf(),
                shelf@ == shelf_model,
                bits@.len() == shelf_model.len(),
                bits@.len() == sizes@.len(),
                forall|v: int|
                    0 <= v < bits@.len() ==> outside::bits_of(#[trigger] bits@[v]).len()
                        == sizes@[v],
                forall|vol: u8, fid: u32| #[trigger]
                    self.base_has(shelf_model, vol, fid) ==> fid < sizes@[vol as int],
                forall|j: int, vol: u8, fid: u32|
                    0 <= j < k && #[trigger] has_id(shelf_model, matched[j], vol, fid) ==> marked(
                        bits@,
                        vol,
                        fid,
                    ),
                forall|vol: u8, fid: u32| #[trigger]
                    marked(bits@, vol, fid) ==> self.base_has(shelf_model, vol, fid),
            decreases self.base.matched@.len() - k,
        {
            if let Some(f) = shelf.file(self.base.matched[k]) {
                let (vol, _) = unpack_matched(self.base.matched[k]);
                let id: u32 = f.file_id;
                assert(has_id(shelf_model, matched[k as int], vol, id));
                assert(self.base_has(shelf_model, vol, id));
                let ghost before = bits@;
                outside::bits_set(&mut bits[vol as usize], id as usize, true);
                proof {
                    assert forall|w: u8, fid: u32|
                        #![trigger marked(bits@, w, fid)]
                        marked(bits@, w, fid) == (marked(before, w, fid) || (w == vol && fid
                            == id)) by {
                        if w < before.len() && w != vol {
                            assert(bits@[w as int] == before[w as int]);
                        }
                    }
                    assert forall|j: int, w: u8, fid: u32|
                        0 <= j < k + 1 && #[trigger] has_id(
                            shelf_model,
                            matched[j],
                            w,
                            fid,
                        ) implies marked(bits@, w, fid) by {
                        if j < k {
                            assert(marked(before, w, fid));
                        }
                    }
                    assert forall|w: u8, fid: u32| #[trigger]
                        marked(bits@, w, fid) implies self.base_has(shelf_model, w, fid) by {
                        if !(w == vol && fid == id) {
                            assert(marked(before, w, fid));
                        }
                    }
                }
            }
            k += 1;
        }
        self.base_file_bitvec = Some(bits);
        proof {
            assert forall|vol: u8, fid: u32| #[trigger] self.marks(vol, fid) <==> old(
                self,
            ).base_has(shelf_model, vol, fid) by {
                if old(self).base_has(shelf_model, vol, fid) {
                    let j = choose|j: int|
                        0 <= j < matched.len() && has_id(
                            shelf_model,
                            #[trigger] matched[j],
                            vol,
                            fid,
                        );
                    assert(has_id(shelf_model, matched[j], vol, fid));
                    assert(marked(bits@, vol, fid));
                }
            }
        }
        true
    }

    /// Whether nothing but the bits of matched file ids differs.
    pub open spec fn same_but_bits(&self, other: SearchCache) -> bool {
        &&& self.query == other.query
        &&& self.files_only == other.files_only
        &&& self.directories_only == other.directories_only
        &&& self.created_at == other.created_at
        &&& self.base == other.base
        &&& self.delta == other.delta
        &&& self.active_base_count == other.active_base_count
    }

    /// Whether the file `fid` of volume `vol` is marked in the bits of matched file ids.
    pub fn is_fid_in_base(&self, vol: u8, fid: u32) -> (r: bool)
        ensures
            r == self.marks(vol, fid),
    {
        match &self.base_file_bitvec {
            Some(b) => (vol as usize) < b.len() && (fid as usize) < outside::bits_len(
                &b[vol as usize],
            ) && outside::bits_get(&b[vol as usize], fid as usize),
            None => false,
        }
    }
}

/// Whether the bit of the file `fid` of volume `vol` is there and set.
pub open spec fn marked(bits: Seq<Bits>, vol: u8, fid: u32) -> bool {
    &&& vol < bits.len()
    &&& fid < outside::bits_of(bits[vol as int]).len()
    &&& outside::bits_of(bits[vol as int])[fid as int]
}

/// Whether the file at a packed position is that of volume `vol` with the id `fid`.
pub open spec fn has_id(shelf: Seq<ShelfModel>, p: u32, vol: u8, fid: u32) -> bool {
    &&& sort_cache::volume_of(p) == vol
    &&& volume_map::file_at(shelf, p) matches Some(f) && f.file_id == fid
}

} // verus!
