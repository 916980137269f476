//! The index of all volumes: which there are, what was last searched, and the orders
//! that are kept for the next page.

use crate::changes;
use crate::changes::DeltaModel;
use crate::search::SearchOptions;
use crate::search_cache::{DeltaCache, SearchCache};
use crate::sort_cache;
use crate::sort_cache::{CachedOrder, SortedIndicesCache};
use crate::sound_volumes;
use crate::soundness;
use crate::volume_map;
use crate::volume_map::{ShelfModel, VolumeMap, VolumeSlot};
use crate::volume_monitor::VolumeMonitor;
use vstd::hash_map::StringHashMap;
use vstd::prelude::*;

verus! {

broadcast use vstd::string::group_string_axioms;

/// All volumes and the last search in them.
pub struct VolumeManager {
    pub volumes: VolumeMap,
    /// The volumes' numbers by name.
    pub volume_index: StringHashMap<u8>,
    /// The volumes' names by number. That of a volume that was removed is empty.
    pub vol_names: Vec<String>,
    /// The last search, with what changed since the volumes were scanned.
    pub search_cache: Option<SearchCache>,
    /// What changed since the volumes were scanned, where there is no last search to hold
    /// it.
    pub idle_delta: DeltaCache,
    pub last_search_query: String,
    pub last_search_options: Option<SearchOptions>,
    /// The orders that the last searches were sorted in. They outlive the search: an
    /// order of another generation is not used.
    pub sorted_indices_map: SortedIndicesCache,
    /// The generation of what the last search matched.
    pub cache_generation: u64,
    /// The orders of blank searches.
    pub empty_query_sorted: [Option<CachedOrder>; 4],
    /// The generation of what blank searches match.
    pub empty_query_generation: u64,
    /// What went wrong in the last scan, by volume.
    pub scan_errors: StringHashMap<String>,
}

/// No orders of blank searches.
pub open spec fn no_orders() -> Seq<Option<sort_cache::OrderModel>> {
    seq![None, None, None, None]
}

impl VolumeManager {
    /// Whether the volumes are well-formed, and the generations tell orders apart: the
    /// present matches have the last generation, and no order is of a later one.
    pub open spec fn wf(&self) -> bool {
        &&& self.volumes.wf()
        &&& self.volumes.monitors_wf()
        &&& self.search_cache matches Some(c) ==> {
            &&& c.wf()
            &&& c.base.matched_generation == self.cache_generation
            &&& self.idle_delta.is_clear()
        }
        &&& sort_cache::orders_until(self.sorted_indices_map@, self.cache_generation)
    }

    /// What changed since the volumes were scanned, and was not merged into them.
    pub open spec fn held_delta(&self) -> DeltaCache {
        match self.search_cache {
            Some(c) => c.delta,
            None => self.idle_delta,
        }
    }

    /// What changed since the volumes were scanned, and was not merged into them.
    pub open spec fn changes(&self) -> DeltaModel {
        self.held_delta().model(None)
    }

    /// Whether every volume has a number.
    pub open spec fn numbered(&self) -> bool {
        &&& crate::merging::all_numbered(self.volumes.slots@, self.vol_names@)
        &&& forall|i: int|
            0 <= i < self.volumes.slots@.len() ==> self.volume_index@.contains_key(
                (#[trigger] self.volumes.slots@[i]).name@,
            )
    }

    /// Whether the number of every name leads back to the name.
    pub open spec fn numbers_fit(&self) -> bool {
        forall|name: Seq<char>| #[trigger]
            self.volume_index@.contains_key(name) ==> changes::is_volume(
                self.vol_names@,
                self.volume_index@[name],
                name,
            )
    }

    /// The volumes by number.
    pub open spec fn shelf(&self) -> Seq<ShelfModel> {
        volume_map::shelf_of(self.volumes@, self.vol_names@)
    }

    /// The orders of blank searches.
    pub open spec fn blank_orders(&self) -> Seq<Option<sort_cache::OrderModel>> {
        sort_cache::slot_models(self.empty_query_sorted@)
    }

    /// Whether the same volumes are there, under the same numbers and with the same
    /// scan errors.
    pub open spec fn same_volumes(&self, other: VolumeManager) -> bool {
        &&& self.volumes == other.volumes
        &&& self.volume_index == other.volume_index
        &&& self.vol_names == other.vol_names
        &&& self.scan_errors == other.scan_errors
    }

    /// Whether the last query and its options are the same.
    pub open spec fn same_request(&self, other: VolumeManager) -> bool {
        &&& self.last_search_query == other.last_search_query
        &&& self.last_search_options == other.last_search_options
    }

    /// Whether nothing is left of the last search but what was asked for.
    pub open spec fn forgot(&self, before: VolumeManager) -> bool {
        &&& self.search_cache is None
        &&& self.sorted_indices_map@ == sort_cache::CacheModel::empty()
        &&& self.cache_generation == before.cache_generation
        &&& self.blank_orders() == no_orders()
        &&& self.empty_query_generation == before.empty_query_generation.wrapping_add(1)
        &&& self.same_request(before)
    }

    /// An index without volumes.
    pub fn new() -> (r: Self)
        ensures
            r.wf(),
            r.numbered(),
            r.numbers_fit(),
            r.volumes.slots@.len() == 0,
            r.volume_index@ == Map::<Seq<char>, u8>::empty(),
            r.vol_names@.len() == 0,
            r.search_cache is None,
            r.idle_delta.is_clear(),
            r.last_search_query@ == Seq::<char>::empty(),
            r.last_search_options is None,
            r.sorted_indices_map@ == sort_cache::CacheModel::empty(),
            r.cache_generation == 0,
            r.blank_orders() == no_orders(),
            r.empty_query_generation == 0,
            r.scan_errors@ == Map::<Seq<char>, String>::empty(),
            forall|today: i32| #[trigger] r.is_sound(today),
    {
        let r = VolumeManager {
            volumes: VolumeMap::new(),
            volume_index: StringHashMap::new(),
            vol_names: Vec::new(),
            search_cache: None,
            idle_delta: DeltaCache::new(),
            last_search_query: String::new(),
            last_search_options: None,
            sorted_indices_map: SortedIndicesCache::new(),
            cache_generation: 0,
            empty_query_sorted: [None, None, None, None],
            empty_query_generation: 0,
            scan_errors: StringHashMap::new(),
        };
        assert(r.blank_orders() =~= no_orders());
        proof {
            sound_volumes::empty_is_sound(r);
        }
        r
    }

    /// Forgets the last search and every order, but not what changed since the volumes were
    /// scanned.
    pub(crate) fn forget_search(&mut self)
        requires
            old(self).wf(),
        ensures
            final(self).wf(),
            final(self).forgot(*old(self)),
            final(self).idle_delta == old(self).held_delta(),
            final(self).same_volumes(*old(self)),
            old(self).stands() ==> final(self).stands(),
    {
        self.sorted_indices_map.clear();
        self.invalidate_search_cache();
        proof {
            if old(self).stands() {
                soundness::same_stands(*old(self), *self);
            }
        }
    }

    /// Forgets the last search and the orders of blank ones, but not what changed since the
    /// volumes were scanned.
    pub fn invalidate_search_cache(&mut self)
        requires
            old(self).wf(),
        ensures
            final(self).wf(),
            final(self).search_cache is None,
            final(self).idle_delta == old(self).held_delta(),
            final(self).blank_orders() == no_orders(),
            final(self).empty_query_generation == old(self).empty_query_generation.wrapping_add(1),
            final(self).sorted_indices_map == old(self).sorted_indices_map,
            final(self).cache_generation == old(self).cache_generation,
            final(self).same_request(*old(self)),
            final(self).same_volumes(*old(self)),
            old(self).stands() ==> forall|today: i32| #[trigger] final(self).is_sound(today),
    {
        if let Some(c) = self.search_cache.take() {
            self.idle_delta = c.delta;
        }
        self.empty_query_generation = self.empty_query_generation.wrapping_add(1);
        self.empty_query_sorted = [None, None, None, None];
        assert(self.blank_orders() =~= no_orders());
        proof {
            if old(self).stands() {
                soundness::same_stands(*old(self), *self);
            }
        }
    }

    /// Notes what went wrong in a scan of a volume.
    pub fn set_scan_error(&mut self, drive_letter: &str, error: String)
        ensures
            final(self).scan_errors@ == old(self).scan_errors@.insert(drive_letter@, error),
            *final(self) == (VolumeManager { scan_errors: final(self).scan_errors, ..*old(self) }),
            forall|today: i32| #[trigger]
                old(self).is_sound(today) ==> final(self).is_sound(today),
    {
        self.scan_errors.insert(drive_letter.to_string(), error);
        proof {
            self.sound_with_errors(*old(self));
        }
    }

    /// Forgets what went wrong in the last scan of a volume.
    pub fn clear_scan_error(&mut self, drive_letter: &str)
        ensures
            final(self).scan_errors@ == old(self).scan_errors@.remove(drive_letter@),
            *final(self) == (VolumeManager { scan_errors: final(self).scan_errors, ..*old(self) }),
            forall|today: i32| #[trigger]
                old(self).is_sound(today) ==> final(self).is_sound(today),
    {
        self.scan_errors.remove(drive_letter);
        proof {
            self.sound_with_errors(*old(self));
        }
    }

    /// What went wrong in a scan does not touch what is sound of the index.
    proof fn sound_with_errors(self, before: VolumeManager)
        requires
            self == (VolumeManager { scan_errors: self.scan_errors, ..before }),
        ensures
            forall|today: i32| #[trigger] before.is_sound(today) ==> self.is_sound(today),
    {
        assert forall|today: i32| #[trigger] before.is_sound(today) implies self.is_sound(
            today,
        ) by {
            sound_volumes::sound_numbers_fit(before);
            sound_volumes::same_content_sound(before, self, today);
        }
    }

    /// Adds a volume without files under the next number, modulo 256. It takes the place
    /// of one of the same name, whose changes are forgotten with it.
    pub fn add_volume(
        &mut self,
        drive_letter: &str,
        is_admin: bool,
        include_hidden_files: bool,
        include_system_files: bool,
    ) -> (r: crate::error::Result<()>)
        requires
            old(self).wf(),
        ensures
            r is Ok,
            final(self).wf(),
            final(self).forgot(*old(self)),
            final(self).scan_errors == old(self).scan_errors,
            crate::query::strings(final(self).vol_names@) == crate::query::strings(
                old(self).vol_names@,
            ).push(drive_letter@),
            final(self).volume_index@ == old(self).volume_index@.insert(
                drive_letter@,
                (old(self).vol_names@.len() % 256) as u8,
            ),
            final(self).volumes@ == old(self).volumes@.insert(
                drive_letter@,
                final(self).volumes@[drive_letter@],
            ),
            final(self).volumes@[drive_letter@].is_new(
                drive_letter@,
                include_hidden_files,
                include_system_files,
            ),
            final(self).changes() == old(self).changes().without(
                old(self).vol_names@,
                drive_letter@,
            ),
            old(self).numbered() ==> final(self).numbered(),
            old(self).numbers_fit() && old(self).vol_names@.len() < 256 ==> final(self).numbers_fit(),
            old(self).stands() && drive_letter@.len() > 0 && old(self).vol_names@.len() < 256
                ==> forall|today: i32| #[trigger] final(self).is_sound(today),
    {
        self.forget_search();
        self.idle_delta.forget_volume(&self.vol_names, drive_letter);
        let count: usize = self.vol_names.len();
        assert(count as u8 == count % 256) by (bit_vector);
        let idx: u8 = #[verifier::truncate]
        (count as u8);
        let ghost names = self.vol_names@;
        let ghost slots = self.volumes.slots@;
        self.volume_index.insert(drive_letter.to_string(), idx);
        let name = drive_letter.to_string();
        self.vol_names.push(name);
        assert(crate::query::strings(self.vol_names@) =~= crate::query::strings(names).push(
            drive_letter@,
        ));
        let monitor = VolumeMonitor::new(
            drive_letter.to_string(),
            include_hidden_files,
            include_system_files,
        );
        self.volumes.insert(drive_letter.to_string(), monitor);
        proof {
            if old(self).numbered() {
                assert forall|i: int| 0 <= i < self.volumes.slots@.len() implies {
                    &&& crate::merging::is_numbered(
                        self.vol_names@,
                        (#[trigger] self.volumes.slots@[i]).name@,
                    )
                    &&& self.volume_index@.contains_key(self.volumes.slots@[i].name@)
                } by {
                    if i < slots.len() {
                        let n = slots[i].name@;
                        assert(crate::merging::is_numbered(names, n));
                        let k = choose|k: int| 0 <= k < names.len() && (#[trigger] names[k])@ == n;
                        assert(self.vol_names@[k]@ == n);
                    } else {
                        assert(self.vol_names@[names.len() as int]@ == drive_letter@);
                    }
                }
            }
            if old(self).numbers_fit() && names.len() < 256 {
                assert forall|n: Seq<char>| #[trigger]
                    self.volume_index@.contains_key(n) implies changes::is_volume(
                    self.vol_names@,
                    self.volume_index@[n],
                    n,
                ) by {
                    if n != drive_letter@ {
                        assert(old(self).volume_index@.contains_key(n));
                    }
                }
            }
            if old(self).stands() && drive_letter@.len() > 0 && names.len() < 256 {
                sound_volumes::sound_numbers_fit(*old(self));
                sound_volumes::new_is_sound(self.volumes@[drive_letter@]);
                sound_volumes::adding_stands(*old(self), *self, drive_letter@);
            }
        }
        Ok(())
    }

    /// Removes a volume and forgets its name and its changes; its number is not used again.
    pub fn remove_volume(&mut self, drive_letter: &str)
        requires
            old(self).wf(),
        ensures
            final(self).wf(),
            final(self).forgot(*old(self)),
            final(self).scan_errors == old(self).scan_errors,
            final(self).volumes@ == old(self).volumes@.remove(drive_letter@),
            final(self).volume_index@ == old(self).volume_index@.remove(drive_letter@),
            crate::query::strings(final(self).vol_names@) == (if old(
                self,
            ).volume_index@.contains_key(drive_letter@) && old(
                self,
            ).volume_index@[drive_letter@] < old(self).vol_names@.len() {
                crate::query::strings(old(self).vol_names@).update(
                    old(self).volume_index@[drive_letter@] as int,
                    seq![],
                )
            } else {
                crate::query::strings(old(self).vol_names@)
            }),
            final(self).changes() == old(self).changes().without(
                old(self).vol_names@,
                drive_letter@,
            ),
            old(self).numbered() && old(self).numbers_fit() ==> {
                &&& final(self).numbered()
                &&& final(self).numbers_fit()
            },
            old(self).stands() ==> forall|today: i32| #[trigger] final(self).is_sound(today),
    {
        self.forget_search();
        self.idle_delta.forget_volume(&self.vol_names, drive_letter);
        self.volumes.remove(drive_letter);
        let number: Option<u8> = match self.volume_index.get(drive_letter) {
            Some(idx) => Some(*idx),
            None => None,
        };
        self.volume_index.remove(drive_letter);
        assert(self.volume_index@ =~= old(self).volume_index@.remove(drive_letter@));
        let ghost names = self.vol_names@;
        if let Some(idx) = number {
            if (idx as usize) < self.vol_names.len() {
                self.vol_names[idx as usize] = String::new();
                assert(crate::query::strings(self.vol_names@) =~= crate::query::strings(
                    names,
                ).update(idx as int, seq![]));
            }
        }
        proof {
            if old(self).numbered() && old(self).numbers_fit() {
                numbered_by_name(*old(self));
                assert forall|n: Seq<char>| #[trigger]
                    self.volume_index@.contains_key(n) implies changes::is_volume(
                    self.vol_names@,
                    self.volume_index@[n],
                    n,
                ) by {
                    assert(old(self).volume_index@.contains_key(n));
                    assert(old(self).volume_index@.contains_key(drive_letter@) ==> {
                        let v = old(self).volume_index@[drive_letter@];
                        changes::is_volume(names, v, drive_letter@)
                    });
                }
                assert forall|n: Seq<char>| #[trigger]
                    self.volumes@.contains_key(n) implies crate::merging::is_numbered(
                    self.vol_names@,
                    n,
                ) && self.volume_index@.contains_key(n) by {
                    assert(old(self).volumes@.contains_key(n));
                    assert(self.volume_index@.contains_key(n));
                    assert(self.vol_names@[self.volume_index@[n] as int]@ == n);
                }
                numbered_by_name(*self);
            }
            if old(self).stands() {
                sound_volumes::sound_numbers_fit(*old(self));
                sound_volumes::removing_stands(*old(self), *self, drive_letter@);
            }
        }
    }

    /// The names of the volumes, by number.
    pub fn volumes(&self) -> (r: Vec<String>)
        ensures
            crate::query::strings(r@) == crate::query::strings(self.vol_names@).filter(
                |n: Seq<char>| n.len() > 0,
            ),
    {
        let ghost names = crate::query::strings(self.vol_names@);
        let mut r: Vec<String> = Vec::new();
        let mut i: usize = 0;
        assert(crate::query::strings(r@) =~= seq![]);
        while i < self.vol_names.len()
            invariant
                i <= self.vol_names@.len(),
                names == crate::query::strings(self.vol_names@),
                crate::query::strings(r@) == names.take(i as int).filter(
                    |n: Seq<char>| n.len() > 0,
                ),
            decreases self.vol_names@.len() - i,
        {
            let ghost before = r@;
            proof {
                reveal(Seq::filter);
                let step = names.take(i + 1);
                assert(step.drop_last() =~= names.take(i as int));
                assert(step.last() == self.vol_names@[i as int]@);
            }
            if !self.vol_names[i].as_str().is_empty() {
                r.push(self.vol_names[i].clone());
                assert(crate::query::strings(r@) =~= crate::query::strings(before).push(
                    self.vol_names@[i as int]@,
                ));
            }
            i += 1;
        }
        assert(names.take(i as int) =~= names);
        r
    }

    /// The volume `drive_letter`.
    pub fn get_monitor(&self, drive_letter: &str) -> (r: Option<&VolumeMonitor>)
        requires
            self.volumes.wf(),
        ensures
            match r {
                Some(m) => self.volumes@.contains_key(drive_letter@) && *m
                    == self.volumes@[drive_letter@],
                None => !self.volumes@.contains_key(drive_letter@),
            },
    {
        self.volumes.get(drive_letter)
    }

    /// The volume `drive_letter`, to be changed.
    pub fn get_monitor_mut(&mut self, drive_letter: &str) -> (r: Option<&mut VolumeMonitor>)
        requires
            old(self).wf(),
        ensures
            match r {
                Some(m) => {
                    &&& old(self).volumes@.contains_key(drive_letter@)
                    &&& *m == old(self).volumes@[drive_letter@]
                    &&& old(self).volumes@[drive_letter@].wf()
                    &&& final(self).volumes@ == old(self).volumes@.insert(drive_letter@, *final(m))
                    &&& final(m).wf() ==> final(self).wf()
                },
                None => !old(self).volumes@.contains_key(drive_letter@) && *final(self) == *old(
                    self,
                ),
            },
            *final(self) == (VolumeManager { volumes: final(self).volumes, ..*old(self) }),
    {
        match self.volumes.find(drive_letter) {
            Some(i) => {
                let ghost before = self.volumes.slots@;
                let m = &mut self.volumes.slots[i].monitor;
                proof {
                    volume_map::slot_exchanged(
                        before,
                        i as int,
                        VolumeSlot { name: before[i as int].name, monitor: *final(m) },
                    );
                }
                Some(m)
            },
            None => None,
        }
    }

    /// Takes out a volume, to be given back.
    pub fn take_monitor(&mut self, drive_letter: &str) -> (r: Option<VolumeMonitor>)
        requires
            old(self).wf(),
        ensures
            final(self).wf(),
            match r {
                Some(m) => old(self).volumes@.contains_key(drive_letter@) && m == old(
                    self,
                ).volumes@[drive_letter@] && m.wf(),
                None => !old(self).volumes@.contains_key(drive_letter@),
            },
            final(self).volumes@ == old(self).volumes@.remove(drive_letter@),
            *final(self) == (VolumeManager { volumes: final(self).volumes, ..*old(self) }),
            old(self).numbered() ==> final(self).numbered(),
    {
        let r = self.volumes.remove(drive_letter);
        proof {
            if old(self).numbered() {
                numbers_stay(*old(self), *self);
            }
        }
        r
    }

    /// Gives a volume back.
    pub fn return_monitor(&mut self, drive_letter: &str, monitor: VolumeMonitor)
        requires
            old(self).wf(),
            monitor.wf(),
        ensures
            final(self).wf(),
            final(self).volumes@ == old(self).volumes@.insert(drive_letter@, monitor),
            *final(self) == (VolumeManager { volumes: final(self).volumes, ..*old(self) }),
            old(self).numbered() && old(self).numbers_fit() && old(self).volume_index@.contains_key(
                drive_letter@,
            ) ==> final(self).numbered(),
    {
        self.volumes.insert(drive_letter.to_string(), monitor);
        proof {
            if old(self).numbered() && old(self).numbers_fit() && self.volume_index@.contains_key(
                drive_letter@,
            ) {
                numbered_by_name(*old(self));
                assert(self.vol_names@[self.volume_index@[drive_letter@] as int]@ == drive_letter@);
                numbered_by_name(*self);
            }
        }
    }

    /// Sets what a scan takes up, on every volume.
    pub fn update_all_settings(&mut self, include_hidden_files: bool, include_system_files: bool)
        requires
            old(self).wf(),
        ensures
            final(self).wf(),
            final(self).volumes.slots@ == old(self).volumes.slots@.map_values(
                |s: VolumeSlot|
                    VolumeSlot {
                        name: s.name,
                        monitor: VolumeMonitor {
                            include_hidden_files,
                            include_system_files,
                            ..s.monitor
                        },
                    },
            ),
            *final(self) == (VolumeManager { volumes: final(self).volumes, ..*old(self) }),
            old(self).numbered() ==> final(self).numbered(),
            forall|today: i32| #[trigger]
                old(self).is_sound(today) ==> final(self).is_sound(today),
    {
        let ghost set = |s: VolumeSlot|
            VolumeSlot {
                name: s.name,
                monitor: VolumeMonitor { include_hidden_files, include_system_files, ..s.monitor },
            };
        let ghost before = self.volumes.slots@;
        let mut i: usize = 0;
        while i < self.volumes.slots.len()
            invariant
                i <= before.len(),
                self.volumes.slots@.len() == before.len(),
                before == old(self).volumes.slots@,
                set == (|s: VolumeSlot|
                    VolumeSlot {
                        name: s.name,
                        monitor: VolumeMonitor {
                            include_hidden_files,
                            include_system_files,
                            ..s.monitor
                        },
                    }),
                forall|k: int|
                    0 <= k < i ==> #[trigger] self.volumes.slots@[k] == set(before[k]),
                forall|k: int|
                    i <= k < before.len() ==> #[trigger] self.volumes.slots@[k] == before[k],
                *self == (VolumeManager { volumes: self.volumes, ..*old(self) }),
            decreases before.len() - i,
        {
            self.volumes.slots[i].monitor.update_settings(
                include_hidden_files,
                include_system_files,
            );
            i += 1;
        }
        assert(self.volumes.slots@ =~= before.map_values(set));
        assert(volume_map::names_differ(before));
        proof {
            assert forall|today: i32| #[trigger] old(self).is_sound(today) implies self.is_sound(
                today,
            ) by {
                sound_volumes::same_slots(*old(self), *self);
                sound_volumes::same_content_sound(*old(self), *self, today);
            }
        }
    }

    /// How many files there are, up to what the machine can count.
    pub fn total_file_count(&self) -> (r: usize)
        ensures
            r == crate::rows::least(
                crate::merging::total_files(self.volumes.slots@) as int,
                usize::MAX as int,
            ),
    {
        let mut total: usize = 0;
        let mut i: usize = 0;
        assert(self.volumes.slots@.take(0) =~= seq![]);
        while i < self.volumes.slots.len()
            invariant
                i <= self.volumes.slots@.len(),
                total == crate::rows::least(
                    crate::merging::total_files(self.volumes.slots@.take(i as int)) as int,
                    usize::MAX as int,
                ),
            decreases self.volumes.slots@.len() - i,
        {
            proof {
                let step = self.volumes.slots@.take(i + 1);
                assert(step.drop_last() =~= self.volumes.slots@.take(i as int));
                assert(step.last() == self.volumes.slots@[i as int]);
            }
            total = total.saturating_add(self.volumes.slots[i].monitor.files.len());
            i += 1;
        }
        assert(self.volumes.slots@.take(i as int) =~= self.volumes.slots@);
        total
    }

    /// How many files a volume has; none where there is no such volume.
    pub fn get_file_count(&self, drive_letter: &str) -> (r: usize)
        requires
            self.volumes.wf(),
        ensures
            r == (if self.volumes@.contains_key(drive_letter@) {
                self.volumes@[drive_letter@].files@.len()
            } else {
                0
            }),
    {
        match self.volumes.get(drive_letter) {
            Some(m) => m.files.len(),
            None => 0,
        }
    }
}

/// Whether a volume has a number depends on its name alone: it is numbered where its
/// name is known in both directions.
pub proof fn numbered_by_name(vm: VolumeManager)
    requires
        vm.volumes.wf(),
    ensures
        vm.numbered() <==> forall|name: Seq<char>| #[trigger]
            vm.volumes@.contains_key(name) ==> crate::merging::is_numbered(vm.vol_names@, name)
                && vm.volume_index@.contains_key(name),
{
    let slots = vm.volumes.slots@;
    if vm.numbered() {
        assert forall|name: Seq<char>| #[trigger]
            vm.volumes@.contains_key(name) implies crate::merging::is_numbered(
            vm.vol_names@,
            name,
        ) && vm.volume_index@.contains_key(name) by {
            volume_map::name_in_slot(slots, name);
            let i = choose|i: int| 0 <= i < slots.len() && (#[trigger] slots[i]).name@ == name;
            assert(slots[i].name@ == name);
        }
    }
    if forall|name: Seq<char>| #[trigger]
        vm.volumes@.contains_key(name) ==> crate::merging::is_numbered(vm.vol_names@, name)
            && vm.volume_index@.contains_key(name) {
        assert forall|i: int| 0 <= i < slots.len() implies crate::merging::is_numbered(
            vm.vol_names@,
            (#[trigger] slots[i]).name@,
        ) && vm.volume_index@.contains_key(slots[i].name@) by {
            volume_map::name_in_slot(slots, slots[i].name@);
            assert(vm.volumes@.contains_key(slots[i].name@));
        }
    }
}

/// Where the numbers stay and no volume comes up under a new name, every volume keeps
/// its number.
pub proof fn numbers_stay(before: VolumeManager, after: VolumeManager)
    requires
        before.volumes.wf(),
        after.volumes.wf(),
        before.numbered(),
        after.vol_names == before.vol_names,
        after.volume_index@ == before.volume_index@,
        forall|name: Seq<char>| #[trigger]
            after.volumes@.contains_key(name) ==> before.volumes@.contains_key(name),
    ensures
        after.numbered(),
{
    numbered_by_name(before);
    numbered_by_name(after);
}

impl Default for VolumeManager {
    /// An index without volumes.
    fn default() -> (r: Self)
        ensures
            r.wf(),
            r.numbered(),
            r.numbers_fit(),
            r.volumes.slots@.len() == 0,
            r.vol_names@.len() == 0,
            r.search_cache is None,
            r.idle_delta.is_clear(),
            r.last_search_options is None,
            r.scan_errors@ == Map::<Seq<char>, String>::empty(),
            forall|today: i32| #[trigger] r.is_sound(today),
    {
        VolumeManager::new()
    }
}

} // verus!
