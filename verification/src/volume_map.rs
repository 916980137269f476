//! The volumes at hand, by name, in the order in which they came.

use crate::search::FileEntry;
use crate::sort_cache;
use crate::sort_cache::unpack_matched;
use crate::text::same_text;
use crate::volume_monitor::VolumeMonitor;
use vstd::prelude::*;

verus! {

/// A volume under its name.
pub struct VolumeSlot {
    pub name: String,
    pub monitor: VolumeMonitor,
}

/// Volumes by name; no name stands twice.
pub struct VolumeMap {
    pub slots: Vec<VolumeSlot>,
}

/// The volumes by name.
pub open spec fn by_name(slots: Seq<VolumeSlot>) -> Map<Seq<char>, VolumeMonitor>
    decreases slots.len(),
{
    if slots.len() == 0 {
        Map::empty()
    } else {
        by_name(slots.drop_last()).insert(slots.last().name@, slots.last().monitor)
    }
}

/// Whether no name stands twice.
pub open spec fn names_differ(slots: Seq<VolumeSlot>) -> bool {
    forall|i: int, j: int|
        0 <= i < j < slots.len() ==> (#[trigger] slots[i]).name@ != (#[trigger] slots[j]).name@
}

impl View for VolumeMap {
    type V = Map<Seq<char>, VolumeMonitor>;

    open spec fn view(&self) -> Map<Seq<char>, VolumeMonitor> {
        by_name(self.slots@)
    }
}

/// The names that are known are those that stand in a slot.
pub proof fn name_in_slot(slots: Seq<VolumeSlot>, name: Seq<char>)
    requires
        names_differ(slots),
    ensures
        by_name(slots).contains_key(name) <==> exists|i: int|
            0 <= i < slots.len() && (#[trigger] slots[i]).name@ == name,
        forall|i: int|
            0 <= i < slots.len() && (#[trigger] slots[i]).name@ == name ==> by_name(slots)[name]
                == slots[i].monitor,
    decreases slots.len(),
{
    if slots.len() > 0 {
        let init = slots.drop_last();
        assert forall|i: int, j: int| 0 <= i < j < init.len() implies (#[trigger] init[i]).name@
            != (#[trigger] init[j]).name@ by {
            assert(init[i] == slots[i] && init[j] == slots[j]);
        }
        name_in_slot(init, name);
        if slots.last().name@ == name {
            assert(slots[slots.len() - 1].name@ == name);
        } else if by_name(init).contains_key(name) {
            let i = choose|i: int| 0 <= i < init.len() && (#[trigger] init[i]).name@ == name;
            assert(slots[i].name@ == name);
        }
        assert forall|i: int|
            0 <= i < slots.len() && (#[trigger] slots[i]).name@ == name implies by_name(
            slots,
        ).contains_key(name) && by_name(slots)[name] == slots[i].monitor by {
            if i < init.len() {
                assert(init[i] == slots[i]);
                assert(slots[i].name@ != slots[slots.len() - 1].name@);
            }
        }
    }
}

/// Exchanging the volume in a slot exchanges what stands under its name.
pub proof fn slot_exchanged(slots: Seq<VolumeSlot>, i: int, slot: VolumeSlot)
    requires
        names_differ(slots),
        0 <= i < slots.len(),
        slot.name@ == slots[i].name@,
    ensures
        names_differ(slots.update(i, slot)),
        by_name(slots.update(i, slot)) == by_name(slots).insert(slot.name@, slot.monitor),
    decreases slots.len(),
{
    let after = slots.update(i, slot);
    let init = slots.drop_last();
    assert forall|a: int, b: int| 0 <= a < b < init.len() implies (#[trigger] init[a]).name@ != (
    #[trigger] init[b]).name@ by {
        assert(init[a] == slots[a] && init[b] == slots[b]);
    }
    if i < slots.len() - 1 {
        slot_exchanged(init, i, slot);
        assert(after.drop_last() =~= init.update(i, slot));
        assert(slots[i].name@ != slots[slots.len() - 1].name@);
        assert(by_name(after) =~= by_name(slots).insert(slot.name@, slot.monitor));
    } else {
        assert(after.drop_last() =~= init);
        assert(by_name(after) =~= by_name(slots).insert(slot.name@, slot.monitor));
    }
}

/// Taking a slot out takes out its name.
pub proof fn slot_removed(slots: Seq<VolumeSlot>, i: int)
    requires
        names_differ(slots),
        0 <= i < slots.len(),
    ensures
        names_differ(slots.remove(i)),
        by_name(slots.remove(i)) == by_name(slots).remove(slots[i].name@),
    decreases slots.len(),
{
    let after = slots.remove(i);
    let init = slots.drop_last();
    let name = slots[i].name@;
    assert forall|a: int, b: int| 0 <= a < b < after.len() implies (#[trigger] after[a]).name@ != (
    #[trigger] after[b]).name@ by {
        let x = if a < i {
            a
        } else {
            a + 1
        };
        let y = if b < i {
            b
        } else {
            b + 1
        };
        assert(after[a] == slots[x] && after[b] == slots[y]);
    }
    assert forall|a: int, b: int| 0 <= a < b < init.len() implies (#[trigger] init[a]).name@ != (
    #[trigger] init[b]).name@ by {
        assert(init[a] == slots[a] && init[b] == slots[b]);
    }
    if i < slots.len() - 1 {
        slot_removed(init, i);
        assert(after.drop_last() =~= init.remove(i));
        assert(after.last() == slots.last());
        assert(slots[i].name@ != slots[slots.len() - 1].name@);
        assert(by_name(after) =~= by_name(slots).remove(name));
    } else {
        assert(after =~= init);
        name_in_slot(init, name);
        if by_name(init).contains_key(name) {
            let k = choose|k: int| 0 <= k < init.len() && (#[trigger] init[k]).name@ == name;
            assert(slots[k].name@ == slots[i].name@);
        }
        assert(by_name(after) =~= by_name(slots).remove(name));
    }
}

impl VolumeMap {
    /// Whether no name stands twice.
    pub open spec fn wf(&self) -> bool {
        names_differ(self.slots@)
    }

    /// Whether every volume is well-formed.
    pub open spec fn monitors_wf(&self) -> bool {
        forall|i: int| 0 <= i < self.slots@.len() ==> (#[trigger] self.slots@[i]).monitor.wf()
    }

    /// No volumes.
    pub fn new() -> (r: Self)
        ensures
            r.wf(),
            r.slots@ == Seq::<VolumeSlot>::empty(),
    {
        VolumeMap { slots: Vec::new() }
    }

    /// The slot of the volume `name`.
    pub fn find(&self, name: &str) -> (r: Option<usize>)
        requires
            self.wf(),
        ensures
            r is Some <==> self@.contains_key(name@),
            r matches Some(i) ==> i < self.slots@.len() && self.slots@[i as int].name@ == name@
                && self@[name@] == self.slots@[i as int].monitor,
    {
        proof {
            name_in_slot(self.slots@, name@);
        }
        let mut i: usize = 0;
        while i < self.slots.len()
            invariant
                i <= self.slots@.len(),
                self.wf(),
                forall|j: int| 0 <= j < i ==> (#[trigger] self.slots@[j]).name@ != name@,
            decreases self.slots@.len() - i,
        {
            if same_text(self.slots[i].name.as_str(), name) {
                proof {
                    name_in_slot(self.slots@, name@);
                }
                return Some(i);
            }
            i += 1;
        }
        None
    }

    /// The volume `name`.
    pub fn get(&self, name: &str) -> (r: Option<&VolumeMonitor>)
        requires
            self.wf(),
        ensures
            match r {
                Some(m) => self@.contains_key(name@) && *m == self@[name@],
                None => !self@.contains_key(name@),
            },
    {
        match self.find(name) {
            Some(i) => Some(&self.slots[i].monitor),
            None => None,
        }
    }

    /// Puts a volume under a name; one that stands there goes.
    pub fn insert(&mut self, name: String, monitor: VolumeMonitor)
        requires
            old(self).wf(),
        ensures
            final(self).wf(),
            final(self)@ == old(self)@.insert(name@, monitor),
            forall|i: int|
                0 <= i < final(self).slots@.len() && i < old(self).slots@.len() ==> (
                #[trigger] final(self).slots@[i]).name@ == old(self).slots@[i].name@,
            old(self)@.contains_key(name@) ==> final(self).slots@.len() == old(self).slots@.len(),
            !old(self)@.contains_key(name@) ==> {
                &&& final(self).slots@.len() == old(self).slots@.len() + 1
                &&& final(self).slots@.last().name@ == name@
            },
            old(self).monitors_wf() && monitor.wf() ==> final(self).monitors_wf(),
    {
        let ghost before = self.slots@;
        match self.find(name.as_str()) {
            Some(i) => {
                let slot = VolumeSlot { name, monitor };
                proof {
                    slot_exchanged(before, i as int, slot);
                }
                self.slots[i] = slot;
            },
            None => {
                proof {
                    name_in_slot(before, name@);
                }
                let slot = VolumeSlot { name, monitor };
                self.slots.push(slot);
                assert(self.slots@.drop_last() =~= before);
            },
        }
    }

    /// Takes out the volume `name`.
    pub fn remove(&mut self, name: &str) -> (r: Option<VolumeMonitor>)
        requires
            old(self).wf(),
        ensures
            final(self).wf(),
            final(self)@ == old(self)@.remove(name@),
            match r {
                Some(m) => old(self)@.contains_key(name@) && m == old(self)@[name@],
                None => !old(self)@.contains_key(name@) && *final(self) == *old(self),
            },
            old(self).monitors_wf() ==> final(self).monitors_wf() && (r matches Some(m) ==> m.wf()),
    {
        let ghost before = self.slots@;
        match self.find(name) {
            Some(i) => {
                proof {
                    slot_removed(before, i as int);
                }
                let slot = self.slots.remove(i);
                Some(slot.monitor)
            },
            None => {
                assert(old(self)@.remove(name@) =~= old(self)@);
                None
            },
        }
    }
}

/// A name on the shelf of volumes, and the volume where it is at hand.
pub struct ShelfModel {
    pub name: Seq<char>,
    pub monitor: Option<VolumeMonitor>,
}

/// The shelf: for each volume number its name, and the volume where it is at hand.
pub open spec fn shelf_of(
    volumes: Map<Seq<char>, VolumeMonitor>,
    vol_names: Seq<String>,
) -> Seq<ShelfModel> {
    vol_names.map_values(
        |n: String|
            ShelfModel {
                name: n@,
                monitor: if volumes.contains_key(n@) {
                    Some(volumes[n@])
                } else {
                    None
                },
            },
    )
}

/// The volume number `v`, where it is at hand.
pub open spec fn volume_at(shelf: Seq<ShelfModel>, v: u8) -> Option<VolumeMonitor> {
    if v < shelf.len() {
        shelf[v as int].monitor
    } else {
        None
    }
}

/// The file at a packed position.
pub open spec fn file_at(shelf: Seq<ShelfModel>, p: u32) -> Option<FileEntry> {
    match volume_at(shelf, sort_cache::volume_of(p)) {
        Some(m) => if sort_cache::file_of(p) < m.files@.len() {
            Some(m.files@[sort_cache::file_of(p) as int])
        } else {
            None
        },
        None => None,
    }
}

/// The shelf, by reference.
pub struct Shelf<'a> {
    pub names: &'a Vec<String>,
    pub monitors: Vec<Option<&'a VolumeMonitor>>,
}

impl<'a> View for Shelf<'a> {
    type V = Seq<ShelfModel>;

    open spec fn view(&self) -> Seq<ShelfModel> {
        Seq::new(
            self.names@.len(),
            |i: int|
                ShelfModel {
                    name: self.names@[i]@,
                    monitor: match self.monitors@[i] {
                        Some(m) => Some(*m),
                        None => None,
                    },
                },
        )
    }
}

impl<'a> Shelf<'a> {
    /// Whether there is a place for each name.
    pub open spec fn wf(&self) -> bool {
        self.names@.len() == self.monitors@.len()
    }

    /// The volumes of `vol_names`, looked up once.
    pub fn new(volumes: &'a VolumeMap, vol_names: &'a Vec<String>) -> (r: Shelf<'a>)
        requires
            volumes.wf(),
        ensures
            r.wf(),
            r.names == vol_names,
            r@ == shelf_of(volumes@, vol_names@),
    {
        let mut monitors: Vec<Option<&'a VolumeMonitor>> = Vec::new();
        let mut i: usize = 0;
        while i < vol_names.len()
            invariant
                i <= vol_names@.len(),
                volumes.wf(),
                monitors@.len() == i,
                forall|j: int|
                    #![trigger monitors@[j]]
                    0 <= j < i ==> match monitors@[j] {
                        Some(m) => volumes@.contains_key(vol_names@[j]@) && *m
                            == volumes@[vol_names@[j]@],
                        None => !volumes@.contains_key(vol_names@[j]@),
                    },
            decreases vol_names@.len() - i,
        {
            monitors.push(volumes.get(vol_names[i].as_str()));
            i += 1;
        }
        let r = Shelf { names: vol_names, monitors };
        assert(r@ =~= shelf_of(volumes@, vol_names@));
        r
    }

    /// The volume number `v`, where it is at hand.
    pub fn volume(&self, v: u8) -> (r: Option<&'a VolumeMonitor>)
        requires
            self.wf(),
        ensures
            match r {
                Some(m) => volume_at(self@, v) == Some(*m),
                None => volume_at(self@, v) is None,
            },
    {
        if (v as usize) < self.monitors.len() {
            self.monitors[v as usize]
        } else {
            None
        }
    }

    /// The file at a packed position.
    pub fn file(&self, p: u32) -> (r: Option<&'a FileEntry>)
        requires
            self.wf(),
        ensures
            match r {
                Some(f) => file_at(self@, p) == Some(*f),
                None => file_at(self@, p) is None,
            },
    {
        let (v, i) = unpack_matched(p);
        match self.volume(v) {
            Some(m) => if (i as usize) < m.files.len() {
                Some(&m.files[i as usize])
            } else {
                None
            },
            None => None,
        }
    }
}

} // verus!
