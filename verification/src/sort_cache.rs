//! Positions of matched files, packed into 32 bits, and the cache of the orders that
//! they were last sorted in.

use crate::search::SortBy;
use vstd::prelude::*;

verus! {

/// The most orders that are kept at a time.
pub const MAX_CACHED_SORTS: usize = 2;

/// The position of file `idx` of volume `vol`, in one number: 8 bits for the volume,
/// the lowest 24 bits of the file.
pub open spec fn packed(vol: u8, idx: u32) -> u32 {
    (vol * 0x100_0000 + idx % 0x100_0000) as u32
}

/// The volume in a packed position.
pub open spec fn volume_of(p: u32) -> u8 {
    (p / 0x100_0000) as u8
}

/// The file in a packed position.
pub open spec fn file_of(p: u32) -> u32 {
    p % 0x100_0000
}

/// Packs the position of a file.
pub fn pack_matched(vol_idx: u8, file_idx: u32) -> (r: u32)
    ensures
        r == packed(vol_idx, file_idx),
{
    let v: u32 = vol_idx as u32;
    assert((v << 24 | (file_idx & 0x00FF_FFFF)) == v * 0x100_0000 + file_idx % 0x100_0000)
        by (bit_vector)
        requires
            v <= 255,
    ;
    v << 24 | (file_idx & 0x00FF_FFFF)
}

/// Takes a packed position apart.
pub fn unpack_matched(p: u32) -> (r: (u8, u32))
    ensures
        r == (volume_of(p), file_of(p)),
{
    assert((p >> 24) == p / 0x100_0000 && (p & 0x00FF_FFFF) == p % 0x100_0000) by (bit_vector);
    ((p >> 24) as u8, p & 0x00FF_FFFF)
}

/// Of a file below the limit of 24 bits, packing keeps the position.
pub proof fn unpacking_undoes_packing(vol: u8, idx: u32)
    requires
        idx < 0x100_0000,
    ensures
        volume_of(packed(vol, idx)) == vol,
        file_of(packed(vol, idx)) == idx,
{
}

/// Every packed position is the packing of its parts.
pub proof fn packing_undoes_unpacking(p: u32)
    ensures
        packed(volume_of(p), file_of(p)) == p,
{
}

/// The place of an order in the cache. Name and score share one.
pub open spec fn slot_of(s: SortBy) -> int {
    match s {
        SortBy::Name | SortBy::Score => 0,
        SortBy::Path => 1,
        SortBy::Size => 2,
        SortBy::ModifiedTime => 3,
    }
}

/// The place of an order in the cache.
pub fn sort_by_slot(s: SortBy) -> (r: usize)
    ensures
        r == slot_of(s),
        r < 4,
{
    match s {
        SortBy::Name | SortBy::Score => 0,
        SortBy::Path => 1,
        SortBy::Size => 2,
        SortBy::ModifiedTime => 3,
    }
}

/// A sorted order and the generation of what it sorts.
pub struct CachedOrder {
    pub generation: u64,
    pub order: Vec<u32>,
}

/// What a cache slot holds.
#[verifier::ext_equal]
pub struct OrderModel {
    pub generation: u64,
    pub order: Seq<u32>,
}

/// What a cache slot holds.
pub open spec fn slot_model(s: Option<CachedOrder>) -> Option<OrderModel> {
    match s {
        Some(c) => Some(OrderModel { generation: c.generation, order: c.order@ }),
        None => None,
    }
}

/// What the cache slots hold.
pub open spec fn slot_models(s: Seq<Option<CachedOrder>>) -> Seq<Option<OrderModel>> {
    s.map_values(|c: Option<CachedOrder>| slot_model(c))
}

/// The orders that were last used, at most `MAX_CACHED_SORTS` of them.
pub struct SortedIndicesCache {
    pub entries: [Option<CachedOrder>; 4],
    pub touch: [u64; 4],
    pub clock: u64,
}

/// What a `SortedIndicesCache` holds.
#[verifier::ext_equal]
pub struct CacheModel {
    pub slots: Seq<Option<OrderModel>>,
    pub touch: Seq<u64>,
    pub clock: u64,
}

impl View for SortedIndicesCache {
    type V = CacheModel;

    open spec fn view(&self) -> CacheModel {
        CacheModel { slots: slot_models(self.entries@), touch: self.touch@, clock: self.clock }
    }
}

impl CacheModel {
    /// The cache that holds nothing.
    pub open spec fn empty() -> CacheModel {
        CacheModel {
            slots: seq![None, None, None, None],
            touch: seq![0u64, 0u64, 0u64, 0u64],
            clock: 0,
        }
    }

    /// The clock's next reading; it stands still at the last one.
    pub open spec fn tick(self) -> u64 {
        if self.clock < u64::MAX {
            (self.clock + 1) as u64
        } else {
            self.clock
        }
    }

    /// Whether the order for `s` of this generation is kept.
    pub open spec fn hit(self, s: SortBy, generation: u64) -> bool {
        self.slots[slot_of(s)] matches Some(c) && c.generation == generation
    }

    /// The cache after the order for `s` was used.
    pub open spec fn touched(self, s: SortBy) -> CacheModel {
        CacheModel {
            slots: self.slots,
            touch: self.touch.update(slot_of(s), self.tick()),
            clock: self.tick(),
        }
    }

    /// Whether `i` is the place that was used least recently; of several the first.
    pub open spec fn is_oldest(self, i: int) -> bool {
        &&& 0 <= i < 4
        &&& self.slots[i] is Some
        &&& forall|j: int|
            0 <= j < 4 && #[trigger] self.slots[j] is Some ==> self.touch[i] < self.touch[j] || (
            self.touch[i] == self.touch[j] && i <= j)
    }

    /// How many orders are kept.
    pub open spec fn occupied(self) -> int {
        occupied_in(self.slots[0]) + occupied_in(self.slots[1]) + occupied_in(self.slots[2])
            + occupied_in(self.slots[3])
    }

    /// Room for one more order: the one used least recently leaves where
    /// `MAX_CACHED_SORTS` are kept.
    pub open spec fn with_room(self) -> CacheModel {
        if self.occupied() >= MAX_CACHED_SORTS {
            CacheModel {
                slots: self.slots.update(choose|i: int| self.is_oldest(i), None),
                ..self
            }
        } else {
            self
        }
    }

    /// The cache with the order for `s` put in.
    pub open spec fn with_order(self, s: SortBy, generation: u64, order: Seq<u32>) -> CacheModel {
        let roomy = if self.slots[slot_of(s)] is Some {
            self
        } else {
            self.with_room()
        };
        CacheModel {
            slots: roomy.slots.update(slot_of(s), Some(OrderModel { generation, order })),
            touch: self.touch.update(slot_of(s), self.tick()),
            clock: self.tick(),
        }
    }
}

/// 1 for a place that is taken.
pub open spec fn occupied_in(s: Option<OrderModel>) -> int {
    if s is Some {
        1
    } else {
        0
    }
}

impl SortedIndicesCache {
    /// A cache that holds nothing.
    pub fn new() -> (r: Self)
        ensures
            r@ == CacheModel::empty(),
    {
        let r = SortedIndicesCache { entries: [None, None, None, None], touch: [0; 4], clock: 0 };
        assert(r@ =~= CacheModel::empty());
        r
    }

    /// Whether the order for `sort_by` of this generation is kept; if so, it counts as
    /// used now.
    pub fn get(&mut self, sort_by: SortBy, generation: u64) -> (r: bool)
        ensures
            r == old(self)@.hit(sort_by, generation),
            final(self)@ == (if r {
                old(self)@.touched(sort_by)
            } else {
                old(self)@
            }),
    {
        let slot: usize = sort_by_slot(sort_by);
        let hit = match &self.entries[slot] {
            Some(c) => c.generation == generation,
            None => false,
        };
        if hit {
            self.clock = self.clock.saturating_add(1);
            self.touch[slot] = self.clock;
        }
        hit
    }

    /// The order that is kept for `sort_by`.
    pub fn order(&self, sort_by: SortBy) -> (r: &Vec<u32>)
        requires
            self@.slots[slot_of(sort_by)] is Some,
        ensures
            r@ == self@.slots[slot_of(sort_by)]->0.order,
    {
        let slot: usize = sort_by_slot(sort_by);
        &self.entries[slot].as_ref().unwrap().order
    }

    /// Keeps an order. Where `MAX_CACHED_SORTS` others are kept, the one used least
    /// recently leaves.
    pub fn insert(&mut self, sort_by: SortBy, generation: u64, order: Vec<u32>)
        ensures
            final(self)@ == old(self)@.with_order(sort_by, generation, order@),
    {
        let ghost before = self@;
        let slot: usize = sort_by_slot(sort_by);
        if self.entries[slot].is_none() {
            let mut occupied: usize = 0;
            let mut oldest: usize = 0;
            let mut i: usize = 0;
            while i < 4
                invariant
                    i <= 4,
                    before == self@,
                    occupied <= i,
                    occupied == (if i > 0 {
                        occupied_in(before.slots[0])
                    } else {
                        0
                    }) + (if i > 1 {
                        occupied_in(before.slots[1])
                    } else {
                        0
                    }) + (if i > 2 {
                        occupied_in(before.slots[2])
                    } else {
                        0
                    }) + (if i > 3 {
                        occupied_in(before.slots[3])
                    } else {
                        0
                    }),
                    oldest < 4,
                    occupied > 0 ==> {
                        &&& oldest < i
                        &&& before.slots[oldest as int] is Some
                        &&& forall|j: int|
                            0 <= j < i && #[trigger] before.slots[j] is Some
                                ==> before.touch[oldest as int] < before.touch[j] || (
                            before.touch[oldest as int] == before.touch[j] && oldest <= j)
                    },
                    occupied == 0 ==> forall|j: int|
                        0 <= j < i ==> #[trigger] before.slots[j] is None,
                decreases 4 - i,
            {
                if self.entries[i].is_some() {
                    if occupied == 0 || self.touch[i] < self.touch[oldest] {
                        oldest = i;
                    }
                    occupied += 1;
                }
                i += 1;
            }
            if occupied >= MAX_CACHED_SORTS {
                proof {
                    assert(before.is_oldest(oldest as int));
                    let k = choose|k: int| before.is_oldest(k);
                    assert(before.slots[k] is Some && before.slots[oldest as int] is Some);
                    assert(k == oldest);
                }
                self.entries[oldest] = None;
                assert(self@.slots =~= before.with_room().slots);
            }
        }
        self.clock = self.clock.saturating_add(1);
        self.touch[slot] = self.clock;
        self.entries[slot] = Some(CachedOrder { generation, order });
        assert(self@.slots =~= before.with_order(sort_by, generation, order@).slots);
    }

    /// Forgets every order.
    pub fn clear(&mut self)
        ensures
            final(self)@ == CacheModel::empty(),
    {
        self.entries = [None, None, None, None];
        self.touch = [0; 4];
        self.clock = 0;
        assert(self@ =~= CacheModel::empty());
    }
}

/// A cache never holds more than `MAX_CACHED_SORTS` orders, whatever is put in.
pub proof fn kept_orders_are_few(c: CacheModel, s: SortBy, generation: u64, order: Seq<u32>)
    requires
        c.slots.len() == 4,
        c.touch.len() == 4,
        c.occupied() <= MAX_CACHED_SORTS,
    ensures
        c.with_order(s, generation, order).occupied() <= MAX_CACHED_SORTS,
{
    if c.slots[slot_of(s)] is None && c.occupied() >= MAX_CACHED_SORTS {
        oldest_exists(c);
    }
}

/// Where some order is kept, one of them was used least recently.
proof fn oldest_exists(c: CacheModel)
    requires
        c.slots.len() == 4,
        c.touch.len() == 4,
        c.occupied() > 0,
    ensures
        exists|i: int| c.is_oldest(i),
{
    let older = |i: int, j: int|
        c.slots[i] is Some && (c.slots[j] is None || c.touch[i] < c.touch[j] || (c.touch[i]
            == c.touch[j] && i <= j));
    let a = if older(0, 1) {
        0int
    } else {
        1int
    };
    let b = if older(2, 3) {
        2int
    } else {
        3int
    };
    let i = if c.slots[b] is None || older(a, b) {
        a
    } else {
        b
    };
    assert(c.is_oldest(i));
}

/// What was put in under a generation is found under it, and under no other.
pub proof fn kept_order_is_found(
    c: CacheModel,
    s: SortBy,
    generation: u64,
    order: Seq<u32>,
    asked: u64,
)
    requires
        c.slots.len() == 4,
        c.touch.len() == 4,
    ensures
        c.with_order(s, generation, order).hit(s, asked) <==> asked == generation,
        c.with_order(s, generation, order).slots[slot_of(s)] == Some(
            OrderModel { generation, order },
        ),
{
    if c.slots[slot_of(s)] is None && c.occupied() >= MAX_CACHED_SORTS {
        oldest_exists(c);
    }
}

/// Putting an order in leaves each other place as it was, or empties it.
pub proof fn others_stay_or_leave(
    c: CacheModel,
    s: SortBy,
    generation: u64,
    order: Seq<u32>,
    i: int,
)
    requires
        c.slots.len() == 4,
        c.touch.len() == 4,
        0 <= i < 4,
        i != slot_of(s),
    ensures
        c.with_order(s, generation, order).slots[i] is None || c.with_order(
            s,
            generation,
            order,
        ).slots[i] == c.slots[i],
{
    if c.slots[slot_of(s)] is None && c.occupied() >= MAX_CACHED_SORTS {
        oldest_exists(c);
    }
}

/// Whether no kept order is of a later generation.
pub open spec fn orders_until(kept: CacheModel, generation: u64) -> bool {
    forall|i: int|
        0 <= i < 4 && #[trigger] kept.slots[i] is Some ==> kept.slots[i]->0.generation
            <= generation
}

/// Putting in an order of the last generation leaves none of a later one.
pub proof fn orders_stay_until(c: CacheModel, s: SortBy, generation: u64, order: Seq<u32>)
    requires
        c.slots.len() == 4,
        c.touch.len() == 4,
        orders_until(c, generation),
    ensures
        orders_until(c.with_order(s, generation, order), generation),
{
    if c.slots[slot_of(s)] is None && c.occupied() >= MAX_CACHED_SORTS {
        oldest_exists(c);
    }
    let after = c.with_order(s, generation, order);
    assert forall|i: int| 0 <= i < 4 && #[trigger] after.slots[i] is Some implies after.slots[i]->0.generation
        <= generation by {
        assert(i == slot_of(s) || after.slots[i] is None || after.slots[i] == c.slots[i]);
    }
}

/// Putting an order in keeps the others, but for the one used least recently where
/// the cache is full.
pub proof fn only_the_oldest_leaves(
    c: CacheModel,
    s: SortBy,
    generation: u64,
    order: Seq<u32>,
    i: int,
)
    requires
        c.slots.len() == 4,
        c.touch.len() == 4,
        0 <= i < 4,
        i != slot_of(s),
        !(c.slots[slot_of(s)] is None && c.occupied() >= MAX_CACHED_SORTS && c.is_oldest(i)),
    ensures
        c.with_order(s, generation, order).slots[i] == c.slots[i],
{
    if c.slots[slot_of(s)] is None && c.occupied() >= MAX_CACHED_SORTS {
        oldest_exists(c);
    }
}

} // verus!
