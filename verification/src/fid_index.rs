//! The index from file ids to places in a volume's list of files.

use crate::search::FileEntry;
use crate::sorting::{merge_sort, SortOrder};
use vstd::prelude::*;
use vstd::relations::*;

verus! {

/// The order of (file id, place) pairs: by id, then by place.
pub struct PairOrder;

impl SortOrder<(u32, u32)> for PairOrder {
    open spec fn covers(&self, a: (u32, u32)) -> bool {
        true
    }

    open spec fn leq(&self, a: (u32, u32), b: (u32, u32)) -> bool {
        a.0 < b.0 || (a.0 == b.0 && a.1 <= b.1)
    }

    proof fn total(&self) {
        let leq = |a: (u32, u32), b: (u32, u32)| self.leq(a, b);
        assert(reflexive(leq));
        assert(antisymmetric(leq));
        assert(transitive(leq));
        assert(strongly_connected(leq));
    }

    fn le(&self, a: &(u32, u32), b: &(u32, u32)) -> (r: bool) {
        a.0 < b.0 || (a.0 == b.0 && a.1 <= b.1)
    }
}

/// The files' ids with their places, in the order of the files.
pub open spec fn id_pairs(files: Seq<FileEntry>) -> Seq<(u32, u32)> {
    Seq::new(files.len(), |i: int| (files[i].file_id, i as u32))
}

/// The index of `files`: their ids with their places, sorted.
pub open spec fn index_of_files(files: Seq<FileEntry>) -> Seq<(u32, u32)> {
    crate::sorting::in_order(PairOrder, id_pairs(files))
}

/// Whether the pairs are in the order of their ids.
pub open spec fn ids_ascend(index: Seq<(u32, u32)>) -> bool {
    forall|i: int, j: int| 0 <= i < j < index.len() ==> #[trigger] index[i].0 <= #[trigger] index[j].0
}

/// Whether the index knows the file id `fid`.
pub open spec fn knows(index: Seq<(u32, u32)>, fid: u32) -> bool {
    exists|i: int| 0 <= i < index.len() && #[trigger] index[i].0 == fid
}

/// Whether `i` is the first pair of `fid`.
pub open spec fn first_pair(index: Seq<(u32, u32)>, fid: u32, i: int) -> bool {
    &&& 0 <= i < index.len()
    &&& index[i].0 == fid
    &&& forall|j: int| 0 <= j < i ==> #[trigger] index[j].0 != fid
}

/// The place that the index gives for `fid`.
pub open spec fn place_of(index: Seq<(u32, u32)>, fid: u32) -> Option<u32> {
    if knows(index, fid) {
        Some(index[choose|i: int| first_pair(index, fid, i)].1)
    } else {
        None
    }
}

/// The index of `files` is in the order of its ids.
pub proof fn index_ascends(files: Seq<FileEntry>)
    ensures
        ids_ascend(index_of_files(files)),
        index_of_files(files).len() == files.len(),
{
    crate::sorting::in_order_sorts(PairOrder, id_pairs(files));
    let index = index_of_files(files);
    assert forall|i: int, j: int| 0 <= i < j < index.len() implies #[trigger] index[i].0
        <= #[trigger] index[j].0 by {
        assert(PairOrder.leq(index[i], index[j]));
    }
}

/// The index of `files` knows the ids that they have.
pub proof fn index_knows(files: Seq<FileEntry>, fid: u32)
    ensures
        knows(index_of_files(files), fid) <==> exists|i: int|
            0 <= i < files.len() && (#[trigger] files[i]).file_id == fid,
{
    broadcast use vstd::seq_lib::group_to_multiset_ensures;

    let pairs = id_pairs(files);
    let index = index_of_files(files);
    crate::sorting::in_order_sorts(PairOrder, pairs);
    if knows(index, fid) {
        let i = choose|i: int| 0 <= i < index.len() && #[trigger] index[i].0 == fid;
        assert(index.contains(index[i]));
        assert(index.to_multiset().count(index[i]) > 0);
        assert(pairs.contains(index[i]));
        let k = choose|k: int| 0 <= k < pairs.len() && pairs[k] == index[i];
        assert(files[k].file_id == fid);
    }
    if exists|i: int| 0 <= i < files.len() && (#[trigger] files[i]).file_id == fid {
        let i = choose|i: int| 0 <= i < files.len() && (#[trigger] files[i]).file_id == fid;
        assert(pairs.contains(pairs[i]));
        assert(pairs.to_multiset().count(pairs[i]) > 0);
        assert(index.contains(pairs[i]));
        let k = choose|k: int| 0 <= k < index.len() && index[k] == pairs[i];
        assert(index[k].0 == fid);
    }
}

/// The index of `files`.
pub fn build_index(files: &Vec<FileEntry>) -> (r: Vec<(u32, u32)>)
    ensures
        r@ == index_of_files(files@),
        ids_ascend(r@),
{
    let mut pairs: Vec<(u32, u32)> = Vec::new();
    let mut i: usize = 0;
    while i < files.len()
        invariant
            i <= files@.len(),
            pairs@ =~= id_pairs(files@).take(i as int),
        decreases files@.len() - i,
    {
        pairs.push((files[i].file_id, #[verifier::truncate] (i as u32)));
        i += 1;
    }
    assert(pairs@ =~= id_pairs(files@));
    proof {
        index_ascends(files@);
    }
    merge_sort(&PairOrder, &pairs)
}

/// The place that the index gives for `fid`.
pub fn find_place(index: &Vec<(u32, u32)>, fid: u32) -> (r: Option<u32>)
    requires
        ids_ascend(index@),
    ensures
        r == place_of(index@, fid),
{
    let mut low: usize = 0;
    let mut high: usize = index.len();
    while low < high
        invariant
            low <= high <= index@.len(),
            ids_ascend(index@),
            forall|i: int| 0 <= i < low ==> #[trigger] index@[i].0 < fid,
            forall|i: int| high <= i < index@.len() ==> #[trigger] index@[i].0 >= fid,
        decreases high - low,
    {
        let mid: usize = low + (high - low) / 2;
        if index[mid].0 < fid {
            low = mid + 1;
        } else {
            high = mid;
        }
    }
    if low < index.len() && index[low].0 == fid {
        proof {
            assert(first_pair(index@, fid, low as int));
            let k = choose|k: int| first_pair(index@, fid, k);
            assert(index@[k].0 == fid && index@[low as int].0 == fid);
            assert(k == low);
        }
        Some(index[low].1)
    } else {
        assert(!knows(index@, fid));
        None
    }
}

} // verus!
