//! What becomes of the files that were found before a volume was walked again.

use crate::remapping;
use crate::remapping::IncrementalResult;
use crate::scene;
use crate::search::FileEntry;
use crate::search_cache;
use crate::search_cache::SearchCache;
use crate::seqs;
use crate::sort_cache;
use crate::volume_map::ShelfModel;
use vstd::prelude::*;

verus! {

/// What was found on other volumes stays found as it was.
pub proof fn other_volumes_stay(
    c: SearchCache,
    shelf: Seq<ShelfModel>,
    vol: u8,
    files: Option<Seq<FileEntry>>,
    result: IncrementalResult,
    today: i32,
    p: u32,
)
    requires
        sort_cache::volume_of(p) != vol,
    ensures
        remapping::matched_after(c, shelf, vol, files, result, today).contains(p)
            <==> c.base.matched@.contains(p),
{
    places_after(c, shelf, vol, files, result, today, p);
    if c.base.matched@.contains(p) {
        assert(remapping::position_after(vol, result.index_map@, p) == Some(p));
    }
    if exists|q: u32| #[trigger]
        c.base.matched@.contains(q) && remapping::position_after(vol, result.index_map@, q) == Some(
            p,
        ) {
        let q = choose|q: u32| #[trigger]
            c.base.matched@.contains(q) && remapping::position_after(vol, result.index_map@, q)
                == Some(p);
        assert forall|n: u32| sort_cache::volume_of(#[trigger] sort_cache::packed(vol, n))
            == vol by {
            sort_cache::unpacking_undoes_packing(vol, n % 0x100_0000);
        }
        assert(q == p);
    }
    assert forall|n: u32| sort_cache::volume_of(#[trigger] sort_cache::packed(vol, n)) == vol by {
        sort_cache::unpacking_undoes_packing(vol, n % 0x100_0000);
    }
}

/// A file of the volume is found afterwards just where it was found before at the place that it had
/// then, or is new, exists, and is what was searched for.
pub proof fn files_keep_being_found(
    c: SearchCache,
    shelf: Seq<ShelfModel>,
    vol: u8,
    files: Seq<FileEntry>,
    result: IncrementalResult,
    today: i32,
    n: u32,
)
    requires
        n < 0x100_0000,
        result.index_map@.len() <= 0x100_0000,
        forall|i: int|
            0 <= i < result.index_map@.len() ==> (#[trigger] result.index_map@[i] matches Some(m)
                ==> m < 0x100_0000),
        forall|i: int|
            0 <= i < result.new_file_indices@.len() ==> #[trigger] result.new_file_indices@[i]
                < 0x100_0000,
    ensures
        remapping::matched_after(c, shelf, vol, Some(files), result, today).contains(
            sort_cache::packed(vol, n),
        ) <==> {
            ||| exists|i: u32|
                i < result.index_map@.len() && result.index_map@[i as int] == Some(n as usize)
                    && c.base.matched@.contains(#[trigger] sort_cache::packed(vol, i))
            ||| result.new_file_indices@.contains(n as usize) && n < files.len() && is_sought(
                c,
                shelf,
                vol,
                files[n as int],
                today,
            )
        },
{
    let p = sort_cache::packed(vol, n);
    let map = result.index_map@;
    places_after(c, shelf, vol, Some(files), result, today, p);
    sort_cache::unpacking_undoes_packing(vol, n);
    if exists|q: u32| #[trigger]
        c.base.matched@.contains(q) && remapping::position_after(vol, map, q) == Some(p) {
        let q = choose|q: u32| #[trigger]
            c.base.matched@.contains(q) && remapping::position_after(vol, map, q) == Some(p);
        let i = sort_cache::file_of(q);
        sort_cache::packing_undoes_unpacking(q);
        if sort_cache::volume_of(q) == vol {
            let m = map[i as int]->0;
            assert(map[i as int] is Some);
            sort_cache::unpacking_undoes_packing(vol, m as u32);
            assert(m == n);
            assert(sort_cache::packed(vol, i) == q);
        } else {
            assert(q == p);
        }
    }
    if exists|i: u32|
        i < map.len() && map[i as int] == Some(n as usize) && c.base.matched@.contains(
            #[trigger] sort_cache::packed(vol, i),
        ) {
        let i = choose|i: u32|
            i < map.len() && map[i as int] == Some(n as usize) && c.base.matched@.contains(
                #[trigger] sort_cache::packed(vol, i),
            );
        sort_cache::unpacking_undoes_packing(vol, i);
        assert(remapping::position_after(vol, map, sort_cache::packed(vol, i)) == Some(p));
    }
    let new = result.new_file_indices@;
    if exists|k: usize| #[trigger]
        new.contains(k) && new_place(c, shelf, vol, files, today, k) == Some(p) {
        let k = choose|k: usize| #[trigger]
            new.contains(k) && new_place(c, shelf, vol, files, today, k) == Some(p);
        let at = choose|at: int| 0 <= at < new.len() && new[at] == k;
        assert(new[at] < 0x100_0000);
        sort_cache::unpacking_undoes_packing(vol, k as u32);
        assert(k == n);
    }
    if new.contains(n as usize) && n < files.len() && is_sought(c, shelf, vol, files[n as int], today) {
        assert(new_place(c, shelf, vol, files, today, n as usize) == Some(p));
    }
}

/// Whether a file is what was searched for.
pub open spec fn is_sought(
    c: SearchCache,
    shelf: Seq<ShelfModel>,
    vol: u8,
    f: FileEntry,
    today: i32,
) -> bool {
    let query = search_cache::query_model(c.query@, today);
    &&& query matches Some(q) ==> q.accepts_entry(
        f@,
        scene::sought_path(q, remapping::path_by_number(shelf, vol, f)),
    )
    &&& c.files_only && f.is_directory ==> (query matches Some(q) && q.dir_only)
    &&& c.directories_only ==> f.is_directory
}

spec fn new_place(
    c: SearchCache,
    shelf: Seq<ShelfModel>,
    vol: u8,
    files: Seq<FileEntry>,
    today: i32,
    n: usize,
) -> Option<u32> {
    remapping::new_position(
        shelf,
        vol,
        files,
        search_cache::query_model(c.query@, today),
        c.files_only,
        c.directories_only,
        n,
    )
}

/// What is found afterwards are the places that were found, where they are now, and those of new
/// files.
proof fn places_after(
    c: SearchCache,
    shelf: Seq<ShelfModel>,
    vol: u8,
    files: Option<Seq<FileEntry>>,
    result: IncrementalResult,
    today: i32,
    p: u32,
)
    ensures
        remapping::matched_after(c, shelf, vol, files, result, today).contains(p) <==> {
            ||| exists|q: u32| #[trigger]
                c.base.matched@.contains(q) && remapping::position_after(
                    vol,
                    result.index_map@,
                    q,
                ) == Some(p)
            ||| files matches Some(files) && exists|k: usize| #[trigger]
                result.new_file_indices@.contains(k) && new_place(c, shelf, vol, files, today, k)
                    == Some(p)
        },
{
    let old = c.base.matched@;
    let new = result.new_file_indices@;
    let f = |q: u32| remapping::position_after(vol, result.index_map@, q);
    let kept = old.filter_map(f);
    found_by(old, f, p);
    match files {
        Some(files) => {
            let g = |n: usize|
                remapping::new_position(
                    shelf,
                    vol,
                    files,
                    search_cache::query_model(c.query@, today),
                    c.files_only,
                    c.directories_only,
                    n,
                );
            let added = new.filter_map(g);
            found_by(new, g, p);
            assert(remapping::matched_after(c, shelf, vol, Some(files), result, today) == kept
                + added);
            either_holds(kept, added, p);
            assert forall|k: usize| g(k) == #[trigger] new_place(c, shelf, vol, files, today, k) by {}
            if added.contains(p) {
                let k = choose|k: usize| #[trigger] new.contains(k) && g(k) == Some(p);
                assert(new_place(c, shelf, vol, files, today, k) == Some(p));
            }
        },
        None => {
            either_holds(kept, seq![], p);
        },
    }
    if kept.contains(p) {
        let q = choose|q: u32| #[trigger] old.contains(q) && f(q) == Some(p);
        assert(remapping::position_after(vol, result.index_map@, q) == Some(p));
    }
}

proof fn found_by<A>(s: Seq<A>, f: spec_fn(A) -> Option<u32>, p: u32)
    ensures
        s.filter_map(f).contains(p) <==> exists|a: A| #[trigger] s.contains(a) && f(a) == Some(p),
{
    if s.filter_map(f).contains(p) {
        s.lemma_filter_map_contains(f, p);
    }
    if exists|a: A| #[trigger] s.contains(a) && f(a) == Some(p) {
        let a = choose|a: A| #[trigger] s.contains(a) && f(a) == Some(p);
        let i = choose|i: int| 0 <= i < s.len() && s[i] == a;
        seqs::filter_map_has(s, f, i);
    }
}

proof fn either_holds(a: Seq<u32>, b: Seq<u32>, p: u32)
    ensures
        (a + b).contains(p) <==> a.contains(p) || b.contains(p),
{
    if a.contains(p) {
        let i = choose|i: int| 0 <= i < a.len() && a[i] == p;
        assert((a + b)[i] == p);
    }
    if b.contains(p) {
        let i = choose|i: int| 0 <= i < b.len() && b[i] == p;
        assert((a + b)[a.len() + i] == p);
    }
    if (a + b).contains(p) {
        let i = choose|i: int| 0 <= i < (a + b).len() && (a + b)[i] == p;
        if i < a.len() {
            assert(a[i] == p);
        } else {
            assert(b[i - a.len()] == p);
        }
    }
}

} // verus!
