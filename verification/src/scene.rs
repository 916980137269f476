//! What a search shows: the files that were matched, less those that changed since,
//! and the changed ones themselves.

use crate::keys;
use crate::query::QueryModel;
use crate::rows;
use crate::rows::RowModel;
use crate::search::{FileEntry, SortBy, SortDirection};
use crate::seqs;
use crate::sort_cache;
use crate::volume_map;
use crate::volume_map::ShelfModel;
use vstd::prelude::*;

verus! {

/// Everything that a result list is made from.
pub struct Scene {
    /// The volumes.
    pub shelf: Seq<ShelfModel>,
    /// The packed positions of the files that were matched.
    pub matched: Seq<u32>,
    /// The files that were added since, with their volumes.
    pub new_files: Seq<(u8, FileEntry)>,
    /// The keys of files that were removed since.
    pub deleted: Set<u64>,
    /// The keys of files that were removed and added again since.
    pub renamed: Set<u64>,
    /// The files that were changed since, by key.
    pub modified: Map<u64, FileEntry>,
    /// The query, where it is not blank.
    pub query: Option<QueryModel>,
    pub files_only: bool,
    pub directories_only: bool,
}

/// The row of a file of volume `v`.
pub open spec fn row_of(shelf: Seq<ShelfModel>, v: u8, f: FileEntry) -> RowModel {
    RowModel {
        volume: shelf[v as int].name,
        ordinal: match shelf[v as int].monitor {
            Some(m) => m.path_table@.ordinal(f.path_id),
            None => u32::MAX,
        },
        file: f@,
        path: match shelf[v as int].monitor {
            Some(m) => Some(m.path_of(f)),
            None => None,
        },
    }
}

/// The path that a query is held against: empty where the query does not ask for it.
pub open spec fn sought_path(q: QueryModel, path: Seq<char>) -> Seq<char> {
    if q.path is Some {
        path
    } else {
        seq![]
    }
}

/// Whether files or directories are asked for, whichever this is. A query for directories
/// overrides `files_only`.
pub open spec fn is_asked_for(
    query: Option<QueryModel>,
    files_only: bool,
    directories_only: bool,
    is_directory: bool,
) -> bool {
    &&& !(files_only && is_directory && !(query matches Some(q) && q.dir_only))
    &&& directories_only ==> is_directory
}

impl Scene {
    /// The row of the matched file at place `i`.
    pub open spec fn base_row(self, i: int) -> Option<RowModel> {
        match volume_map::file_at(self.shelf, self.matched[i]) {
            Some(f) => Some(row_of(self.shelf, sort_cache::volume_of(self.matched[i]), f)),
            None => None,
        }
    }

    /// The rows of the matched files.
    pub open spec fn base_rows(self) -> Seq<Option<RowModel>> {
        Seq::new(self.matched.len(), |i: int| self.base_row(i))
    }

    /// The places of the matched files that are still there.
    pub open spec fn base_places(self) -> Seq<u32> {
        places_with_rows(self.base_rows())
    }

    /// The places of the matched files in the order `sort_by`.
    pub open spec fn base_order(self, sort_by: SortBy) -> Seq<u32> {
        rows::places_sorted(self.base_rows(), sort_by, self.base_places())
    }

    /// Whether a matched file is not shown because it changed since.
    pub open spec fn hides(self, k: u64) -> bool {
        self.deleted.contains(k) || self.modified.contains_key(k)
    }

    /// The key of the matched file at place `i`, which has the id `fid`.
    pub open spec fn base_key(self, i: int, fid: u32) -> u64 {
        keys::key(sort_cache::volume_of(self.matched[i]), fid)
    }

    /// The row of the matched file at place `i`, where it is shown.
    pub open spec fn active_row(self, i: u32) -> Option<RowModel> {
        if i < self.matched.len() {
            match self.base_row(i as int) {
                Some(r) => if self.hides(self.base_key(i as int, r.file.file_id)) {
                    None
                } else {
                    Some(r)
                },
                None => None,
            }
        } else {
            None
        }
    }

    /// The rows that are shown of the matched files, in the given order of places.
    pub open spec fn active_rows(self, order: Seq<u32>) -> Seq<RowModel> {
        order.filter_map(|i: u32| self.active_row(i))
    }

    /// How many matched files are shown.
    pub open spec fn active_count(self) -> nat {
        self.active_rows(places(self.matched.len())).len()
    }

    /// Whether a file of volume `v` passes the query, where the volume is at hand, and
    /// is of the kind that is asked for. A query for directories overrides `files_only`.
    pub open spec fn takes(self, v: u8, f: FileEntry) -> bool {
        &&& v < self.shelf.len()
        &&& match (self.query, self.shelf[v as int].monitor) {
            (Some(q), Some(m)) => q.accepts_entry(f@, sought_path(q, m.path_of(f))),
            _ => true,
        }
        &&& is_asked_for(self.query, self.files_only, self.directories_only, f.is_directory)
    }

    /// The row of a file that was added, where it is shown.
    pub open spec fn new_row(self, e: (u8, FileEntry)) -> Option<RowModel> {
        let k = keys::key(e.0, e.1.file_id);
        if (self.deleted.contains(k) && !self.renamed.contains(k)) || !self.takes(e.0, e.1) {
            None
        } else {
            Some(row_of(self.shelf, e.0, e.1))
        }
    }

    /// The row of the file that was changed under the key `k`, where it is shown.
    pub open spec fn modified_row(self, k: u64) -> Option<RowModel> {
        let v = keys::volume_in(k);
        let f = self.modified[k];
        if self.deleted.contains(keys::key(v, f.file_id)) || !self.takes(v, f) {
            None
        } else {
            Some(row_of(self.shelf, v, f))
        }
    }

    /// The keys of the files that were changed, from the smallest up.
    pub open spec fn modified_keys(self) -> Seq<u64> {
        seqs::in_ascent(self.modified.dom())
    }

    /// The rows that are shown of the files that were added or changed.
    pub open spec fn delta_rows(self) -> Seq<RowModel> {
        self.new_files.filter_map(|e: (u8, FileEntry)| self.new_row(e))
            + self.modified_keys().filter_map(|k: u64| self.modified_row(k))
    }

    /// The same, in the order `sort_by`.
    pub open spec fn delta_sorted(self, sort_by: SortBy) -> Seq<RowModel> {
        rows::rows_sorted(self.delta_rows(), sort_by)
    }

    /// The whole result list, where the matched files stand in the given order of
    /// places.
    pub open spec fn shown(
        self,
        order: Seq<u32>,
        sort_by: SortBy,
        direction: SortDirection,
    ) -> Seq<RowModel> {
        rows::merged(sort_by, direction, self.active_rows(order), self.delta_sorted(sort_by))
    }
}

/// The places 0 to `n`, without `n`.
pub open spec fn places(n: nat) -> Seq<u32> {
    Seq::new(n, |i: int| i as u32)
}

/// The places at which there are rows.
pub open spec fn places_with_rows(rows: Seq<Option<RowModel>>) -> Seq<u32> {
    places(rows.len()).filter(|i: u32| rows[i as int] is Some)
}

} // verus!
