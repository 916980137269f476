//! The table of directory paths. Each directory is kept once, as its name and the
//! id of its parent; a file then holds the id of its directory instead of a path.

use crate::sorting::{merge_sort, SortOrder};
use crate::text;
use crate::text::{chars_of, ends_with_char, find_last, rank_text, string_from, times, Rank};
use vstd::hash_map::StringHashMap;
use vstd::multiset::*;
use vstd::prelude::*;
use vstd::relations::*;
use vstd::seq_lib::*;

verus! {

broadcast use vstd::string::group_string_axioms;

/// The id that stands for no directory.
pub const ROOT_PATH_ID: u32 = 0;

/// The id that marks a removed file.
pub const DELETED_PATH_ID: u32 = 0xffff_ffff;

/// The most directories that a path is followed through.
pub const MAX_DEPTH: usize = 64;

/// A directory: its parent, its own name, and its place among all paths.
pub struct PathEntry {
    pub parent_id: u32,
    pub name: String,
    pub ordinal: u32,
}

/// What a `PathEntry` holds.
#[verifier::ext_equal]
pub struct EntryModel {
    pub parent: u32,
    pub name: Seq<char>,
    pub ordinal: u32,
}

impl View for PathEntry {
    type V = EntryModel;

    open spec fn view(&self) -> EntryModel {
        EntryModel { parent: self.parent_id, name: self.name@, ordinal: self.ordinal }
    }
}

/// The directories by id, and the ids of the paths that were registered.
pub struct PathTable {
    pub entries: Vec<PathEntry>,
    pub path_to_id: StringHashMap<u32>,
}

/// What a `PathTable` holds.
#[verifier::ext_equal]
pub struct TableModel {
    pub entries: Seq<EntryModel>,
    pub ids: Map<Seq<char>, u32>,
}

impl View for PathTable {
    type V = TableModel;

    open spec fn view(&self) -> TableModel {
        TableModel {
            entries: self.entries@.map_values(|e: PathEntry| e@),
            ids: self.path_to_id@,
        }
    }
}

impl TableModel {
    /// The table with `path` registered as the child `name` of `parent`, and its id.
    pub open spec fn with_child(self, path: Seq<char>, parent: u32, name: Seq<char>) -> (
        TableModel,
        u32,
    ) {
        let id = self.entries.len() as u32;
        (
            TableModel {
                entries: self.entries.push(EntryModel { parent, name, ordinal: u32::MAX }),
                ids: self.ids.insert(path, id),
            },
            id,
        )
    }

    /// The table with `path` and its parents registered, and the id of `path`.
    pub open spec fn interned(self, path: Seq<char>) -> (TableModel, u32)
        decreases path.len(),
    {
        if path.len() == 0 {
            (self, DELETED_PATH_ID)
        } else if self.ids.contains_key(path) {
            (self, self.ids[path])
        } else {
            let cut = text::last_place(path, '\\');
            if cut < 0 {
                self.with_child(path, ROOT_PATH_ID, path)
            } else if cut == 0 || cut >= path.len() {
                self.with_child(path, ROOT_PATH_ID, path.skip(cut + 1))
            } else {
                let (above, parent) = self.interned(path.take(cut));
                above.with_child(path, parent, path.skip(cut + 1))
            }
        }
    }

    /// The names met on the way up from `id`, at most `hops` of them.
    pub open spec fn lineage(self, id: u32, hops: nat) -> Seq<Seq<char>>
        decreases hops,
    {
        if hops == 0 || id == ROOT_PATH_ID || id >= self.entries.len() {
            seq![]
        } else {
            seq![self.entries[id as int].name] + self.lineage(
                self.entries[id as int].parent,
                (hops - 1) as nat,
            )
        }
    }

    /// The path of the directory `id`.
    pub open spec fn path(self, id: u32) -> Seq<char> {
        if id == ROOT_PATH_ID || id == DELETED_PATH_ID {
            seq![]
        } else {
            joined(self.lineage(id, MAX_DEPTH as nat))
        }
    }

    /// The path of the file `name` in the directory `id`.
    pub open spec fn file_path(self, id: u32, name: Seq<char>) -> Seq<char> {
        if self.path(id).len() == 0 {
            name
        } else {
            below(self.path(id), name)
        }
    }

    /// The place of the directory `id` among all paths.
    pub open spec fn ordinal(self, id: u32) -> u32 {
        if id == ROOT_PATH_ID {
            0
        } else if id == DELETED_PATH_ID {
            (u32::MAX - 1) as u32
        } else if id >= self.entries.len() {
            u32::MAX
        } else {
            self.entries[id as int].ordinal
        }
    }

    /// Whether this is the table `before` with its directories numbered from 1 in the
    /// order of their paths.
    pub open spec fn is_numbered(self, before: TableModel) -> bool {
        &&& self.ids == before.ids
        &&& self.entries.len() == before.entries.len()
        &&& forall|i: int|
            0 <= i < self.entries.len() ==> {
                &&& (#[trigger] self.entries[i]).parent == before.entries[i].parent
                &&& self.entries[i].name == before.entries[i].name
            }
        &&& self.entries.len() > 0 ==> self.entries[0] == before.entries[0]
        &&& forall|a: u32|
            1 <= a < self.entries.len() ==> {
                let e = #[trigger] self.entries[a as int];
                1 <= e.ordinal < self.entries.len()
            }
        &&& forall|a: u32, b: u32|
            #![trigger self.entries[a as int], self.entries[b as int]]
            1 <= a < self.entries.len() && 1 <= b < self.entries.len() ==> (
            self.entries[a as int].ordinal < self.entries[b as int].ordinal
                <==> before.path_before(a, b))
    }

    /// Whether the path of `a` comes before that of `b`; the smaller id where they are the same.
    pub open spec fn path_before(self, a: u32, b: u32) -> bool {
        text::tie_break(text::text_rank(self.path(a), self.path(b)), text::number_rank(a as int, b as int))
            == Rank::Before
    }
}

/// `name` under `dir`, with one backslash between them.
pub open spec fn below(dir: Seq<char>, name: Seq<char>) -> Seq<char> {
    if dir.len() > 0 && dir.last() != '\\' {
        dir.push('\\') + name
    } else {
        dir + name
    }
}

/// The path whose names, the deepest first, are `names`.
pub open spec fn joined(names: Seq<Seq<char>>) -> Seq<char>
    decreases names.len(),
{
    if names.len() == 0 {
        seq![]
    } else {
        below(joined(names.drop_first()), names[0])
    }
}

/// `dir` with `name` put under it.
fn push_below(dir: &mut String, name: &str)
    ensures
        final(dir)@ == below(old(dir)@, name@),
{
    if !dir.as_str().is_empty() && !ends_with_char(dir.as_str(), '\\') {
        dir.push('\\');
    }
    dir.append(name);
}

/// The order of paths, and of ids where two paths are the same.
struct PathOrder {
    paths: Vec<String>,
}

impl PathOrder {
    spec fn text(&self, id: u32) -> Seq<char> {
        if 1 <= id <= self.paths@.len() {
            self.paths@[id - 1]@
        } else {
            seq![]
        }
    }
}

impl SortOrder<u32> for PathOrder {
    closed spec fn covers(&self, a: u32) -> bool {
        1 <= a <= self.paths@.len()
    }

    closed spec fn leq(&self, a: u32, b: u32) -> bool {
        text::tie_break(text::text_rank(self.text(a), self.text(b)), text::number_rank(a as int, b as int))
            != Rank::After
    }

    proof fn total(&self) {
        let leq = |a: u32, b: u32| self.leq(a, b);
        assert forall|a: u32| #[trigger] leq(a, a) by {
            text::text_rank_same(self.text(a), self.text(a));
        }
        assert forall|a: u32, b: u32| #[trigger] leq(a, b) && #[trigger] leq(b, a) implies a
            == b by {
            text::text_rank_flip(self.text(a), self.text(b));
        }
        assert forall|a: u32, b: u32| #[trigger] leq(a, b) || #[trigger] leq(b, a) by {
            text::text_rank_flip(self.text(a), self.text(b));
        }
        assert forall|a: u32, b: u32, c: u32| #[trigger] leq(a, b) && #[trigger] leq(
            b,
            c,
        ) implies leq(a, c) by {
            text::text_rank_same(self.text(a), self.text(b));
            text::text_rank_same(self.text(b), self.text(c));
            if text::text_rank(self.text(a), self.text(b)) == Rank::Before && text::text_rank(
                self.text(b),
                self.text(c),
            ) == Rank::Before {
                text::text_rank_transitive(self.text(a), self.text(b), self.text(c));
            }
        }
    }

    fn le(&self, a: &u32, b: &u32) -> (r: bool) {
        let ta = self.paths[(*a - 1) as usize].as_str();
        let tb = self.paths[(*b - 1) as usize].as_str();
        match rank_text(ta, tb) {
            Rank::Before => true,
            Rank::After => false,
            Rank::Same => *a <= *b,
        }
    }
}

impl PathTable {
    /// A table that holds nothing but the place kept for id 0.
    pub fn new() -> (r: Self)
        ensures
            r@ == empty_table(),
    {
        let mut entries: Vec<PathEntry> = Vec::new();
        entries.push(PathEntry { parent_id: 0, name: String::new(), ordinal: 0 });
        let r = PathTable { entries, path_to_id: StringHashMap::new() };
        assert(r@.entries =~= seq![EntryModel { parent: 0, name: seq![], ordinal: 0 }]);
        r
    }

    /// Registers `full_path` and the directories above it, and gives the id of
    /// `full_path`. A path that is registered keeps its id; the empty path has
    /// the id of a removed file.
    pub fn intern(&mut self, full_path: &str) -> (id: u32)
        ensures
            final(self)@ == old(self)@.interned(full_path@).0,
            id == old(self)@.interned(full_path@).1,
        decreases full_path@.len(),
    {
        if full_path.is_empty() {
            return DELETED_PATH_ID;
        }
        if let Some(id) = self.path_to_id.get(full_path) {
            return *id;
        }
        let chars = chars_of(full_path);
        proof {
            text::last_place_is_last(full_path@, '\\');
        }
        let (parent_id, name): (u32, String) = match find_last(&chars, '\\') {
            Some(cut) => {
                assert(chars@.subrange(cut + 1, chars@.len() as int) =~= full_path@.skip(cut + 1));
                assert(chars@.subrange(0, cut as int) =~= full_path@.take(cut as int));
                let name = string_from(&chars, cut + 1, chars.len());
                if cut == 0 {
                    (ROOT_PATH_ID, name)
                } else {
                    let above = string_from(&chars, 0, cut);
                    let parent: u32 = self.intern(above.as_str());
                    (parent, name)
                }
            },
            None => (ROOT_PATH_ID, full_path.to_string()),
        };
        let ghost before = self@;
        let id: u32 = self.entries.len() as u32;
        self.entries.push(PathEntry { parent_id, name, ordinal: u32::MAX });
        self.path_to_id.insert(full_path.to_string(), id);
        assert(self@ =~= before.with_child(full_path@, parent_id, name@).0);
        id
    }

    /// The path of the directory `path_id`: the names above it, joined. At most
    /// the deepest `MAX_DEPTH` names are followed.
    pub fn resolve_path(&self, path_id: u32) -> (r: String)
        ensures
            r@ == self@.path(path_id),
    {
        if path_id == ROOT_PATH_ID || path_id == DELETED_PATH_ID {
            return String::new();
        }
        let mut ids: Vec<u32> = Vec::new();
        let mut cur: u32 = path_id;
        let ghost model = self@;
        while ids.len() < MAX_DEPTH && cur != ROOT_PATH_ID && (cur as usize) < self.entries.len()
            invariant
                ids@.len() <= MAX_DEPTH,
                model == self@,
                forall|i: int| 0 <= i < ids@.len() ==> ids@[i] < self.entries@.len(),
                model.lineage(path_id, MAX_DEPTH as nat) =~= ids@.map_values(
                    |id: u32| model.entries[id as int].name,
                ) + model.lineage(cur, (MAX_DEPTH - ids@.len()) as nat),
            decreases MAX_DEPTH - ids@.len(),
        {
            let parent: u32 = self.entries[cur as usize].parent_id;
            ids.push(cur);
            cur = parent;
        }
        let ghost names = ids@.map_values(|id: u32| model.entries[id as int].name);
        assert(model.lineage(path_id, MAX_DEPTH as nat) =~= names);
        let mut r = String::new();
        let mut k: usize = ids.len();
        assert(names.skip(k as int) =~= seq![]);
        while k > 0
            invariant
                k <= ids@.len(),
                model == self@,
                forall|i: int| 0 <= i < ids@.len() ==> ids@[i] < self.entries@.len(),
                names == ids@.map_values(|id: u32| model.entries[id as int].name),
                r@ == joined(names.skip(k as int)),
            decreases k,
        {
            k -= 1;
            assert(names.skip(k as int).drop_first() =~= names.skip(k + 1));
            assert(names.skip(k as int)[0] == self.entries@[ids@[k as int] as int].name@);
            push_below(&mut r, self.entries[ids[k] as usize].name.as_str());
        }
        assert(names.skip(0) =~= names);
        r
    }

    /// The path of the file `file_name` in the directory `path_id`.
    pub fn resolve_file_path(&self, path_id: u32, file_name: &str) -> (r: String)
        ensures
            r@ == self@.file_path(path_id, file_name@),
    {
        let mut dir = self.resolve_path(path_id);
        if dir.as_str().is_empty() {
            return file_name.to_string();
        }
        push_below(&mut dir, file_name);
        dir
    }

    /// Forgets which paths are registered. The directories keep their ids, and a
    /// path that is registered again gets a new one.
    pub fn clear_dedup_map(&mut self)
        ensures
            final(self)@ == (TableModel { entries: old(self)@.entries, ids: Map::empty() }),
    {
        self.path_to_id.clear();
    }

    /// Numbers the directories from 1 in the order of their paths.
    pub fn compute_ordinals(&mut self)
        requires
            old(self)@.entries.len() <= u32::MAX,
        ensures
            final(self)@.is_numbered(old(self)@),
    {
        let n: usize = self.entries.len();
        if n <= 1 {
            return;
        }
        let ghost model = self@;
        let mut ids: Vec<u32> = Vec::new();
        let mut paths: Vec<String> = Vec::new();
        let mut next: usize = 1;
        while next < n
            invariant
                1 <= next <= n <= u32::MAX,
                n == self.entries@.len(),
                model == self@,
                ids@.len() == next - 1,
                paths@.len() == next - 1,
                forall|i: int| 0 <= i < ids@.len() ==> ids@[i] == i + 1,
                forall|i: int|
                    0 <= i < paths@.len() ==> (#[trigger] paths@[i])@ == model.path((i + 1) as u32),
            decreases n - next,
        {
            paths.push(self.resolve_path(next as u32));
            ids.push(next as u32);
            next += 1;
        }
        let order = PathOrder { paths };
        let sorted = merge_sort(&order, &ids);
        proof {
            arranged(order, ids@, sorted@);
        }
        let mut k: usize = 0;
        while k < sorted.len()
            invariant
                k <= sorted@.len(),
                sorted@.len() == n - 1,
                n <= u32::MAX,
                n == self.entries@.len(),
                model.entries.len() == n,
                self@.ids == model.ids,
                forall|i: int| 0 <= i < sorted@.len() ==> 1 <= #[trigger] sorted@[i] < n,
                forall|i: int, j: int|
                    0 <= i < j < sorted@.len() ==> #[trigger] sorted@[i] != #[trigger] sorted@[j],
                forall|i: int|
                    0 <= i < n ==> {
                        &&& (#[trigger] self.entries@[i]).parent_id == model.entries[i].parent
                        &&& self.entries@[i].name@ == model.entries[i].name
                    },
                self.entries@[0]@ == model.entries[0],
                forall|i: int|
                    0 <= i < k ==> self.entries@[#[trigger] sorted@[i] as int].ordinal == i + 1,
            decreases sorted@.len() - k,
        {
            let id: usize = sorted[k] as usize;
            self.entries[id].ordinal = (k + 1) as u32;
            k += 1;
        }
        proof {
            assert forall|a: u32| 1 <= a < n implies {
                let i = sorted@.index_of(a);
                0 <= i < sorted@.len() && sorted@[i] == a && (
                #[trigger] self.entries@[a as int]).ordinal == i + 1
            } by {
                assert(ids@[a - 1] == a);
                assert(sorted@.contains(a));
                let i = sorted@.index_of(a);
                assert(self.entries@[sorted@[i] as int].ordinal == i + 1);
            }
            assert forall|a: u32, b: u32| 1 <= a < n && 1 <= b < n implies ((
            #[trigger] self.entries@[a as int]).ordinal < (
            #[trigger] self.entries@[b as int]).ordinal <==> model.path_before(a, b)) by {
                let i = sorted@.index_of(a);
                let j = sorted@.index_of(b);
                assert(self.entries@[a as int].ordinal == i + 1);
                assert(self.entries@[b as int].ordinal == j + 1);
                assert(order.text(a) == model.path(a));
                assert(order.text(b) == model.path(b));
                text::text_rank_flip(order.text(a), order.text(b));
                text::text_rank_same(order.text(a), order.text(b));
                if i < j {
                    assert(order.leq(sorted@[i], sorted@[j]));
                } else if j < i {
                    assert(order.leq(sorted@[j], sorted@[i]));
                }
            }
            assert forall|i: int| 0 <= i < self@.entries.len() implies {
                &&& (#[trigger] self@.entries[i]).parent == model.entries[i].parent
                &&& self@.entries[i].name == model.entries[i].name
            } by {
                assert(self@.entries[i] == self.entries@[i]@);
            }
            assert forall|a: u32| 1 <= a < self@.entries.len() implies 1
                <= #[trigger] self@.entries[a as int].ordinal < self@.entries.len() by {
                assert(self@.entries[a as int] == self.entries@[a as int]@);
            }
        }
    }

    /// Whether the directory `path_id` has its number.
    pub fn is_ordinal_computed(&self, path_id: u32) -> (r: bool)
        ensures
            r == (path_id == ROOT_PATH_ID || path_id == DELETED_PATH_ID || (path_id
                < self@.entries.len() && self@.entries[path_id as int].ordinal != u32::MAX)),
    {
        if path_id == ROOT_PATH_ID || path_id == DELETED_PATH_ID {
            return true;
        }
        if path_id as usize >= self.entries.len() {
            return false;
        }
        self.entries[path_id as usize].ordinal != u32::MAX
    }

    /// The number of the directory `path_id`: 0 for no directory, one less than the
    /// largest for a removed file, the largest for an unknown or unnumbered one.
    pub fn get_ordinal(&self, path_id: u32) -> (r: u32)
        ensures
            r == self@.ordinal(path_id),
    {
        if path_id == ROOT_PATH_ID {
            return 0;
        }
        if path_id == DELETED_PATH_ID {
            return u32::MAX - 1;
        }
        if path_id as usize >= self.entries.len() {
            return u32::MAX;
        }
        self.entries[path_id as usize].ordinal
    }

    /// Whether `path_id` marks a removed file.
    pub fn is_deleted(path_id: u32) -> (r: bool)
        ensures
            r == (path_id == DELETED_PATH_ID),
    {
        path_id == DELETED_PATH_ID
    }

    /// The id that marks a removed file.
    pub fn deleted_id() -> (r: u32)
        ensures
            r == DELETED_PATH_ID,
    {
        DELETED_PATH_ID
    }

    /// How many directories the table holds.
    pub fn len(&self) -> (r: usize)
        ensures
            r == (if self@.entries.len() == 0 {
                0
            } else {
                self@.entries.len() - 1
            }),
    {
        if self.entries.len() == 0 {
            0
        } else {
            self.entries.len() - 1
        }
    }

    /// About how many bytes the table takes, up to what the machine can count: 32 for each
    /// directory and 28 for each path that is known.
    pub fn memory_estimate(&self) -> (r: usize)
        ensures
            r == crate::rows::least(
                (32 * self@.entries.len() + 28 * self@.ids.len()) as int,
                usize::MAX as int,
            ),
    {
        times(self.entries.len(), 32).saturating_add(times(self.path_to_id.len(), 28))
    }

    /// Whether the table holds no directory.
    pub fn is_empty(&self) -> (r: bool)
        ensures
            r == (self@.entries.len() <= 1),
    {
        self.entries.len() <= 1
    }
}

/// The table without directories.
pub open spec fn empty_table() -> TableModel {
    TableModel {
        entries: seq![EntryModel { parent: 0, name: seq![], ordinal: 0 }],
        ids: Map::empty(),
    }
}

impl Default for PathTable {
    fn default() -> (r: Self)
        ensures
            r@ == empty_table(),
    {
        PathTable::new()
    }
}

/// What sorting distinct ids leaves: the same ids, each once, in order.
proof fn arranged(order: PathOrder, ids: Seq<u32>, sorted: Seq<u32>)
    requires
        sorted == crate::sorting::in_order(order, ids),
        forall|i: int| 0 <= i < ids.len() ==> ids[i] == i + 1,
    ensures
        sorted.len() == ids.len(),
        forall|i: int| 0 <= i < sorted.len() ==> 1 <= #[trigger] sorted[i] <= ids.len(),
        forall|i: int, j: int|
            0 <= i < j < sorted.len() ==> #[trigger] sorted[i] != #[trigger] sorted[j],
        forall|i: int| 0 <= i < ids.len() ==> sorted.contains(#[trigger] ids[i]),
        forall|i: int, j: int|
            0 <= i < j < sorted.len() ==> order.leq(#[trigger] sorted[i], #[trigger] sorted[j]),
{
    broadcast use group_to_multiset_ensures;

    crate::sorting::in_order_sorts(order, ids);
    assert(ids.no_duplicates());
    ids.lemma_multiset_has_no_duplicates();
    sorted.lemma_multiset_has_no_duplicates_conv();
    assert forall|i: int| 0 <= i < sorted.len() implies 1 <= #[trigger] sorted[i] <= ids.len() by {
        assert(sorted.to_multiset().count(sorted[i]) > 0);
        assert(ids.contains(sorted[i]));
    }
    assert forall|i: int| 0 <= i < ids.len() implies sorted.contains(#[trigger] ids[i]) by {
        assert(ids.to_multiset().count(ids[i]) > 0);
    }
}

/// How many names the path `p` has.
pub open spec fn depth(p: Seq<char>) -> nat
    decreases p.len(),
{
    let cut = text::last_place(p, '\\');
    if 0 < cut < p.len() {
        1 + depth(p.take(cut))
    } else {
        1
    }
}

/// Whether `p` is written the usual way: it begins with a name, and no two
/// backslashes follow each other.
pub open spec fn is_plain(p: Seq<char>) -> bool {
    &&& p.len() > 0
    &&& p[0] != '\\'
    &&& forall|i: int|
        0 <= i < p.len() - 1 ==> !(#[trigger] p[i] == '\\' && p[i + 1] == '\\')
}

impl TableModel {
    /// Whether the registered path `p` stands in the table under its parent.
    pub open spec fn well_placed(self, p: Seq<char>) -> bool {
        let id = self.ids[p];
        let cut = text::last_place(p, '\\');
        &&& p.len() > 0
        &&& 0 < id < self.entries.len()
        &&& if cut < 0 {
            &&& self.entries[id as int].parent == ROOT_PATH_ID
            &&& self.entries[id as int].name == p
        } else if cut == 0 {
            &&& self.entries[id as int].parent == ROOT_PATH_ID
            &&& self.entries[id as int].name == p.skip(1)
        } else {
            &&& self.ids.contains_key(p.take(cut))
            &&& self.entries[id as int].parent == self.ids[p.take(cut)]
            &&& self.entries[id as int].name == p.skip(cut + 1)
        }
    }

    /// What every table made by `new` and `intern` keeps: ids stay below the marker
    /// of removed files, parents are in the table, registered paths are in place.
    pub open spec fn sound(self) -> bool {
        &&& 1 <= self.entries.len() <= u32::MAX
        &&& forall|i: int|
            0 <= i < self.entries.len() ==> (#[trigger] self.entries[i]).parent
                < self.entries.len()
        &&& forall|p: Seq<char>| #[trigger] self.ids.contains_key(p) ==> self.well_placed(p)
    }

    /// Whether `self` is `other` with nothing taken away or changed.
    pub open spec fn extends(self, other: TableModel) -> bool {
        &&& self.entries.len() >= other.entries.len()
        &&& forall|i: int|
            0 <= i < other.entries.len() ==> #[trigger] self.entries[i] == other.entries[i]
        &&& forall|p: Seq<char>| #[trigger]
            other.ids.contains_key(p) ==> self.ids.contains_key(p) && self.ids[p] == other.ids[p]
    }
}

/// Registering a path keeps the table sound and everything in it, and leaves the
/// path registered under the id that was given.
pub proof fn interning_extends(t: TableModel, p: Seq<char>)
    requires
        t.sound(),
        p.len() > 0,
        t.entries.len() + depth(p) <= u32::MAX,
    ensures
        t.interned(p).0.sound(),
        t.interned(p).0.extends(t),
        t.interned(p).0.entries.len() <= t.entries.len() + depth(p),
        t.interned(p).0.ids.contains_key(p),
        t.interned(p).0.ids[p] == t.interned(p).1,
    decreases p.len(),
{
    text::last_place_is_last(p, '\\');
    if !t.ids.contains_key(p) {
        let cut = text::last_place(p, '\\');
        let above = if cut > 0 {
            interning_extends(t, p.take(cut));
            t.interned(p.take(cut)).0
        } else {
            t
        };
        let (grown, id) = t.interned(p);
        assert(id == above.entries.len());
        assert forall|q: Seq<char>| #[trigger] grown.ids.contains_key(q) implies grown.well_placed(
            q,
        ) by {
            if q != p {
                assert(above.ids.contains_key(q));
                assert(above.well_placed(q));
                let k = text::last_place(q, '\\');
                text::last_place_is_last(q, '\\');
                assert(above.ids[q] == grown.ids[q]);
                if k > 0 {
                    assert(above.ids.contains_key(q.take(k)));
                    if above.ids.contains_key(p) {
                        assert(cut > 0);
                        only_above_registered(t, p.take(cut), p);
                    }
                }
            }
        }
        if above.ids.contains_key(p) {
            only_above_registered(t, p.take(cut), p);
        }
    } else {
        assert(t.well_placed(p));
    }
}

/// Registering `p` registers no path longer than `p`.
proof fn only_above_registered(t: TableModel, p: Seq<char>, q: Seq<char>)
    requires
        q.len() > p.len(),
        !t.ids.contains_key(q),
    ensures
        !t.interned(p).0.ids.contains_key(q),
    decreases p.len(),
{
    text::last_place_is_last(p, '\\');
    let cut = text::last_place(p, '\\');
    if p.len() > 0 && !t.ids.contains_key(p) && cut > 0 {
        only_above_registered(t, p.take(cut), q);
    }
}

/// Registering a path twice gives the same id and changes nothing the second time.
pub proof fn interning_twice(t: TableModel, p: Seq<char>)
    ensures
        t.interned(p).0.interned(p) == t.interned(p),
{
    text::last_place_is_last(p, '\\');
    if p.len() > 0 && !t.ids.contains_key(p) {
        assert(t.interned(p).0.ids.contains_key(p));
    }
}

/// A registered path of at most `hops` names is what its lineage joins to.
proof fn lineage_joins(t: TableModel, p: Seq<char>, hops: nat)
    requires
        t.sound(),
        t.ids.contains_key(p),
        is_plain(p),
        depth(p) <= hops,
    ensures
        joined(t.lineage(t.ids[p], hops)) == p,
    decreases p.len(),
{
    text::last_place_is_last(p, '\\');
    assert(t.well_placed(p));
    let id = t.ids[p];
    let entry = t.entries[id as int];
    let cut = text::last_place(p, '\\');
    let up = t.lineage(entry.parent, (hops - 1) as nat);
    let all = t.lineage(id, hops);
    assert(all =~= seq![entry.name] + up);
    assert(all.drop_first() =~= up);
    if cut < 0 {
        assert(joined(up) =~= seq![]);
        assert(below(joined(up), p) =~= p);
    } else {
        let q = p.take(cut);
        assert(p[cut] == '\\');
        assert(cut != 0);
        assert(q.last() == p[cut - 1]);
        assert(!(p[cut - 1] == '\\' && p[cut - 1 + 1] == '\\'));
        assert(q[0] == p[0]);
        assert forall|i: int| 0 <= i < q.len() - 1 implies !(#[trigger] q[i] == '\\' && q[i + 1]
            == '\\') by {
            assert(q[i] == p[i] && q[i + 1] == p[i + 1]);
        }
        lineage_joins(t, q, (hops - 1) as nat);
        assert(below(q, p.skip(cut + 1)) =~= p);
    }
}

/// Reading back the id of a registered path gives the path: every plain path of at
/// most `MAX_DEPTH` names comes out as it went in.
pub proof fn interned_path_reads_back(t: TableModel, p: Seq<char>)
    requires
        t.sound(),
        is_plain(p),
        depth(p) <= MAX_DEPTH,
        t.entries.len() + depth(p) <= u32::MAX,
    ensures
        t.interned(p).0.path(t.interned(p).1) == p,
{
    interning_extends(t, p);
    let grown = t.interned(p).0;
    lineage_joins(grown, p, MAX_DEPTH as nat);
    assert(grown.well_placed(p));
}

/// A file in a directory that was registered has that directory's path, a
/// backslash and its own name for its path.
pub proof fn interned_directory_holds_file(t: TableModel, dir: Seq<char>, name: Seq<char>)
    requires
        t.sound(),
        is_plain(dir),
        dir.last() != '\\',
        depth(dir) <= MAX_DEPTH,
        t.entries.len() + depth(dir) <= u32::MAX,
    ensures
        t.interned(dir).0.file_path(t.interned(dir).1, name) == dir.push('\\') + name,
{
    interned_path_reads_back(t, dir);
}

/// The lineage of a directory that is in a table stays what it is when the table grows.
proof fn lineage_stays(t: TableModel, grown: TableModel, id: u32, hops: nat)
    requires
        t.sound(),
        grown.extends(t),
        id < t.entries.len(),
    ensures
        grown.lineage(id, hops) == t.lineage(id, hops),
    decreases hops,
{
    if hops > 0 && id != ROOT_PATH_ID {
        assert(grown.entries[id as int] == t.entries[id as int]);
        lineage_stays(t, grown, t.entries[id as int].parent, (hops - 1) as nat);
    }
}

/// A directory that is in a table keeps its path and its number when the table grows, and
/// so does the marker of removed files.
pub proof fn growing_keeps_paths(t: TableModel, grown: TableModel, id: u32)
    requires
        t.sound(),
        grown.sound(),
        grown.extends(t),
        id < t.entries.len() || id == DELETED_PATH_ID,
    ensures
        grown.path(id) == t.path(id),
        grown.ordinal(id) == t.ordinal(id),
{
    if id < t.entries.len() {
        lineage_stays(t, grown, id, MAX_DEPTH as nat);
        assert(grown.entries[id as int] == t.entries[id as int]);
    }
}

/// Registering a path changes the path and the number of no directory that is in
/// the table.
pub proof fn interning_keeps_paths(t: TableModel, p: Seq<char>, id: u32)
    requires
        t.sound(),
        p.len() > 0,
        t.entries.len() + depth(p) <= u32::MAX,
        id < t.entries.len(),
    ensures
        t.interned(p).0.path(id) == t.path(id),
        t.interned(p).0.ordinal(id) == t.ordinal(id),
{
    interning_extends(t, p);
    lineage_stays(t, t.interned(p).0, id, MAX_DEPTH as nat);
    assert(t.interned(p).0.entries[id as int] == t.entries[id as int]);
}

} // verus!
