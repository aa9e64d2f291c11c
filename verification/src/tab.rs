//! One directory view: its rows, selection, focus and navigation history.
//!
//! Reading the directory and asking whether a path is a directory are left to
//! the caller; the functions here take their results as arguments and say
//! when a fresh listing is needed.

use vstd::prelude::*;
use std::collections::BTreeSet;
use crate::config::SortBy;
use crate::index_set;
use crate::index_set::{is_min, index_range, indices_below, lists_in_order, sorted_members};
use crate::paths;
use crate::sorting;
use crate::text;

verus! {

broadcast use {vstd::std_specs::btree::group_btree_axioms, vstd::laws_cmp::group_laws_cmp};

/// One row of the file list.
#[derive(Debug, Clone)]
pub struct FileEntry {
    pub name: String,
    pub path: String,
    pub is_dir: bool,
    pub is_hidden: bool,
    pub size: u64,
    /// Modification time in nanoseconds since the Unix epoch (negative before it).
    pub modified: Option<i128>,
    pub ext: String,
}

/// The "type" shown for directories.
pub open spec fn folder_label() -> Seq<char> {
    seq!['フ', 'ォ', 'ル', 'ダ']
}

/// The "type" shown for files without an extension.
pub open spec fn file_label() -> Seq<char> {
    seq!['フ', 'ァ', 'イ', 'ル']
}

/// The row for `path`, given what its metadata says: `None` when the path
/// has no file name.
pub open spec fn entry_for(
    path: Seq<char>,
    sep: char,
    is_dir: bool,
    len: u64,
    modified: Option<i128>,
    system_hidden: bool,
    e: FileEntry,
) -> bool {
    match paths::file_name(path, sep) {
        None => false,
        Some(name) => {
            &&& e.name@ == name
            &&& e.path@ == path
            &&& e.is_dir == is_dir
            &&& e.is_hidden == (text::starts_with(name, seq!['.']) || system_hidden)
            &&& e.size == (if is_dir { 0 } else { len })
            &&& e.modified == modified
            &&& e.ext@ == (if is_dir {
                folder_label()
            } else {
                match paths::extension(name) {
                    Some(x) => text::lowercase(x),
                    None => text::lowercase(file_label()),
                }
            })
        },
    }
}

impl FileEntry {
    /// A copy of this row.
    pub fn duplicate(&self) -> (r: FileEntry)
        ensures
            r == *self,
    {
        FileEntry {
            name: self.name.clone(),
            path: self.path.clone(),
            is_dir: self.is_dir,
            is_hidden: self.is_hidden,
            size: self.size,
            modified: self.modified,
            ext: self.ext.clone(),
        }
    }

    /// The row for `path` from its metadata (whether it is a directory, its
    /// length, its modification time, and whether the system marks it
    /// hidden). Names starting with `.` are hidden too. `None` when the path
    /// has no file name.
    pub fn from_path(
        path: &str,
        sep: char,
        is_dir: bool,
        len: u64,
        modified: Option<i128>,
        system_hidden: bool,
    ) -> (r: Option<FileEntry>)
        ensures
            match r {
                Some(e) => entry_for(path@, sep, is_dir, len, modified, system_hidden, e),
                None => paths::file_name(path@, sep) is None,
            },
    {
        let name = match paths::file_name_of(path, sep) {
            Some(n) => n,
            None => return None,
        };
        let nv = text::chars_of(name.as_str());
        let dot: Vec<char> = vec!['.'];
        proof {
            assert(dot@ == seq!['.']);
        }
        let is_hidden = text::starts_with_chars(nv.as_slice(), dot.as_slice()) || system_hidden;
        let ext = if is_dir {
            let v: Vec<char> = vec!['フ', 'ォ', 'ル', 'ダ'];
            proof {
                assert(v@ == folder_label());
            }
            text::string_from_chars(v.as_slice())
        } else {
            match paths::extension_of(name.as_str()) {
                Some(x) => text::str_to_lowercase(x.as_str()),
                None => {
                    let v: Vec<char> = vec!['フ', 'ァ', 'イ', 'ル'];
                    proof {
                        assert(v@ == file_label());
                    }
                    let label = text::string_from_chars(v.as_slice());
                    text::str_to_lowercase(label.as_str())
                },
            }
        };
        Some(FileEntry {
            name,
            path: text::to_string(path),
            is_dir,
            is_hidden,
            size: if is_dir { 0 } else { len },
            modified,
            ext,
        })
    }
}

/// The paths of the rows at the indices `q`.
pub open spec fn paths_at(es: Seq<FileEntry>, q: Seq<usize>) -> Seq<Seq<char>> {
    Seq::new(q.len(), |k: int| es[q[k] as int].path@)
}

/// The predicate "below `n`".
pub open spec fn below(n: nat) -> spec_fn(usize) -> bool {
    |i: usize| i < n
}

/// A directory view, as values.
pub struct TabView {
    pub current: Seq<char>,
    pub entries: Seq<FileEntry>,
    pub selected: Set<usize>,
    pub back: Seq<Seq<char>>,
    pub forward: Seq<Seq<char>>,
    pub filter: Seq<char>,
    pub sort_by: SortBy,
    pub sort_desc: bool,
    pub show_hidden: bool,
    pub error: Option<Seq<char>>,
    pub focus: Option<usize>,
    pub anchor: Option<usize>,
}

/// The views of a vector of strings.
pub open spec fn string_views(v: Seq<String>) -> Seq<Seq<char>> {
    v.map_values(|s: String| s@)
}

/// The view of an optional string.
pub open spec fn opt_view(o: Option<String>) -> Option<Seq<char>> {
    match o {
        Some(s) => Some(s@),
        None => None,
    }
}

/// One directory view: rows, selection, focus, anchor and history.
#[derive(Debug, Clone)]
pub struct Tab {
    pub current: String,
    pub entries: Vec<FileEntry>,
    pub selected: BTreeSet<usize>,
    pub history_back: Vec<String>,
    pub history_forward: Vec<String>,
    pub filter: String,
    pub sort_by: SortBy,
    pub sort_desc: bool,
    pub show_hidden: bool,
    pub error: Option<String>,
    pub focus: Option<usize>,
    pub anchor: Option<usize>,
}

impl View for Tab {
    type V = TabView;

    open spec fn view(&self) -> TabView {
        TabView {
            current: self.current@,
            entries: self.entries@,
            selected: self.selected@,
            back: string_views(self.history_back@),
            forward: string_views(self.history_forward@),
            filter: self.filter@,
            sort_by: self.sort_by,
            sort_desc: self.sort_desc,
            show_hidden: self.show_hidden,
            error: opt_view(self.error),
            focus: self.focus,
            anchor: self.anchor,
        }
    }
}

// ---------------------------------------------------------------------------
// What each operation does, on values
// ---------------------------------------------------------------------------

impl TabView {
    /// The number of rows.
    pub open spec fn len(self) -> nat {
        self.entries.len()
    }

    /// The selection and focus only name rows that exist.
    pub open spec fn selection_within_rows(self) -> bool {
        &&& forall|i: usize| self.selected.contains(i) ==> i < self.len()
        &&& (self.focus matches Some(f) ==> f < self.len())
        &&& (self.anchor matches Some(a) ==> a < self.len())
    }

    /// `self` with another selection, focus and anchor.
    pub open spec fn with_selection(self, s: Set<usize>, focus: Option<usize>, anchor: Option<usize>) -> TabView {
        TabView { selected: s, focus, anchor, ..self }
    }

    pub open spec fn select_only(self, idx: usize) -> TabView {
        if idx < self.len() {
            self.with_selection(set![idx], Some(idx), Some(idx))
        } else {
            self.with_selection(Set::empty(), self.focus, self.anchor)
        }
    }

    pub open spec fn toggle_select(self, idx: usize) -> TabView {
        if idx >= self.len() {
            self
        } else if self.selected.contains(idx) {
            self.with_selection(self.selected.remove(idx), Some(idx), Some(idx))
        } else {
            self.with_selection(self.selected.insert(idx), Some(idx), Some(idx))
        }
    }

    pub open spec fn select_range_to(self, idx: usize) -> TabView {
        if idx >= self.len() {
            self
        } else {
            let a = match self.anchor {
                Some(a) => a,
                None => idx,
            };
            let lo = if a <= idx { a } else { idx };
            let hi = if a <= idx { idx } else { a };
            self.with_selection(index_range(lo, hi), Some(idx), self.anchor)
        }
    }

    pub open spec fn select_all(self) -> TabView {
        if self.len() > 0 {
            self.with_selection(indices_below(self.len()), Some(0), Some(0))
        } else {
            self.with_selection(indices_below(self.len()), self.focus, self.anchor)
        }
    }

    /// Whether `f` is the focus after inverting: the smallest selected index
    /// when something is selected, else the old focus.
    pub open spec fn inverted_focus(self, s: Set<usize>, f: Option<usize>) -> bool {
        if s.is_empty() {
            f == self.focus
        } else {
            f matches Some(m) && is_min(s, m)
        }
    }

    pub open spec fn clear_selection(self) -> TabView {
        self.with_selection(Set::empty(), None, None)
    }

    /// The focus as a signed number, the way `usize as isize` reads it.
    pub open spec fn signed_focus(self) -> int {
        let f = match self.focus {
            Some(f) => f,
            None => 0,
        };
        if f <= isize::MAX {
            f as int
        } else {
            f - (usize::MAX + 1)
        }
    }

    /// The row that `move_focus_by(delta, ..)` moves to: the focus moved by
    /// `delta`, clamped to the rows.
    pub open spec fn moved_focus(self, delta: isize) -> usize {
        let t = self.signed_focus() + delta;
        if t < 0 {
            0
        } else if t > self.len() - 1 {
            (self.len() - 1) as usize
        } else {
            t as usize
        }
    }

    pub open spec fn move_focus_by(self, delta: isize, extend: bool) -> TabView {
        if self.len() == 0 {
            self
        } else {
            let nxt = self.moved_focus(delta);
            if extend {
                let anchor = match self.anchor {
                    Some(a) => a,
                    None => match self.focus {
                        Some(f) => f,
                        None => 0,
                    },
                };
                let lo = if anchor <= nxt { anchor } else { nxt };
                let hi = if anchor <= nxt { nxt } else { anchor };
                self.with_selection(index_range(lo, hi), Some(nxt), Some(anchor))
            } else {
                self.select_only(nxt)
            }
        }
    }

    pub open spec fn focus_first(self, extend: bool) -> TabView {
        if self.len() == 0 {
            self
        } else if extend {
            let anchor = match self.anchor {
                Some(a) => a,
                None => match self.focus {
                    Some(f) => f,
                    None => 0,
                },
            };
            self.with_selection(index_range(0, anchor), Some(0), Some(anchor))
        } else {
            self.select_only(0)
        }
    }

    pub open spec fn focus_last(self, extend: bool) -> TabView {
        if self.len() == 0 {
            self
        } else {
            let last = (self.len() - 1) as usize;
            if extend {
                let anchor = match self.anchor {
                    Some(a) => a,
                    None => match self.focus {
                        Some(f) => f,
                        None => last,
                    },
                };
                let lo = if anchor <= last { anchor } else { last };
                let hi = if anchor <= last { last } else { anchor };
                self.with_selection(index_range(lo, hi), Some(last), Some(anchor))
            } else {
                self.select_only(last)
            }
        }
    }

    /// The row reported as the primary selection: the focused row when it
    /// exists, else the smallest selected index when that row exists.
    pub open spec fn primary_index(self) -> Option<usize> {
        if self.focus matches Some(f) && f < self.len() {
            Some(self.focus->0)
        } else if self.selected.is_empty() {
            None
        } else {
            let m = choose|m: usize| is_min(self.selected, m);
            if m < self.len() {
                Some(m)
            } else {
                None
            }
        }
    }

    /// After moving to `path`: the old place goes on the back history, the
    /// forward history is dropped, and selection, focus and anchor are cleared.
    pub open spec fn moved_to(self, path: Seq<char>) -> TabView {
        TabView {
            current: path,
            back: self.back.push(self.current),
            forward: seq![],
            selected: Set::empty(),
            focus: None,
            anchor: None,
            ..self
        }
    }

    /// `navigate_to`: moves when `path` is another (see
    /// [`paths::same_path`]), existing directory.
    pub open spec fn navigate_to(self, path: Seq<char>, is_existing_dir: bool, sep: char) -> TabView {
        if paths::same_path(path, self.current, sep) || !is_existing_dir {
            self
        } else {
            self.moved_to(path)
        }
    }

    /// `navigate_to_async`: like `navigate_to`, and also drops the rows and
    /// the error until the new listing arrives.
    pub open spec fn navigate_to_async(self, path: Seq<char>, is_dir: bool, sep: char) -> TabView {
        if paths::same_path(path, self.current, sep) || !is_dir {
            self
        } else {
            TabView { entries: seq![], error: None, ..self.moved_to(path) }
        }
    }

    pub open spec fn go_back(self) -> TabView {
        if self.back.len() == 0 {
            self
        } else {
            TabView {
                current: self.back.last(),
                back: self.back.drop_last(),
                forward: self.forward.push(self.current),
                selected: Set::empty(),
                focus: None,
                anchor: None,
                ..self
            }
        }
    }

    pub open spec fn go_forward(self) -> TabView {
        if self.forward.len() == 0 {
            self
        } else {
            TabView {
                current: self.forward.last(),
                forward: self.forward.drop_last(),
                back: self.back.push(self.current),
                selected: Set::empty(),
                focus: None,
                anchor: None,
                ..self
            }
        }
    }

    /// Whether `go_up` goes anywhere: the current path has a parent other
    /// than itself.
    pub open spec fn has_parent(self, sep: char) -> bool {
        paths::parent(self.current, sep) matches Some(p) && !paths::same_path(p, self.current, sep)
    }

    pub open spec fn go_up(self, sep: char, parent_is_dir: bool) -> TabView {
        if self.has_parent(sep) {
            self.navigate_to(paths::parent(self.current, sep)->0, parent_is_dir, sep)
        } else {
            self
        }
    }

    /// Row `i` of `new_rows` has the path (see [`paths::same_path`]) of a
    /// selected row.
    pub open spec fn path_was_selected(self, new_rows: Seq<FileEntry>, i: usize, sep: char) -> bool {
        exists|j: usize|
            self.selected.contains(j) && j < self.len() && paths::same_path(
                #[trigger] self.entries[j as int].path@,
                new_rows[i as int].path@,
                sep,
            )
    }

    /// The selection carried over to `new_rows`: the rows whose paths were
    /// selected before.
    pub open spec fn kept_selection(self, new_rows: Seq<FileEntry>, sep: char) -> Set<usize> {
        Set::new(|i: usize| i < new_rows.len() && self.path_was_selected(new_rows, i, sep))
    }

    /// The focus carried over to `new_rows`: the first row with the path
    /// that was focused.
    pub open spec fn kept_focus(self, new_rows: Seq<FileEntry>, f: Option<usize>, sep: char) -> bool {
        if self.focus matches Some(old) && old < self.len() {
            first_with_path(new_rows, self.entries[self.focus->0 as int].path@, f, sep)
        } else {
            f is None
        }
    }

    /// `w` is `self` with `new_rows`, the selection, focus and anchor carried
    /// over by path (anchor equal to the focus).
    pub open spec fn remapped(self, new_rows: Seq<FileEntry>, w: TabView, sep: char) -> bool {
        &&& w.entries == new_rows
        &&& w.selected == self.kept_selection(new_rows, sep)
        &&& self.kept_focus(new_rows, w.focus, sep)
        &&& w.anchor == w.focus
        &&& w.current == self.current
        &&& w.back == self.back
        &&& w.forward == self.forward
        &&& w.filter == self.filter
        &&& w.sort_by == self.sort_by
        &&& w.sort_desc == self.sort_desc
        &&& w.show_hidden == self.show_hidden
    }
}

/// `f` is the first index of a row with path `p` (see
/// [`paths::same_path`]), `None` if there is none.
pub open spec fn first_with_path(rows: Seq<FileEntry>, p: Seq<char>, f: Option<usize>, sep: char) -> bool {
    match f {
        Some(i) => i < rows.len() && paths::same_path(rows[i as int].path@, p, sep) && forall|k: int|
            0 <= k < i ==> !paths::same_path(#[trigger] rows[k].path@, p, sep),
        None => forall|k: int| 0 <= k < rows.len() ==> !paths::same_path(#[trigger] rows[k].path@, p, sep),
    }
}

/// A row stays in a listing: hidden rows only when they are shown, and,
/// with a filter, rows whose lower-cased name contains the lower-cased filter.
pub open spec fn kept_in_listing(e: FileEntry, show_hidden: bool, filter: Seq<char>) -> bool {
    &&& (show_hidden || !e.is_hidden)
    &&& (text::lowercase(filter).len() == 0 || text::contains_seq(
        text::lowercase(e.name@),
        text::lowercase(filter),
    ))
}

/// The predicate [`kept_in_listing`] for fixed settings.
pub open spec fn listing_filter(show_hidden: bool, filter: Seq<char>) -> spec_fn(FileEntry) -> bool {
    |e: FileEntry| kept_in_listing(e, show_hidden, filter)
}

// ---------------------------------------------------------------------------
// Small helpers
// ---------------------------------------------------------------------------

fn insert_range(s: &mut BTreeSet<usize>, a: usize, b: usize)
    requires
        a <= b,
    ensures
        final(s)@ == old(s)@.union(index_range(a, b)),
{
    let ghost start = s@;
    let mut i = a;
    loop
        invariant
            a <= i <= b,
            start == old(s)@,
            s@ == start.union(Set::new(|k: usize| a <= k < i)),
        decreases b - i,
    {
        s.insert(i);
        proof {
            assert(s@ =~= start.union(Set::new(|k: usize| a <= k < i + 1)));
        }
        if i == b {
            proof {
                assert(s@ =~= start.union(index_range(a, b)));
            }
            return ;
        }
        i = i + 1;
    }
}

fn new_range(a: usize, b: usize) -> (s: BTreeSet<usize>)
    requires
        a <= b,
    ensures
        s@ == index_range(a, b),
{
    let mut s = BTreeSet::new();
    insert_range(&mut s, a, b);
    proof {
        assert(Set::<usize>::empty().union(index_range(a, b)) =~= index_range(a, b));
    }
    s
}

fn new_below(n: usize) -> (s: BTreeSet<usize>)
    ensures
        s@ == indices_below(n as nat),
{
    let mut s = BTreeSet::new();
    let mut i: usize = 0;
    while i < n
        invariant
            i <= n,
            s@ == indices_below(i as nat),
        decreases n - i,
    {
        s.insert(i);
        proof {
            assert(s@ =~= indices_below((i + 1) as nat));
        }
        i = i + 1;
    }
    s
}

/// The smallest member of `s`, if any.
fn first_member(s: &BTreeSet<usize>) -> (r: Option<usize>)
    ensures
        match r {
            Some(m) => is_min(s@, m),
            None => s@.is_empty(),
        },
{
    let v = sorted_members(s);
    if v.len() == 0 {
        proof {
            if !s@.is_empty() {
                let x = s@.choose();
                assert(s@.contains(x));
                assert(v@.contains(x));
            }
        }
        None
    } else {
        let m = v[0];
        proof {
            assert(v@.contains(m));
            assert forall|x: usize| s@.contains(x) implies m <= x by {
                assert(v@.contains(x));
                let k = choose|k: int| 0 <= k < v@.len() && v@[k] == x;
                if k > 0 {
                    assert(v@[0] < v@[k]);
                }
            }
        }
        Some(m)
    }
}

proof fn lemma_min_unique(s: Set<usize>, m: usize)
    requires
        is_min(s, m),
    ensures
        (choose|x: usize| is_min(s, x)) == m,
{
    let c = choose|x: usize| is_min(s, x);
    assert(is_min(s, c));
    assert(c <= m && m <= c);
}

/// The paths of the selected rows that exist.
fn selected_row_paths(rows: &Vec<FileEntry>, sel: &BTreeSet<usize>) -> (paths: Vec<String>)
    ensures
        forall|p: Seq<char>|
            string_views(paths@).contains(p) <==> exists|j: usize|
                sel@.contains(j) && j < rows@.len() && #[trigger] rows@[j as int].path@ == p,
{
    let members = sorted_members(sel);
    let n = rows.len();
    let mut paths: Vec<String> = Vec::new();
    let mut k: usize = 0;
    while k < members.len()
        invariant
            n == rows@.len(),
            k <= members@.len(),
            lists_in_order(members@, sel@),
            forall|p: Seq<char>|
                string_views(paths@).contains(p) <==> exists|m: int|
                    0 <= m < k && members@[m] < n && #[trigger] rows@[members@[m] as int].path@ == p,
        decreases members@.len() - k,
    {
        let j = members[k];
        let ghost before = paths@;
        if j < n {
            paths.push(rows[j].path.clone());
        }
        proof {
            if j < n {
                assert(string_views(paths@) =~= string_views(before).push(rows@[j as int].path@));
            } else {
                assert(paths@ == before);
            }
            assert forall|p: Seq<char>| string_views(paths@).contains(p) <==> exists|m: int|
                0 <= m < k + 1 && members@[m] < n && #[trigger] rows@[members@[m] as int].path@ == p by {
                if string_views(paths@).contains(p) {
                    if j < n && p == rows@[j as int].path@ {
                        assert(members@[k as int] == j);
                    } else {
                        if j < n {
                            let w = choose|w: int| 0 <= w < string_views(paths@).len() && string_views(paths@)[w] == p;
                            assert(w < before.len());
                            assert(string_views(before)[w] == p);
                            assert(string_views(before).contains(p));
                        } else {
                            assert(string_views(before).contains(p));
                        }
                    }
                }
                if exists|m: int| 0 <= m < k + 1 && members@[m] < n && #[trigger] rows@[members@[m] as int].path@ == p {
                    let m = choose|m: int| 0 <= m < k + 1 && members@[m] < n && #[trigger] rows@[members@[m] as int].path@ == p;
                    if m < k {
                        assert(string_views(before).contains(p));
                        let w = choose|w: int| 0 <= w < string_views(before).len() && string_views(before)[w] == p;
                        assert(string_views(paths@)[w] == p);
                    } else {
                        assert(string_views(paths@)[string_views(paths@).len() - 1] == p);
                    }
                }
            }
        }
        k = k + 1;
    }
    proof {
        assert forall|p: Seq<char>| string_views(paths@).contains(p) <==> exists|j: usize|
            sel@.contains(j) && j < rows@.len() && #[trigger] rows@[j as int].path@ == p by {
            if string_views(paths@).contains(p) {
                let m = choose|m: int| 0 <= m < members@.len() && members@[m] < n && #[trigger] rows@[members@[m] as int].path@ == p;
                assert(members@.contains(members@[m]));
                assert(sel@.contains(members@[m]));
            }
            if exists|j: usize| sel@.contains(j) && j < rows@.len() && #[trigger] rows@[j as int].path@ == p {
                let j = choose|j: usize| sel@.contains(j) && j < rows@.len() && #[trigger] rows@[j as int].path@ == p;
                assert(members@.contains(j));
                let m = choose|m: int| 0 <= m < members@.len() && members@[m] == j;
                assert(rows@[members@[m] as int].path@ == p);
            }
        }
    }
    paths
}

/// Whether some string of `paths` names the path `p`.
fn has_path(paths: &Vec<String>, p: &str, sep: char) -> (r: bool)
    ensures
        r == listed_path(paths@, p@, sep),
{
    let mut q: usize = 0;
    while q < paths.len()
        invariant
            q <= paths@.len(),
            forall|r: int| 0 <= r < q ==> !paths::same_path(#[trigger] paths@[r]@, p@, sep),
        decreases paths@.len() - q,
    {
        if paths::same_path_of(paths[q].as_str(), p, sep) {
            return true;
        }
        q = q + 1;
    }
    false
}

/// Some string of `paths` names the path `p`.
pub open spec fn listed_path(paths: Seq<String>, p: Seq<char>, sep: char) -> bool {
    exists|w: int| 0 <= w < paths.len() && paths::same_path(#[trigger] paths[w]@, p, sep)
}

/// The indices of the rows whose path is one of `paths`.
fn rows_with_paths(rows: &Vec<FileEntry>, paths: &Vec<String>, sep: char) -> (s: BTreeSet<usize>)
    ensures
        s@ == Set::new(|i: usize| i < rows@.len() && listed_path(paths@, rows@[i as int].path@, sep)),
{
    let mut s = BTreeSet::new();
    let mut i: usize = 0;
    while i < rows.len()
        invariant
            i <= rows@.len(),
            s@ == Set::new(|x: usize| x < i && listed_path(paths@, rows@[x as int].path@, sep)),
        decreases rows@.len() - i,
    {
        if has_path(paths, rows[i].path.as_str(), sep) {
            s.insert(i);
        }
        proof {
            assert(s@ =~= Set::new(|x: usize| x < i + 1 && listed_path(paths@, rows@[x as int].path@, sep)));
        }
        i = i + 1;
    }
    proof {
        assert(s@ =~= Set::new(|x: usize| x < rows@.len() && listed_path(paths@, rows@[x as int].path@, sep)));
    }
    s
}

/// A copy of the rows.
fn duplicate_rows(v: &Vec<FileEntry>) -> (r: Vec<FileEntry>)
    ensures
        r@ == v@,
{
    let mut r: Vec<FileEntry> = Vec::new();
    let mut i: usize = 0;
    while i < v.len()
        invariant
            i <= v@.len(),
            r@ == v@.take(i as int),
        decreases v@.len() - i,
    {
        r.push(v[i].duplicate());
        proof {
            assert(v@.take(i + 1) == v@.take(i as int).push(v@[i as int]));
        }
        i = i + 1;
    }
    proof {
        assert(v@.take(v@.len() as int) == v@);
    }
    r
}

/// The first row whose path is `p`.
fn find_path(rows: &Vec<FileEntry>, p: &str, sep: char) -> (r: Option<usize>)
    ensures
        first_with_path(rows@, p@, r, sep),
{
    let mut t: usize = 0;
    while t < rows.len()
        invariant
            t <= rows@.len(),
            forall|k: int| 0 <= k < t ==> !paths::same_path(#[trigger] rows@[k].path@, p@, sep),
        decreases rows@.len() - t,
    {
        if paths::same_path_of(rows[t].path.as_str(), p, sep) {
            return Some(t);
        }
        t = t + 1;
    }
    None
}

impl Tab {
    /// A tab showing `path` with no rows yet; the caller lists the directory
    /// and hands the rows to [`Tab::refresh`].
    pub fn new(path: String, show_hidden: bool, sort_by: SortBy, sort_desc: bool) -> (t: Tab)
        ensures
            t@.current == path@,
            t@.entries.len() == 0,
            t@.selected.is_empty(),
            t@.back.len() == 0,
            t@.forward.len() == 0,
            t@.filter.len() == 0,
            t@.sort_by == sort_by,
            t@.sort_desc == sort_desc,
            t@.show_hidden == show_hidden,
            t@.error is None,
            t@.focus is None,
            t@.anchor is None,
    {
        let t = Tab {
            current: path,
            entries: Vec::new(),
            selected: BTreeSet::new(),
            history_back: Vec::new(),
            history_forward: Vec::new(),
            filter: String::new(),
            sort_by,
            sort_desc,
            show_hidden,
            error: None,
            focus: None,
            anchor: None,
        };
        proof {
            assert(string_views(t.history_back@) =~= seq![]);
            assert(string_views(t.history_forward@) =~= seq![]);
        }
        t
    }

    /// Whether a row stays in a listing (see [`kept_in_listing`]); `filter_lc`
    /// is the lower-cased filter.
    pub fn keep_in_listing(e: &FileEntry, show_hidden: bool, filter_lc: &[char]) -> (r: bool)
        ensures
            r == ((show_hidden || !e.is_hidden) && (filter_lc@.len() == 0 || text::contains_seq(
                text::lowercase(e.name@),
                filter_lc@,
            ))),
    {
        if !show_hidden && e.is_hidden {
            return false;
        }
        if filter_lc.len() == 0 {
            return true;
        }
        let name_lc = text::str_to_lowercase(e.name.as_str());
        let nv = text::chars_of(name_lc.as_str());
        text::contains_chars(nv.as_slice(), filter_lc)
    }

    /// The rows of a directory listing that are shown: hidden ones only when
    /// `show_hidden`, and, with a filter, those whose lower-cased name
    /// contains the lower-cased filter; in listing order.
    pub fn filter_listing(raw: Vec<FileEntry>, show_hidden: bool, filter: &str) -> (r: Vec<FileEntry>)
        ensures
            r@ == raw@.filter(listing_filter(show_hidden, filter@)),
    {
        let f = text::str_to_lowercase(filter);
        let fv = text::chars_of(f.as_str());
        let mut out: Vec<FileEntry> = Vec::new();
        let mut i: usize = 0;
        let n = raw.len();
        while i < n
            invariant
                n == raw@.len(),
                i <= n,
                fv@ == text::lowercase(filter@),
                out@ == raw@.take(i as int).filter(listing_filter(show_hidden, filter@)),
            decreases n - i,
        {
            let keep = Tab::keep_in_listing(&raw[i], show_hidden, fv.as_slice());
            proof {
                assert(raw@.take(i + 1) == raw@.take(i as int).push(raw@[i as int]));
                raw@.take(i as int).lemma_filter_push(raw@[i as int], listing_filter(show_hidden, filter@));
            }
            if keep {
                out.push(raw[i].duplicate());
            }
            i = i + 1;
        }
        proof {
            assert(raw@.take(n as int) == raw@);
        }
        out
    }

    /// Sorts rows stably: directories first, then by the column, reversed
    /// when `sort_desc` (see [`sorting::stable_sorted`]).
    pub fn sort_entries(entries: &mut Vec<FileEntry>, sort_by: SortBy, sort_desc: bool)
        ensures
            sorting::stable_sorted(old(entries)@, final(entries)@, sort_by, sort_desc),
    {
        sorting::sort_rows(entries, sort_by, sort_desc);
    }

    /// Replaces the rows, carrying the selection and the focus over by path.
    fn remap(&mut self, new_rows: Vec<FileEntry>, sep: char)
        ensures
            old(self)@.remapped(new_rows@, final(self)@, sep),
            final(self)@.error == old(self)@.error,
    {
        let paths = selected_row_paths(&self.entries, &self.selected);
        let focus_path: Option<String> = match self.focus {
            Some(f) => if f < self.entries.len() {
                Some(self.entries[f].path.clone())
            } else {
                None
            },
            None => None,
        };
        let new_sel = rows_with_paths(&new_rows, &paths, sep);
        let new_focus: Option<usize> = match &focus_path {
            Some(fp) => find_path(&new_rows, fp.as_str(), sep),
            None => None,
        };
        let ghost old_view = self@;
        proof {
            assert forall|i: usize| i < new_rows@.len() implies listed_path(paths@, new_rows@[i as int].path@, sep)
                == old_view.path_was_selected(new_rows@, i, sep) by {
                let x = new_rows@[i as int].path@;
                if listed_path(paths@, x, sep) {
                    let w = choose|w: int| 0 <= w < paths@.len() && paths::same_path(#[trigger] paths@[w]@, x, sep);
                    assert(string_views(paths@)[w] == paths@[w]@);
                    assert(string_views(paths@).contains(paths@[w]@));
                }
                if old_view.path_was_selected(new_rows@, i, sep) {
                    let j = choose|j: usize| old_view.selected.contains(j) && j < old_view.len()
                        && paths::same_path(#[trigger] old_view.entries[j as int].path@, x, sep);
                    let q = old_view.entries[j as int].path@;
                    assert(string_views(paths@).contains(q));
                    let w = choose|w: int| 0 <= w < string_views(paths@).len() && string_views(paths@)[w] == q;
                    assert(paths@[w]@ == q);
                }
            }
            assert(new_sel@ =~= old_view.kept_selection(new_rows@, sep));
        }
        self.entries = new_rows;
        self.selected = new_sel;
        self.focus = new_focus;
        self.anchor = new_focus;
    }

    /// Replaces the rows with a fresh listing and its error, keeping the
    /// selection and focus on the same paths.
    pub fn apply_list(&mut self, entries: Vec<FileEntry>, error: Option<String>, sep: char)
        ensures
            old(self)@.remapped(entries@, final(self)@, sep),
            final(self)@.error == opt_view(error),
    {
        self.remap(entries, sep);
        self.error = error;
    }

    /// Re-sorts the rows by the tab's column and direction, keeping the
    /// selection and focus on the same paths.
    pub fn sort(&mut self, sep: char)
        ensures
            exists|rows: Seq<FileEntry>|
                sorting::stable_sorted(old(self)@.entries, rows, old(self)@.sort_by, old(self)@.sort_desc)
                    && old(self)@.remapped(rows, final(self)@, sep),
            final(self)@.error == old(self)@.error,
    {
        let mut rows = duplicate_rows(&self.entries);
        sorting::sort_rows(&mut rows, self.sort_by, self.sort_desc);
        self.remap(rows, sep);
    }

    /// Shows a fresh listing: keeps the rows [`Tab::filter_listing`] keeps,
    /// sorts them and applies them with the listing's error.
    pub fn refresh(&mut self, raw: Vec<FileEntry>, error: Option<String>, sep: char)
        ensures
            exists|rows: Seq<FileEntry>|
                sorting::stable_sorted(
                    raw@.filter(listing_filter(old(self)@.show_hidden, old(self)@.filter)),
                    rows,
                    old(self)@.sort_by,
                    old(self)@.sort_desc,
                ) && old(self)@.remapped(rows, final(self)@, sep),
            final(self)@.error == opt_view(error),
    {
        let mut rows = Tab::filter_listing(raw, self.show_hidden, self.filter.as_str());
        Tab::sort_entries(&mut rows, self.sort_by, self.sort_desc);
        self.apply_list(rows, error, sep);
    }

    /// Moves to `path` without listing it: when it is another directory the
    /// old place goes on the back history, the forward history, rows,
    /// selection and error are dropped, and `true` asks for a listing.
    pub fn navigate_to_async(&mut self, path: String, is_dir: bool, sep: char) -> (r: bool)
        ensures
            r == (!paths::same_path(path@, old(self)@.current, sep) && is_dir),
            final(self)@ == old(self)@.navigate_to_async(path@, is_dir, sep),
    {
        if paths::same_path_of(path.as_str(), self.current.as_str(), sep) {
            return false;
        }
        if !is_dir {
            return false;
        }
        let ghost before = self@;
        let mut p = path;
        std::mem::swap(&mut self.current, &mut p);
        self.history_back.push(p);
        self.history_forward.clear();
        self.selected.clear();
        self.focus = None;
        self.anchor = None;
        self.entries.clear();
        self.error = None;
        proof {
            assert(string_views(self.history_back@) =~= before.back.push(before.current));
            assert(string_views(self.history_forward@) =~= seq![]);
            assert(self@ =~= before.navigate_to_async(path@, is_dir, sep));
        }
        true
    }

    /// Moves to `path` when it is another existing directory
    /// (`is_existing_dir`); `true` when it moved, and the caller then lists
    /// the new place and hands the rows to [`Tab::refresh`].
    pub fn navigate_to(&mut self, path: String, is_existing_dir: bool, sep: char) -> (r: bool)
        ensures
            r == (!paths::same_path(path@, old(self)@.current, sep) && is_existing_dir),
            final(self)@ == old(self)@.navigate_to(path@, is_existing_dir, sep),
    {
        if paths::same_path_of(path.as_str(), self.current.as_str(), sep) {
            return false;
        }
        if !is_existing_dir {
            return false;
        }
        let ghost before = self@;
        let mut p = path;
        std::mem::swap(&mut self.current, &mut p);
        self.history_back.push(p);
        self.history_forward.clear();
        self.selected.clear();
        self.focus = None;
        self.anchor = None;
        proof {
            assert(string_views(self.history_back@) =~= before.back.push(before.current));
            assert(string_views(self.history_forward@) =~= seq![]);
            assert(self@ =~= before.navigate_to(path@, is_existing_dir, sep));
        }
        true
    }

    /// Goes back one place; `true` when there was one (the caller then lists it).
    pub fn go_back(&mut self) -> (r: bool)
        ensures
            r == (old(self)@.back.len() > 0),
            final(self)@ == old(self)@.go_back(),
    {
        let ghost before = self@;
        match self.history_back.pop() {
            Some(prev) => {
                let mut p = prev;
                std::mem::swap(&mut self.current, &mut p);
                self.history_forward.push(p);
                self.selected.clear();
                self.focus = None;
                self.anchor = None;
                proof {
                    assert(string_views(self.history_back@) =~= before.back.drop_last());
                    assert(string_views(self.history_forward@) =~= before.forward.push(before.current));
                    assert(self@ =~= before.go_back());
                }
                true
            },
            None => {
                proof {
                    assert(before.back.len() == 0);
                }
                false
            },
        }
    }

    /// Goes forward one place; `true` when there was one (the caller then lists it).
    pub fn go_forward(&mut self) -> (r: bool)
        ensures
            r == (old(self)@.forward.len() > 0),
            final(self)@ == old(self)@.go_forward(),
    {
        let ghost before = self@;
        match self.history_forward.pop() {
            Some(next) => {
                let mut p = next;
                std::mem::swap(&mut self.current, &mut p);
                self.history_back.push(p);
                self.selected.clear();
                self.focus = None;
                self.anchor = None;
                proof {
                    assert(string_views(self.history_forward@) =~= before.forward.drop_last());
                    assert(string_views(self.history_back@) =~= before.back.push(before.current));
                    assert(self@ =~= before.go_forward());
                }
                true
            },
            None => {
                proof {
                    assert(before.forward.len() == 0);
                }
                false
            },
        }
    }

    /// The parent of the current place (see [`paths::parent`]), for the
    /// caller to check before [`Tab::go_up`].
    pub fn parent_path(&self, sep: char) -> (r: Option<String>)
        ensures
            match r {
                Some(p) => paths::parent(self@.current, sep) == Some(p@),
                None => paths::parent(self@.current, sep) is None,
            },
    {
        paths::parent_of(self.current.as_str(), sep)
    }

    /// Goes to the parent directory when the current place has one other
    /// than itself (`true` then, even when the parent is not an existing
    /// directory and nothing moves); `parent_is_dir` says whether the parent
    /// is an existing directory.
    pub fn go_up(&mut self, sep: char, parent_is_dir: bool) -> (r: bool)
        ensures
            r == old(self)@.has_parent(sep),
            final(self)@ == old(self)@.go_up(sep, parent_is_dir),
    {
        match paths::parent_of(self.current.as_str(), sep) {
            Some(parent) => {
                if paths::same_path_of(parent.as_str(), self.current.as_str(), sep) {
                    return false;
                }
                self.navigate_to(parent, parent_is_dir, sep);
                true
            },
            None => false,
        }
    }

    /// The focused row when it exists, else the row of the smallest selected
    /// index when it exists.
    pub fn primary_selected(&self) -> (r: Option<&FileEntry>)
        ensures
            match self@.primary_index() {
                Some(i) => r == Some(&self@.entries[i as int]),
                None => r is None,
            },
    {
        if let Some(f) = self.focus {
            if f < self.entries.len() {
                return Some(&self.entries[f]);
            }
        }
        match first_member(&self.selected) {
            Some(m) => {
                proof {
                    lemma_min_unique(self@.selected, m);
                }
                if m < self.entries.len() {
                    Some(&self.entries[m])
                } else {
                    None
                }
            },
            None => None,
        }
    }

    /// The paths of the selected rows that exist, by increasing index.
    pub fn selected_paths(&self) -> (r: Vec<String>)
        ensures
            exists|q: Seq<usize>|
                lists_in_order(q, self@.selected) && string_views(r@) == paths_at(
                    self@.entries,
                    q.filter(below(self@.len())),
                ),
    {
        let members = sorted_members(&self.selected);
        let n = self.entries.len();
        let ghost q = members@;
        let mut out: Vec<String> = Vec::new();
        let mut k: usize = 0;
        while k < members.len()
            invariant
                n == self@.len(),
                k <= members@.len(),
                q == members@,
                string_views(out@) == paths_at(self@.entries, q.take(k as int).filter(below(n as nat))),
            decreases members@.len() - k,
        {
            let j = members[k];
            let ghost before = out@;
            proof {
                assert(q.take(k + 1) == q.take(k as int).push(j));
                q.take(k as int).lemma_filter_push(j, below(n as nat));
            }
            if j < n {
                out.push(self.entries[j].path.clone());
                proof {
                    let f = q.take(k as int).filter(below(n as nat));
                    assert(string_views(out@) =~= string_views(before).push(self@.entries[j as int].path@));
                    assert(paths_at(self@.entries, f.push(j)) =~= paths_at(self@.entries, f).push(
                        self@.entries[j as int].path@,
                    ));
                }
            }
            k = k + 1;
        }
        proof {
            assert(q.take(q.len() as int) == q);
            assert(lists_in_order(q, self@.selected) && string_views(out@) == paths_at(
                self@.entries,
                q.filter(below(self@.len())),
            ));
        }
        out
    }

    /// Selects only row `idx` and focuses it; an index past the rows clears
    /// the selection and leaves focus and anchor alone.
    pub fn select_only(&mut self, idx: usize)
        ensures
            final(self)@ == old(self)@.select_only(idx),
    {
        self.selected.clear();
        if idx < self.entries.len() {
            self.selected.insert(idx);
            self.focus = Some(idx);
            self.anchor = Some(idx);
        }
        proof {
            assert(self@ =~= old(self)@.select_only(idx));
        }
    }

    /// Adds or removes row `idx` from the selection and focuses it.
    pub fn toggle_select(&mut self, idx: usize)
        ensures
            final(self)@ == old(self)@.toggle_select(idx),
    {
        if idx >= self.entries.len() {
            return;
        }
        if self.selected.contains(&idx) {
            self.selected.remove(&idx);
        } else {
            self.selected.insert(idx);
        }
        self.focus = Some(idx);
        self.anchor = Some(idx);
        proof {
            assert(self@ =~= old(self)@.toggle_select(idx));
        }
    }

    /// Selects the rows from the anchor (or `idx` when there is none) to
    /// `idx` and focuses `idx`.
    pub fn select_range_to(&mut self, idx: usize)
        ensures
            final(self)@ == old(self)@.select_range_to(idx),
    {
        if idx >= self.entries.len() {
            return;
        }
        let anchor = match self.anchor {
            Some(a) => a,
            None => idx,
        };
        let (a, b) = if anchor <= idx {
            (anchor, idx)
        } else {
            (idx, anchor)
        };
        self.selected = new_range(a, b);
        self.focus = Some(idx);
        proof {
            assert(self@ =~= old(self)@.select_range_to(idx));
        }
    }

    /// Selects every row; focus and anchor go to the first row when there is one.
    pub fn select_all(&mut self)
        ensures
            final(self)@ == old(self)@.select_all(),
    {
        self.selected = new_below(self.entries.len());
        if self.entries.len() > 0 {
            self.focus = Some(0);
            self.anchor = Some(0);
        }
        proof {
            assert(self@ =~= old(self)@.select_all());
        }
    }

    /// Selects exactly the rows that were not selected; the focus moves to
    /// the first of them when there is one.
    pub fn invert_selection(&mut self)
        ensures
            final(self)@.selected == indices_below(old(self)@.len()).difference(old(self)@.selected),
            old(self)@.inverted_focus(final(self)@.selected, final(self)@.focus),
            final(self)@ == old(self)@.with_selection(final(self)@.selected, final(self)@.focus, old(self)@.anchor),
    {
        let n = self.entries.len();
        let mut inv = BTreeSet::new();
        let mut i: usize = 0;
        while i < n
            invariant
                n == self@.len(),
                i <= n,
                inv@ == Set::new(|x: usize| x < i && !self@.selected.contains(x)),
            decreases n - i,
        {
            if !self.selected.contains(&i) {
                inv.insert(i);
            }
            proof {
                assert(inv@ =~= Set::new(|x: usize| x < i + 1 && !self@.selected.contains(x)));
            }
            i = i + 1;
        }
        proof {
            assert(inv@ =~= indices_below(n as nat).difference(self@.selected));
        }
        let first = first_member(&inv);
        self.selected = inv;
        match first {
            Some(m) => {
                self.focus = Some(m);
            },
            None => {},
        }
        proof {
            assert(self@ =~= old(self)@.with_selection(self@.selected, self@.focus, old(self)@.anchor));
        }
    }

    /// Clears the selection, focus and anchor.
    pub fn clear_selection(&mut self)
        ensures
            final(self)@ == old(self)@.clear_selection(),
    {
        self.selected.clear();
        self.focus = None;
        self.anchor = None;
        proof {
            assert(self@ =~= old(self)@.clear_selection());
        }
    }

    /// Moves the focus by `delta` rows, clamped to the list; with `extend`
    /// the selection becomes the range from the anchor to the new focus,
    /// otherwise only the new focus is selected.
    pub fn move_focus_by(&mut self, delta: isize, extend: bool)
        requires
            old(self)@.len() <= isize::MAX,
            isize::MIN <= old(self)@.signed_focus() + delta <= isize::MAX,
        ensures
            final(self)@ == old(self)@.move_focus_by(delta, extend),
    {
        let len = self.entries.len();
        if len == 0 {
            return;
        }
        let f: usize = match self.focus {
            Some(f) => f,
            None => 0,
        };
        let cur: isize = if f <= (isize::MAX as usize) {
            f as isize
        } else {
            ((f - (isize::MAX as usize) - 1) as isize) + isize::MIN
        };
        let t = cur + delta;
        let last = (len - 1) as isize;
        let nxt: usize = if t < 0 {
            0
        } else if t > last {
            len - 1
        } else {
            t as usize
        };
        if extend {
            let anchor = match self.anchor {
                Some(a) => a,
                None => f,
            };
            self.anchor = Some(anchor);
            self.focus = Some(nxt);
            let (a, b) = if anchor <= nxt {
                (anchor, nxt)
            } else {
                (nxt, anchor)
            };
            self.selected = new_range(a, b);
            proof {
                assert(self@ =~= old(self)@.move_focus_by(delta, extend));
            }
        } else {
            self.select_only(nxt);
        }
    }

    /// Focuses the first row; with `extend` the selection becomes the range
    /// from it to the anchor, otherwise only the first row is selected.
    pub fn focus_first(&mut self, extend: bool)
        ensures
            final(self)@ == old(self)@.focus_first(extend),
    {
        if self.entries.len() == 0 {
            return;
        }
        if extend {
            let anchor = match self.anchor {
                Some(a) => a,
                None => match self.focus {
                    Some(f) => f,
                    None => 0,
                },
            };
            self.anchor = Some(anchor);
            self.focus = Some(0);
            self.selected = new_range(0, anchor);
            proof {
                assert(self@ =~= old(self)@.focus_first(extend));
            }
        } else {
            self.select_only(0);
        }
    }

    /// Focuses the last row; with `extend` the selection becomes the range
    /// from the anchor to it, otherwise only the last row is selected.
    pub fn focus_last(&mut self, extend: bool)
        ensures
            final(self)@ == old(self)@.focus_last(extend),
    {
        let len = self.entries.len();
        if len == 0 {
            return;
        }
        let last = len - 1;
        if extend {
            let anchor = match self.anchor {
                Some(a) => a,
                None => match self.focus {
                    Some(f) => f,
                    None => last,
                },
            };
            self.anchor = Some(anchor);
            self.focus = Some(last);
            let (a, b) = if anchor <= last {
                (anchor, last)
            } else {
                (last, anchor)
            };
            self.selected = new_range(a, b);
            proof {
                assert(self@ =~= old(self)@.focus_last(extend));
            }
        } else {
            self.select_only(last);
        }
    }

    /// Opens the primary selection: a directory is navigated into
    /// (`target_is_dir` says whether it still is an existing directory) and
    /// `None` returned; for a file its path is returned. With no primary
    /// selection nothing happens.
    pub fn enter_primary(&mut self, target_is_dir: bool, sep: char) -> (r: Option<String>)
        ensures
            match old(self)@.primary_index() {
                None => r is None && final(self)@ == old(self)@,
                Some(i) => {
                    let e = old(self)@.entries[i as int];
                    if e.is_dir {
                        r is None && final(self)@ == old(self)@.navigate_to(e.path@, target_is_dir, sep)
                    } else {
                        r matches Some(p) && p@ == e.path@ && final(self)@ == old(self)@
                    }
                },
            },
    {
        let (path, is_dir) = match self.primary_selected() {
            Some(e) => (e.path.clone(), e.is_dir),
            None => return None,
        };
        if is_dir {
            self.navigate_to(path, target_is_dir, sep);
            None
        } else {
            Some(path)
        }
    }
}

// ---------------------------------------------------------------------------
// Laws
// ---------------------------------------------------------------------------

/// Going back right after moving to another directory returns to where the
/// tab was, with the old back history, and the place left is the only way
/// forward.
pub proof fn back_undoes_navigation(v: TabView, path: Seq<char>, sep: char)
    requires
        !paths::same_path(path, v.current, sep),
    ensures
        v.navigate_to(path, true, sep).go_back().current == v.current,
        v.navigate_to(path, true, sep).go_back().back == v.back,
        v.navigate_to(path, true, sep).go_back().forward == seq![path],
{
    assert(v.back.push(v.current).drop_last() =~= v.back);
    assert(seq![].push(path) =~= seq![path]);
}

/// Going forward right after going back returns to the same place with the
/// same histories.
pub proof fn forward_undoes_back(v: TabView)
    requires
        v.back.len() > 0,
    ensures
        v.go_back().go_forward().current == v.current,
        v.go_back().go_forward().back == v.back,
        v.go_back().go_forward().forward == v.forward,
{
    assert(v.back.drop_last().push(v.back.last()) =~= v.back);
    assert(v.forward.push(v.current).drop_last() =~= v.forward);
}

/// Every selection operation keeps the selection, focus and anchor on rows
/// that exist.
pub proof fn selection_stays_within_rows(v: TabView, idx: usize, delta: isize, extend: bool)
    requires
        v.selection_within_rows(),
    ensures
        v.select_only(idx).selection_within_rows(),
        v.toggle_select(idx).selection_within_rows(),
        v.select_range_to(idx).selection_within_rows(),
        v.select_all().selection_within_rows(),
        v.clear_selection().selection_within_rows(),
        v.move_focus_by(delta, extend).selection_within_rows(),
        v.focus_first(extend).selection_within_rows(),
        v.focus_last(extend).selection_within_rows(),
        v.with_selection(
            indices_below(v.len()).difference(v.selected),
            v.focus,
            v.anchor,
        ).selection_within_rows(),
{
    if v.len() > 0 {
        let nxt = v.moved_focus(delta);
        assert(nxt < v.len());
        assert(v.select_only(nxt).selection_within_rows());
    }
}

/// Inverting the selection twice gives back the selection, when it only
/// names rows that exist.
pub proof fn invert_twice_restores(v: TabView)
    requires
        v.selection_within_rows(),
    ensures
        indices_below(v.len()).difference(indices_below(v.len()).difference(v.selected)) == v.selected,
{
    assert(indices_below(v.len()).difference(indices_below(v.len()).difference(v.selected)) =~= v.selected);
}

/// Inverting right after selecting everything leaves nothing selected.
pub proof fn select_all_then_invert_is_empty(v: TabView)
    ensures
        indices_below(v.len()).difference(v.select_all().selected).is_empty(),
{
    assert(indices_below(v.len()).difference(v.select_all().selected) =~= Set::empty());
}

/// Moving the focus of a non-empty list always lands on a row.
pub proof fn moved_focus_is_a_row(v: TabView, delta: isize, extend: bool)
    requires
        v.len() > 0,
    ensures
        v.move_focus_by(delta, extend).focus == Some(v.moved_focus(delta)),
        v.moved_focus(delta) < v.len(),
{
}

/// A fresh listing keeps selected exactly the rows whose paths were selected
/// and listed before; the focus and anchor follow the focused path.
pub proof fn listing_keeps_selection_by_path(v: TabView, rows: Seq<FileEntry>, w: TabView, i: usize, sep: char)
    requires
        v.remapped(rows, w, sep),
        i < rows.len(),
    ensures
        w.selected.contains(i) <==> exists|j: usize|
            v.selected.contains(j) && j < v.len() && paths::same_path(
                #[trigger] v.entries[j as int].path@,
                rows[i as int].path@,
                sep,
            ),
        w.selection_within_rows(),
{
    assert(w.selected.contains(i) == v.path_was_selected(rows, i, sep));
}

/// A fresh listing shows exactly the listed rows that pass: hidden rows
/// only when hidden rows are shown, and, with a filter, the rows whose
/// lower-cased name contains the lower-cased filter anywhere.
pub proof fn listing_shows_matching_rows(raw: Seq<FileEntry>, show_hidden: bool, filter: Seq<char>, e: FileEntry)
    ensures
        raw.filter(listing_filter(show_hidden, filter)).contains(e) <==> (raw.contains(e) && (show_hidden
            || !e.is_hidden) && (text::lowercase(filter).len() == 0 || text::contains_seq(
            text::lowercase(e.name@),
            text::lowercase(filter),
        ))),
{
    let pred = listing_filter(show_hidden, filter);
    let f = raw.filter(pred);
    raw.filter_lemma(pred);
    if f.contains(e) {
        raw.lemma_filter_contains_rev(pred, e);
        let k = choose|k: int| 0 <= k < f.len() && f[k] == e;
        assert(pred(f[k]));
    }
    if raw.contains(e) && kept_in_listing(e, show_hidden, filter) {
        let k = choose|k: int| 0 <= k < raw.len() && raw[k] == e;
        assert(pred(raw[k]));
        assert(f.contains(raw[k]));
    }
}

/// Ctrl+click on a row flips that row's membership in the selection and no
/// other, and puts the focus and the anchor on it; doing it twice gives the
/// selection back. A click past the rows changes nothing.
pub proof fn toggle_flips_one_row(v: TabView, idx: usize, j: usize)
    ensures
        idx < v.len() ==> v.toggle_select(idx).selected.contains(idx) == !v.selected.contains(idx),
        idx < v.len() && j != idx ==> v.toggle_select(idx).selected.contains(j) == v.selected.contains(j),
        idx < v.len() ==> v.toggle_select(idx).focus == Some(idx) && v.toggle_select(idx).anchor == Some(
            idx,
        ),
        v.toggle_select(idx).toggle_select(idx).selected == v.selected,
        v.toggle_select(idx).entries == v.entries,
        idx >= v.len() ==> v.toggle_select(idx) == v,
{
    if idx < v.len() {
        if v.selected.contains(idx) {
            assert(v.selected.remove(idx).insert(idx) =~= v.selected);
        } else {
            assert(v.selected.insert(idx).remove(idx) =~= v.selected);
        }
    }
}

/// A plain click on a row selects that row alone and focuses it.
pub proof fn select_only_selects_one_row(v: TabView, idx: usize, j: usize)
    requires
        idx < v.len(),
    ensures
        v.select_only(idx).selected.contains(j) == (j == idx),
        v.select_only(idx).focus == Some(idx),
        v.select_only(idx).anchor == Some(idx),
{
}

/// Shift+click on a row selects every row between the anchor (or the row
/// itself when there is none) and that row, both included, and focuses it;
/// the anchor stays.
pub proof fn range_selects_between_anchor_and_row(v: TabView, idx: usize, j: usize)
    requires
        idx < v.len(),
    ensures
        ({
            let a = match v.anchor {
                Some(a) => a,
                None => idx,
            };
            v.select_range_to(idx).selected.contains(j) == ((a <= j && j <= idx) || (idx <= j && j <= a))
        }),
        v.select_range_to(idx).focus == Some(idx),
        v.select_range_to(idx).anchor == v.anchor,
{
}

/// Select all selects exactly the rows there are; clearing selects none
/// and drops the focus.
pub proof fn select_all_and_clear(v: TabView, j: usize)
    ensures
        v.select_all().selected.contains(j) == (j < v.len()),
        !v.clear_selection().selected.contains(j),
        v.clear_selection().focus is None,
{
}

/// Moving the focus by `delta` rows lands `delta` rows away when that is a
/// row, else on the first or last row; without Shift only that row is
/// selected, with Shift the rows from the anchor to it.
pub proof fn focus_moves_by_delta(v: TabView, f: usize, delta: isize, extend: bool, j: usize)
    requires
        v.len() > 0,
        v.focus == Some(f),
        f <= isize::MAX,
    ensures
        0 <= f + delta < v.len() ==> v.move_focus_by(delta, extend).focus == Some((f + delta) as usize),
        f + delta < 0 ==> v.move_focus_by(delta, extend).focus == Some(0usize),
        f + delta >= v.len() ==> v.move_focus_by(delta, extend).focus == Some((v.len() - 1) as usize),
        !extend ==> v.move_focus_by(delta, extend).selected.contains(j) == (j == v.moved_focus(delta)),
        extend ==> ({
            let a = match v.anchor {
                Some(a) => a,
                None => f,
            };
            let n = v.moved_focus(delta);
            v.move_focus_by(delta, extend).selected.contains(j) == ((a <= j && j <= n) || (n <= j && j
                <= a))
        }),
{
}

/// Home and End focus the first and the last row; without Shift that row
/// alone is selected.
pub proof fn focus_first_and_last(v: TabView, extend: bool, j: usize)
    requires
        0 < v.len() <= usize::MAX,
    ensures
        v.focus_first(extend).focus == Some(0usize),
        v.focus_last(extend).focus == Some((v.len() - 1) as usize),
        !extend ==> v.focus_first(extend).selected.contains(j) == (j == 0),
        !extend ==> v.focus_last(extend).selected.contains(j) == (j == v.len() - 1),
{
}

/// The Windows file attribute that hides an entry.
pub const FILE_ATTRIBUTE_HIDDEN: u32 = 0x2;

/// The Windows file attribute of system files, hidden as well.
pub const FILE_ATTRIBUTE_SYSTEM: u32 = 0x4;

/// Whether Windows file attributes `attrs` hide an entry: the hidden or the
/// system attribute is set.
pub fn hidden_by_attributes(attrs: u32) -> (r: bool)
    ensures
        r == (attrs & (FILE_ATTRIBUTE_HIDDEN | FILE_ATTRIBUTE_SYSTEM) != 0),
{
    attrs & (FILE_ATTRIBUTE_HIDDEN | FILE_ATTRIBUTE_SYSTEM) != 0
}

/// A search for `query` finds a name when the lower-cased name contains the
/// lower-cased query; an empty query finds nothing.
pub open spec fn search_finds(name: Seq<char>, query: Seq<char>) -> bool {
    query.len() > 0 && text::contains_seq(text::lowercase(name), text::lowercase(query))
}

/// Whether a search for `query` finds `name` (see [`search_finds`]).
pub fn search_matches(name: &str, query: &str) -> (r: bool)
    ensures
        r == search_finds(name@, query@),
{
    let qv = text::chars_of(query);
    if qv.len() == 0 {
        return false;
    }
    let q = text::str_to_lowercase(query);
    let ql = text::chars_of(q.as_str());
    let n = text::str_to_lowercase(name);
    let nl = text::chars_of(n.as_str());
    text::contains_chars(nl.as_slice(), ql.as_slice())
}

/// The sorting after a click on the header of column `clicked`: the sorted
/// column flips its direction, another column sorts ascending.
pub open spec fn after_header_click(by: SortBy, desc: bool, clicked: SortBy) -> (SortBy, bool) {
    if by == clicked {
        (by, !desc)
    } else {
        (clicked, false)
    }
}

/// The sorting after a click on the header of column `clicked` (see
/// [`after_header_click`]).
pub fn header_clicked(by: SortBy, desc: bool, clicked: SortBy) -> (r: (SortBy, bool))
    ensures
        r == after_header_click(by, desc, clicked),
{
    if by == clicked {
        (by, !desc)
    } else {
        (clicked, false)
    }
}

} // verus!
