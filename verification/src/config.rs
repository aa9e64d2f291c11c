//! Settings values that the rest of the library works with: sort keys, font
//! presets, bookmarks and the list of recently visited directories.

use vstd::prelude::*;
use crate::paths::{same_path, same_path_of};

verus! {

/// Most recently visited directories kept.
pub const MAX_RECENT: usize = 15;

/// Column that the file list is sorted by.
#[derive(Debug, Clone, Copy, PartialEq, Eq, Structural, Default)]
pub enum SortBy {
    #[default]
    Name,
    Size,
    Modified,
    Type,
}

/// Font family preset for Japanese / UI text.
#[derive(Debug, Clone, Copy, PartialEq, Eq, Structural, Default)]
pub enum FontPreset {
    /// BIZ UD Gothic — default for Japanese Windows, highly legible UI font.
    #[default]
    BizUdGothic,
    /// BIZ UDP Gothic variant (proportional)
    BizUdpGothic,
    /// Prefer system Japanese fonts automatically.
    Auto,
    YuGothic,
    Meiryo,
    YuMincho,
    MsGothic,
    NotoSansCjk,
    /// Use the custom font path only (plus system CJK fallback if available).
    Custom,
    /// egui built-in fonts only (no CJK).
    Default,
}

/// A named shortcut to a directory.
#[derive(Debug, Clone)]
pub struct Bookmark {
    pub name: String,
    pub path: String,
}

/// The recent list after visiting `path`: `path` first, then the earlier
/// entries that name another path (see [`same_path`]) in their order, at
/// most [`MAX_RECENT`] in all.
pub open spec fn recent_after_visit(recent: Seq<Seq<char>>, path: Seq<char>, sep: char) -> Seq<Seq<char>> {
    let rest = recent.filter(other_than(path, sep));
    let all = seq![path] + rest;
    if all.len() > MAX_RECENT {
        all.take(MAX_RECENT as int)
    } else {
        all
    }
}

/// The predicate "names another path than `path`".
pub open spec fn other_than(path: Seq<char>, sep: char) -> spec_fn(Seq<char>) -> bool {
    |p: Seq<char>| !same_path(p, path, sep)
}

/// Some entry of `s` names the path `p`.
pub open spec fn holds_same_path(s: Seq<Seq<char>>, p: Seq<char>, sep: char) -> bool {
    exists|m: int| 0 <= m < s.len() && same_path(#[trigger] s[m], p, sep)
}

/// The views of a vector of strings.
pub open spec fn views(v: Seq<String>) -> Seq<Seq<char>> {
    v.map_values(|s: String| s@)
}

/// Push a directory to the front of the recent list (deduped, capped).
/// Paths that are not directories (`path_is_dir` false) leave the list
/// unchanged.
pub fn push_recent(recent: &mut Vec<String>, path: String, path_is_dir: bool, sep: char)
    ensures
        !path_is_dir ==> final(recent)@ == old(recent)@,
        path_is_dir ==> views(final(recent)@) == recent_after_visit(views(old(recent)@), path@, sep),
{
    if !path_is_dir {
        return;
    }
    let ghost old_v = views(recent@);
    let mut kept: Vec<String> = Vec::new();
    kept.push(path.clone());
    let mut i: usize = 0;
    let n = recent.len();
    while i < n
        invariant
            n == recent@.len(),
            i <= n,
            old_v == views(recent@),
            views(kept@) == seq![path@] + old_v.take(i as int).filter(other_than(path@, sep)),
        decreases n - i,
    {
        let same = same_path_of(recent[i].as_str(), path.as_str(), sep);
        proof {
            let pred = other_than(path@, sep);
            assert(old_v.take(i + 1) == old_v.take(i as int).push(recent@[i as int]@));
            old_v.take(i as int).lemma_filter_push(recent@[i as int]@, pred);
        }
        let ghost before = kept@;
        if !same {
            kept.push(recent[i].clone());
            proof {
                assert(views(kept@) =~= views(before).push(recent@[i as int]@));
            }
        }
        i = i + 1;
    }
    proof {
        assert(old_v.take(n as int) == old_v);
    }
    if kept.len() > MAX_RECENT {
        kept.truncate(MAX_RECENT);
        proof {
            assert(views(kept@) == (seq![path@] + old_v.filter(other_than(path@, sep))).take(
                MAX_RECENT as int,
            ));
        }
    }
    *recent = kept;
}

/// What a saved recent list keeps when it is loaded: the entries that are
/// still directories (`still_dir` tells, entry by entry), each path once (its
/// first occurrence), most recent first, at most [`MAX_RECENT`].
pub open spec fn loaded_recent(recent: Seq<Seq<char>>, still_dir: Seq<bool>, sep: char) -> Seq<Seq<char>> {
    let k = kept_dirs(recent, still_dir, sep);
    if k.len() > MAX_RECENT {
        k.take(MAX_RECENT as int)
    } else {
        k
    }
}

/// The entries that are directories, each path once, in order.
pub open spec fn kept_dirs(recent: Seq<Seq<char>>, still_dir: Seq<bool>, sep: char) -> Seq<Seq<char>>
    decreases recent.len(),
{
    if recent.len() == 0 {
        seq![]
    } else {
        let k = kept_dirs(recent.drop_last(), still_dir, sep);
        let i = recent.len() - 1;
        if still_dir[i] && !holds_same_path(k, recent[i], sep) {
            k.push(recent[i])
        } else {
            k
        }
    }
}

fn holds_path(v: &Vec<String>, p: &String, sep: char) -> (r: bool)
    ensures
        r == holds_same_path(views(v@), p@, sep),
{
    let mut i: usize = 0;
    while i < v.len()
        invariant
            i <= v@.len(),
            forall|k: int| 0 <= k < i ==> !same_path(#[trigger] v@[k]@, p@, sep),
        decreases v@.len() - i,
    {
        if same_path_of(v[i].as_str(), p.as_str(), sep) {
            proof {
                assert(views(v@)[i as int] == v@[i as int]@);
            }
            return true;
        }
        i = i + 1;
    }
    proof {
        assert forall|k: int| 0 <= k < views(v@).len() implies !same_path(#[trigger] views(v@)[k], p@, sep) by {
            assert(views(v@)[k] == v@[k]@);
        }
    }
    false
}

/// Cleans a loaded recent list (see [`loaded_recent`]); `still_dir[i]`
/// tells whether `recent[i]` is still a directory.
pub fn clean_recent(recent: &Vec<String>, still_dir: &[bool], sep: char) -> (r: Vec<String>)
    requires
        still_dir@.len() == recent@.len(),
    ensures
        views(r@) == loaded_recent(views(recent@), still_dir@, sep),
{
    let ghost rv = views(recent@);
    let mut kept: Vec<String> = Vec::new();
    let mut i: usize = 0;
    while i < recent.len()
        invariant
            i <= recent@.len(),
            still_dir@.len() == recent@.len(),
            rv == views(recent@),
            views(kept@) == kept_dirs(rv.take(i as int), still_dir@, sep),
        decreases recent@.len() - i,
    {
        proof {
            let t = rv.take(i + 1);
            assert(t.drop_last() =~= rv.take(i as int));
            assert(t[i as int] == recent@[i as int]@);
        }
        if still_dir[i] && !holds_path(&kept, &recent[i], sep) {
            let ghost before = kept@;
            kept.push(recent[i].clone());
            proof {
                assert(views(kept@) =~= views(before).push(recent@[i as int]@));
            }
        }
        i = i + 1;
    }
    proof {
        assert(rv.take(recent@.len() as int) =~= rv);
    }
    if kept.len() > MAX_RECENT {
        kept.truncate(MAX_RECENT);
        proof {
            assert(views(kept@) =~= kept_dirs(rv, still_dir@, sep).take(MAX_RECENT as int));
        }
    }
    kept
}

/// The text of an optional string.
pub open spec fn opt_view(o: Option<String>) -> Option<Seq<char>> {
    match o {
        Some(s) => Some(s@),
        None => None,
    }
}

/// The names and paths of bookmarks.
pub open spec fn marks(bs: Seq<Bookmark>) -> Seq<(Seq<char>, Seq<char>)> {
    bs.map_values(|b: Bookmark| (b.name@, b.path@))
}

/// `(name, path)` for a directory that exists, nothing otherwise.
pub open spec fn mark_if(name: Seq<char>, dir: Option<Seq<char>>) -> Seq<(Seq<char>, Seq<char>)> {
    match dir {
        Some(p) => seq![(name, p)],
        None => seq![],
    }
}

/// Some bookmark in `bs` leads to `path` (see [`same_path`]).
pub open spec fn marks_path(bs: Seq<(Seq<char>, Seq<char>)>, path: Seq<char>, sep: char) -> bool {
    exists|i: int| 0 <= i < bs.len() && same_path(#[trigger] bs[i].1, path, sep)
}

/// `bs` with the Windows drive `d` added when it exists and no bookmark
/// leads there yet.
pub open spec fn with_drive(bs: Seq<(Seq<char>, Seq<char>)>, d: Seq<char>, exists_now: bool) -> Seq<
    (Seq<char>, Seq<char>),
> {
    if exists_now && !marks_path(bs, d, '\\') {
        bs.push((d, d))
    } else {
        bs
    }
}

/// The bookmarks of a first start: home, desktop, documents and downloads,
/// each where the system has one; on Windows then the drives `C:\`, `D:\`
/// and `E:\` that exist and are not bookmarked yet, named by themselves.
pub open spec fn first_bookmarks(
    home: Option<Seq<char>>,
    desktop: Option<Seq<char>>,
    documents: Option<Seq<char>>,
    downloads: Option<Seq<char>>,
    windows: bool,
    drives_exist: Seq<bool>,
) -> Seq<(Seq<char>, Seq<char>)> {
    let named = mark_if("ホーム"@, home) + mark_if("デスクトップ"@, desktop) + mark_if("ドキュメント"@, documents)
        + mark_if("ダウンロード"@, downloads);
    if windows {
        with_drive(
            with_drive(with_drive(named, "C:\\"@, drives_exist[0]), "D:\\"@, drives_exist[1]),
            "E:\\"@,
            drives_exist[2],
        )
    } else {
        named
    }
}

fn push_mark(bs: &mut Vec<Bookmark>, name: &str, dir: Option<String>)
    ensures
        marks(final(bs)@) == marks(old(bs)@) + mark_if(name@, opt_view(dir)),
{
    match dir {
        Some(p) => {
            let ghost before = bs@;
            bs.push(Bookmark { name: crate::text::to_string(name), path: p });
            proof {
                assert(marks(bs@) =~= marks(before) + mark_if(name@, opt_view(dir)));
            }
        },
        None => {
            proof {
                assert(marks(bs@) =~= marks(bs@) + Seq::<(Seq<char>, Seq<char>)>::empty());
            }
        },
    }
}

fn push_drive(bs: &mut Vec<Bookmark>, d: &str, exists_now: bool)
    ensures
        marks(final(bs)@) == with_drive(marks(old(bs)@), d@, exists_now),
{
    if !exists_now {
        return;
    }
    let mut i: usize = 0;
    while i < bs.len()
        invariant
            i <= bs@.len(),
            forall|k: int| 0 <= k < i ==> !same_path(#[trigger] bs@[k].path@, d@, '\\'),
        decreases bs@.len() - i,
    {
        if same_path_of(bs[i].path.as_str(), d, '\\') {
            proof {
                assert(marks(bs@)[i as int].1 == bs@[i as int].path@);
            }
            return;
        }
        i = i + 1;
    }
    proof {
        assert forall|k: int| 0 <= k < marks(bs@).len() implies !same_path(#[trigger] marks(bs@)[k].1, d@, '\\') by {
            assert(marks(bs@)[k].1 == bs@[k].path@);
        }
    }
    let ghost before = bs@;
    bs.push(Bookmark { name: crate::text::to_string(d), path: crate::text::to_string(d) });
    proof {
        assert(marks(bs@) =~= marks(before).push((d@, d@)));
    }
}

/// The bookmarks of a first start (see [`first_bookmarks`]). The system's
/// home, desktop, documents and downloads directories, and whether each of
/// the drives `C:\`, `D:\`, `E:\` exists, are looked up by the caller.
pub fn default_bookmarks(
    home: Option<String>,
    desktop: Option<String>,
    documents: Option<String>,
    downloads: Option<String>,
    windows: bool,
    drives_exist: &[bool],
) -> (r: Vec<Bookmark>)
    requires
        drives_exist@.len() == 3,
    ensures
        marks(r@) == first_bookmarks(
            opt_view(home),
            opt_view(desktop),
            opt_view(documents),
            opt_view(downloads),
            windows,
            drives_exist@,
        ),
{
    let mut bs: Vec<Bookmark> = Vec::new();
    proof {
        assert(marks(bs@) =~= Seq::<(Seq<char>, Seq<char>)>::empty());
    }
    push_mark(&mut bs, "ホーム", home);
    push_mark(&mut bs, "デスクトップ", desktop);
    push_mark(&mut bs, "ドキュメント", documents);
    push_mark(&mut bs, "ダウンロード", downloads);
    if windows {
        push_drive(&mut bs, "C:\\", drives_exist[0]);
        push_drive(&mut bs, "D:\\", drives_exist[1]);
        push_drive(&mut bs, "E:\\", drives_exist[2]);
    }
    bs
}

/// No path occurs twice (see [`same_path`]).
pub open spec fn no_repeats(s: Seq<Seq<char>>, sep: char) -> bool {
    forall|i: int, j: int| 0 <= i < j < s.len() ==> !same_path(s[i], s[j], sep)
}

/// Visiting a directory keeps the recent list clean: the directory comes
/// first, no path occurs twice, and the list stays within [`MAX_RECENT`].
pub proof fn visiting_keeps_recent_clean(recent: Seq<Seq<char>>, path: Seq<char>, sep: char)
    requires
        no_repeats(recent, sep),
    ensures
        recent_after_visit(recent, path, sep)[0] == path,
        no_repeats(recent_after_visit(recent, path, sep), sep),
        recent_after_visit(recent, path, sep).len() <= MAX_RECENT,
        recent_after_visit(recent, path, sep).contains(path),
{
    let pred = other_than(path, sep);
    let rest = recent.filter(pred);
    let all = seq![path] + rest;
    assert(all[0] == path);
    assert forall|i: int, j: int| 0 <= i < j < all.len() implies !same_path(all[i], all[j], sep) by {
        lemma_filter_no_repeats(recent, pred, sep);
        if i == 0 {
            assert(all[j] == rest[j - 1]);
            assert(pred(rest[j - 1]));
        } else {
            assert(all[i] == rest[i - 1] && all[j] == rest[j - 1]);
        }
    }
    let r = recent_after_visit(recent, path, sep);
    assert(r[0] == path);
}

proof fn lemma_filter_no_repeats(s: Seq<Seq<char>>, pred: spec_fn(Seq<char>) -> bool, sep: char)
    requires
        no_repeats(s, sep),
    ensures
        no_repeats(s.filter(pred), sep),
        forall|i: int| 0 <= i < s.filter(pred).len() ==> pred(#[trigger] s.filter(pred)[i]),
    decreases s.len(),
{
    broadcast use vstd::seq_lib::group_filter_ensures;
    if s.len() > 0 {
        let d = s.drop_last();
        lemma_filter_no_repeats(d, pred, sep);
        assert(s == d.push(s.last()));
        d.lemma_filter_push(s.last(), pred);
        let f = d.filter(pred);
        if pred(s.last()) {
            assert forall|i: int, j: int| 0 <= i < j < f.push(s.last()).len() implies !same_path(
                f.push(s.last())[i],
                f.push(s.last())[j],
                sep,
            ) by {
                if j == f.len() {
                    assert(f.contains(f[i]));
                    d.lemma_filter_contains_rev(pred, f[i]);
                    let m = choose|m: int| 0 <= m < d.len() && d[m] == f[i];
                    assert(s[m] == d[m]);
                    assert(!same_path(s[m], s[s.len() - 1], sep));
                }
            }
        }
    }
}

/// A loaded recent list is clean: every path once, at most [`MAX_RECENT`],
/// and every path kept was reported as still a directory.
pub proof fn loaded_recent_is_clean(recent: Seq<Seq<char>>, still_dir: Seq<bool>, sep: char)
    requires
        still_dir.len() == recent.len(),
    ensures
        no_repeats(loaded_recent(recent, still_dir, sep), sep),
        loaded_recent(recent, still_dir, sep).len() <= MAX_RECENT,
        forall|i: int|
            0 <= i < loaded_recent(recent, still_dir, sep).len() ==> exists|j: int|
                0 <= j < recent.len() && still_dir[j] && recent[j] == #[trigger] loaded_recent(
                    recent,
                    still_dir,
                    sep,
                )[i],
{
    lemma_kept_dirs_clean(recent, still_dir, sep);
    let k = kept_dirs(recent, still_dir, sep);
    let r = loaded_recent(recent, still_dir, sep);
    assert forall|i: int| 0 <= i < r.len() implies exists|j: int|
        0 <= j < recent.len() && still_dir[j] && recent[j] == #[trigger] r[i] by {
        assert(r[i] == k[i]);
    }
}

proof fn lemma_kept_dirs_clean(recent: Seq<Seq<char>>, still_dir: Seq<bool>, sep: char)
    requires
        still_dir.len() >= recent.len(),
    ensures
        no_repeats(kept_dirs(recent, still_dir, sep), sep),
        forall|i: int|
            0 <= i < kept_dirs(recent, still_dir, sep).len() ==> exists|j: int|
                0 <= j < recent.len() && still_dir[j] && recent[j] == #[trigger] kept_dirs(
                    recent,
                    still_dir,
                    sep,
                )[i],
    decreases recent.len(),
{
    if recent.len() > 0 {
        let d = recent.drop_last();
        lemma_kept_dirs_clean(d, still_dir, sep);
        let k = kept_dirs(d, still_dir, sep);
        let n = recent.len() - 1;
        assert forall|i: int| 0 <= i < k.len() implies exists|j: int|
            0 <= j < recent.len() && still_dir[j] && recent[j] == #[trigger] k[i] by {
            let j = choose|j: int| 0 <= j < d.len() && still_dir[j] && d[j] == k[i];
            assert(recent[j] == d[j]);
        }
        if still_dir[n] && !holds_same_path(k, recent[n], sep) {
            let k2 = k.push(recent[n]);
            assert forall|i: int, j: int| 0 <= i < j < k2.len() implies !same_path(k2[i], k2[j], sep) by {
                if j == k.len() {
                    assert(k2[i] == k[i]);
                }
            }
            assert forall|i: int| 0 <= i < k2.len() implies exists|j: int|
                0 <= j < recent.len() && still_dir[j] && recent[j] == #[trigger] k2[i] by {
                if i == k.len() {
                    assert(recent[n] == k2[i]);
                } else {
                    assert(k2[i] == k[i]);
                }
            }
        }
    }
}

/// The bookmark added for the directory `cur`: named by its file name (or
/// `ブックマーク` when it has none); none when a bookmark already leads there.
pub open spec fn new_bookmark(bs: Seq<(Seq<char>, Seq<char>)>, cur: Seq<char>, sep: char) -> Option<
    (Seq<char>, Seq<char>),
> {
    if marks_path(bs, cur, sep) {
        None
    } else {
        Some(
            (
                match crate::paths::file_name(cur, sep) {
                    Some(n) => n,
                    None => "ブックマーク"@,
                },
                cur,
            ),
        )
    }
}

/// The bookmark to add for the directory `cur` (see [`new_bookmark`]).
pub fn bookmark_for(bookmarks: &[Bookmark], cur: &str, sep: char) -> (r: Option<Bookmark>)
    ensures
        match r {
            Some(b) => new_bookmark(marks(bookmarks@), cur@, sep) == Some((b.name@, b.path@)),
            None => new_bookmark(marks(bookmarks@), cur@, sep) is None,
        },
{
    let mut i: usize = 0;
    while i < bookmarks.len()
        invariant
            i <= bookmarks@.len(),
            forall|k: int| 0 <= k < i ==> !same_path(#[trigger] bookmarks@[k].path@, cur@, sep),
        decreases bookmarks@.len() - i,
    {
        if same_path_of(bookmarks[i].path.as_str(), cur, sep) {
            proof {
                assert(marks(bookmarks@)[i as int].1 == bookmarks@[i as int].path@);
            }
            return None;
        }
        i = i + 1;
    }
    proof {
        assert forall|k: int| 0 <= k < marks(bookmarks@).len() implies !same_path(#[trigger] marks(
            bookmarks@,
        )[k].1, cur@, sep) by {
            assert(marks(bookmarks@)[k].1 == bookmarks@[k].path@);
        }
    }
    let name = match crate::paths::file_name_of(cur, sep) {
        Some(n) => n,
        None => crate::text::to_string("ブックマーク"),
    };
    Some(Bookmark { name, path: crate::text::to_string(cur) })
}

} // verus!
