//! The order of file-list rows: directories first, then by the chosen column,
//! optionally reversed; and the stable sort that applies it.

use vstd::prelude::*;
use std::cmp::Ordering;
use crate::config::SortBy;
use crate::nat_sort;
use crate::nat_sort::natural_cmp;
use crate::tab::FileEntry;

verus! {

// ---------------------------------------------------------------------------
// Component orders
// ---------------------------------------------------------------------------

/// `o`, or `p` when `o` is `Equal`.
pub open spec fn then_order(o: Ordering, p: Ordering) -> Ordering {
    if o == Ordering::Equal {
        p
    } else {
        o
    }
}

/// The order of booleans (`false` first).
pub open spec fn bool_order(x: bool, y: bool) -> Ordering {
    nat_sort::int_order(if x { 1int } else { 0int }, if y { 1int } else { 0int })
}

/// The order of optional instants: absent first, then by value.
pub open spec fn opt_order(x: Option<i128>, y: Option<i128>) -> Ordering {
    match (x, y) {
        (None, None) => Ordering::Equal,
        (None, Some(_)) => Ordering::Less,
        (Some(_), None) => Ordering::Greater,
        (Some(a), Some(b)) => if a < b {
            Ordering::Less
        } else if a == b {
            Ordering::Equal
        } else {
            Ordering::Greater
        },
    }
}

/// The order of two sizes.
pub open spec fn size_order(x: u64, y: u64) -> Ordering {
    if x < y {
        Ordering::Less
    } else if x == y {
        Ordering::Equal
    } else {
        Ordering::Greater
    }
}

/// Lexicographic order of strings by code point (which is the byte order of
/// their UTF-8 encodings); a proper prefix comes first.
pub open spec fn text_order(a: Seq<char>, b: Seq<char>) -> Ordering
    decreases a.len(),
{
    if a.len() == 0 {
        if b.len() == 0 {
            Ordering::Equal
        } else {
            Ordering::Less
        }
    } else if b.len() == 0 {
        Ordering::Greater
    } else {
        let t = nat_sort::int_order(crate::text::code(a[0]), crate::text::code(b[0]));
        if t != Ordering::Equal {
            t
        } else {
            text_order(a.drop_first(), b.drop_first())
        }
    }
}

/// The order of two rows by the sort column, directories first.
pub open spec fn key_order(a: FileEntry, b: FileEntry, by: SortBy) -> Ordering {
    let dirs = bool_order(b.is_dir, a.is_dir);
    match by {
        SortBy::Name => then_order(dirs, nat_sort::natural_order(a.name@, b.name@)),
        SortBy::Size => then_order(dirs, size_order(a.size, b.size)),
        SortBy::Modified => then_order(dirs, opt_order(a.modified, b.modified)),
        SortBy::Type => then_order(
            then_order(dirs, text_order(a.ext@, b.ext@)),
            nat_sort::natural_order(a.name@, b.name@),
        ),
    }
}

/// The order of two rows in the list: [`key_order`], reversed when `desc`.
pub open spec fn entry_order(a: FileEntry, b: FileEntry, by: SortBy, desc: bool) -> Ordering {
    if desc {
        nat_sort::flip(key_order(a, b, by))
    } else {
        key_order(a, b, by)
    }
}

// ---------------------------------------------------------------------------
// Laws of the row order
// ---------------------------------------------------------------------------

/// The three values of an order on `x, y`, `y, z` and `x, z` are consistent
/// with a total preorder.
pub open spec fn trans_ok(xy: Ordering, yz: Ordering, xz: Ordering) -> bool {
    &&& (xy != Ordering::Greater && yz != Ordering::Greater ==> xz != Ordering::Greater)
    &&& (xy != Ordering::Greater && yz != Ordering::Greater && (xy == Ordering::Less || yz
        == Ordering::Less) ==> xz == Ordering::Less)
    &&& (xy == Ordering::Equal && yz == Ordering::Equal ==> xz == Ordering::Equal)
}

proof fn lemma_then_trans(a1: Ordering, b1: Ordering, c1: Ordering, a2: Ordering, b2: Ordering, c2: Ordering)
    requires
        trans_ok(a1, b1, c1),
        trans_ok(a2, b2, c2),
    ensures
        trans_ok(then_order(a1, a2), then_order(b1, b2), then_order(c1, c2)),
{
}

proof fn lemma_trans_swap(a: Ordering, b: Ordering, c: Ordering)
    ensures
        trans_ok(a, b, c) == trans_ok(b, a, c),
{
}

proof fn lemma_int_trans(x: int, y: int, z: int)
    ensures
        trans_ok(nat_sort::int_order(x, y), nat_sort::int_order(y, z), nat_sort::int_order(x, z)),
{
}

proof fn lemma_text_trans(a: Seq<char>, b: Seq<char>, c: Seq<char>)
    ensures
        trans_ok(text_order(a, b), text_order(b, c), text_order(a, c)),
    decreases a.len(),
{
    if a.len() > 0 && b.len() > 0 && c.len() > 0 {
        lemma_text_trans(a.drop_first(), b.drop_first(), c.drop_first());
    }
}

proof fn lemma_text_flip(a: Seq<char>, b: Seq<char>)
    ensures
        text_order(b, a) == nat_sort::flip(text_order(a, b)),
    decreases a.len(),
{
    if a.len() > 0 && b.len() > 0 {
        lemma_text_flip(a.drop_first(), b.drop_first());
    }
}

proof fn lemma_text_refl(a: Seq<char>)
    ensures
        text_order(a, a) == Ordering::Equal,
    decreases a.len(),
{
    if a.len() > 0 {
        lemma_text_refl(a.drop_first());
    }
}

proof fn lemma_natural_trans(a: Seq<char>, b: Seq<char>, c: Seq<char>)
    ensures
        trans_ok(
            nat_sort::natural_order(a, b),
            nat_sort::natural_order(b, c),
            nat_sort::natural_order(a, c),
        ),
{
    if nat_sort::natural_order(a, b) != Ordering::Greater && nat_sort::natural_order(b, c)
        != Ordering::Greater {
        nat_sort::natural_order_transitive(a, b, c);
    }
    if nat_sort::natural_order(a, b) == Ordering::Equal && nat_sort::natural_order(b, c)
        == Ordering::Equal {
        nat_sort::natural_order_equal_iff_same_tokens(a, b);
        nat_sort::natural_order_equal_iff_same_tokens(b, c);
        nat_sort::natural_order_equal_iff_same_tokens(a, c);
    }
}

proof fn lemma_key_trans(a: FileEntry, b: FileEntry, c: FileEntry, by: SortBy)
    ensures
        trans_ok(key_order(a, b, by), key_order(b, c, by), key_order(a, c, by)),
{
    let ia = if a.is_dir { 1int } else { 0int };
    let ib = if b.is_dir { 1int } else { 0int };
    let ic = if c.is_dir { 1int } else { 0int };
    lemma_int_trans(ic, ib, ia);
    lemma_trans_swap(
        nat_sort::int_order(ic, ib),
        nat_sort::int_order(ib, ia),
        nat_sort::int_order(ic, ia),
    );
    assert(trans_ok(
        bool_order(b.is_dir, a.is_dir),
        bool_order(c.is_dir, b.is_dir),
        bool_order(c.is_dir, a.is_dir),
    ));
    let d1 = bool_order(b.is_dir, a.is_dir);
    let d2 = bool_order(c.is_dir, b.is_dir);
    let d3 = bool_order(c.is_dir, a.is_dir);
    match by {
        SortBy::Name => {
            lemma_natural_trans(a.name@, b.name@, c.name@);
            lemma_then_trans(
                d1,
                d2,
                d3,
                nat_sort::natural_order(a.name@, b.name@),
                nat_sort::natural_order(b.name@, c.name@),
                nat_sort::natural_order(a.name@, c.name@),
            );
        },
        SortBy::Size => {
            lemma_then_trans(
                d1,
                d2,
                d3,
                size_order(a.size, b.size),
                size_order(b.size, c.size),
                size_order(a.size, c.size),
            );
        },
        SortBy::Modified => {
            lemma_then_trans(
                d1,
                d2,
                d3,
                opt_order(a.modified, b.modified),
                opt_order(b.modified, c.modified),
                opt_order(a.modified, c.modified),
            );
        },
        SortBy::Type => {
            lemma_text_trans(a.ext@, b.ext@, c.ext@);
            lemma_then_trans(
                d1,
                d2,
                d3,
                text_order(a.ext@, b.ext@),
                text_order(b.ext@, c.ext@),
                text_order(a.ext@, c.ext@),
            );
            lemma_natural_trans(a.name@, b.name@, c.name@);
            lemma_then_trans(
                then_order(d1, text_order(a.ext@, b.ext@)),
                then_order(d2, text_order(b.ext@, c.ext@)),
                then_order(d3, text_order(a.ext@, c.ext@)),
                nat_sort::natural_order(a.name@, b.name@),
                nat_sort::natural_order(b.name@, c.name@),
                nat_sort::natural_order(a.name@, c.name@),
            );
        },
    }
}

proof fn lemma_key_flip(a: FileEntry, b: FileEntry, by: SortBy)
    ensures
        key_order(b, a, by) == nat_sort::flip(key_order(a, b, by)),
{
    nat_sort::natural_order_antisymmetric(a.name@, b.name@);
    lemma_text_flip(a.ext@, b.ext@);
}

/// The row order is a total preorder, reversed or not: it is transitive
/// (strictly so when either step is strict), and equality is transitive.
pub proof fn entry_order_transitive(a: FileEntry, b: FileEntry, c: FileEntry, by: SortBy, desc: bool)
    ensures
        trans_ok(entry_order(a, b, by, desc), entry_order(b, c, by, desc), entry_order(a, c, by, desc)),
{
    lemma_key_trans(a, b, c, by);
    if desc {
        lemma_key_trans(c, b, a, by);
        lemma_key_flip(a, b, by);
        lemma_key_flip(b, c, by);
        lemma_key_flip(a, c, by);
        lemma_trans_swap(key_order(c, b, by), key_order(b, a, by), key_order(c, a, by));
    }
}

/// Swapping two rows reverses their order.
pub proof fn entry_order_antisymmetric(a: FileEntry, b: FileEntry, by: SortBy, desc: bool)
    ensures
        entry_order(b, a, by, desc) == nat_sort::flip(entry_order(a, b, by, desc)),
{
    lemma_key_flip(a, b, by);
}

/// Every row is equal to itself.
pub proof fn entry_order_reflexive(a: FileEntry, by: SortBy, desc: bool)
    ensures
        entry_order(a, a, by, desc) == Ordering::Equal,
{
    nat_sort::natural_order_reflexive(a.name@);
    lemma_text_refl(a.ext@);
}

/// Directories come before files whatever the column, unless reversed.
pub proof fn directories_first(a: FileEntry, b: FileEntry, by: SortBy)
    requires
        a.is_dir,
        !b.is_dir,
    ensures
        entry_order(a, b, by, false) == Ordering::Less,
{
}

/// Row `x` may stand before row `y` in a list sorted ascending by column
/// `by`: a directory never follows a file, and between two directories or
/// two files the column decides: names in natural order, sizes and
/// modification times from small to large (no time first), and for the
/// type the extension text first, then the name.
pub open spec fn may_precede(x: FileEntry, y: FileEntry, by: SortBy) -> bool {
    &&& (x.is_dir || !y.is_dir)
    &&& (x.is_dir == y.is_dir ==> match by {
        SortBy::Name => nat_sort::natural_order(x.name@, y.name@) != Ordering::Greater,
        SortBy::Size => x.size <= y.size,
        SortBy::Modified => (y.modified is None ==> x.modified is None) && (x.modified is Some
            && y.modified is Some ==> x.modified->0 <= y.modified->0),
        SortBy::Type => text_order(x.ext@, y.ext@) == Ordering::Less || (text_order(x.ext@, y.ext@)
            == Ordering::Equal && nat_sort::natural_order(x.name@, y.name@) != Ordering::Greater),
    })
}

/// Whenever the list order does not put `x` after `y`, `x` may precede `y`
/// ascending (see [`may_precede`]); descending, `y` may precede `x`.
pub proof fn list_order_follows_columns(x: FileEntry, y: FileEntry, by: SortBy)
    ensures
        entry_order(x, y, by, false) != Ordering::Greater ==> may_precede(x, y, by),
        entry_order(x, y, by, true) != Ordering::Greater ==> may_precede(y, x, by),
{
    lemma_key_flip(x, y, by);
}

/// Between two files, or two directories, the column decides the order
/// whenever it tells them apart: the smaller name in natural order, the
/// smaller size, the earlier (or absent) time, the smaller extension text
/// comes first ascending; and for the type column the name decides only
/// between equal extensions.
pub proof fn column_decides(a: FileEntry, b: FileEntry, by: SortBy)
    requires
        a.is_dir == b.is_dir,
    ensures
        by == SortBy::Name && nat_sort::natural_order(a.name@, b.name@) == Ordering::Less ==> entry_order(
            a,
            b,
            by,
            false,
        ) == Ordering::Less,
        by == SortBy::Size && a.size < b.size ==> entry_order(a, b, by, false) == Ordering::Less,
        by == SortBy::Modified && b.modified is Some && (a.modified is None || a.modified->0
            < b.modified->0) ==> entry_order(a, b, by, false) == Ordering::Less,
        by == SortBy::Type && text_order(a.ext@, b.ext@) == Ordering::Less ==> entry_order(a, b, by, false)
            == Ordering::Less,
        by == SortBy::Type && a.ext@ == b.ext@ ==> entry_order(a, b, by, false) == nat_sort::natural_order(
            a.name@,
            b.name@,
        ),
        entry_order(a, b, by, true) == nat_sort::flip(entry_order(a, b, by, false)),
{
    lemma_text_refl(a.ext@);
}

/// Text order is lexicographic by code point: two texts that agree on
/// their first `k` characters and differ at the next are ordered by that
/// character, and a proper prefix comes before the text it begins.
pub proof fn text_order_is_lexicographic(a: Seq<char>, b: Seq<char>, k: int)
    requires
        0 <= k <= a.len(),
        k <= b.len(),
        a.take(k) == b.take(k),
    ensures
        k < a.len() && k < b.len() && crate::text::code(a[k]) < crate::text::code(b[k]) ==> text_order(a, b)
            == Ordering::Less,
        k == a.len() && k < b.len() ==> text_order(a, b) == Ordering::Less,
    decreases k,
{
    if k > 0 {
        assert(a[0] == a.take(k)[0] && b[0] == b.take(k)[0]);
        assert(a.drop_first().take(k - 1) =~= a.take(k).drop_first());
        assert(b.drop_first().take(k - 1) =~= b.take(k).drop_first());
        text_order_is_lexicographic(a.drop_first(), b.drop_first(), k - 1);
    }
}

// ---------------------------------------------------------------------------
// Executable comparison
// ---------------------------------------------------------------------------

fn bool_rank(x: bool) -> (r: u8)
    ensures
        r == (if x { 1int } else { 0int }),
{
    if x { 1 } else { 0 }
}

/// Compares two strings by code point.
pub fn text_compare(a: &str, b: &str) -> (r: Ordering)
    ensures
        r == text_order(a@, b@),
{
    let va = crate::text::chars_of(a);
    let vb = crate::text::chars_of(b);
    let mut i: usize = 0;
    proof {
        assert(va@.skip(0) == va@);
        assert(vb@.skip(0) == vb@);
    }
    loop
        invariant
            i <= va@.len(),
            i <= vb@.len(),
            va@ == a@,
            vb@ == b@,
            text_order(a@, b@) == text_order(nat_sort::rest(va@, i), nat_sort::rest(vb@, i)),
        decreases va@.len() - i,
    {
        let ghost sa = nat_sort::rest(va@, i);
        let ghost sb = nat_sort::rest(vb@, i);
        if i == va.len() {
            if i == vb.len() {
                return Ordering::Equal;
            }
            return Ordering::Less;
        }
        if i == vb.len() {
            return Ordering::Greater;
        }
        let x = crate::text::char_code(va[i]);
        let y = crate::text::char_code(vb[i]);
        proof {
            assert(sa[0] == crate::text::char_at(va@, i));
            assert(sb[0] == crate::text::char_at(vb@, i));
            assert(sa.drop_first() == va@.skip(i + 1));
            assert(sb.drop_first() == vb@.skip(i + 1));
        }
        if x < y {
            return Ordering::Less;
        }
        if x > y {
            return Ordering::Greater;
        }
        i = i + 1;
    }
}

fn size_compare(x: u64, y: u64) -> (r: Ordering)
    ensures
        r == size_order(x, y),
{
    if x < y {
        Ordering::Less
    } else if x == y {
        Ordering::Equal
    } else {
        Ordering::Greater
    }
}

fn opt_compare(x: Option<i128>, y: Option<i128>) -> (r: Ordering)
    ensures
        r == opt_order(x, y),
{
    match (x, y) {
        (None, None) => Ordering::Equal,
        (None, Some(_)) => Ordering::Less,
        (Some(_), None) => Ordering::Greater,
        (Some(a), Some(b)) => {
            if a < b {
                Ordering::Less
            } else if a == b {
                Ordering::Equal
            } else {
                Ordering::Greater
            }
        },
    }
}

fn then_with(o: Ordering, p: Ordering) -> (r: Ordering)
    ensures
        r == then_order(o, p),
{
    match o {
        Ordering::Equal => p,
        _ => o,
    }
}

fn reversed(o: Ordering) -> (r: Ordering)
    ensures
        r == nat_sort::flip(o),
{
    match o {
        Ordering::Less => Ordering::Greater,
        Ordering::Equal => Ordering::Equal,
        Ordering::Greater => Ordering::Less,
    }
}

/// Compares two rows by the order of the list.
pub fn entry_compare(a: &FileEntry, b: &FileEntry, by: SortBy, desc: bool) -> (r: Ordering)
    ensures
        r == entry_order(*a, *b, by, desc),
{
    let ra = bool_rank(a.is_dir);
    let rb = bool_rank(b.is_dir);
    let dirs = if rb < ra {
        Ordering::Less
    } else if rb == ra {
        Ordering::Equal
    } else {
        Ordering::Greater
    };
    let key = match by {
        SortBy::Name => then_with(dirs, natural_cmp(a.name.as_str(), b.name.as_str())),
        SortBy::Size => then_with(dirs, size_compare(a.size, b.size)),
        SortBy::Modified => then_with(dirs, opt_compare(a.modified, b.modified)),
        SortBy::Type => {
            let first = then_with(dirs, text_compare(a.ext.as_str(), b.ext.as_str()));
            match first {
                Ordering::Equal => natural_cmp(a.name.as_str(), b.name.as_str()),
                _ => first,
            }
        },
    };
    if desc {
        reversed(key)
    } else {
        key
    }
}

} // verus!
