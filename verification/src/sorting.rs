//! Stable sorting of file-list rows.
//!
//! Rows are sorted through their indices: index `i` goes before index `j`
//! when row `i` is smaller, or the rows are equal and `i < j`. That relation
//! is a strict total order, so the sorted permutation is unique, and equal
//! rows keep their relative order.

use vstd::prelude::*;
use std::cmp::Ordering;
use crate::config::SortBy;
use crate::entry_order;
use crate::entry_order::entry_compare;
use crate::entry_order::may_precede;
use crate::nat_sort;
use crate::tab::FileEntry;

verus! {

/// Index `i` goes before index `j`.
pub open spec fn before(es: Seq<FileEntry>, by: SortBy, desc: bool, i: int, j: int) -> bool {
    let o = entry_order::entry_order(es[i], es[j], by, desc);
    o == Ordering::Less || (o == Ordering::Equal && i < j)
}

/// Every index in `p` is below `n`.
pub open spec fn indices_below(p: Seq<usize>, n: nat) -> bool {
    forall|k: int| 0 <= k < p.len() ==> #[trigger] p[k] < n
}

/// `p` is strictly increasing in the [`before`] order.
pub open spec fn sorted_indices(es: Seq<FileEntry>, by: SortBy, desc: bool, p: Seq<usize>) -> bool {
    forall|k: int, l: int|
        0 <= k < l < p.len() ==> #[trigger] before(es, by, desc, p[k] as int, p[l] as int)
}

/// `p` lists every index below `n` exactly once.
pub open spec fn is_permutation(p: Seq<usize>, n: nat) -> bool {
    &&& p.len() == n
    &&& indices_below(p, n)
    &&& forall|i: usize| i < n ==> p.contains(i)
    &&& p.no_duplicates()
}

/// `after` holds the rows of `before_rows` in the order given by `p`.
pub open spec fn permuted(before_rows: Seq<FileEntry>, p: Seq<usize>, after: Seq<FileEntry>) -> bool {
    &&& after.len() == p.len()
    &&& forall|k: int| 0 <= k < p.len() ==> after[k] == #[trigger] before_rows[p[k] as int]
}

/// `after` is the stable sort of `before_rows`: the rows, reordered by a
/// permutation that is increasing in the row order with ties broken by the
/// position in `before_rows`.
pub open spec fn stable_sorted(before_rows: Seq<FileEntry>, after: Seq<FileEntry>, by: SortBy, desc: bool) -> bool {
    exists|p: Seq<usize>|
        #![trigger permuted(before_rows, p, after)]
        is_permutation(p, before_rows.len()) && sorted_indices(before_rows, by, desc, p) && permuted(
            before_rows,
            p,
            after,
        )
}

proof fn lemma_before_trans(es: Seq<FileEntry>, by: SortBy, desc: bool, i: int, j: int, k: int)
    requires
        0 <= i < es.len(),
        0 <= j < es.len(),
        0 <= k < es.len(),
        before(es, by, desc, i, j),
        before(es, by, desc, j, k),
    ensures
        before(es, by, desc, i, k),
{
    entry_order::entry_order_transitive(es[i], es[j], es[k], by, desc);
}

proof fn lemma_before_total(es: Seq<FileEntry>, by: SortBy, desc: bool, i: int, j: int)
    requires
        0 <= i < es.len(),
        0 <= j < es.len(),
        i != j,
    ensures
        before(es, by, desc, i, j) != before(es, by, desc, j, i),
{
    entry_order::entry_order_antisymmetric(es[i], es[j], by, desc);
}

proof fn lemma_before_irreflexive(es: Seq<FileEntry>, by: SortBy, desc: bool, i: int)
    requires
        0 <= i < es.len(),
    ensures
        !before(es, by, desc, i, i),
{
    entry_order::entry_order_reflexive(es[i], by, desc);
}

/// [`before`] on machine indices.
pub open spec fn before_at(es: Seq<FileEntry>, by: SortBy, desc: bool, i: usize, j: usize) -> bool {
    before(es, by, desc, i as int, j as int)
}

/// Whether index `i` goes before index `j`.
fn goes_before(es: &Vec<FileEntry>, by: SortBy, desc: bool, i: usize, j: usize) -> (r: bool)
    requires
        i < es@.len(),
        j < es@.len(),
    ensures
        r == before_at(es@, by, desc, i, j),
{
    let o = entry_compare(&es[i], &es[j], by, desc);
    match o {
        Ordering::Less => true,
        Ordering::Equal => i < j,
        Ordering::Greater => false,
    }
}

/// Merges two sorted index lists into one.
fn merge(es: &Vec<FileEntry>, by: SortBy, desc: bool, left: &Vec<usize>, right: &Vec<usize>) -> (r: Vec<usize>)
    requires
        indices_below(left@, es@.len()),
        indices_below(right@, es@.len()),
        sorted_indices(es@, by, desc, left@),
        sorted_indices(es@, by, desc, right@),
        forall|a: int, b: int|
            0 <= a < left@.len() && 0 <= b < right@.len() ==> #[trigger] left@[a] != #[trigger] right@[b],
    ensures
        r@.len() == left@.len() + right@.len(),
        indices_below(r@, es@.len()),
        sorted_indices(es@, by, desc, r@),
        forall|x: usize| r@.contains(x) <==> left@.contains(x) || right@.contains(x),
{
    let mut out: Vec<usize> = Vec::new();
    let mut i: usize = 0;
    let mut j: usize = 0;
    let nl = left.len();
    let nr = right.len();
    while i < nl || j < nr
        invariant
            nl == left@.len(),
            nr == right@.len(),
            i <= nl,
            j <= nr,
            out@.len() == i + j,
            indices_below(left@, es@.len()),
            indices_below(right@, es@.len()),
            sorted_indices(es@, by, desc, left@),
            sorted_indices(es@, by, desc, right@),
            forall|a: int, b: int|
                0 <= a < left@.len() && 0 <= b < right@.len() ==> #[trigger] left@[a]
                    != #[trigger] right@[b],
            indices_below(out@, es@.len()),
            sorted_indices(es@, by, desc, out@),
            forall|k: int, a: int|
                0 <= k < out@.len() && i <= a < nl ==> before(
                    es@,
                    by,
                    desc,
                    #[trigger] out@[k] as int,
                    #[trigger] left@[a] as int,
                ),
            forall|k: int, b: int|
                0 <= k < out@.len() && j <= b < nr ==> before(
                    es@,
                    by,
                    desc,
                    #[trigger] out@[k] as int,
                    #[trigger] right@[b] as int,
                ),
            forall|k: int|
                0 <= k < out@.len() ==> left@.contains(#[trigger] out@[k]) || right@.contains(
                    out@[k],
                ),
            forall|a: int| 0 <= a < i ==> out@.contains(#[trigger] left@[a]),
            forall|b: int| 0 <= b < j ==> out@.contains(#[trigger] right@[b]),
        decreases nl + nr - i - j,
    {
        let take_left = if i < nl && j < nr {
            goes_before(es, by, desc, left[i], right[j])
        } else {
            i < nl
        };
        let ghost old_out = out@;
        if take_left {
            let x = left[i];
            proof {
                assert forall|a: int| i < a < nl implies before(
                    es@,
                    by,
                    desc,
                    x as int,
                    #[trigger] left@[a] as int,
                ) by {
                    assert(before(es@, by, desc, left@[i as int] as int, left@[a] as int));
                }
                assert forall|b: int| j <= b < nr implies before(
                    es@,
                    by,
                    desc,
                    x as int,
                    #[trigger] right@[b] as int,
                ) by {
                    if b > j {
                        assert(before(es@, by, desc, right@[j as int] as int, right@[b] as int));
                        lemma_before_trans(
                            es@,
                            by,
                            desc,
                            x as int,
                            right@[j as int] as int,
                            right@[b] as int,
                        );
                    }
                }
            }
            out.push(x);
            proof {
                assert(out@ == old_out.push(x));
                assert forall|k: int, l: int| 0 <= k < l < out@.len() implies #[trigger] before(
                    es@,
                    by,
                    desc,
                    out@[k] as int,
                    out@[l] as int,
                ) by {
                    if l == old_out.len() {
                        assert(before(es@, by, desc, old_out[k] as int, left@[i as int] as int));
                    } else {
                        assert(before(es@, by, desc, old_out[k] as int, old_out[l] as int));
                    }
                }
                assert forall|a: int| 0 <= a < i + 1 implies out@.contains(#[trigger] left@[a]) by {
                    if a < i {
                        assert(old_out.contains(left@[a]));
                        let w = choose|w: int| 0 <= w < old_out.len() && old_out[w] == left@[a];
                        assert(out@[w] == left@[a]);
                    } else {
                        assert(out@[old_out.len() as int] == left@[a]);
                    }
                }
                assert forall|b: int| 0 <= b < j implies out@.contains(#[trigger] right@[b]) by {
                    assert(old_out.contains(right@[b]));
                    let w = choose|w: int| 0 <= w < old_out.len() && old_out[w] == right@[b];
                    assert(out@[w] == right@[b]);
                }
                assert(left@.contains(x)) by {
                    assert(left@[i as int] == x);
                }
            }
            i = i + 1;
        } else {
            let x = right[j];
            proof {
                if i < nl {
                    lemma_before_total(es@, by, desc, left@[i as int] as int, x as int);
                }
                assert forall|b: int| j < b < nr implies before(
                    es@,
                    by,
                    desc,
                    x as int,
                    #[trigger] right@[b] as int,
                ) by {
                    assert(before(es@, by, desc, right@[j as int] as int, right@[b] as int));
                }
                assert forall|a: int| i <= a < nl implies before(
                    es@,
                    by,
                    desc,
                    x as int,
                    #[trigger] left@[a] as int,
                ) by {
                    if a > i {
                        assert(before(es@, by, desc, left@[i as int] as int, left@[a] as int));
                        lemma_before_trans(
                            es@,
                            by,
                            desc,
                            x as int,
                            left@[i as int] as int,
                            left@[a] as int,
                        );
                    }
                }
            }
            out.push(x);
            proof {
                assert(out@ == old_out.push(x));
                assert forall|k: int, l: int| 0 <= k < l < out@.len() implies #[trigger] before(
                    es@,
                    by,
                    desc,
                    out@[k] as int,
                    out@[l] as int,
                ) by {
                    if l == old_out.len() {
                        assert(before(es@, by, desc, old_out[k] as int, right@[j as int] as int));
                    } else {
                        assert(before(es@, by, desc, old_out[k] as int, old_out[l] as int));
                    }
                }
                assert forall|b: int| 0 <= b < j + 1 implies out@.contains(#[trigger] right@[b]) by {
                    if b < j {
                        assert(old_out.contains(right@[b]));
                        let w = choose|w: int| 0 <= w < old_out.len() && old_out[w] == right@[b];
                        assert(out@[w] == right@[b]);
                    } else {
                        assert(out@[old_out.len() as int] == right@[b]);
                    }
                }
                assert forall|a: int| 0 <= a < i implies out@.contains(#[trigger] left@[a]) by {
                    assert(old_out.contains(left@[a]));
                    let w = choose|w: int| 0 <= w < old_out.len() && old_out[w] == left@[a];
                    assert(out@[w] == left@[a]);
                }
                assert(right@.contains(x)) by {
                    assert(right@[j as int] == x);
                }
            }
            j = j + 1;
        }
    }
    proof {
        assert forall|x: usize| out@.contains(x) <==> left@.contains(x) || right@.contains(x) by {
            if out@.contains(x) {
                let w = choose|w: int| 0 <= w < out@.len() && out@[w] == x;
                assert(left@.contains(out@[w]) || right@.contains(out@[w]));
            }
            if left@.contains(x) {
                let w = choose|w: int| 0 <= w < left@.len() && left@[w] == x;
                assert(out@.contains(left@[w]));
            }
            if right@.contains(x) {
                let w = choose|w: int| 0 <= w < right@.len() && right@[w] == x;
                assert(out@.contains(right@[w]));
            }
        }
    }
    out
}

/// Sorts a list of row indices.
fn merge_sort(es: &Vec<FileEntry>, by: SortBy, desc: bool, v: Vec<usize>) -> (r: Vec<usize>)
    requires
        indices_below(v@, es@.len()),
        v@.no_duplicates(),
    ensures
        r@.len() == v@.len(),
        indices_below(r@, es@.len()),
        sorted_indices(es@, by, desc, r@),
        forall|x: usize| r@.contains(x) <==> v@.contains(x),
    decreases v@.len(),
{
    if v.len() <= 1 {
        return v;
    }
    let mut left = v;
    let mid = left.len() / 2;
    let ghost whole = left@;
    let right = left.split_off(mid);
    proof {
        assert(whole == left@ + right@);
        assert forall|x: usize| whole.contains(x) <==> left@.contains(x) || right@.contains(x) by {
            if whole.contains(x) {
                let w = choose|w: int| 0 <= w < whole.len() && whole[w] == x;
                if w < mid {
                    assert(left@[w] == x);
                } else {
                    assert(right@[w - mid] == x);
                }
            }
            if left@.contains(x) {
                let w = choose|w: int| 0 <= w < left@.len() && left@[w] == x;
                assert(whole[w] == x);
            }
            if right@.contains(x) {
                let w = choose|w: int| 0 <= w < right@.len() && right@[w] == x;
                assert(whole[w + mid] == x);
            }
        }
        assert(left@.no_duplicates() && right@.no_duplicates()) by {
            assert forall|a: int, b: int| 0 <= a < left@.len() && 0 <= b < left@.len() && a != b implies left@[a] != left@[b] by {
                assert(left@[a] == whole[a] && left@[b] == whole[b]);
            }
            assert forall|a: int, b: int| 0 <= a < right@.len() && 0 <= b < right@.len() && a != b implies right@[a] != right@[b] by {
                assert(right@[a] == whole[a + mid] && right@[b] == whole[b + mid]);
            }
        }
        assert forall|a: int, b: int| 0 <= a < left@.len() && 0 <= b < right@.len() implies #[trigger] left@[a] != #[trigger] right@[b] by {
            assert(left@[a] == whole[a] && right@[b] == whole[b + mid]);
        }
        assert(indices_below(left@, es@.len())) by {
            assert forall|k: int| 0 <= k < left@.len() implies #[trigger] left@[k] < es@.len() by {
                assert(left@[k] == whole[k]);
            }
        }
        assert(indices_below(right@, es@.len())) by {
            assert forall|k: int| 0 <= k < right@.len() implies #[trigger] right@[k] < es@.len() by {
                assert(right@[k] == whole[k + mid]);
            }
        }
    }
    let sl = merge_sort(es, by, desc, left);
    let sr = merge_sort(es, by, desc, right);
    proof {
        assert forall|a: int, b: int| 0 <= a < sl@.len() && 0 <= b < sr@.len() implies #[trigger] sl@[a] != #[trigger] sr@[b] by {
            assert(sl@.contains(sl@[a]));
            assert(sr@.contains(sr@[b]));
            if sl@[a] == sr@[b] {
                assert(left@.contains(sl@[a]));
                assert(right@.contains(sl@[a]));
                let wa = choose|w: int| 0 <= w < left@.len() && left@[w] == sl@[a];
                let wb = choose|w: int| 0 <= w < right@.len() && right@[w] == sl@[a];
                assert(left@[wa] != right@[wb]);
            }
        }
    }
    let r = merge(es, by, desc, &sl, &sr);
    proof {
        lemma_sorted_no_duplicates(es@, by, desc, r@);
    }
    r
}

/// The indices `0..n` in order.
fn identity_indices(n: usize) -> (r: Vec<usize>)
    ensures
        r@.len() == n,
        forall|k: int| 0 <= k < n ==> #[trigger] r@[k] == k,
{
    let mut r: Vec<usize> = Vec::new();
    let mut i: usize = 0;
    while i < n
        invariant
            i <= n,
            r@.len() == i,
            forall|k: int| 0 <= k < i ==> #[trigger] r@[k] == k,
        decreases n - i,
    {
        r.push(i);
        i = i + 1;
    }
    r
}

proof fn lemma_sorted_no_duplicates(es: Seq<FileEntry>, by: SortBy, desc: bool, p: Seq<usize>)
    requires
        indices_below(p, es.len()),
        sorted_indices(es, by, desc, p),
    ensures
        p.no_duplicates(),
{
    assert forall|k: int, l: int| 0 <= k < p.len() && 0 <= l < p.len() && k != l implies p[k]
        != p[l] by {
        if k < l {
            assert(before(es, by, desc, p[k] as int, p[l] as int));
            lemma_before_irreflexive(es, by, desc, p[k] as int);
        } else {
            assert(before(es, by, desc, p[l] as int, p[k] as int));
            lemma_before_irreflexive(es, by, desc, p[l] as int);
        }
    }
}

/// The permutation that sorts the rows.
fn sorted_permutation(es: &Vec<FileEntry>, by: SortBy, desc: bool) -> (p: Vec<usize>)
    ensures
        is_permutation(p@, es@.len()),
        sorted_indices(es@, by, desc, p@),
{
    let ids = identity_indices(es.len());
    proof {
        assert(indices_below(ids@, es@.len()));
        assert(ids@.no_duplicates());
    }
    let p = merge_sort(es, by, desc, ids);
    proof {
        lemma_sorted_no_duplicates(es@, by, desc, p@);
        assert forall|i: usize| i < es@.len() implies p@.contains(i) by {
            assert(ids@[i as int] == i);
            assert(ids@.contains(i));
        }
    }
    p
}

/// Moves the element out of slot `i`, leaving `None`.
fn take_slot(slots: &mut Vec<Option<FileEntry>>, i: usize) -> (r: Option<FileEntry>)
    requires
        i < old(slots)@.len(),
    ensures
        r == old(slots)@[i as int],
        final(slots)@ == old(slots)@.update(i as int, None),
{
    let mut tmp: Option<FileEntry> = None;
    std::mem::swap(&mut slots[i], &mut tmp);
    tmp
}

/// Sorts the rows stably by the chosen column, directories first, reversed
/// when `desc` (equal rows keep their order either way).
pub fn sort_rows(entries: &mut Vec<FileEntry>, by: SortBy, desc: bool)
    ensures
        stable_sorted(old(entries)@, final(entries)@, by, desc),
{
    let ghost orig = entries@;
    let p = sorted_permutation(entries, by, desc);
    let n = entries.len();
    // Move every row into a slot; slot `n - 1 - i` holds row `i`.
    let mut slots: Vec<Option<FileEntry>> = Vec::new();
    while entries.len() > 0
        invariant
            n == orig.len(),
            entries@ == orig.take(entries@.len() as int),
            slots@.len() + entries@.len() == n,
            forall|s: int| 0 <= s < slots@.len() ==> #[trigger] slots@[s] == Some(orig[n - 1 - s]),
        decreases entries@.len(),
    {
        let e = entries.pop().unwrap();
        slots.push(Some(e));
    }
    let mut out: Vec<FileEntry> = Vec::new();
    let mut k: usize = 0;
    while k < n
        invariant
            n == orig.len(),
            is_permutation(p@, n as nat),
            slots@.len() == n,
            k <= n,
            out@.len() == k,
            forall|m: int| 0 <= m < k ==> out@[m] == #[trigger] orig[p@[m] as int],
            forall|s: int|
                0 <= s < n ==> (#[trigger] slots@[s] == Some(orig[n - 1 - s]) || (slots@[s]
                    is None && exists|m: int| 0 <= m < k && p@[m] == n - 1 - s)),
        decreases n - k,
    {
        let idx = p[k];
        let s = n - 1 - idx;
        proof {
            assert(p@[k as int] < n);
            if slots@[s as int] is None {
                let m = choose|m: int| 0 <= m < k && p@[m] == n - 1 - s;
                assert(p@[m] == p@[k as int]);
            }
        }
        let e = take_slot(&mut slots, s);
        out.push(e.unwrap());
        proof {
            assert forall|t: int| 0 <= t < n implies (#[trigger] slots@[t] == Some(
                orig[n - 1 - t],
            ) || (slots@[t] is None && exists|m: int| 0 <= m < k + 1 && p@[m] == n - 1 - t)) by {
                if t == s {
                    assert(p@[k as int] == n - 1 - t);
                } else {
                    if slots@[t] is None {
                        let m = choose|m: int| 0 <= m < k && p@[m] == n - 1 - t;
                        assert(0 <= m < k + 1 && p@[m] == n - 1 - t);
                    }
                }
            }
        }
        k = k + 1;
    }
    proof {
        assert(permuted(orig, p@, out@));
    }
    *entries = out;
}

proof fn lemma_sorted_permutations_agree(
    es: Seq<FileEntry>,
    by: SortBy,
    desc: bool,
    p1: Seq<usize>,
    p2: Seq<usize>,
    k: int,
)
    requires
        is_permutation(p1, es.len()),
        is_permutation(p2, es.len()),
        sorted_indices(es, by, desc, p1),
        sorted_indices(es, by, desc, p2),
        0 <= k <= es.len(),
    ensures
        forall|j: int| 0 <= j < k ==> p1[j] == p2[j],
    decreases k,
{
    if k > 0 {
        lemma_sorted_permutations_agree(es, by, desc, p1, p2, k - 1);
        let j = k - 1;
        let a = p1[j];
        let b = p2[j];
        if a != b {
            assert(p1[j] < es.len() && p2[j] < es.len());
            assert(p2.contains(a));
            let m = choose|m: int| 0 <= m < p2.len() && p2[m] == a;
            assert(p1.contains(b));
            let m1 = choose|m: int| 0 <= m < p1.len() && p1[m] == b;
            if m < j {
                assert(p1[m] == a);
                assert(false);
            }
            if m1 < j {
                assert(p2[m1] == b);
                assert(false);
            }
            assert(before(es, by, desc, b as int, a as int));
            assert(before(es, by, desc, a as int, b as int));
            lemma_before_trans(es, by, desc, a as int, b as int, a as int);
            lemma_before_irreflexive(es, by, desc, a as int);
        }
    }
}

/// The stable sort of a list of rows is unique: two results that both are
/// stable sorts of the same rows for the same column and direction are the
/// same list. So the rows' order after sorting is fully determined.
pub proof fn stable_sort_is_unique(
    rows: Seq<FileEntry>,
    a1: Seq<FileEntry>,
    a2: Seq<FileEntry>,
    by: SortBy,
    desc: bool,
)
    requires
        stable_sorted(rows, a1, by, desc),
        stable_sorted(rows, a2, by, desc),
    ensures
        a1 == a2,
{
    let p1 = choose|p: Seq<usize>|
        #![trigger permuted(rows, p, a1)]
        is_permutation(p, rows.len()) && sorted_indices(rows, by, desc, p) && permuted(rows, p, a1);
    let p2 = choose|p: Seq<usize>|
        #![trigger permuted(rows, p, a2)]
        is_permutation(p, rows.len()) && sorted_indices(rows, by, desc, p) && permuted(rows, p, a2);
    lemma_sorted_permutations_agree(rows, by, desc, p1, p2, rows.len() as int);
    assert forall|k: int| 0 <= k < a1.len() implies a1[k] == a2[k] by {
        assert(a1[k] == rows[p1[k] as int]);
        assert(a2[k] == rows[p2[k] as int]);
    }
    assert(a1 =~= a2);
}

/// Sorting rows that are already sorted (by the same column and direction)
/// changes nothing: a stably sorted list is its own stable sort.
pub proof fn sorting_again_changes_nothing(
    rows: Seq<FileEntry>,
    sorted: Seq<FileEntry>,
    again: Seq<FileEntry>,
    by: SortBy,
    desc: bool,
)
    requires
        rows.len() <= usize::MAX,
        stable_sorted(rows, sorted, by, desc),
        stable_sorted(sorted, again, by, desc),
    ensures
        again == sorted,
{
    let p = choose|p: Seq<usize>|
        #![trigger permuted(rows, p, sorted)]
        is_permutation(p, rows.len()) && sorted_indices(rows, by, desc, p) && permuted(rows, p, sorted);
    let n = sorted.len();
    let id = Seq::new(n, |i: int| i as usize);
    assert(is_permutation(id, n)) by {
        assert forall|i: usize| i < n implies id.contains(i) by {
            assert(id[i as int] == i);
        }
        assert forall|a: int, b: int| 0 <= a < id.len() && 0 <= b < id.len() && a != b implies id[a]
            != id[b] by {}
    }
    assert forall|k: int, l: int| 0 <= k < l < id.len() implies #[trigger] before(
        sorted,
        by,
        desc,
        id[k] as int,
        id[l] as int,
    ) by {
        assert(id[k] as int == k && id[l] as int == l);
        assert(before(rows, by, desc, p[k] as int, p[l] as int));
        assert(sorted[k] == rows[p[k] as int] && sorted[l] == rows[p[l] as int]);
    }
    assert(permuted(sorted, id, sorted)) by {
        assert forall|k: int| 0 <= k < id.len() implies sorted[k] == #[trigger] sorted[id[k] as int] by {
            assert(id[k] as int == k);
        }
    }
    stable_sort_is_unique(sorted, again, sorted, by, desc);
}

/// No two different rows of `rows` compare equal in the ascending order of
/// column `by`.
pub open spec fn no_ties(rows: Seq<FileEntry>, by: SortBy) -> bool {
    forall|i: int, j: int|
        0 <= i < j < rows.len() ==> entry_order::entry_order(rows[i], rows[j], by, false) != Ordering::Equal
}

proof fn lemma_untied_reversed(rows: Seq<FileEntry>, by: SortBy, a: int, b: int)
    requires
        no_ties(rows, by),
        0 <= a < rows.len(),
        0 <= b < rows.len(),
        a != b,
        before(rows, by, false, a, b),
    ensures
        before(rows, by, true, b, a),
{
    entry_order::entry_order_antisymmetric(rows[a], rows[b], by, false);
    if a < b {
        assert(entry_order::entry_order(rows[a], rows[b], by, false) != Ordering::Equal);
    } else {
        assert(entry_order::entry_order(rows[b], rows[a], by, false) != Ordering::Equal);
    }
}

/// Without ties, sorting in descending order gives the ascending result
/// reversed.
pub proof fn descending_reverses_ascending(
    rows: Seq<FileEntry>,
    asc: Seq<FileEntry>,
    desc_rows: Seq<FileEntry>,
    by: SortBy,
)
    requires
        no_ties(rows, by),
        stable_sorted(rows, asc, by, false),
        stable_sorted(rows, desc_rows, by, true),
    ensures
        desc_rows == asc.reverse(),
{
    let p = choose|p: Seq<usize>|
        #![trigger permuted(rows, p, asc)]
        is_permutation(p, rows.len()) && sorted_indices(rows, by, false, p) && permuted(rows, p, asc);
    let n = rows.len() as int;
    let q = p.reverse();
    assert(is_permutation(q, rows.len())) by {
        assert forall|k: int| 0 <= k < q.len() implies #[trigger] q[k] < rows.len() by {
            assert(q[k] == p[n - 1 - k]);
        }
        assert forall|i: usize| i < rows.len() implies q.contains(i) by {
            assert(p.contains(i));
            let m = choose|m: int| 0 <= m < p.len() && p[m] == i;
            assert(q[n - 1 - m] == i);
        }
        assert forall|a: int, b: int| 0 <= a < q.len() && 0 <= b < q.len() && a != b implies q[a]
            != q[b] by {
            assert(q[a] == p[n - 1 - a] && q[b] == p[n - 1 - b]);
        }
    }
    assert forall|k: int, l: int| 0 <= k < l < q.len() implies #[trigger] before(
        rows,
        by,
        true,
        q[k] as int,
        q[l] as int,
    ) by {
        assert(q[k] == p[n - 1 - k] && q[l] == p[n - 1 - l]);
        assert(before(rows, by, false, p[n - 1 - l] as int, p[n - 1 - k] as int));
        assert(p[n - 1 - l] != p[n - 1 - k]);
        lemma_untied_reversed(rows, by, p[n - 1 - l] as int, p[n - 1 - k] as int);
    }
    assert(permuted(rows, q, asc.reverse())) by {
        assert forall|k: int| 0 <= k < q.len() implies asc.reverse()[k] == #[trigger] rows[q[k] as int] by {
            assert(q[k] == p[n - 1 - k]);
            assert(asc.reverse()[k] == asc[n - 1 - k]);
        }
    }
    stable_sort_is_unique(rows, desc_rows, asc.reverse(), by, true);
}

/// A sorted list is in column order: ascending, every row may precede each
/// later row (see [`may_precede`]: directories first, then by
/// name, size, time or extension and name); descending, the other way
/// round.
pub proof fn sorted_rows_follow_columns(rows: Seq<FileEntry>, after: Seq<FileEntry>, by: SortBy, desc: bool)
    requires
        stable_sorted(rows, after, by, desc),
    ensures
        forall|i: int, j: int|
            #![trigger after[i], after[j]]
            0 <= i < j < after.len() ==> if desc {
                may_precede(after[j], after[i], by)
            } else {
                may_precede(after[i], after[j], by)
            },
{
    let p = choose|p: Seq<usize>|
        #![trigger permuted(rows, p, after)]
        is_permutation(p, rows.len()) && sorted_indices(rows, by, desc, p) && permuted(rows, p, after);
    assert forall|i: int, j: int|
        #![trigger after[i], after[j]]
        0 <= i < j < after.len() implies if desc {
        may_precede(after[j], after[i], by)
    } else {
        may_precede(after[i], after[j], by)
    } by {
        assert(before(rows, by, desc, p[i] as int, p[j] as int));
        assert(after[i] == rows[p[i] as int] && after[j] == rows[p[j] as int]);
        lemma_pair_follows_columns(rows, by, desc, p[i] as int, p[j] as int);
    }
}

proof fn lemma_pair_follows_columns(rows: Seq<FileEntry>, by: SortBy, desc: bool, a: int, b: int)
    requires
        0 <= a < rows.len(),
        0 <= b < rows.len(),
        before(rows, by, desc, a, b),
    ensures
        if desc {
            entry_order::may_precede(rows[b], rows[a], by)
        } else {
            entry_order::may_precede(rows[a], rows[b], by)
        },
{
    entry_order::list_order_follows_columns(rows[a], rows[b], by);
}

} // verus!
