//! Helpers for sets of row indices kept in a `BTreeSet<usize>`.

use vstd::prelude::*;
use std::collections::BTreeSet;

verus! {

broadcast use {vstd::std_specs::btree::group_btree_axioms, vstd::laws_cmp::group_laws_cmp};

/// `q` is strictly increasing.
pub open spec fn ascending(q: Seq<usize>) -> bool {
    forall|i: int, j: int| 0 <= i < j < q.len() ==> q[i] < q[j]
}

/// `q` lists the members of `s` in increasing order.
pub open spec fn lists_in_order(q: Seq<usize>, s: Set<usize>) -> bool {
    &&& ascending(q)
    &&& forall|x: usize| q.contains(x) <==> s.contains(x)
}

/// `m` is the smallest member of `s`.
pub open spec fn is_min(s: Set<usize>, m: usize) -> bool {
    s.contains(m) && forall|x: usize| s.contains(x) ==> m <= x
}

/// The indices `a..=b`.
pub open spec fn index_range(a: usize, b: usize) -> Set<usize> {
    Set::new(|i: usize| a <= i <= b)
}

/// The indices below `n`.
pub open spec fn indices_below(n: nat) -> Set<usize> {
    Set::new(|i: usize| i < n)
}

/// Advances an iterator through the `Iterator` trait.
fn next_item<I: Iterator>(it: &mut I) -> (r: Option<I::Item>)
    ensures
        vstd::std_specs::iter::IteratorSpec::obeys_prophetic_iter_laws(final(it)) == vstd::std_specs::iter::IteratorSpec::obeys_prophetic_iter_laws(old(it)),
        vstd::std_specs::iter::IteratorSpec::obeys_prophetic_iter_laws(final(it)) ==> (vstd::std_specs::iter::IteratorSpec::decrease(old(it)) is Some <==> vstd::std_specs::iter::IteratorSpec::decrease(final(it)) is Some),
        vstd::std_specs::iter::IteratorSpec::obeys_prophetic_iter_laws(final(it)) ==> ({
            if vstd::std_specs::iter::IteratorSpec::remaining(old(it)).len() > 0 {
                &&& vstd::std_specs::iter::IteratorSpec::remaining(final(it)) == vstd::std_specs::iter::IteratorSpec::remaining(old(it)).drop_first()
                &&& r == Some(vstd::std_specs::iter::IteratorSpec::remaining(old(it))[0])
            } else {
                vstd::std_specs::iter::IteratorSpec::remaining(final(it)) === vstd::std_specs::iter::IteratorSpec::remaining(old(it)) && r === None
            }
        }),
        vstd::std_specs::iter::IteratorSpec::obeys_prophetic_iter_laws(final(it)) && vstd::std_specs::iter::IteratorSpec::remaining(old(it)).len() > 0 && vstd::std_specs::iter::IteratorSpec::decrease(final(it)) is Some ==>
            decreases_to!(vstd::std_specs::iter::IteratorSpec::decrease(old(it))->0 => vstd::std_specs::iter::IteratorSpec::decrease(final(it))->0),
{
    it.next()
}

/// The members of `s` in increasing order.
pub fn sorted_members(s: &BTreeSet<usize>) -> (v: Vec<usize>)
    ensures
        lists_in_order(v@, s@),
{
    let mut v: Vec<usize> = Vec::new();
    let mut it = s.iter();
    let ghost all = vstd::std_specs::iter::IteratorSpec::remaining(&it);
    proof {
        vstd::std_specs::btree::axiom_spec_btree_keys_iter(s);
    }
    loop
        invariant
            all == vstd::std_specs::iter::IteratorSpec::remaining(&vstd::std_specs::btree::spec_btree_keys_iter(s)),
            all.len() == v@.len() + vstd::std_specs::iter::IteratorSpec::remaining(&it).len(),
            forall|k: int| 0 <= k < v@.len() ==> v@[k] == *all[k],
            forall|k: int|
                0 <= k < vstd::std_specs::iter::IteratorSpec::remaining(&it).len() ==> #[trigger] vstd::std_specs::iter::IteratorSpec::remaining(&it)[k] == all[k + v@.len()],
            vstd::std_specs::iter::IteratorSpec::obeys_prophetic_iter_laws(&it),
            vstd::std_specs::iter::IteratorSpec::decrease(&it) is Some,
        ensures
            v@.len() == all.len(),
            forall|k: int| 0 <= k < v@.len() ==> v@[k] == *all[k],
        decreases vstd::std_specs::iter::IteratorSpec::decrease(&it)->0,
    {
        let ghost before = vstd::std_specs::iter::IteratorSpec::remaining(&it);
        match next_item(&mut it) {
            Some(x) => {
                proof {
                    assert(*x == *all[v@.len() as int]);
                }
                v.push(*x);
            },
            None => {
                break ;
            },
        }
    }
    proof {
        let u = all.unref();
        lemma_increasing(all);
        assert forall|i: int, j: int| 0 <= i < j < v@.len() implies v@[i] < v@[j] by {
            assert(*all[i] < *all[j]);
        }
        assert forall|x: usize| v@.contains(x) <==> s@.contains(x) by {
            assert(u.to_set() == s@);
            if v@.contains(x) {
                let k = choose|k: int| 0 <= k < v@.len() && v@[k] == x;
                assert(u[k] == x);
                assert(u.contains(x));
            }
            if s@.contains(x) {
                assert(u.to_set().contains(x));
                assert(u.contains(x));
                let k = choose|k: int| 0 <= k < u.len() && u[k] == x;
                assert(v@[k] == x);
            }
        }
    }
    v
}

proof fn lemma_increasing(all: Seq<&usize>)
    requires
        vstd::std_specs::btree::increasing_seq(all),
    ensures
        forall|i: int, j: int| 0 <= i < j < all.len() ==> *all[i] < *all[j],
{
    assert(vstd::laws_cmp::obeys_cmp::<usize>());
    assert(vstd::laws_cmp::obeys_cmp::<&usize>());
    vstd::std_specs::btree::axiom_increasing_seq_meaning::<&usize>(all);
    assert forall|i: int, j: int| 0 <= i < j < all.len() implies *all[i] < *all[j] by {
        assert(vstd::std_specs::cmp::OrdSpec::cmp_spec(&all[i], &all[j]) is Less);
        assert(vstd::std_specs::cmp::OrdSpec::cmp_spec(all[i], all[j]) is Less);
    }
}

} // verus!
