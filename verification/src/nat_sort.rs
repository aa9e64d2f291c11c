//! Natural (human) ordering of names: "file2" < "file10".
//!
//! A name is split into tokens: every maximal run of ASCII digits
//! is one numeric token (its value, saturated at `u64::MAX`), every other
//! character is one character token (ASCII letters lower-cased). Character
//! tokens below `'0'` sort before numbers, all others after them. Names are
//! ordered lexicographically by their tokens, a proper prefix first.

use vstd::prelude::*;
use std::cmp::Ordering;
use crate::text;
use crate::text::{chars_of, char_code, digit_value, is_ascii_digit, to_ascii_lower};

verus! {

// ---------------------------------------------------------------------------
// The token model
// ---------------------------------------------------------------------------

/// Length of the run of digits at the start of `s`.
pub open spec fn digit_run(s: Seq<char>) -> nat
    decreases s.len(),
{
    if s.len() > 0 && text::is_digit(s[0]) {
        1 + digit_run(s.drop_first())
    } else {
        0
    }
}

/// Value of a sequence of digits read in base ten.
pub open spec fn digits_value(s: Seq<char>) -> nat
    decreases s.len(),
{
    if s.len() == 0 {
        0
    } else {
        digits_value(s.drop_last()) * 10 + text::digit_val(s.last())
    }
}

/// `v`, capped at `u64::MAX`.
pub open spec fn saturate(v: nat) -> nat {
    if v > u64::MAX {
        u64::MAX as nat
    } else {
        v
    }
}

/// The token of a non-digit character: its class (`0` below `'0'`, `2`
/// otherwise) and the code of its ASCII lower-case form.
pub open spec fn char_token(c: char) -> (int, int) {
    let l = text::code(text::ascii_lower(c));
    (if l < text::code('0') { 0int } else { 2int }, l)
}

/// The token of a run of digits: class `1` and the saturated value.
pub open spec fn number_token(run: Seq<char>) -> (int, int) {
    (1int, saturate(digits_value(run)) as int)
}

pub proof fn lemma_digit_run_bounds(s: Seq<char>)
    ensures
        digit_run(s) <= s.len(),
        s.len() > 0 && text::is_digit(s[0]) ==> digit_run(s) >= 1,
        forall|i: int| 0 <= i < digit_run(s) ==> text::is_digit(#[trigger] s[i]),
        digit_run(s) < s.len() ==> !text::is_digit(s[digit_run(s) as int]),
    decreases s.len(),
{
    if s.len() > 0 && text::is_digit(s[0]) {
        lemma_digit_run_bounds(s.drop_first());
        assert forall|i: int| 0 <= i < digit_run(s) implies text::is_digit(#[trigger] s[i]) by {
            if i > 0 {
                assert(s[i] == s.drop_first()[i - 1]);
            }
        }
    }
}

/// The tokens of a name.
pub open spec fn tokens(s: Seq<char>) -> Seq<(int, int)>
    decreases s.len(),
{
    if s.len() == 0 {
        seq![]
    } else if text::is_digit(s[0]) {
        let k = digit_run(s);
        proof {
            lemma_digit_run_bounds(s);
        }
        seq![number_token(s.take(k as int))] + tokens(s.skip(k as int))
    } else {
        seq![char_token(s[0])] + tokens(s.skip(1))
    }
}

// ---------------------------------------------------------------------------
// Orders
// ---------------------------------------------------------------------------

/// The order of two integers.
pub open spec fn int_order(a: int, b: int) -> Ordering {
    if a < b {
        Ordering::Less
    } else if a == b {
        Ordering::Equal
    } else {
        Ordering::Greater
    }
}

/// The order of two tokens: by class, then by value.
pub open spec fn token_order(x: (int, int), y: (int, int)) -> Ordering {
    if x.0 != y.0 {
        int_order(x.0, y.0)
    } else {
        int_order(x.1, y.1)
    }
}

/// Lexicographic order of token sequences; a proper prefix comes first.
pub open spec fn lex_order(x: Seq<(int, int)>, y: Seq<(int, int)>) -> Ordering
    decreases x.len(),
{
    if x.len() == 0 {
        if y.len() == 0 {
            Ordering::Equal
        } else {
            Ordering::Less
        }
    } else if y.len() == 0 {
        Ordering::Greater
    } else {
        let t = token_order(x[0], y[0]);
        if t != Ordering::Equal {
            t
        } else {
            lex_order(x.drop_first(), y.drop_first())
        }
    }
}

/// The natural order of two names.
pub open spec fn natural_order(a: Seq<char>, b: Seq<char>) -> Ordering {
    lex_order(tokens(a), tokens(b))
}

/// The opposite of an ordering.
pub open spec fn flip(o: Ordering) -> Ordering {
    match o {
        Ordering::Less => Ordering::Greater,
        Ordering::Equal => Ordering::Equal,
        Ordering::Greater => Ordering::Less,
    }
}

// ---------------------------------------------------------------------------
// Laws: the natural order is a total preorder
// ---------------------------------------------------------------------------

proof fn lemma_lex_refl(x: Seq<(int, int)>)
    ensures
        lex_order(x, x) == Ordering::Equal,
    decreases x.len(),
{
    if x.len() > 0 {
        lemma_lex_refl(x.drop_first());
    }
}

proof fn lemma_lex_flip(x: Seq<(int, int)>, y: Seq<(int, int)>)
    ensures
        lex_order(y, x) == flip(lex_order(x, y)),
    decreases x.len(),
{
    if x.len() > 0 && y.len() > 0 {
        lemma_lex_flip(x.drop_first(), y.drop_first());
    }
}

proof fn lemma_lex_equal(x: Seq<(int, int)>, y: Seq<(int, int)>)
    ensures
        lex_order(x, y) == Ordering::Equal <==> x == y,
    decreases x.len(),
{
    if x.len() > 0 && y.len() > 0 {
        lemma_lex_equal(x.drop_first(), y.drop_first());
        if token_order(x[0], y[0]) == Ordering::Equal {
            assert(x[0].0 == y[0].0 && x[0].1 == y[0].1);
            assert(x[0] == y[0]);
        }
        if x[0] == y[0] && x.drop_first() == y.drop_first() {
            assert(x =~= seq![x[0]] + x.drop_first());
            assert(y =~= seq![y[0]] + y.drop_first());
        }
        if x == y {
            assert(x.drop_first() == y.drop_first());
        }
    } else if x.len() == 0 && y.len() == 0 {
        assert(x =~= y);
    }
}

proof fn lemma_lex_trans(x: Seq<(int, int)>, y: Seq<(int, int)>, z: Seq<(int, int)>)
    requires
        lex_order(x, y) != Ordering::Greater,
        lex_order(y, z) != Ordering::Greater,
    ensures
        lex_order(x, z) != Ordering::Greater,
        lex_order(x, y) == Ordering::Less || lex_order(y, z) == Ordering::Less ==> lex_order(x, z)
            == Ordering::Less,
    decreases x.len(),
{
    if x.len() > 0 && y.len() > 0 && z.len() > 0 {
        if token_order(x[0], y[0]) == Ordering::Equal && token_order(y[0], z[0])
            == Ordering::Equal {
            lemma_lex_trans(x.drop_first(), y.drop_first(), z.drop_first());
        }
    }
}

/// Every name is equal to itself in the natural order.
pub proof fn natural_order_reflexive(a: Seq<char>)
    ensures
        natural_order(a, a) == Ordering::Equal,
{
    lemma_lex_refl(tokens(a));
}

/// Swapping the two names reverses their natural order.
pub proof fn natural_order_antisymmetric(a: Seq<char>, b: Seq<char>)
    ensures
        natural_order(b, a) == flip(natural_order(a, b)),
{
    lemma_lex_flip(tokens(a), tokens(b));
}

/// The natural order is transitive, strictly so when either step is strict.
pub proof fn natural_order_transitive(a: Seq<char>, b: Seq<char>, c: Seq<char>)
    requires
        natural_order(a, b) != Ordering::Greater,
        natural_order(b, c) != Ordering::Greater,
    ensures
        natural_order(a, c) != Ordering::Greater,
        natural_order(a, b) == Ordering::Less || natural_order(b, c) == Ordering::Less
            ==> natural_order(a, c) == Ordering::Less,
{
    lemma_lex_trans(tokens(a), tokens(b), tokens(c));
}

/// Two names are equal in the natural order exactly when they have the same
/// tokens; equality of tokens is transitive, so names equal in the natural
/// order form classes.
pub proof fn natural_order_equal_iff_same_tokens(a: Seq<char>, b: Seq<char>)
    ensures
        natural_order(a, b) == Ordering::Equal <==> tokens(a) == tokens(b),
{
    lemma_lex_equal(tokens(a), tokens(b));
}

proof fn lemma_tokens_ascii_lower(s: Seq<char>)
    ensures
        tokens(text::ascii_lower_seq(s)) == tokens(s),
    decreases s.len(),
{
    let l = text::ascii_lower_seq(s);
    if s.len() > 0 {
        text::lemma_ascii_lower_digit(s[0]);
        if text::is_digit(s[0]) {
            lemma_digit_run_lower(s);
            let k = digit_run(s) as int;
            lemma_digit_run_bounds(s);
            assert(l.take(k) == s.take(k)) by {
                assert forall|i: int| 0 <= i < k implies l.take(k)[i] == s.take(k)[i] by {
                    text::lemma_ascii_lower_digit(s[i]);
                }
            }
            assert(l.skip(k) == text::ascii_lower_seq(s.skip(k)));
            lemma_tokens_ascii_lower(s.skip(k));
        } else {
            assert(l.skip(1) == text::ascii_lower_seq(s.skip(1)));
            lemma_tokens_ascii_lower(s.skip(1));
            assert(text::ascii_lower(text::ascii_lower(s[0])) == text::ascii_lower(s[0]));
        }
    }
}

proof fn lemma_digit_run_lower(s: Seq<char>)
    ensures
        digit_run(text::ascii_lower_seq(s)) == digit_run(s),
    decreases s.len(),
{
    if s.len() > 0 {
        text::lemma_ascii_lower_digit(s[0]);
        assert(text::ascii_lower_seq(s).drop_first() == text::ascii_lower_seq(s.drop_first()));
        lemma_digit_run_lower(s.drop_first());
    }
}

/// ASCII letter case does not matter: a name is equal, in the natural order,
/// to its ASCII lower-case form.
pub proof fn natural_order_ignores_ascii_case(a: Seq<char>, b: Seq<char>)
    ensures
        natural_order(text::ascii_lower_seq(a), b) == natural_order(a, b),
        natural_order(a, text::ascii_lower_seq(b)) == natural_order(a, b),
{
    lemma_tokens_ascii_lower(a);
    lemma_tokens_ascii_lower(b);
}

proof fn lemma_tokens_number_first(d: Seq<char>, rest: Seq<char>)
    requires
        d.len() > 0,
        forall|i: int| 0 <= i < d.len() ==> text::is_digit(#[trigger] d[i]),
        rest.len() == 0 || !text::is_digit(rest[0]),
    ensures
        tokens(d + rest) == seq![number_token(d)] + tokens(rest),
{
    let s = d + rest;
    assert forall|i: int| 0 <= i < d.len() implies text::is_digit(#[trigger] s[i]) by {
        assert(s[i] == d[i]);
    }
    if d.len() < s.len() {
        assert(s[d.len() as int] == rest[0]);
    }
    lemma_digit_run_exact(s, d.len() as int);
    assert(s[0] == d[0]);
    assert(s.take(d.len() as int) =~= d);
    assert(s.skip(d.len() as int) =~= rest);
}

/// Names compare by the value of their numbers: two names that agree up to
/// a run of digits (the part before has no digits) and differ in that
/// run's value are ordered by it, whatever follows, so "file2" comes
/// before "file10".
pub proof fn numbers_compare_by_value(p: Seq<char>, d1: Seq<char>, s1: Seq<char>, d2: Seq<char>, s2: Seq<char>)
    requires
        forall|i: int| 0 <= i < p.len() ==> !text::is_digit(#[trigger] p[i]),
        d1.len() > 0,
        d2.len() > 0,
        forall|i: int| 0 <= i < d1.len() ==> text::is_digit(#[trigger] d1[i]),
        forall|i: int| 0 <= i < d2.len() ==> text::is_digit(#[trigger] d2[i]),
        s1.len() == 0 || !text::is_digit(s1[0]),
        s2.len() == 0 || !text::is_digit(s2[0]),
        digits_value(d1) < digits_value(d2) <= u64::MAX,
    ensures
        natural_order(p + d1 + s1, p + d2 + s2) == Ordering::Less,
    decreases p.len(),
{
    if p.len() == 0 {
        assert(p + d1 + s1 =~= d1 + s1);
        assert(p + d2 + s2 =~= d2 + s2);
        lemma_tokens_number_first(d1, s1);
        lemma_tokens_number_first(d2, s2);
        let x = tokens(d1 + s1);
        let y = tokens(d2 + s2);
        assert(x[0] == number_token(d1) && y[0] == number_token(d2));
    } else {
        let a = p + d1 + s1;
        let b = p + d2 + s2;
        assert(a[0] == p[0] && b[0] == p[0]);
        assert(a.skip(1) =~= p.skip(1) + d1 + s1);
        assert(b.skip(1) =~= p.skip(1) + d2 + s2);
        assert forall|i: int| 0 <= i < p.skip(1).len() implies !text::is_digit(#[trigger] p.skip(1)[i]) by {
            assert(p.skip(1)[i] == p[i + 1]);
        }
        numbers_compare_by_value(p.skip(1), d1, s1, d2, s2);
        let x = tokens(a);
        let y = tokens(b);
        assert(x.drop_first() =~= tokens(p.skip(1) + d1 + s1));
        assert(y.drop_first() =~= tokens(p.skip(1) + d2 + s2));
    }
}

// ---------------------------------------------------------------------------
// Executable comparison
// ---------------------------------------------------------------------------

proof fn lemma_digit_run_exact(s: Seq<char>, m: int)
    requires
        0 <= m <= s.len(),
        forall|i: int| 0 <= i < m ==> text::is_digit(#[trigger] s[i]),
        m == s.len() || !text::is_digit(s[m]),
    ensures
        digit_run(s) == m,
    decreases s.len(),
{
    if m > 0 {
        assert forall|i: int| 0 <= i < m - 1 implies text::is_digit(#[trigger] s.drop_first()[i]) by {
            assert(s.drop_first()[i] == s[i + 1]);
        }
        if m < s.len() {
            assert(s.drop_first()[m - 1] == s[m]);
        }
        lemma_digit_run_exact(s.drop_first(), m - 1);
    }
}

/// Reads the run of digits of `v` that starts at `i`: its value, saturated
/// at `u64::MAX`, and the index just past it.
fn take_u64(v: &Vec<char>, i: usize) -> (r: (u64, usize))
    requires
        i <= v@.len(),
    ensures
        r.1 == i + digit_run(v@.skip(i as int)),
        r.0 == saturate(digits_value(v@.subrange(i as int, r.1 as int))),
{
    let mut n: u64 = 0;
    let mut k: usize = i;
    while k < v.len() && is_ascii_digit(v[k])
        invariant
            i <= k <= v@.len(),
            forall|m: int| i <= m < k ==> text::is_digit(#[trigger] v@[m]),
            n == saturate(digits_value(v@.subrange(i as int, k as int))),
        decreases v@.len() - k,
    {
        let d = digit_value(v[k]);
        let ghost old_val = digits_value(v@.subrange(i as int, k as int));
        proof {
            let sub = v@.subrange(i as int, k + 1);
            assert(sub.drop_last() == v@.subrange(i as int, k as int));
            assert(sub.last() == v@[k as int]);
            assert(digits_value(sub) == old_val * 10 + d);
        }
        n = match n.checked_mul(10) {
            Some(m) => match m.checked_add(d as u64) {
                Some(x) => x,
                None => u64::MAX,
            },
            None => u64::MAX,
        };
        proof {
            let new_val = old_val * 10 + d;
            if old_val > u64::MAX {
                assert(new_val > u64::MAX) by (nonlinear_arith)
                    requires
                        old_val > u64::MAX,
                        new_val == old_val * 10 + d,
                        d >= 0,
                ;
            }
        }
        k = k + 1;
    }
    proof {
        let s = v@.skip(i as int);
        assert forall|m: int| 0 <= m < k - i implies text::is_digit(#[trigger] s[m]) by {
            assert(s[m] == v@[i + m]);
        }
        if k < v@.len() {
            assert(s[k - i] == v@[k as int]);
        }
        lemma_digit_run_exact(s, k - i);
    }
    (n, k)
}

/// The characters of `v` from index `i` on.
pub open spec fn rest(v: Seq<char>, i: usize) -> Seq<char> {
    v.skip(i as int)
}

/// The characters of `v` from index `i` up to `j`.
pub open spec fn segment(v: Seq<char>, i: usize, j: usize) -> Seq<char> {
    v.subrange(i as int, j as int)
}

/// The numeric token of a saturated run value.
pub open spec fn num_token(n: u64) -> (int, int) {
    (1int, n as int)
}

/// The length of the digit run at the start of `s`, in `int`.
pub open spec fn run_int(s: Seq<char>) -> int {
    digit_run(s) as int
}

/// Compare two strings with numeric awareness (Unicode scalars): runs of
/// digits compare by value, ASCII letters ignore case.
pub fn natural_cmp(a: &str, b: &str) -> (r: Ordering)
    ensures
        r == natural_order(a@, b@),
{
    let va = chars_of(a);
    let vb = chars_of(b);
    let mut i: usize = 0;
    let mut j: usize = 0;
    proof {
        assert(va@.skip(0) == va@);
        assert(vb@.skip(0) == vb@);
    }
    loop
        invariant
            i <= va@.len(),
            j <= vb@.len(),
            va@ == a@,
            vb@ == b@,
            natural_order(a@, b@) == lex_order(tokens(rest(va@, i)), tokens(rest(vb@, j))),
        decreases va@.len() - i,
    {
        let ghost sa = rest(va@, i);
        let ghost sb = rest(vb@, j);
        if i == va.len() {
            if j == vb.len() {
                return Ordering::Equal;
            }
            return Ordering::Less;
        }
        if j == vb.len() {
            return Ordering::Greater;
        }
        let ca = va[i];
        let cb = vb[j];
        assert(sa[0] == ca && sb[0] == cb);
        if is_ascii_digit(ca) && is_ascii_digit(cb) {
            let (na, i2) = take_u64(&va, i);
            let (nb, j2) = take_u64(&vb, j);
            proof {
                lemma_digit_run_bounds(sa);
                lemma_digit_run_bounds(sb);
                let ka = run_int(sa);
                let kb = run_int(sb);
                assert(sa.take(ka) == segment(va@, i, i2));
                assert(sb.take(kb) == segment(vb@, j, j2));
                assert(sa.skip(ka) == rest(va@, i2));
                assert(sb.skip(kb) == rest(vb@, j2));
                assert(tokens(sa)[0] == num_token(na));
                assert(tokens(sb)[0] == num_token(nb));
                assert(tokens(sa).drop_first() == tokens(rest(va@, i2)));
                assert(tokens(sb).drop_first() == tokens(rest(vb@, j2)));
            }
            if na < nb {
                return Ordering::Less;
            }
            if na > nb {
                return Ordering::Greater;
            }
            i = i2;
            j = j2;
        } else {
            let la = to_ascii_lower(ca);
            let lb = to_ascii_lower(cb);
            let xa = char_code(la);
            let xb = char_code(lb);
            let zero = char_code('0');
            proof {
                text::lemma_ascii_lower_digit(ca);
                text::lemma_ascii_lower_digit(cb);
                assert(sa.skip(1) == va@.skip(i + 1));
                assert(sb.skip(1) == vb@.skip(j + 1));
                if text::is_digit(ca) {
                    lemma_digit_run_bounds(sa);
                    assert(tokens(sa)[0].0 == 1);
                } else {
                    assert(tokens(sa)[0] == char_token(ca));
                    assert(tokens(sa).drop_first() == tokens(va@.skip(i + 1)));
                }
                if text::is_digit(cb) {
                    lemma_digit_run_bounds(sb);
                    assert(tokens(sb)[0].0 == 1);
                } else {
                    assert(tokens(sb)[0] == char_token(cb));
                    assert(tokens(sb).drop_first() == tokens(vb@.skip(j + 1)));
                }
            }
            if xa < xb {
                return Ordering::Less;
            }
            if xa > xb {
                return Ordering::Greater;
            }
            i = i + 1;
            j = j + 1;
        }
    }
}

} // verus!
