//! Stable ordering of records by lexicographic integer keys.

use vstd::prelude::*;

verus! {

/// Strict lexicographic order on key sequences (a proper prefix comes first).
pub open spec fn lex_lt(a: Seq<u64>, b: Seq<u64>) -> bool
    decreases a.len(),
{
    if a.len() == 0 {
        b.len() > 0
    } else if b.len() == 0 {
        false
    } else if a[0] < b[0] {
        true
    } else if a[0] > b[0] {
        false
    } else {
        lex_lt(a.drop_first(), b.drop_first())
    }
}

pub proof fn lemma_lex_irreflexive(a: Seq<u64>)
    ensures
        !lex_lt(a, a),
    decreases a.len(),
{
    if a.len() > 0 {
        lemma_lex_irreflexive(a.drop_first());
    }
}

pub proof fn lemma_lex_total(a: Seq<u64>, b: Seq<u64>)
    ensures
        a == b || lex_lt(a, b) || lex_lt(b, a),
    decreases a.len(),
{
    if a.len() > 0 && b.len() > 0 && a[0] == b[0] {
        lemma_lex_total(a.drop_first(), b.drop_first());
        if a.drop_first() == b.drop_first() {
            assert(a == seq![a[0]] + a.drop_first());
            assert(b == seq![b[0]] + b.drop_first());
        }
    } else if a.len() == 0 && b.len() == 0 {
        assert(a == b);
    }
}

pub proof fn lemma_lex_asym(a: Seq<u64>, b: Seq<u64>)
    ensures
        !(lex_lt(a, b) && lex_lt(b, a)),
    decreases a.len(),
{
    if a.len() > 0 && b.len() > 0 && a[0] == b[0] {
        lemma_lex_asym(a.drop_first(), b.drop_first());
    }
}

pub proof fn lemma_lex_trans(a: Seq<u64>, b: Seq<u64>, c: Seq<u64>)
    requires
        lex_lt(a, b),
        lex_lt(b, c),
    ensures
        lex_lt(a, c),
    decreases a.len(),
{
    if a.len() > 0 && b.len() > 0 && c.len() > 0 && a[0] == b[0] && b[0] == c[0] {
        lemma_lex_trans(a.drop_first(), b.drop_first(), c.drop_first());
    }
}

/// Does record `p` come before record `q` (keys ascending, or descending when
/// `desc`; equal keys keep their original order)?
pub open spec fn before(keys: Seq<Seq<u64>>, desc: bool, p: int, q: int) -> bool {
    ||| (!desc && lex_lt(keys[p], keys[q]))
    ||| (desc && lex_lt(keys[q], keys[p]))
    ||| (keys[p] == keys[q] && p < q)
}

/// `r` lists each of `0..n` exactly once, in `before` order: the stable sort.
pub open spec fn is_stable_order(keys: Seq<Seq<u64>>, desc: bool, r: Seq<usize>) -> bool {
    &&& r.len() == keys.len()
    &&& forall|i: int| 0 <= i < r.len() ==> #[trigger] r[i] < keys.len()
    &&& forall|i: int, j: int| 0 <= i < j < r.len() ==> before(keys, desc, r[i] as int, r[j] as int)
}

proof fn lemma_before_trans(keys: Seq<Seq<u64>>, desc: bool, p: int, q: int, s: int)
    requires
        before(keys, desc, p, q),
        before(keys, desc, q, s),
    ensures
        before(keys, desc, p, s),
{
    if keys[p] == keys[q] {
        if keys[q] != keys[s] {
        }
    } else if keys[q] == keys[s] {
    } else {
        if desc {
            lemma_lex_trans(keys[s], keys[q], keys[p]);
        } else {
            lemma_lex_trans(keys[p], keys[q], keys[s]);
        }
    }
}

proof fn lemma_before_total(keys: Seq<Seq<u64>>, desc: bool, p: int, q: int)
    requires
        p != q,
    ensures
        before(keys, desc, p, q) || before(keys, desc, q, p),
        !(before(keys, desc, p, q) && before(keys, desc, q, p)),
{
    lemma_lex_total(keys[p], keys[q]);
    lemma_lex_asym(keys[p], keys[q]);
    lemma_lex_irreflexive(keys[p]);
}

/// Is `a` lexicographically below `b`?
pub fn lex_less(a: &Vec<u64>, b: &Vec<u64>) -> (r: bool)
    ensures
        r == lex_lt(a@, b@),
{
    let mut k: usize = 0;
    assert(a@.skip(0) == a@);
    assert(b@.skip(0) == b@);
    while k < a.len() && k < b.len()
        invariant
            k <= a.len(),
            k <= b.len(),
            lex_lt(a@, b@) == lex_lt(a@.skip(k as int), b@.skip(k as int)),
        decreases a.len() - k,
    {
        if a[k] < b[k] {
            return true;
        }
        if a[k] > b[k] {
            return false;
        }
        assert(a@.skip(k as int).drop_first() == a@.skip(k + 1));
        assert(b@.skip(k as int).drop_first() == b@.skip(k + 1));
        k += 1;
    }
    k < b.len()
}

/// Are two key sequences equal?
pub fn keys_equal(a: &Vec<u64>, b: &Vec<u64>) -> (r: bool)
    ensures
        r == (a@ == b@),
{
    if a.len() != b.len() {
        return false;
    }
    let mut k: usize = 0;
    while k < a.len()
        invariant
            k <= a.len() == b.len(),
            forall|j: int| 0 <= j < k ==> a@[j] == b@[j],
        decreases a.len() - k,
    {
        if a[k] != b[k] {
            return false;
        }
        k += 1;
    }
    assert(a@ =~= b@);
    true
}

/// Does record `p` come before record `q`?
fn comes_before(keys: &Vec<Vec<u64>>, desc: bool, p: usize, q: usize) -> (r: bool)
    requires
        p < keys.len(),
        q < keys.len(),
    ensures
        r == before(keys@.map_values(|k: Vec<u64>| k@), desc, p as int, q as int),
{
    let ghost ks = keys@.map_values(|k: Vec<u64>| k@);
    assert(ks[p as int] == keys@[p as int]@);
    assert(ks[q as int] == keys@[q as int]@);
    if desc {
        if lex_less(&keys[q], &keys[p]) {
            return true;
        }
    } else {
        if lex_less(&keys[p], &keys[q]) {
            return true;
        }
    }
    let eq = keys_equal(&keys[p], &keys[q]);
    proof {
        if !desc && lex_lt(ks[q as int], ks[p as int]) {
            lemma_lex_asym(ks[p as int], ks[q as int]);
        }
        if desc && lex_lt(ks[p as int], ks[q as int]) {
            lemma_lex_asym(ks[p as int], ks[q as int]);
        }
    }
    eq && p < q
}

/// The positions of the records in stable sorted order of their keys.
pub fn stable_order(keys: &Vec<Vec<u64>>, desc: bool) -> (r: Vec<usize>)
    ensures
        is_stable_order(keys@.map_values(|k: Vec<u64>| k@), desc, r@),
{
    let ghost ks = keys@.map_values(|k: Vec<u64>| k@);
    let mut r: Vec<usize> = Vec::new();
    let mut i: usize = 0;
    while i < keys.len()
        invariant
            i <= keys.len(),
            ks == keys@.map_values(|k: Vec<u64>| k@),
            r.len() == i,
            forall|a: int| 0 <= a < r.len() ==> #[trigger] r@[a] < i,
            forall|a: int, b: int| 0 <= a < b < r.len() ==> before(ks, desc, r@[a] as int, r@[b] as int),
        decreases keys.len() - i,
    {
        // Find the first position whose record comes after record i.
        let mut pos: usize = 0;
        while pos < r.len() && comes_before(keys, desc, r[pos], i)
            invariant
                pos <= r.len(),
                i < keys.len(),
                ks == keys@.map_values(|k: Vec<u64>| k@),
                forall|a: int| 0 <= a < r.len() ==> #[trigger] r@[a] < i,
                forall|a: int| 0 <= a < pos ==> before(ks, desc, #[trigger] r@[a] as int, i as int),
            decreases r.len() - pos,
        {
            pos += 1;
        }
        let ghost old_r = r@;
        proof {
            if pos < r.len() {
                lemma_before_total(ks, desc, r@[pos as int] as int, i as int);
                assert forall|b: int| pos <= b < old_r.len() implies before(ks, desc, i as int, #[trigger] old_r[b] as int) by {
                    if b > pos {
                        lemma_before_trans(ks, desc, i as int, old_r[pos as int] as int, old_r[b] as int);
                    }
                }
            }
        }
        r.insert(pos, i);
        proof {
            assert forall|a: int, b: int| 0 <= a < b < r.len() implies before(ks, desc, r@[a] as int, r@[b] as int) by {
                if b < pos {
                    assert(r@[a] == old_r[a] && r@[b] == old_r[b]);
                } else if b == pos {
                    assert(r@[a] == old_r[a]);
                } else if a < pos {
                    assert(r@[a] == old_r[a] && r@[b] == old_r[b - 1]);
                    lemma_before_trans(ks, desc, old_r[a] as int, i as int, old_r[b - 1] as int);
                } else if a == pos {
                    assert(r@[b] == old_r[b - 1]);
                } else {
                    assert(r@[a] == old_r[a - 1] && r@[b] == old_r[b - 1]);
                }
            }
            assert forall|a: int| 0 <= a < r.len() implies #[trigger] r@[a] < i + 1 by {
                if a < pos {
                    assert(r@[a] == old_r[a]);
                } else if a > pos {
                    assert(r@[a] == old_r[a - 1]);
                }
            }
        }
        i += 1;
    }
    r
}

/// Order positions are distinct, so a stable order is a permutation.
pub proof fn lemma_stable_order_distinct(keys: Seq<Seq<u64>>, desc: bool, r: Seq<usize>)
    requires
        is_stable_order(keys, desc, r),
    ensures
        forall|i: int, j: int| 0 <= i < j < r.len() ==> r[i] != r[j],
{
    assert forall|i: int, j: int| 0 <= i < j < r.len() implies r[i] != r[j] by {
        if r[i] == r[j] {
            lemma_lex_irreflexive(keys[r[i] as int]);
            assert(before(keys, desc, r[i] as int, r[j] as int));
        }
    }
}

/// Is `r` an arrangement of `0..n`: every position below `n`, none twice?
pub open spec fn is_arrangement(r: Seq<usize>, n: nat) -> bool {
    &&& r.len() == n
    &&& forall|i: int| 0 <= i < r.len() ==> #[trigger] r[i] < n
    &&& forall|i: int, j: int| 0 <= i < j < r.len() ==> r[i] != r[j]
}

/// The items taken in the order the positions of `order` give.
pub fn arrange<T>(items: Vec<T>, order: &Vec<usize>) -> (r: Vec<T>)
    requires
        is_arrangement(order@, items.len() as nat),
    ensures
        r.len() == order.len(),
        forall|i: int| 0 <= i < r.len() ==> r@[i] == items@[#[trigger] order@[i] as int],
{
    let ghost orig = items@;
    let n = items.len();
    let mut items = items;
    // Move the items into slots, keeping their positions.
    let mut slots: Vec<Option<T>> = Vec::new();
    while items.len() > 0
        invariant
            items.len() + slots.len() == n,
            n == orig.len(),
            items@ == orig.take(items.len() as int),
            forall|j: int| 0 <= j < slots.len() ==> #[trigger] slots@[j] == Some(orig[n - 1 - j]),
        decreases items.len(),
    {
        let x = items.pop().unwrap();
        assert(items@ == orig.take(items.len() as int));
        slots.push(Some(x));
    }
    let mut r: Vec<T> = Vec::new();
    let mut i: usize = 0;
    while i < order.len()
        invariant
            i <= order.len() == n,
            n == orig.len(),
            slots.len() == n,
            is_arrangement(order@, n as nat),
            r.len() == i,
            forall|k: int| 0 <= k < i ==> r@[k] == orig[#[trigger] order@[k] as int],
            forall|j: int| 0 <= j < n ==> (#[trigger] slots@[j] is None <==> exists|k: int|
                0 <= k < i && order@[k] == n - 1 - j),
            forall|j: int| 0 <= j < n && slots@[j] is Some ==> #[trigger] slots@[j] == Some(orig[n - 1 - j]),
        decreases order.len() - i,
    {
        let p = n - 1 - order[i];
        proof {
            if slots@[p as int] is None {
                let k = choose|k: int| 0 <= k < i && order@[k] == n - 1 - p;
                assert(order@[k] == order@[i as int]);
            }
        }
        let x = slots.remove(p);
        slots.insert(p, None);
        r.push(x.unwrap());
        proof {
            assert forall|j: int| 0 <= j < n implies (#[trigger] slots@[j] is None <==> exists|k: int|
                0 <= k < i + 1 && order@[k] == n - 1 - j) by {
                if j != p {
                    if exists|k: int| 0 <= k < i + 1 && order@[k] == n - 1 - j {
                        let k = choose|k: int| 0 <= k < i + 1 && order@[k] == n - 1 - j;
                        assert(k != i);
                    }
                } else {
                    assert(order@[i as int] == n - 1 - j);
                }
            }
        }
        i += 1;
    }
    r
}

/// A stable order is an arrangement of the record positions.
pub proof fn lemma_stable_order_arrangement(keys: Seq<Seq<u64>>, desc: bool, r: Seq<usize>)
    requires
        is_stable_order(keys, desc, r),
    ensures
        is_arrangement(r, keys.len()),
{
    lemma_stable_order_distinct(keys, desc, r);
}

/// The code points of a text, as sort keys.
pub open spec fn char_key(s: Seq<char>) -> Seq<u64> {
    s.map_values(|c: char| c as u64)
}

/// Sort key of a text: its code points (the order of Rust's `str` comparison).
pub fn key_of(s: &str) -> (r: Vec<u64>)
    ensures
        r@ == char_key(s@),
{
    let v = crate::text::to_chars(s);
    let mut r: Vec<u64> = Vec::new();
    let mut k: usize = 0;
    while k < v.len()
        invariant
            k <= v.len(),
            v@ == s@,
            r@ == char_key(v@.take(k as int)),
        decreases v.len() - k,
    {
        r.push(v[k] as u64);
        assert(char_key(v@.take(k + 1)) == char_key(v@.take(k as int)).push(v@[k as int] as u64));
        k += 1;
    }
    assert(v@.take(v.len() as int) == v@);
    r
}

/// The items whose flag is set, in order.
pub open spec fn kept<T>(s: Seq<T>, keep: Seq<bool>) -> Seq<T>
    decreases s.len(),
{
    if s.len() == 0 || keep.len() != s.len() {
        Seq::empty()
    } else {
        let r = kept(s.drop_last(), keep.drop_last());
        if keep.last() {
            r.push(s.last())
        } else {
            r
        }
    }
}

/// Every kept item is a flagged item of the original, and keeping never makes
/// an item occur twice.
pub proof fn lemma_kept_members<T>(s: Seq<T>, keep: Seq<bool>)
    ensures
        forall|x: T| #[trigger] kept(s, keep).contains(x) ==> exists|i: int|
            0 <= i < s.len() && keep[i] && s[i] == x,
        s.no_duplicates() ==> kept(s, keep).no_duplicates(),
    decreases s.len(),
{
    if s.len() > 0 && keep.len() == s.len() {
        let r = kept(s.drop_last(), keep.drop_last());
        lemma_kept_members(s.drop_last(), keep.drop_last());
        assert forall|x: T| #[trigger] kept(s, keep).contains(x) implies exists|i: int|
            0 <= i < s.len() && keep[i] && s[i] == x by {
            if r.contains(x) {
                let i = choose|i: int| 0 <= i < s.drop_last().len() && keep.drop_last()[i] && s.drop_last()[i] == x;
                assert(keep[i] && s[i] == x);
            } else {
                let j = choose|j: int| 0 <= j < kept(s, keep).len() && kept(s, keep)[j] == x;
                assert(keep.last() && j == r.len());
                assert(s[s.len() - 1] == x);
            }
        }
        if s.no_duplicates() && keep.last() {
            assert(s.drop_last().no_duplicates()) by {
                assert forall|a: int, b: int| 0 <= a < b < s.drop_last().len() implies s.drop_last()[a]
                    != s.drop_last()[b] by {
                    assert(s[a] != s[b]);
                }
            }
            assert(!r.contains(s.last())) by {
                if r.contains(s.last()) {
                    let i = choose|i: int| 0 <= i < s.drop_last().len() && keep.drop_last()[i] && s.drop_last()[i] == s.last();
                    assert(s[i] == s[s.len() - 1]);
                }
            }
            assert forall|a: int, b: int| 0 <= a < b < r.push(s.last()).len() implies r.push(s.last())[a] != r.push(
                s.last(),
            )[b] by {
                if b == r.len() {
                    assert(r.contains(r[a]));
                }
            }
        } else if s.no_duplicates() {
            assert(s.drop_last().no_duplicates()) by {
                assert forall|a: int, b: int| 0 <= a < b < s.drop_last().len() implies s.drop_last()[a]
                    != s.drop_last()[b] by {
                    assert(s[a] != s[b]);
                }
            }
        }
    }
}

/// Keep the items whose flag is set, in order (`Vec::retain`).
pub fn keep_flagged<T>(v: Vec<T>, keep: &Vec<bool>) -> (r: Vec<T>)
    requires
        keep.len() == v.len(),
    ensures
        r@ == kept(v@, keep@),
{
    let ghost orig = v@;
    let n = v.len();
    let mut v = v;
    let mut rev: Vec<T> = Vec::new();
    while v.len() > 0
        invariant
            v.len() + rev.len() == n,
            n == orig.len(),
            v@ == orig.take(v.len() as int),
            forall|j: int| 0 <= j < rev.len() ==> #[trigger] rev@[j] == orig[n - 1 - j],
        decreases v.len(),
    {
        let x = v.pop().unwrap();
        assert(v@ == orig.take(v.len() as int));
        rev.push(x);
    }
    let mut out: Vec<T> = Vec::new();
    let mut k: usize = 0;
    while rev.len() > 0
        invariant
            k + rev.len() == n,
            n == orig.len() == keep.len(),
            forall|j: int| 0 <= j < rev.len() ==> #[trigger] rev@[j] == orig[n - 1 - j],
            out@ == kept(orig.take(k as int), keep@.take(k as int)),
        decreases rev.len(),
    {
        let x = rev.pop().unwrap();
        proof {
            assert(x == orig[k as int]);
            assert(orig.take(k + 1).drop_last() == orig.take(k as int));
            assert(keep@.take(k + 1).drop_last() == keep@.take(k as int));
        }
        if keep[k] {
            out.push(x);
        }
        k += 1;
    }
    assert(orig.take(n as int) == orig);
    assert(keep@.take(n as int) == keep@);
    out
}

/// The items taken in the order of positions `p`.
pub open spec fn arranged<T>(s: Seq<T>, p: Seq<usize>) -> Seq<T> {
    Seq::new(p.len(), |i: int| s[p[i] as int])
}

/// The items a list of references points at.
pub open spec fn derefs<T>(v: Seq<&T>) -> Seq<T> {
    v.map_values(|x: &T| *x)
}

/// An arrangement of `0..n` holds every position below `n`.
proof fn lemma_arrangement_covers(r: Seq<usize>, n: nat)
    requires
        is_arrangement(r, n),
    ensures
        forall|x: usize| x < n ==> r.contains(x),
{
    broadcast use vstd::set::group_set_axioms, vstd::seq_lib::seq_to_set_is_finite;

    let ri = r.map_values(|x: usize| x as int);
    assert(ri.no_duplicates()) by {
        assert forall|i: int, j: int| 0 <= i < ri.len() && 0 <= j < ri.len() && i != j implies ri[i] != ri[j] by {
            if i < j {
                assert(r[i] != r[j]);
            } else {
                assert(r[j] != r[i]);
            }
        }
    }
    ri.unique_seq_to_set();
    let s = ri.to_set();
    let full = vstd::set_lib::set_int_range(0, n as int);
    vstd::set_lib::lemma_int_range(0, n as int);
    assert(s.subset_of(full)) by {
        assert forall|v: int| s.contains(v) implies full.contains(v) by {
            let i = choose|i: int| 0 <= i < ri.len() && ri[i] == v;
            assert(r[i] < n);
        }
    }
    vstd::set_lib::lemma_subset_equality(s, full);
    assert forall|x: usize| x < n implies r.contains(x) by {
        assert(full.contains(x as int));
        assert(s.contains(x as int));
        let i = choose|i: int| 0 <= i < ri.len() && ri[i] == x as int;
        assert(r[i] == x);
    }
}

/// The order of records is determined: two stable orders of the same keys are
/// the same sequence of positions.
pub proof fn lemma_stable_order_unique(keys: Seq<Seq<u64>>, desc: bool, r1: Seq<usize>, r2: Seq<usize>)
    requires
        is_stable_order(keys, desc, r1),
        is_stable_order(keys, desc, r2),
    ensures
        r1 == r2,
{
    broadcast use vstd::multiset::group_multiset_axioms, vstd::seq_lib::group_to_multiset_ensures;

    lemma_stable_order_arrangement(keys, desc, r1);
    lemma_stable_order_arrangement(keys, desc, r2);
    lemma_arrangement_covers(r1, keys.len());
    lemma_arrangement_covers(r2, keys.len());
    let leq = |a: usize, b: usize| a == b || before(keys, desc, a as int, b as int);
    assert(vstd::relations::total_ordering(leq)) by {
        assert forall|a: usize, b: usize| #[trigger] leq(a, b) && leq(b, a) implies a == b by {
            if a != b {
                lemma_before_total(keys, desc, a as int, b as int);
            }
        }
        assert forall|a: usize, b: usize, c: usize| #[trigger] leq(a, b) && #[trigger] leq(b, c) implies leq(a, c) by {
            if a != b && b != c {
                lemma_before_trans(keys, desc, a as int, b as int, c as int);
            }
        }
        assert forall|a: usize, b: usize| #[trigger] leq(a, b) || leq(b, a) by {
            if a != b {
                lemma_before_total(keys, desc, a as int, b as int);
            }
        }
    }
    assert(vstd::relations::sorted_by(r1, leq));
    assert(vstd::relations::sorted_by(r2, leq));
    assert(r1.no_duplicates());
    assert(r2.no_duplicates());
    r1.lemma_multiset_has_no_duplicates();
    r2.lemma_multiset_has_no_duplicates();
    assert(r1.to_multiset() =~= r2.to_multiset()) by {
        assert forall|v: usize| r1.to_multiset().count(v) == r2.to_multiset().count(v) by {
            if v < keys.len() {
                assert(r1.contains(v) && r2.contains(v));
            } else {
                if r1.contains(v) {
                    let i = choose|i: int| 0 <= i < r1.len() && r1[i] == v;
                    assert(r1[i] < keys.len());
                }
                if r2.contains(v) {
                    let i = choose|i: int| 0 <= i < r2.len() && r2[i] == v;
                    assert(r2[i] < keys.len());
                }
            }
        }
    }
    vstd::seq_lib::lemma_sorted_unique(r1, r2, leq);
}

/// Keeping every item keeps the sequence.
pub proof fn lemma_kept_all<T>(s: Seq<T>, keep: Seq<bool>)
    requires
        keep.len() == s.len(),
        forall|i: int| 0 <= i < keep.len() ==> keep[i],
    ensures
        kept(s, keep) == s,
    decreases s.len(),
{
    if s.len() > 0 {
        lemma_kept_all(s.drop_last(), keep.drop_last());
        assert(s.drop_last().push(s.last()) == s);
    }
}

} // verus!
