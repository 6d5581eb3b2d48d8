//! Stable insertion sort, as a specification: what sorting a sequence by a
//! strict weak order gives, and the facts about it that callers rely on
//! (the result is sorted, holds the same entries, and keeps equal entries in
//! their original order).

use vstd::prelude::*;

verus! {

/// `lt` is a strict weak order: irreflexive, transitive, and its
/// incomparability is transitive (`!lt(x, y) && !lt(y, z) ==> !lt(x, z)`).
pub open spec fn weak_order<A>(lt: spec_fn(A, A) -> bool) -> bool {
    &&& forall|x: A| !#[trigger] lt(x, x)
    &&& forall|x: A, y: A, z: A| #[trigger] lt(x, y) && #[trigger] lt(y, z) ==> lt(x, z)
    &&& forall|x: A, y: A, z: A| !#[trigger] lt(x, y) && !#[trigger] lt(y, z) ==> !lt(x, z)
}

/// `x` inserted into `t` after every entry that does not sort after it.
pub open spec fn insert_sorted<A>(t: Seq<A>, x: A, lt: spec_fn(A, A) -> bool) -> Seq<A>
    decreases t.len(),
{
    if t.len() == 0 || !lt(x, t.last()) {
        t.push(x)
    } else {
        insert_sorted(t.drop_last(), x, lt).push(t.last())
    }
}

/// `s` sorted by `lt` with insertion sort: each entry in turn is inserted
/// after every entry before it that does not sort after it.
pub open spec fn isort<A>(s: Seq<A>, lt: spec_fn(A, A) -> bool) -> Seq<A>
    decreases s.len(),
{
    if s.len() == 0 {
        s
    } else {
        insert_sorted(isort(s.drop_last(), lt), s.last(), lt)
    }
}

/// No entry of `s` sorts strictly before an entry ahead of it.
pub open spec fn sorted_by<A>(s: Seq<A>, lt: spec_fn(A, A) -> bool) -> bool {
    forall|i: int, j: int| 0 <= i < j < s.len() ==> !lt(#[trigger] s[j], #[trigger] s[i])
}

/// Where the insertion loop puts `x`: after the first `p` entries of `t`
/// when `x` sorts before every later entry and not before entry `p - 1`.
pub proof fn lemma_insert_at<A>(t: Seq<A>, x: A, lt: spec_fn(A, A) -> bool, p: int)
    requires
        0 <= p <= t.len(),
        forall|k: int| p <= k < t.len() ==> lt(x, #[trigger] t[k]),
        p == 0 || !lt(x, t[p - 1]),
    ensures
        insert_sorted(t, x, lt) == t.insert(p, x),
    decreases t.len(),
{
    if t.len() == 0 {
        assert(t.insert(p, x) =~= t.push(x));
    } else if p == t.len() {
        assert(t.insert(p, x) =~= t.push(x));
    } else {
        assert(lt(x, t[t.len() - 1]));
        lemma_insert_at(t.drop_last(), x, lt, p);
        assert(t.drop_last().insert(p, x).push(t.last()) =~= t.insert(p, x));
    }
}

pub proof fn lemma_insert_multiset<A>(t: Seq<A>, x: A, lt: spec_fn(A, A) -> bool)
    ensures
        insert_sorted(t, x, lt).to_multiset() == t.to_multiset().insert(x),
    decreases t.len(),
{
    broadcast use vstd::seq_lib::group_to_multiset_ensures;

    if t.len() > 0 && lt(x, t.last()) {
        lemma_insert_multiset(t.drop_last(), x, lt);
        assert(t =~= t.drop_last().push(t.last()));
        assert(insert_sorted(t, x, lt).to_multiset() =~= t.to_multiset().insert(x));
    }
}

pub proof fn lemma_insert_sorted<A>(t: Seq<A>, x: A, lt: spec_fn(A, A) -> bool)
    requires
        weak_order(lt),
        sorted_by(t, lt),
    ensures
        sorted_by(insert_sorted(t, x, lt), lt),
        insert_sorted(t, x, lt).len() == t.len() + 1,
    decreases t.len(),
{
    let r = insert_sorted(t, x, lt);
    if t.len() == 0 {
    } else if !lt(x, t.last()) {
        assert forall|i: int, j: int| 0 <= i < j < r.len() implies !lt(#[trigger] r[j], #[trigger] r[i]) by {
            if j == r.len() - 1 {
                if i < t.len() - 1 {
                    assert(!lt(t.last(), t[i]));
                }
            }
        }
    } else {
        let u = t.drop_last();
        assert forall|i: int, j: int| 0 <= i < j < u.len() implies !lt(#[trigger] u[j], #[trigger] u[i]) by {
            assert(u[i] == t[i] && u[j] == t[j]);
        }
        lemma_insert_sorted(u, x, lt);
        let w = insert_sorted(u, x, lt);
        lemma_insert_multiset(u, x, lt);
        assert forall|i: int, j: int| 0 <= i < j < r.len() implies !lt(#[trigger] r[j], #[trigger] r[i]) by {
            if j == r.len() - 1 {
                // r[i] is an entry of u or x; the last entry of t sorts after neither.
                assert(w.to_multiset().count(w[i]) > 0) by {
                    broadcast use vstd::seq_lib::group_to_multiset_ensures;
                    assert(w.contains(w[i]));
                }
                assert(u.to_multiset().insert(x).count(w[i]) > 0);
                if w[i] != x {
                    assert(u.to_multiset().count(w[i]) > 0);
                    assert(u.contains(w[i])) by {
                        broadcast use vstd::seq_lib::group_to_multiset_ensures;
                    }
                    let k = choose|k: int| 0 <= k < u.len() && u[k] == w[i];
                    assert(!lt(t[t.len() - 1], t[k]));
                } else {
                    assert(!lt(t.last(), x));
                }
            }
        }
    }
}

/// Insertion sort gives a sorted sequence.
pub proof fn lemma_isort_sorted<A>(s: Seq<A>, lt: spec_fn(A, A) -> bool)
    requires
        weak_order(lt),
    ensures
        sorted_by(isort(s, lt), lt),
        isort(s, lt).len() == s.len(),
    decreases s.len(),
{
    if s.len() > 0 {
        lemma_isort_sorted(s.drop_last(), lt);
        lemma_insert_sorted(isort(s.drop_last(), lt), s.last(), lt);
    }
}

/// Insertion sort keeps exactly the entries it was given.
pub proof fn lemma_isort_permutation<A>(s: Seq<A>, lt: spec_fn(A, A) -> bool)
    ensures
        isort(s, lt).to_multiset() == s.to_multiset(),
    decreases s.len(),
{
    broadcast use vstd::seq_lib::group_to_multiset_ensures;

    if s.len() > 0 {
        lemma_isort_permutation(s.drop_last(), lt);
        lemma_insert_multiset(isort(s.drop_last(), lt), s.last(), lt);
        assert(s =~= s.drop_last().push(s.last()));
    }
}

/// The entries that sort neither before nor after `z`.
pub open spec fn ties<A>(lt: spec_fn(A, A) -> bool, z: A) -> spec_fn(A) -> bool {
    |y: A| !lt(y, z) && !lt(z, y)
}

pub proof fn lemma_insert_stable<A>(t: Seq<A>, x: A, lt: spec_fn(A, A) -> bool, z: A)
    requires
        weak_order(lt),
    ensures
        insert_sorted(t, x, lt).filter(ties(lt, z)) == if ties(lt, z)(x) {
            t.filter(ties(lt, z)).push(x)
        } else {
            t.filter(ties(lt, z))
        },
    decreases t.len(),
{
    let p = ties(lt, z);
    if t.len() == 0 || !lt(x, t.last()) {
        t.lemma_filter_push(x, p);
    } else {
        let u = t.drop_last();
        lemma_insert_stable(u, x, lt, z);
        insert_sorted(u, x, lt).lemma_filter_push(t.last(), p);
        u.lemma_filter_push(t.last(), p);
        assert(t == u.push(t.last()));
        if p(x) && p(t.last()) {
            assert(!lt(x, z) && !lt(z, t.last()));
            assert(!lt(x, t.last()));
        }
    }
}

/// Insertion sort is stable: the entries that tie with any `z` keep their
/// relative order.
pub proof fn lemma_isort_stable<A>(s: Seq<A>, lt: spec_fn(A, A) -> bool, z: A)
    requires
        weak_order(lt),
    ensures
        isort(s, lt).filter(ties(lt, z)) == s.filter(ties(lt, z)),
    decreases s.len(),
{
    if s.len() > 0 {
        let u = s.drop_last();
        lemma_isort_stable(u, lt, z);
        lemma_insert_stable(isort(u, lt), s.last(), lt, z);
        u.lemma_filter_push(s.last(), ties(lt, z));
        assert(s == u.push(s.last()));
    }
}

} // verus!
