//! A stable sort.

use vstd::prelude::*;

verus! {

/// A value that has its place in an order, which goes by what the value is.
pub trait Ranked: View + Sized {
    /// Whether `a` may stand before `b`.
    spec fn before(a: Self::V, b: Self::V) -> bool;

    /// Of two values, one may stand before the other.
    proof fn total(a: Self::V, b: Self::V)
        ensures
            Self::before(a, b) || Self::before(b, a),
    ;

    /// What may stand before a value may stand before all that follow it.
    proof fn transitive(a: Self::V, b: Self::V, c: Self::V)
        requires
            Self::before(a, b),
            Self::before(b, c),
        ensures
            Self::before(a, c),
    ;

    /// Whether this value may stand before `other`.
    fn may_precede(&self, other: &Self) -> (r: bool)
        ensures
            r == Self::before(self@, other@),
    ;
}

/// What the values of a list are.
pub open spec fn views<T: View>(v: Seq<T>) -> Seq<T::V> {
    v.map_values(|x: T| x@)
}

/// `t`, which is in order, with `x` behind everything that may stand before it.
pub open spec fn inserted<T: Ranked>(t: Seq<T::V>, x: T::V) -> Seq<T::V>
    decreases t.len(),
{
    if t.len() == 0 || T::before(t.last(), x) {
        t.push(x)
    } else {
        inserted::<T>(t.drop_last(), x).push(t.last())
    }
}

/// The values of `s` in order; those that may stand either way keep their order.
pub open spec fn stably_sorted<T: Ranked>(s: Seq<T::V>) -> Seq<T::V>
    decreases s.len(),
{
    if s.len() == 0 {
        s
    } else {
        inserted::<T>(stably_sorted::<T>(s.drop_last()), s.last())
    }
}

/// The values of `p` and `q`, each in order, in one order.
spec fn merged<T: Ranked>(p: Seq<T::V>, q: Seq<T::V>) -> Seq<T::V>
    decreases p.len() + q.len(),
{
    if p.len() == 0 {
        q
    } else if q.len() == 0 {
        p
    } else if T::before(p.last(), q.last()) {
        merged::<T>(p, q.drop_last()).push(q.last())
    } else {
        merged::<T>(p.drop_last(), q).push(p.last())
    }
}

proof fn push_parts<A>(s: Seq<A>, x: A)
    ensures
        s.push(x).drop_last() == s,
        s.push(x).last() == x,
        s.push(x).len() > 0,
{
    assert(s.push(x).drop_last() =~= s);
}

/// Whether the values of a sequence are in order.
pub open spec fn is_sorted<T: Ranked>(s: Seq<T::V>) -> bool {
    forall|i: int, j: int| 0 <= i < j < s.len() ==> T::before(#[trigger] s[i], #[trigger] s[j])
}

proof fn merge_of_insert<T: Ranked>(p: Seq<T::V>, q: Seq<T::V>, x: T::V)
    ensures
        merged::<T>(p, inserted::<T>(q, x)) == inserted::<T>(merged::<T>(p, q), x),
    decreases p.len() + q.len(),
{
    if p.len() == 0 {
    } else if q.len() == 0 {
        push_parts(q, x);
        if !T::before(p.last(), x) {
            merge_of_insert::<T>(p.drop_last(), q, x);
            assert(merged::<T>(p.drop_last(), q) =~= p.drop_last());
        }
    } else if T::before(q.last(), x) {
        push_parts(q, x);
        if T::before(p.last(), q.last()) {
            T::transitive(p.last(), q.last(), x);
            push_parts(merged::<T>(p, q.drop_last()), q.last());
        } else {
            push_parts(merged::<T>(p.drop_last(), q), p.last());
            if !T::before(p.last(), x) {
                merge_of_insert::<T>(p.drop_last(), q, x);
            }
        }
    } else {
        push_parts(inserted::<T>(q.drop_last(), x), q.last());
        if T::before(p.last(), q.last()) {
            push_parts(merged::<T>(p, q.drop_last()), q.last());
            merge_of_insert::<T>(p, q.drop_last(), x);
        } else {
            push_parts(merged::<T>(p.drop_last(), q), p.last());
            merge_of_insert::<T>(p.drop_last(), q, x);
            if T::before(p.last(), x) {
                T::total(p.last(), q.last());
                T::transitive(q.last(), p.last(), x);
            }
        }
    }
}

proof fn merge_of_halves<T: Ranked>(a: Seq<T::V>, b: Seq<T::V>)
    ensures
        merged::<T>(stably_sorted::<T>(a), stably_sorted::<T>(b)) == stably_sorted::<T>(a + b),
    decreases b.len(),
{
    if b.len() == 0 {
        assert(a + b =~= a);
        if stably_sorted::<T>(a).len() == 0 {
            assert(merged::<T>(stably_sorted::<T>(a), stably_sorted::<T>(b)) =~= stably_sorted::<T>(a));
        }
    } else {
        merge_of_halves::<T>(a, b.drop_last());
        assert((a + b).drop_last() =~= a + b.drop_last());
        merge_of_insert::<T>(stably_sorted::<T>(a), stably_sorted::<T>(b.drop_last()), b.last());
    }
}

/// One list in order out of two.
fn merge<T: Ranked>(a: Vec<T>, b: Vec<T>) -> (r: Vec<T>)
    ensures
        views(r@) == merged::<T>(views(a@), views(b@)),
{
    let mut a = a;
    let mut b = b;
    let ghost want = merged::<T>(views(a@), views(b@));
    let mut back: Vec<T> = Vec::new();
    assert(views(back@).reverse() =~= Seq::<T::V>::empty());
    while a.len() > 0 && b.len() > 0
        invariant
            want =~= merged::<T>(views(a@), views(b@)) + views(back@).reverse(),
        decreases a@.len() + b@.len(),
    {
        let ghost before = back@;
        let ghost a0 = a@;
        let ghost b0 = b@;
        assert(views(a0).last() == a0.last()@);
        assert(views(b0).last() == b0.last()@);
        if a[a.len() - 1].may_precede(&b[b.len() - 1]) {
            let x = b.pop().unwrap();
            assert(views(b@) =~= views(b0).drop_last());
            back.push(x);
            assert(views(back@).reverse() =~= seq![x@] + views(before).reverse());
        } else {
            let x = a.pop().unwrap();
            assert(views(a@) =~= views(a0).drop_last());
            back.push(x);
            assert(views(back@).reverse() =~= seq![x@] + views(before).reverse());
        }
    }
    let mut out = if a.len() > 0 {
        a
    } else {
        b
    };
    while back.len() > 0
        invariant
            want =~= views(out@) + views(back@).reverse(),
        decreases back@.len(),
    {
        let ghost before = back@;
        let ghost o = out@;
        let x = back.pop().unwrap();
        assert(views(before).reverse() =~= seq![x@] + views(back@).reverse());
        out.push(x);
        assert(views(out@) =~= views(o).push(x@));
    }
    assert(views(back@).reverse() =~= Seq::<T::V>::empty());
    out
}

/// The values of a list in order; those that may stand either way keep their
/// order.
pub fn sort<T: Ranked>(v: Vec<T>) -> (r: Vec<T>)
    ensures
        views(r@) == stably_sorted::<T>(views(v@)),
    decreases v@.len(),
{
    if v.len() <= 1 {
        proof {
            let s = views(v@);
            if s.len() == 1 {
                assert(stably_sorted::<T>(s.drop_last()) =~= Seq::<T::V>::empty());
                assert(stably_sorted::<T>(s) =~= s);
            }
        }
        return v;
    }
    let mut left = v;
    let mid: usize = left.len() / 2;
    let right = left.split_off(mid);
    proof {
        assert(views(left@) + views(right@) =~= views(v@));
        merge_of_halves::<T>(views(left@), views(right@));
    }
    merge(sort(left), sort(right))
}

// ── Laws ──────────────────────────────────────────────────────────────────────

proof fn inserted_facts<T: Ranked>(t: Seq<T::V>, x: T::V)
    requires
        is_sorted::<T>(t),
    ensures
        is_sorted::<T>(inserted::<T>(t, x)),
        inserted::<T>(t, x).to_multiset() == t.to_multiset().insert(x),
        inserted::<T>(t, x).len() == t.len() + 1,
    decreases t.len(),
{
    broadcast use vstd::seq_lib::group_to_multiset_ensures;

    if t.len() == 0 {
    } else if T::before(t.last(), x) {
        let r = t.push(x);
        assert forall|i: int, j: int| 0 <= i < j < r.len() implies T::before(#[trigger] r[i], #[trigger] r[j]) by {
            if j == t.len() && i < t.len() - 1 {
                assert(T::before(t[i], t[t.len() - 1]));
                T::transitive(t[i], t.last(), x);
            }
        }
    } else {
        let u = t.drop_last();
        inserted_facts::<T>(u, x);
        let w = inserted::<T>(u, x);
        let r = w.push(t.last());
        assert(t =~= u.push(t.last()));
        T::total(x, t.last());
        assert forall|i: int, j: int| 0 <= i < j < r.len() implies T::before(#[trigger] r[i], #[trigger] r[j]) by {
            if j == w.len() {
                let y = w[i];
                assert(w.to_multiset().count(y) > 0);
                if y != x {
                    assert(u.to_multiset().count(y) > 0);
                    assert(u.contains(y));
                    let k = choose|k: int| 0 <= k < u.len() && u[k] == y;
                    assert(T::before(t[k], t[t.len() - 1]));
                }
            }
        }
        assert(r.to_multiset() =~= t.to_multiset().insert(x));
    }
}

/// Sorting puts the values in order and neither loses nor adds one.
pub proof fn sorting_keeps_the_values<T: Ranked>(s: Seq<T::V>)
    ensures
        is_sorted::<T>(stably_sorted::<T>(s)),
        stably_sorted::<T>(s).to_multiset() == s.to_multiset(),
        stably_sorted::<T>(s).len() == s.len(),
    decreases s.len(),
{
    broadcast use vstd::seq_lib::group_to_multiset_ensures;

    if s.len() > 0 {
        sorting_keeps_the_values::<T>(s.drop_last());
        inserted_facts::<T>(stably_sorted::<T>(s.drop_last()), s.last());
        assert(s =~= s.drop_last().push(s.last()));
    }
}

} // verus!
