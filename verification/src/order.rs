//! Ordering values by an instant: a stable sort and what pins its result.

use crate::time::Timestamp;
use vstd::prelude::*;

verus! {

/// A value that is ordered by one instant it carries.
pub trait Timed: Sized {
    /// The instant by which the value is ordered.
    spec fn instant(&self) -> Timestamp;

    /// The instant by which the value is ordered.
    fn time(&self) -> (t: Timestamp)
        ensures
            t == self.instant(),
    ;
}

/// The values whose instant is `t`.
pub open spec fn leaves_at<T: Timed>(t: Timestamp) -> spec_fn(T) -> bool {
    |x: T| x.instant().same_instant(t)
}

/// The values of `s` whose instant is `t`, in the order they have in `s`.
pub open spec fn at_instant<T: Timed>(s: Seq<T>, t: Timestamp) -> Seq<T> {
    s.filter(leaves_at(t))
}

/// No value of `s` is followed by one with an earlier instant.
pub open spec fn sorted<T: Timed>(s: Seq<T>) -> bool {
    forall|i: int, j: int|
        0 <= i < j < s.len() ==> (#[trigger] s[i]).instant().at_or_before(
            (#[trigger] s[j]).instant(),
        )
}

/// `r` holds the values of `s` in ascending order of their instants, and
/// values that share an instant keep the order they have in `s`.
pub open spec fn stable_sort_of<T: Timed>(r: Seq<T>, s: Seq<T>) -> bool {
    &&& sorted(r)
    &&& r.len() == s.len()
    &&& forall|t: Timestamp| #[trigger] at_instant(r, t) == at_instant(s, t)
}

proof fn lemma_filter_none<A>(s: Seq<A>, pred: spec_fn(A) -> bool)
    requires
        forall|i: int| 0 <= i < s.len() ==> !pred(#[trigger] s[i]),
    ensures
        s.filter(pred) == Seq::<A>::empty(),
    decreases s.len(),
{
    reveal(Seq::filter);
    if s.len() > 0 {
        lemma_filter_none(s.drop_last(), pred);
    }
}

proof fn lemma_filter_one<A>(x: A, pred: spec_fn(A) -> bool)
    ensures
        seq![x].filter(pred) == if pred(x) {
            seq![x]
        } else {
            Seq::<A>::empty()
        },
{
    reveal_with_fuel(Seq::filter, 2);
    assert(seq![x].drop_last() == Seq::<A>::empty());
    assert(Seq::<A>::empty().push(x) == seq![x]);
}

/// What the values at one instant are once `x` is put in front of `s`.
proof fn lemma_at_instant_cons<T: Timed>(x: T, s: Seq<T>, t: Timestamp)
    ensures
        at_instant(seq![x] + s, t) == if x.instant().same_instant(t) {
            seq![x] + at_instant(s, t)
        } else {
            at_instant(s, t)
        },
{
    Seq::filter_distributes_over_add(seq![x], s, leaves_at::<T>(t));
    lemma_filter_one(x, leaves_at::<T>(t));
    assert(Seq::<T>::empty() + at_instant(s, t) == at_instant(s, t));
}

/// What the values at one instant are once `x` is put into `s` behind the
/// values that are earlier than `x` and before all others.
proof fn lemma_at_instant_insert<T: Timed>(s: Seq<T>, p: int, x: T, t: Timestamp)
    requires
        0 <= p <= s.len(),
        forall|q: int| 0 <= q < p ==> (#[trigger] s[q]).instant().before(x.instant()),
    ensures
        at_instant(s.insert(p, x), t) == if x.instant().same_instant(t) {
            seq![x] + at_instant(s, t)
        } else {
            at_instant(s, t)
        },
{
    let pred = leaves_at::<T>(t);
    let head = s.subrange(0, p);
    let tail = s.subrange(p, s.len() as int);
    assert(s == head + tail);
    assert(s.insert(p, x) == head + (seq![x] + tail));
    Seq::filter_distributes_over_add(head, tail, pred);
    Seq::filter_distributes_over_add(head, seq![x] + tail, pred);
    lemma_at_instant_cons(x, tail, t);
    if x.instant().same_instant(t) {
        assert forall|i: int| 0 <= i < head.len() implies !pred(#[trigger] head[i]) by {
            assert(head[i] == s[i]);
        }
        lemma_filter_none(head, pred);
        assert(Seq::<T>::empty() + tail.filter(pred) == tail.filter(pred));
        assert(Seq::<T>::empty() + (seq![x] + tail.filter(pred)) == seq![x] + tail.filter(pred));
    } else {
    }
}

/// Sorts by instant, ascending; values with the same instant keep their
/// order.
pub fn sort_by_time<T: Timed>(values: Vec<T>) -> (res: Vec<T>)
    ensures
        stable_sort_of(res@, values@),
{
    let ghost all = values@;
    let mut rest = values;
    let mut res: Vec<T> = Vec::new();
    proof {
        assert(all.skip(all.len() as int) == Seq::<T>::empty());
        assert(all.take(all.len() as int) == all);
    }
    while rest.len() > 0
        invariant
            rest@ == all.take(rest.len() as int),
            rest.len() <= all.len(),
            sorted(res@),
            res.len() + rest.len() == all.len(),
            forall|t: Timestamp| #[trigger]
                at_instant(res@, t) == at_instant(all.skip(rest.len() as int), t),
        decreases rest.len(),
    {
        let ghost n = rest.len() as int;
        let ghost before = res@;
        let x = rest.pop().unwrap();
        let at = x.time();
        let mut p: usize = 0;
        while p < res.len() && res[p].time().is_before(&at)
            invariant
                p <= res.len(),
                at == x.instant(),
                forall|q: int| 0 <= q < p ==> (#[trigger] res@[q]).instant().before(x.instant()),
            decreases res.len() - p,
        {
            p += 1;
        }
        res.insert(p, x);
        proof {
            assert(x == all[n - 1]);
            assert(rest@ == all.take(n - 1));
            assert(all.skip(n - 1) == seq![x] + all.skip(n));
            assert forall|t: Timestamp| #[trigger]
                at_instant(res@, t) == at_instant(all.skip(n - 1), t) by {
                lemma_at_instant_insert(before, p as int, x, t);
                lemma_at_instant_cons(x, all.skip(n), t);
            }
            assert forall|i: int, j: int| 0 <= i < j < res@.len() implies (#[trigger] res@[i])
                .instant().at_or_before((#[trigger] res@[j]).instant()) by {
                let a = if i < p { before[i] } else if i == p { x } else { before[i - 1] };
                let b = if j < p { before[j] } else if j == p { x } else { before[j - 1] };
                assert(res@[i] == a);
                assert(res@[j] == b);
                if p < before.len() {
                    assert(!before[p as int].instant().before(x.instant()));
                }
            }
        }
    }
    proof {
        assert(all.skip(0) == all);
    }
    res
}

/// A sorted sequence is fixed by what it holds at each instant.
proof fn lemma_sorted_classes_equal<T: Timed>(a: Seq<T>, b: Seq<T>)
    requires
        sorted(a),
        sorted(b),
        forall|t: Timestamp| #[trigger] at_instant(a, t) == at_instant(b, t),
    ensures
        a == b,
    decreases a.len() + b.len(),
{
    if a.len() == 0 && b.len() == 0 {
        assert(a =~= b);
    } else if a.len() == 0 || b.len() == 0 {
        // the first value of the non-empty one stands at its own instant
        let c = if a.len() == 0 { b } else { a };
        let d = if a.len() == 0 { a } else { b };
        let t = c[0].instant();
        assert(c == seq![c[0]] + c.skip(1));
        lemma_at_instant_cons(c[0], c.skip(1), t);
        lemma_filter_none(d, leaves_at::<T>(t));
        assert(at_instant(c, t).len() > 0);
        assert(at_instant(d, t).len() == 0);
    } else {
        let a0 = a[0];
        let b0 = b[0];
        let ta = a0.instant();
        let tb = b0.instant();
        assert(a == seq![a0] + a.skip(1));
        assert(b == seq![b0] + b.skip(1));
        lemma_at_instant_cons(a0, a.skip(1), ta);
        lemma_at_instant_cons(b0, b.skip(1), ta);
        lemma_at_instant_cons(a0, a.skip(1), tb);
        lemma_at_instant_cons(b0, b.skip(1), tb);
        if !tb.same_instant(ta) {
            // some later value of b stands at ta, so b0 is before a0
            assert(at_instant(b.skip(1), ta).len() > 0);
            if forall|i: int| 0 <= i < b.skip(1).len() ==> !leaves_at::<T>(ta)(
                #[trigger] b.skip(1)[i],
            ) {
                lemma_filter_none(b.skip(1), leaves_at::<T>(ta));
            }
            let i = choose|i: int|
                0 <= i < b.skip(1).len() && leaves_at::<T>(ta)(#[trigger] b.skip(1)[i]);
            assert(b.skip(1)[i] == b[i + 1]);
            assert(b[0].instant().at_or_before(b[i + 1].instant()));
            // and some later value of a stands at tb, so a0 is before b0
            assert(at_instant(a.skip(1), tb).len() > 0);
            if forall|j: int| 0 <= j < a.skip(1).len() ==> !leaves_at::<T>(tb)(
                #[trigger] a.skip(1)[j],
            ) {
                lemma_filter_none(a.skip(1), leaves_at::<T>(tb));
            }
            let j = choose|j: int|
                0 <= j < a.skip(1).len() && leaves_at::<T>(tb)(#[trigger] a.skip(1)[j]);
            assert(a.skip(1)[j] == a[j + 1]);
            assert(a[0].instant().at_or_before(a[j + 1].instant()));
            assert(false);
        }
        assert(at_instant(a, ta)[0] == a0);
        assert(at_instant(b, ta)[0] == b0);
        assert(a0 == b0);
        assert forall|t: Timestamp| #[trigger]
            at_instant(a.skip(1), t) == at_instant(b.skip(1), t) by {
            lemma_at_instant_cons(a0, a.skip(1), t);
            lemma_at_instant_cons(b0, b.skip(1), t);
            if a0.instant().same_instant(t) {
                let x = at_instant(a.skip(1), t);
                let y = at_instant(b.skip(1), t);
                assert((seq![a0] + x).skip(1) == x);
                assert((seq![b0] + y).skip(1) == y);
            }
        }
        assert forall|i: int, j: int| 0 <= i < j < a.skip(1).len() implies (#[trigger] a.skip(
            1,
        )[i]).instant().at_or_before((#[trigger] a.skip(1)[j]).instant()) by {
            assert(a.skip(1)[i] == a[i + 1]);
            assert(a.skip(1)[j] == a[j + 1]);
        }
        assert forall|i: int, j: int| 0 <= i < j < b.skip(1).len() implies (#[trigger] b.skip(
            1,
        )[i]).instant().at_or_before((#[trigger] b.skip(1)[j]).instant()) by {
            assert(b.skip(1)[i] == b[i + 1]);
            assert(b.skip(1)[j] == b[j + 1]);
        }
        lemma_sorted_classes_equal(a.skip(1), b.skip(1));
    }
}

/// Sorting is determined: whatever orders the values of `s` by instant
/// and keeps the order of values that share one gives the same sequence.
pub proof fn lemma_stable_sort_unique<T: Timed>(a: Seq<T>, b: Seq<T>, s: Seq<T>)
    requires
        stable_sort_of(a, s),
        stable_sort_of(b, s),
    ensures
        a == b,
{
    lemma_sorted_classes_equal(a, b);
}

/// Sorting invents nothing: each value of a sorted sequence is a value of
/// the sequence that was sorted.
pub proof fn lemma_stable_sort_contains<T: Timed>(r: Seq<T>, s: Seq<T>, i: int)
    requires
        stable_sort_of(r, s),
        0 <= i < r.len(),
    ensures
        s.contains(r[i]),
{
    let t = r[i].instant();
    let pred = leaves_at::<T>(t);
    assert(pred(r[i]));
    r.lemma_filter_contains(pred, i);
    assert(at_instant(r, t).contains(r[i]));
    assert(at_instant(s, t).contains(r[i]));
    s.lemma_filter_contains_rev(pred, r[i]);
}

/// Sorting loses nothing: each value of the sequence that was sorted is a
/// value of the sorted sequence.
pub proof fn lemma_stable_sort_keeps<T: Timed>(r: Seq<T>, s: Seq<T>, x: T)
    requires
        stable_sort_of(r, s),
        s.contains(x),
    ensures
        r.contains(x),
{
    let t = x.instant();
    let pred = leaves_at::<T>(t);
    let i = choose|i: int| 0 <= i < s.len() && s[i] == x;
    assert(pred(s[i]));
    s.lemma_filter_contains(pred, i);
    assert(at_instant(s, t).contains(x));
    assert(at_instant(r, t).contains(x));
    r.lemma_filter_contains_rev(pred, x);
}

} // verus!
