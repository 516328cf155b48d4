//! What holds of parking and unparking across calls.
use vstd::prelude::*;
use crate::bucket::{
    has_waiter, is_first_waiter, take_waiters, waiters_not_on, waiters_on, WaitNode,
};
use crate::parker::{try_park_succeeds, ParkerOp};

verus! {

/// Waking at most `n` waiters on `key` wakes the oldest of them, in the
/// order they were queued: the first `n` waiters on `key`, or all of them
/// when there are fewer.
pub proof fn lemma_unpark_some_wakes_oldest<P>(q: Seq<WaitNode<P>>, key: usize, n: nat)
    ensures
        n <= waiters_on(q, key).len() ==> take_waiters(q, key, n).0 == waiters_on(q, key).take(
            n as int,
        ),
        n > waiters_on(q, key).len() ==> take_waiters(q, key, n).0 == waiters_on(q, key),
    decreases q.len(),
{
    reveal(Seq::filter);
    if q.len() == 0 {
        assert(waiters_on(q, key).take(0) =~= Seq::<WaitNode<P>>::empty());
    } else {
        let p = q.drop_last();
        let w = waiters_on(p, key);
        lemma_unpark_some_wakes_oldest(p, key, n);
        if q.last().key == key {
            assert(waiters_on(q, key) == w.push(q.last()));
            if n <= w.len() {
                assert(w.push(q.last()).take(n as int) =~= w.take(n as int));
            } else if n == w.len() + 1 {
                assert(w.push(q.last()).take(n as int) =~= w.push(q.last()));
            }
        }
    }
}

/// Where no node waits on `key`, unparking on `key` wakes nobody and leaves
/// the bucket as it was, whatever the bound.
pub proof fn lemma_empty_unpark<P>(q: Seq<WaitNode<P>>, key: usize, n: nat)
    requires
        !has_waiter(q, key),
    ensures
        forall|i: int| !is_first_waiter(q, key, i),
        take_waiters(q, key, n) == (Seq::<WaitNode<P>>::empty(), q),
        waiters_on(q, key) == Seq::<WaitNode<P>>::empty(),
        waiters_not_on(q, key) == q,
    decreases q.len(),
{
    reveal(Seq::filter);
    if q.len() == 0 {
        assert(q =~= Seq::<WaitNode<P>>::empty());
    } else {
        let p = q.drop_last();
        assert(!has_waiter(p, key)) by {
            assert forall|i: int| 0 <= i < p.len() implies (#[trigger] p[i]).key != key by {
                assert(p[i] == q[i]);
            }
        }
        assert(q.last() == q[q.len() - 1]);
        lemma_empty_unpark(p, key, n);
        assert(p.push(q.last()) =~= q);
    }
    assert forall|i: int| !is_first_waiter(q, key, i) by {
        if 0 <= i < q.len() {
            assert(q[i].key != key);
        }
    }
}

/// Of two waiters on one key with no older waiter on it, the one queued
/// first is woken first: one-at-a-time unparking takes `a` and then `b`,
/// waking at most one takes `a`, and waking at most two takes `a` then `b`.
pub proof fn lemma_fifo_per_key<P>(s: Seq<WaitNode<P>>, a: WaitNode<P>, b: WaitNode<P>)
    requires
        a.key == b.key,
        !has_waiter(s, a.key),
    ensures
        is_first_waiter(s.push(a).push(b), a.key, s.len() as int),
        s.push(a).push(b).remove(s.len() as int) == s.push(b),
        is_first_waiter(s.push(b), a.key, s.len() as int),
        s.push(b).remove(s.len() as int) == s,
        take_waiters(s.push(a).push(b), a.key, 1) == (seq![a], s.push(b)),
        take_waiters(s.push(a).push(b), a.key, 2) == (seq![a, b], s),
{
    let key = a.key;
    let q = s.push(a).push(b);
    lemma_empty_unpark(s, key, 1);
    lemma_empty_unpark(s, key, 2);
    assert(q.drop_last() == s.push(a));
    assert(s.push(a).drop_last() == s);
    assert(q.remove(s.len() as int) =~= s.push(b));
    assert(s.push(b).remove(s.len() as int) =~= s);
    assert(Seq::<WaitNode<P>>::empty().push(a) =~= seq![a]);
    assert(seq![a].push(b) =~= seq![a, b]);
    assert(q.last() == b);
    assert(s.push(a).last() == a);
    let one = take_waiters(s.push(a), key, 1);
    assert(one == (seq![a], s));
    assert(take_waiters(q, key, 1) == (seq![a], s.push(b)));
    let two = take_waiters(s.push(a), key, 2);
    assert(two == (seq![a], s));
    assert(take_waiters(q, key, 2) == (seq![a, b], s));
    assert forall|j: int| 0 <= j < s.len() implies (#[trigger] q[j]).key != key by {
        assert(q[j] == s[j]);
    }
    assert forall|j: int| 0 <= j < s.len() implies (#[trigger] s.push(b)[j]).key != key by {
        assert(s.push(b)[j] == s[j]);
    }
}

/// Waiters on distinct keys that share a bucket do not interfere: unparking
/// on `k1`, whether one waiter, at most `n` or all of them, wakes no waiter
/// on `k2` and leaves every waiter on `k2` queued, in its order.
pub proof fn lemma_collision_independence<P>(q: Seq<WaitNode<P>>, k1: usize, k2: usize, n: nat)
    requires
        k1 != k2,
    ensures
        forall|i: int|
            #![trigger is_first_waiter(q, k1, i)]
            is_first_waiter(q, k1, i) ==> waiters_on(q.remove(i), k2) == waiters_on(q, k2),
        !has_waiter(take_waiters(q, k1, n).0, k2),
        waiters_on(take_waiters(q, k1, n).1, k2) == waiters_on(q, k2),
        !has_waiter(waiters_on(q, k1), k2),
        waiters_on(waiters_not_on(q, k1), k2) == waiters_on(q, k2),
    decreases q.len(),
{
    reveal(Seq::filter);
    if q.len() == 0 {
        assert(q =~= Seq::<WaitNode<P>>::empty());
    } else {
        let p = q.drop_last();
        let x = q.last();
        lemma_collision_independence(p, k1, k2, n);
        let t = take_waiters(p, k1, n);
        if x.key == k1 && t.0.len() < n {
            assert forall|j: int| 0 <= j < t.0.push(x).len() implies (#[trigger] t.0.push(x)[j]).key != k2 by {
                if j < t.0.len() {
                    assert(t.0.push(x)[j] == t.0[j]);
                }
            }
        } else {
            assert(waiters_on(t.1.push(x), k2) == if x.key == k2 {
                waiters_on(t.1, k2).push(x)
            } else {
                waiters_on(t.1, k2)
            }) by {
                assert(t.1.push(x).drop_last() =~= t.1);
            }
        }
        let w1 = waiters_on(p, k1);
        if x.key == k1 {
            assert forall|j: int| 0 <= j < w1.push(x).len() implies (#[trigger] w1.push(x)[j]).key != k2 by {
                if j < w1.len() {
                    assert(w1.push(x)[j] == w1[j]);
                }
            }
        } else {
            let o1 = waiters_not_on(p, k1);
            assert(waiters_on(o1.push(x), k2) == if x.key == k2 {
                waiters_on(o1, k2).push(x)
            } else {
                waiters_on(o1, k2)
            }) by {
                assert(o1.push(x).drop_last() =~= o1);
            }
        }
    }
    assert forall|i: int|
        #![trigger is_first_waiter(q, k1, i)]
        is_first_waiter(q, k1, i) implies waiters_on(q.remove(i), k2) == waiters_on(q, k2) by {
        let front = q.take(i);
        let back = q.skip(i + 1);
        let pred = |m: WaitNode<P>| m.key == k2;
        assert(q.remove(i) =~= front + back);
        assert(q =~= front + (seq![q[i]] + back));
        assert(seq![q[i]] =~= Seq::<WaitNode<P>>::empty().push(q[i]));
        Seq::<WaitNode<P>>::empty().lemma_filter_push(q[i], pred);
        assert(Seq::<WaitNode<P>>::empty().filter(pred) =~= Seq::<WaitNode<P>>::empty());
        Seq::filter_distributes_over_add(front, back, pred);
        Seq::filter_distributes_over_add(seq![q[i]], back, pred);
        Seq::filter_distributes_over_add(front, seq![q[i]] + back, pred);
        assert(seq![q[i]].filter(pred) + back.filter(pred) =~= back.filter(pred));
    }
}

/// A queued waiter is never passed over: while some node waits on `key`,
/// waking one waiter on `key` takes a node, waking at most `n >= 1` takes at
/// least one, and waking all takes every node on `key` and leaves none.
pub proof fn lemma_queued_waiter_is_woken<P>(q: Seq<WaitNode<P>>, key: usize, n: nat)
    requires
        has_waiter(q, key),
        n >= 1,
    ensures
        exists|i: int| is_first_waiter(q, key, i),
        take_waiters(q, key, n).0.len() >= 1,
        forall|i: int| 0 <= i < q.len() && q[i].key == key ==> waiters_on(q, key).contains(#[trigger] q[i]),
        !has_waiter(waiters_not_on(q, key), key),
    decreases q.len(),
{
    reveal(Seq::filter);
    let p = q.drop_last();
    let pred = |m: WaitNode<P>| m.key == key;
    let npred = |m: WaitNode<P>| m.key != key;
    if has_waiter(p, key) {
        lemma_queued_waiter_is_woken(p, key, n);
        let i = choose|i: int| is_first_waiter(p, key, i);
        assert(is_first_waiter(q, key, i)) by {
            assert forall|j: int| 0 <= j < i implies (#[trigger] q[j]).key != key by {
                assert(q[j] == p[j]);
            }
        }
    } else {
        let w = choose|w: int| 0 <= w < q.len() && (#[trigger] q[w]).key == key;
        assert(w == q.len() - 1) by {
            if w < q.len() - 1 {
                assert(p[w] == q[w]);
            }
        }
        assert(is_first_waiter(q, key, q.len() - 1)) by {
            assert forall|j: int| 0 <= j < q.len() - 1 implies (#[trigger] q[j]).key != key by {
                assert(p[j] == q[j]);
            }
        }
        lemma_empty_unpark(p, key, n);
    }
    assert forall|i: int| 0 <= i < q.len() && q[i].key == key implies waiters_on(q, key).contains(#[trigger] q[i]) by {
        q.lemma_filter_contains(pred, i);
    }
    assert(!has_waiter(waiters_not_on(q, key), key)) by {
        assert forall|j: int| 0 <= j < waiters_not_on(q, key).len() implies (#[trigger] waiters_not_on(q, key)[j]).key != key by {
            q.lemma_filter_pred(npred, j);
        }
    }
}

/// A parker's owner returns from its wait exactly when a wake-up came after
/// its last return: an attempt to return succeeds if and only if the
/// operation before it was a wake-up. So a wake-up given before the owner
/// parks is kept for it, and no return happens without one.
pub proof fn lemma_parker_latch(ops: Seq<ParkerOp>, i: int)
    requires
        0 <= i < ops.len(),
        ops[i] == ParkerOp::TryPark,
    ensures
        try_park_succeeds(ops, i) <==> (i > 0 && ops[i - 1] == ParkerOp::Unpark),
{
    if i > 0 {
        assert(ops.take(i).last() == ops[i - 1]);
    }
}

} // verus!
