//! Wait nodes and the FIFO bucket queue that holds them.
use std::collections::VecDeque;
use vstd::prelude::*;

verus! {

/// The record of one parked thread: the key it parked on, an identifier
/// chosen by the caller to tell parked threads apart, and the handle through
/// which the thread is woken.
pub struct WaitNode<P> {
    pub key: usize,
    pub id: u64,
    pub parker: P,
}

impl<P> WaitNode<P> {
    pub fn new(key: usize, id: u64, parker: P) -> (r: WaitNode<P>)
        ensures
            r.key == key,
            r.id == id,
            r.parker == parker,
    {
        WaitNode { key, id, parker }
    }
}

/// Whether some node of `q` waits on `key`.
pub open spec fn has_waiter<P>(q: Seq<WaitNode<P>>, key: usize) -> bool {
    exists|i: int| 0 <= i < q.len() && (#[trigger] q[i]).key == key
}

/// Whether `i` is the position of the oldest node of `q` that waits on `key`.
pub open spec fn is_first_waiter<P>(q: Seq<WaitNode<P>>, key: usize, i: int) -> bool {
    &&& 0 <= i < q.len()
    &&& q[i].key == key
    &&& forall|j: int| 0 <= j < i ==> (#[trigger] q[j]).key != key
}

/// Whether `i` is the position of the oldest node of `q` with identifier `id`.
pub open spec fn is_first_with_id<P>(q: Seq<WaitNode<P>>, id: u64, i: int) -> bool {
    &&& 0 <= i < q.len()
    &&& q[i].id == id
    &&& forall|j: int| 0 <= j < i ==> (#[trigger] q[j]).id != id
}

/// The nodes of `q` that wait on `key`, in queue order.
pub open spec fn waiters_on<P>(q: Seq<WaitNode<P>>, key: usize) -> Seq<WaitNode<P>> {
    q.filter(|n: WaitNode<P>| n.key == key)
}

/// The nodes of `q` that wait on another key than `key`, in queue order.
pub open spec fn waiters_not_on<P>(q: Seq<WaitNode<P>>, key: usize) -> Seq<WaitNode<P>> {
    q.filter(|n: WaitNode<P>| n.key != key)
}

/// The split of `q` that waking at most `n` waiters on `key` makes: the
/// oldest `n` nodes on `key` (all of them, if there are fewer), in queue
/// order, and the nodes that stay queued, in queue order.
pub open spec fn take_waiters<P>(q: Seq<WaitNode<P>>, key: usize, n: nat) -> (Seq<WaitNode<P>>, Seq<WaitNode<P>>)
    decreases q.len(),
{
    if q.len() == 0 {
        (Seq::empty(), Seq::empty())
    } else {
        let before = take_waiters(q.drop_last(), key, n);
        let last = q.last();
        if last.key == key && before.0.len() < n {
            (before.0.push(last), before.1)
        } else {
            (before.0, before.1.push(last))
        }
    }
}

/// A FIFO queue of wait nodes: appends go to the back, and wake-ups walk
/// from the front, so the oldest waiter on a key is always found first.
/// Nodes of distinct keys may share a bucket.
pub struct Bucket<P> {
    queue: VecDeque<WaitNode<P>>,
}

impl<P> View for Bucket<P> {
    type V = Seq<WaitNode<P>>;

    closed spec fn view(&self) -> Seq<WaitNode<P>> {
        self.queue@
    }
}

impl<P> Bucket<P> {
    /// An empty bucket.
    pub fn new() -> (r: Bucket<P>)
        ensures
            r@ == Seq::<WaitNode<P>>::empty(),
    {
        Bucket { queue: VecDeque::new() }
    }

    /// The number of queued nodes.
    pub fn len(&self) -> (r: usize)
        ensures
            r == self@.len(),
    {
        self.queue.len()
    }

    /// Whether no node is queued.
    pub fn is_empty(&self) -> (r: bool)
        ensures
            r == (self@.len() == 0),
    {
        self.queue.len() == 0
    }

    /// The identifiers of the queued nodes, in queue order.
    pub fn ids(&self) -> (r: Vec<u64>)
        ensures
            r@ == self@.map_values(|n: WaitNode<P>| n.id),
    {
        let n = self.queue.len();
        let mut r: Vec<u64> = Vec::new();
        let mut i: usize = 0;
        while i < n
            invariant
                n == self@.len(),
                i <= n,
                r@ == self@.take(i as int).map_values(|m: WaitNode<P>| m.id),
            decreases n - i,
        {
            r.push(self.queue[i].id);
            i = i + 1;
            assert(self@.take(i as int).map_values(|m: WaitNode<P>| m.id) =~= r@);
        }
        assert(self@.take(n as int) =~= self@);
        r
    }

    /// Queues `node` behind every node already in the bucket.
    pub fn append(&mut self, node: WaitNode<P>)
        ensures
            final(self)@ == old(self)@.push(node),
    {
        self.queue.push_back(node);
    }
    /// Takes out the oldest node with identifier `id`, if there is one; the
    /// other nodes keep their order. This withdraws a waiter whose wait was
    /// abandoned before it was woken.
    pub fn remove_by_id(&mut self, id: u64) -> (r: Option<WaitNode<P>>)
        ensures
            match r {
                None => (forall|i: int| 0 <= i < old(self)@.len() ==> (#[trigger] old(self)@[i]).id != id)
                    && final(self)@ == old(self)@,
                Some(node) => exists|i: int|
                    #![trigger old(self)@[i]]
                    is_first_with_id(old(self)@, id, i) && node == old(self)@[i]
                        && final(self)@ == old(self)@.remove(i),
            },
    {
        let n = self.queue.len();
        let mut i: usize = 0;
        while i < n
            invariant
                n == self@.len(),
                self@ == old(self)@,
                i <= n,
                forall|j: int| 0 <= j < i ==> (#[trigger] self@[j]).id != id,
            decreases n - i,
        {
            if self.queue[i].id == id {
                let ghost q0 = self@;
                let node = self.queue.remove(i).unwrap();
                assert(is_first_with_id(q0, id, i as int));
                return Some(node);
            }
            i = i + 1;
        }
        None
    }
}

/// Takes out the oldest `count` nodes waiting on `key` (all of them, if
/// there are fewer) and returns them in queue order; the other nodes
/// keep their order.
pub fn unpark_some<P>(bucket: &mut Bucket<P>, key: usize, count: usize) -> (woken: Vec<WaitNode<P>>)
    ensures
        (woken@, final(bucket)@) == take_waiters(old(bucket)@, key, count as nat),
{
    let ghost q0 = bucket@;
    let n = bucket.queue.len();
    let mut kept: VecDeque<WaitNode<P>> = VecDeque::new();
    let mut woken: Vec<WaitNode<P>> = Vec::new();
    let mut i: usize = 0;
    while i < n
        invariant
            n == q0.len(),
            i <= n,
            bucket.queue@ == q0.subrange(i as int, n as int),
            (woken@, kept@) == take_waiters(q0.take(i as int), key, count as nat),
        decreases n - i,
    {
        let node = bucket.queue.pop_front().unwrap();
        proof {
            assert(q0.take(i + 1).drop_last() == q0.take(i as int));
        }
        if node.key == key && woken.len() < count {
            woken.push(node);
        } else {
            kept.push_back(node);
        }
        i = i + 1;
    }
    proof {
        assert(q0.take(n as int) == q0);
    }
    bucket.queue = kept;
    woken
}

/// Takes out the oldest node waiting on `key`, if there is one; the other
/// nodes keep their order.
pub fn unpark_one<P>(bucket: &mut Bucket<P>, key: usize) -> (r: Option<WaitNode<P>>)
    ensures
        match r {
            None => !has_waiter(old(bucket)@, key) && final(bucket)@ == old(bucket)@,
            Some(node) => exists|i: int|
                #![trigger old(bucket)@[i]]
                is_first_waiter(old(bucket)@, key, i) && node == old(bucket)@[i]
                    && final(bucket)@ == old(bucket)@.remove(i),
        },
{
    let n = bucket.queue.len();
    let mut i: usize = 0;
    while i < n
        invariant
            n == bucket@.len(),
            bucket@ == old(bucket)@,
            i <= n,
            forall|j: int| 0 <= j < i ==> (#[trigger] bucket@[j]).key != key,
        decreases n - i,
    {
        if bucket.queue[i].key == key {
            let ghost q0 = bucket@;
            let node = bucket.queue.remove(i).unwrap();
            assert(is_first_waiter(q0, key, i as int));
            return Some(node);
        }
        i = i + 1;
    }
    None
}


/// Waking at least as many waiters as there are nodes wakes every waiter on
/// the key and keeps every other node, in queue order.
pub proof fn lemma_take_all<P>(q: Seq<WaitNode<P>>, key: usize, n: nat)
    requires
        n >= q.len(),
    ensures
        take_waiters(q, key, n) == (waiters_on(q, key), waiters_not_on(q, key)),
    decreases q.len(),
{
    reveal(Seq::filter);
    if q.len() > 0 {
        lemma_take_all(q.drop_last(), key, n);
        q.drop_last().lemma_filter_len(|m: WaitNode<P>| m.key == key);
    }
}

/// Parks a waiter: `expected` is evaluated while the bucket is held, and
/// only if it holds is `node` queued behind every node already waiting.
/// Returns whether the node was queued; a caller that gets `false` returns
/// at once, one that gets `true` blocks until the node is taken out by an
/// unpark and signalled.
pub fn park<P, F: FnOnce() -> bool>(bucket: &mut Bucket<P>, node: WaitNode<P>, expected: F) -> (queued: bool)
    requires
        expected.requires(()),
    ensures
        expected.ensures((), queued),
        queued ==> final(bucket)@ == old(bucket)@.push(node),
        !queued ==> final(bucket)@ == old(bucket)@,
{
    if !expected() {
        return false;
    }
    bucket.append(node);
    true
}

/// Takes out every node waiting on `key`, in queue order, and leaves the
/// nodes of other keys queued in their order.
pub fn unpark_all<P>(bucket: &mut Bucket<P>, key: usize) -> (woken: Vec<WaitNode<P>>)
    ensures
        woken@ == waiters_on(old(bucket)@, key),
        final(bucket)@ == waiters_not_on(old(bucket)@, key),
{
    let n = bucket.len();
    proof {
        lemma_take_all(bucket@, key, n as nat);
    }
    unpark_some(bucket, key, n)
}

} // verus!
