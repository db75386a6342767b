use vstd::prelude::*;

verus! {

/// One subscriber of a cell: whether it still listens, and the values
/// handed to it that it has not taken yet, oldest first.
pub struct Subscriber<T> {
    active: bool,
    inbox: Vec<T>,
}

/// A mutable value that hands every new value to each of its subscribers,
/// in the order in which they subscribed. Subscription handles are indices
/// and stay valid for the life of the cell.
pub struct ReactiveCell<T> {
    value: T,
    subscribers: Vec<Subscriber<T>>,
}

/// `post` is `pre` after `v` was set: the value is `v`, and each active
/// subscriber got one more entry, a clone of `v`; nothing else changed.
pub open spec fn delivered<T: Clone>(pre: ReactiveCell<T>, post: ReactiveCell<T>, v: T) -> bool {
    &&& post.current() == v
    &&& post.count() == pre.count()
    &&& forall|i: int| 0 <= i < pre.count() ==> post.is_active(i) == pre.is_active(i)
    &&& forall|i: int|
        #![trigger post.inbox(i)]
        0 <= i < pre.count() && pre.is_active(i) ==> {
            &&& post.inbox(i).len() == pre.inbox(i).len() + 1
            &&& post.inbox(i).subrange(0, pre.inbox(i).len() as int) == pre.inbox(i)
            &&& cloned(v, post.inbox(i).last())
        }
    &&& forall|i: int|
        #![trigger post.inbox(i)]
        0 <= i < pre.count() && !pre.is_active(i) ==> post.inbox(i) == pre.inbox(i)
}

impl<T: Clone> ReactiveCell<T> {
    /// The current value.
    pub closed spec fn current(&self) -> T {
        self.value
    }

    /// How many subscriptions were ever made.
    pub closed spec fn count(&self) -> nat {
        self.subscribers@.len()
    }

    /// Whether subscription `i` still receives values.
    pub closed spec fn is_active(&self, i: int) -> bool {
        self.subscribers@[i].active
    }

    /// The values waiting for subscription `i`, oldest first.
    pub closed spec fn inbox(&self, i: int) -> Seq<T> {
        self.subscribers@[i].inbox@
    }

    /// A cell holding `value`, with no subscribers.
    pub fn new(value: T) -> (r: Self)
        ensures
            r.current() == value,
            r.count() == 0,
    {
        ReactiveCell { value, subscribers: Vec::new() }
    }

    /// A clone of the current value.
    pub fn get(&self) -> (r: T)
        ensures
            cloned(self.current(), r),
    {
        self.value.clone()
    }

    /// The current value, by reference.
    pub fn current_ref(&self) -> (r: &T)
        ensures
            *r == self.current(),
    {
        &self.value
    }

    /// The number of subscriptions ever made.
    pub fn subscriber_count(&self) -> (r: usize)
        ensures
            r == self.count(),
    {
        self.subscribers.len()
    }

    /// Adds a subscriber, which receives the values set from now on.
    pub fn subscribe(&mut self) -> (r: usize)
        ensures
            r == old(self).count(),
            final(self).count() == old(self).count() + 1,
            final(self).current() == old(self).current(),
            final(self).is_active(r as int),
            final(self).inbox(r as int) == Seq::<T>::empty(),
            forall|i: int|
                #![trigger final(self).inbox(i)]
                0 <= i < old(self).count() ==> final(self).inbox(i) == old(self).inbox(i)
                    && final(self).is_active(i) == old(self).is_active(i),
    {
        let r = self.subscribers.len();
        self.subscribers.push(Subscriber { active: true, inbox: Vec::new() });
        r
    }

    /// Replaces the value, then hands a clone of it to every active
    /// subscriber, in subscription order. Equal values are not skipped.
    pub fn set(&mut self, v: T)
        ensures
            delivered(*old(self), *final(self), v),
    {
        let n = self.subscribers.len();
        let mut i: usize = 0;
        while i < n
            invariant
                n == self.subscribers@.len(),
                n == old(self).subscribers@.len(),
                0 <= i <= n,
                self.value == old(self).value,
                forall|j: int| 0 <= j < n ==> self.subscribers@[j].active == old(self).subscribers@[j].active,
                forall|j: int|
                    #![trigger self.subscribers@[j]]
                    0 <= j < i && old(self).subscribers@[j].active ==> {
                        &&& self.subscribers@[j].inbox@.len() == old(self).subscribers@[j].inbox@.len() + 1
                        &&& self.subscribers@[j].inbox@.subrange(0, old(self).subscribers@[j].inbox@.len() as int)
                            == old(self).subscribers@[j].inbox@
                        &&& cloned(v, self.subscribers@[j].inbox@.last())
                    },
                forall|j: int|
                    #![trigger self.subscribers@[j]]
                    (i <= j < n || (0 <= j < n && !old(self).subscribers@[j].active))
                        ==> self.subscribers@[j].inbox@ == old(self).subscribers@[j].inbox@,
            decreases n - i,
        {
            if self.subscribers[i].active {
                let c = v.clone();
                let mut s = self.subscribers.remove(i);
                let ghost before = s.inbox@;
                s.inbox.push(c);
                assert(s.inbox@.subrange(0, before.len() as int) == before);
                self.subscribers.insert(i, s);
            }
            i = i + 1;
        }
        self.value = v;
    }

    /// Takes the oldest value waiting for subscription `sub`, if any.
    pub fn take(&mut self, sub: usize) -> (r: Option<T>)
        requires
            sub < old(self).count(),
        ensures
            final(self).count() == old(self).count(),
            final(self).current() == old(self).current(),
            old(self).inbox(sub as int).len() == 0 ==> r is None && *final(self) == *old(self),
            old(self).inbox(sub as int).len() > 0 ==> r == Some(old(self).inbox(sub as int)[0])
                && final(self).inbox(sub as int) == old(self).inbox(sub as int).drop_first(),
            forall|i: int|
                #![trigger final(self).inbox(i)]
                0 <= i < old(self).count() && i != sub ==> final(self).inbox(i) == old(self).inbox(i),
            forall|i: int|
                0 <= i < old(self).count() ==> final(self).is_active(i) == old(self).is_active(i),
    {
        if self.subscribers[sub].inbox.len() == 0 {
            return None;
        }
        let mut s = self.subscribers.remove(sub);
        let v = s.inbox.remove(0);
        self.subscribers.insert(sub, s);
        Some(v)
    }

    /// Takes, for subscription `sub`, the oldest waiting value that `keep`
    /// accepts; the values before it, which `keep` rejects, are dropped and
    /// reported to no one. With no such value, everything waiting is dropped.
    pub fn take_filtered<P: Fn(&T) -> bool>(&mut self, sub: usize, keep: &P) -> (r: Option<T>)
        requires
            sub < old(self).count(),
            forall|v: T| #[trigger] keep.requires((&v,)),
        ensures
            final(self).count() == old(self).count(),
            final(self).current() == old(self).current(),
            forall|i: int|
                #![trigger final(self).inbox(i)]
                0 <= i < old(self).count() && i != sub ==> final(self).inbox(i) == old(self).inbox(i),
            forall|i: int|
                0 <= i < old(self).count() ==> final(self).is_active(i) == old(self).is_active(i),
            r is None ==> final(self).inbox(sub as int) == Seq::<T>::empty() && forall|j: int|
                0 <= j < old(self).inbox(sub as int).len() ==> keep.ensures(
                    (&old(self).inbox(sub as int)[j],),
                    false,
                ),
            r matches Some(v) ==> exists|k: int|
                #![trigger old(self).inbox(sub as int)[k]]
                0 <= k < old(self).inbox(sub as int).len() && old(self).inbox(sub as int)[k] == v
                    && keep.ensures((&v,), true) && (forall|j: int|
                    0 <= j < k ==> keep.ensures((&old(self).inbox(sub as int)[j],), false))
                    && final(self).inbox(sub as int) == old(self).inbox(sub as int).skip(k + 1),
    {
        let ghost start = old(self).inbox(sub as int);
        let ghost mut k: int = 0;
        assert(start.skip(0) =~= start);
        loop
            invariant
                sub < self.count(),
                self.count() == old(self).count(),
                self.current() == old(self).current(),
                forall|i: int|
                    #![trigger self.inbox(i)]
                    0 <= i < old(self).count() && i != sub ==> self.inbox(i) == old(self).inbox(i),
                forall|i: int|
                    0 <= i < old(self).count() ==> self.is_active(i) == old(self).is_active(i),
                forall|v: T| #[trigger] keep.requires((&v,)),
                start == old(self).inbox(sub as int),
                0 <= k <= start.len(),
                self.inbox(sub as int) == start.skip(k),
                forall|j: int| 0 <= j < k ==> keep.ensures((&start[j],), false),
            decreases start.len() - k,
        {
            match self.take(sub) {
                None => {
                    assert(k == start.len());
                    return None;
                },
                Some(v) => {
                    assert(start[k] == v);
                    assert(start.skip(k).drop_first() =~= start.skip(k + 1));
                    if keep(&v) {
                        return Some(v);
                    }
                    proof {
                        k = k + 1;
                    }
                },
            }
        }
    }

    /// Takes the oldest value waiting for subscription `sub`, transformed
    /// by `f`; nothing is dropped.
    pub fn take_mapped<U, F: Fn(T) -> U>(&mut self, sub: usize, f: &F) -> (r: Option<U>)
        requires
            sub < old(self).count(),
            forall|v: T| #[trigger] f.requires((v,)),
        ensures
            final(self).count() == old(self).count(),
            final(self).current() == old(self).current(),
            forall|i: int|
                #![trigger final(self).inbox(i)]
                0 <= i < old(self).count() && i != sub ==> final(self).inbox(i) == old(self).inbox(i),
            forall|i: int|
                0 <= i < old(self).count() ==> final(self).is_active(i) == old(self).is_active(i),
            old(self).inbox(sub as int).len() == 0 ==> r is None && *final(self) == *old(self),
            old(self).inbox(sub as int).len() > 0 ==> (r matches Some(u) && f.ensures(
                (old(self).inbox(sub as int)[0],),
                u,
            )) && final(self).inbox(sub as int) == old(self).inbox(sub as int).drop_first(),
    {
        match self.take(sub) {
            None => None,
            Some(v) => Some(f(v)),
        }
    }

    /// Ends subscription `sub`: it receives nothing more, and what was
    /// waiting for it is dropped. Cancelling twice changes nothing.
    pub fn cancel(&mut self, sub: usize)
        requires
            sub < old(self).count(),
        ensures
            final(self).count() == old(self).count(),
            final(self).current() == old(self).current(),
            !final(self).is_active(sub as int),
            final(self).inbox(sub as int) == Seq::<T>::empty(),
            forall|i: int|
                #![trigger final(self).inbox(i)]
                0 <= i < old(self).count() && i != sub ==> final(self).inbox(i) == old(self).inbox(i)
                    && final(self).is_active(i) == old(self).is_active(i),
    {
        self.subscribers.set(sub, Subscriber { active: false, inbox: Vec::new() });
    }
}

} // verus!

verus! {

/// Over any run of `set` calls, each subscriber that was active at the
/// start receives a clone of every value, in the order the values were set,
/// behind what it already held: one delivery per value and subscriber.
pub proof fn lemma_every_value_in_order<T: Clone>(states: Seq<ReactiveCell<T>>, values: Seq<T>)
    requires
        states.len() == values.len() + 1,
        forall|k: int|
            0 <= k < values.len() ==> #[trigger] delivered(states[k], states[k + 1], values[k]),
    ensures
        states.last().count() == states[0].count(),
        forall|i: int|
            0 <= i < states[0].count() ==> #[trigger] states.last().is_active(i) == states[0].is_active(i),
        forall|i: int|
            #![trigger states.last().inbox(i)]
            0 <= i < states[0].count() && states[0].is_active(i) ==> {
                &&& states.last().inbox(i).len() == states[0].inbox(i).len() + values.len()
                &&& states.last().inbox(i).subrange(0, states[0].inbox(i).len() as int)
                    == states[0].inbox(i)
                &&& forall|k: int|
                    0 <= k < values.len() ==> cloned(
                        values[k],
                        #[trigger] states.last().inbox(i)[states[0].inbox(i).len() + k],
                    )
            },
    decreases values.len(),
{
    if values.len() > 0 {
        let m = values.len() - 1;
        let front = states.subrange(0, states.len() - 1);
        let vs = values.subrange(0, m as int);
        assert forall|k: int| 0 <= k < vs.len() implies #[trigger] delivered(front[k], front[k + 1], vs[k]) by {
            assert(delivered(states[k], states[k + 1], values[k]));
        }
        lemma_every_value_in_order(front, vs);
        assert(delivered(states[m as int], states[m + 1], values[m as int]));
        let mid = states[m as int];
        let last = states.last();
        assert(front.last() == mid);
        assert forall|i: int|
            #![trigger states.last().inbox(i)]
            0 <= i < states[0].count() && states[0].is_active(i) implies {
                &&& states.last().inbox(i).len() == states[0].inbox(i).len() + values.len()
                &&& states.last().inbox(i).subrange(0, states[0].inbox(i).len() as int)
                    == states[0].inbox(i)
                &&& forall|k: int|
                    0 <= k < values.len() ==> cloned(
                        values[k],
                        #[trigger] states.last().inbox(i)[states[0].inbox(i).len() + k],
                    )
            } by {
            assert(front.last() == mid);
            assert(mid.inbox(i).len() == states[0].inbox(i).len() + m);
            assert(mid.is_active(i));
            let a = states[0].inbox(i);
            let b = mid.inbox(i);
            let c = last.inbox(i);
            assert(c.subrange(0, b.len() as int) == b);
            assert forall|k: int| 0 <= k < values.len() implies cloned(values[k], #[trigger] c[a.len() + k]) by {
                if k < m {
                    assert(cloned(vs[k], b[a.len() + k]));
                    assert(c[a.len() + k] == c.subrange(0, b.len() as int)[a.len() + k]);
                } else {
                    assert(c[a.len() + k] == c.last());
                }
            }
            assert(c.subrange(0, a.len() as int) == b.subrange(0, a.len() as int));
        }
    }
}

} // verus!
