use vstd::prelude::*;
use crate::cell::ReactiveCell;

verus! {

/// A render-target node: whether it is mounted, its text, and the effects
/// bound to its lifetime, in registration order.
struct NodeRecord {
    mounted: bool,
    text: String,
    effects: Vec<usize>,
}

/// An effect: the node that owns it, the cell subscription that feeds it,
/// and whether it was disposed.
#[derive(Clone, Copy)]
struct EffectRecord {
    owner: usize,
    subscription: usize,
    disposed: bool,
}

/// Nodes and the effects bound to them. A node owns the list of its live
/// effects; an effect only keeps the index of its node.
pub struct NodeRegistry {
    nodes: Vec<NodeRecord>,
    effects: Vec<EffectRecord>,
}

impl NodeRegistry {
    pub closed spec fn node_count(&self) -> nat {
        self.nodes@.len()
    }

    pub closed spec fn effect_count(&self) -> nat {
        self.effects@.len()
    }

    pub closed spec fn is_mounted(&self, n: int) -> bool {
        self.nodes@[n].mounted
    }

    pub closed spec fn text_of(&self, n: int) -> Seq<char> {
        self.nodes@[n].text@
    }

    /// The live effects of node `n`, oldest first.
    pub closed spec fn disposal_list(&self, n: int) -> Seq<usize> {
        self.nodes@[n].effects@
    }

    pub closed spec fn owner(&self, e: int) -> int {
        self.effects@[e].owner as int
    }

    pub closed spec fn subscription(&self, e: int) -> int {
        self.effects@[e].subscription as int
    }

    pub closed spec fn is_disposed(&self, e: int) -> bool {
        self.effects@[e].disposed
    }

    /// Each live effect is listed once, by its owner; a listed effect is
    /// live; an unmounted node lists nothing.
    pub closed spec fn wf(&self) -> bool {
        &&& forall|e: int| 0 <= e < self.effects@.len() ==> #[trigger] self.effects@[e].owner < self.nodes@.len()
        &&& forall|n: int, k: int|
            #![trigger self.nodes@[n].effects@[k]]
            0 <= n < self.nodes@.len() && 0 <= k < self.nodes@[n].effects@.len() ==> {
                let e = self.nodes@[n].effects@[k] as int;
                &&& e < self.effects@.len()
                &&& self.effects@[e].owner == n
                &&& !self.effects@[e].disposed
            }
        &&& forall|n: int|
            0 <= n < self.nodes@.len() ==> (#[trigger] self.nodes@[n]).effects@.no_duplicates()
        &&& forall|e: usize|
            e < self.effects@.len() && !(#[trigger] self.effects@[e as int]).disposed
                ==> self.nodes@[self.effects@[e as int].owner as int].effects@.contains(e)
        &&& forall|n: int|
            0 <= n < self.nodes@.len() && !(#[trigger] self.nodes@[n]).mounted
                ==> self.nodes@[n].effects@.len() == 0
    }

    /// A registry with no nodes and no effects.
    pub fn new() -> (r: Self)
        ensures
            r.wf(),
            r.node_count() == 0,
            r.effect_count() == 0,
    {
        NodeRegistry { nodes: Vec::new(), effects: Vec::new() }
    }

    /// Creates a mounted node with no text and no effects.
    pub fn create_node(&mut self) -> (r: usize)
        requires
            old(self).wf(),
        ensures
            final(self).wf(),
            r == old(self).node_count(),
            final(self).node_count() == old(self).node_count() + 1,
            final(self).effect_count() == old(self).effect_count(),
            final(self).is_mounted(r as int),
            final(self).text_of(r as int) == Seq::<char>::empty(),
            final(self).disposal_list(r as int) == Seq::<usize>::empty(),
            forall|n: int|
                #![trigger final(self).disposal_list(n)]
                #![trigger final(self).is_mounted(n)]
                #![trigger final(self).text_of(n)]
                0 <= n < old(self).node_count() ==> final(self).disposal_list(n) == old(self).disposal_list(n) && final(self).is_mounted(n) == old(self).is_mounted(n)
                    && final(self).text_of(n) == old(self).text_of(n),
            forall|e: int|
                #![trigger final(self).is_disposed(e)]
                0 <= e < old(self).effect_count() ==> final(self).is_disposed(e) == old(self).is_disposed(e) && final(self).owner(e) == old(self).owner(e) && final(self).subscription(e) == old(self).subscription(e),
    {
        let r = self.nodes.len();
        self.nodes.push(NodeRecord { mounted: true, text: String::new(), effects: Vec::new() });
        proof {
            assert forall|n: int|
                0 <= n < self.nodes@.len() implies (#[trigger] self.nodes@[n]).effects@.no_duplicates() by {
                if n < r {
                    assert(old(self).nodes@[n] == self.nodes@[n]);
                }
            }
            assert forall|e: usize|
                e < self.effects@.len() && !(#[trigger] self.effects@[e as int]).disposed
                implies self.nodes@[self.effects@[e as int].owner as int].effects@.contains(e) by {
                assert(old(self).nodes@[self.effects@[e as int].owner as int] == self.nodes@[self.effects@[e as int].owner as int]);
            }
        }
        r
    }

    /// Binds a new effect, fed by cell subscription `subscription`, to the
    /// mounted node `node`; it goes last in the node's disposal list.
    pub fn spawn(&mut self, node: usize, subscription: usize) -> (r: usize)
        requires
            old(self).wf(),
            node < old(self).node_count(),
            old(self).is_mounted(node as int),
        ensures
            final(self).wf(),
            r == old(self).effect_count(),
            final(self).effect_count() == old(self).effect_count() + 1,
            final(self).node_count() == old(self).node_count(),
            final(self).owner(r as int) == node,
            final(self).subscription(r as int) == subscription,
            !final(self).is_disposed(r as int),
            final(self).disposal_list(node as int) == old(self).disposal_list(node as int).push(r),
            forall|n: int|
                #![trigger final(self).disposal_list(n)]
                0 <= n < old(self).node_count() && n != node ==> final(self).disposal_list(n) == old(self).disposal_list(n),
            forall|n: int|
                #![trigger final(self).is_mounted(n)]
                0 <= n < old(self).node_count() ==> final(self).is_mounted(n) == old(self).is_mounted(n)
                    && final(self).text_of(n) == old(self).text_of(n),
            forall|e: int|
                #![trigger final(self).is_disposed(e)]
                0 <= e < old(self).effect_count() ==> final(self).is_disposed(e) == old(self).is_disposed(e) && final(self).owner(e) == old(self).owner(e) && final(self).subscription(e) == old(self).subscription(e),
    {
        let r = self.effects.len();
        self.effects.push(EffectRecord { owner: node, subscription, disposed: false });
        let mut rec = self.nodes.remove(node);
        proof {
            assert(!rec.effects@.contains(r)) by {
                if rec.effects@.contains(r) {
                    let k = choose|k: int| 0 <= k < rec.effects@.len() && rec.effects@[k] == r;
                    assert(old(self).nodes@[node as int].effects@[k] == r);
                }
            }
        }
        rec.effects.push(r);
        self.nodes.insert(node, rec);
        proof {
            let o = old(self);
            assert forall|n: int, k: int|
                #![trigger self.nodes@[n].effects@[k]]
                0 <= n < self.nodes@.len() && 0 <= k < self.nodes@[n].effects@.len() implies {
                let e = self.nodes@[n].effects@[k] as int;
                &&& e < self.effects@.len()
                &&& self.effects@[e].owner == n
                &&& !self.effects@[e].disposed
            } by {
                if n == node && k == self.nodes@[n].effects@.len() - 1 {
                } else {
                    assert(self.nodes@[n].effects@[k] == o.nodes@[n].effects@[k]);
                }
            }
            assert forall|n: int|
                0 <= n < self.nodes@.len() implies (#[trigger] self.nodes@[n]).effects@.no_duplicates() by {
                if n != node {
                    assert(o.nodes@[n] == self.nodes@[n]);
                }
            }
            assert forall|e: usize|
                e < self.effects@.len() && !(#[trigger] self.effects@[e as int]).disposed
                implies self.nodes@[self.effects@[e as int].owner as int].effects@.contains(e) by {
                let n = self.effects@[e as int].owner as int;
                if e == r {
                    assert(self.nodes@[n].effects@.last() == r);
                } else {
                    assert(o.effects@[e as int] == self.effects@[e as int]);
                    assert(o.nodes@[n].effects@.contains(e));
                    let k = choose|k: int| 0 <= k < o.nodes@[n].effects@.len() && o.nodes@[n].effects@[k] == e;
                    if n == node {
                        assert(self.nodes@[n].effects@[k] == e);
                    } else {
                        assert(self.nodes@[n] == o.nodes@[n]);
                    }
                }
            }
            assert forall|n: int|
                0 <= n < self.nodes@.len() && !(#[trigger] self.nodes@[n]).mounted
                implies self.nodes@[n].effects@.len() == 0 by {
                assert(n != node);
                assert(o.nodes@[n] == self.nodes@[n]);
            }
        }
        r
    }

    /// Disposes effect `e`: marks it cancelled and takes it out of its
    /// owner's disposal list. Disposing it again changes nothing.
    pub fn dispose(&mut self, e: usize)
        requires
            old(self).wf(),
            e < old(self).effect_count(),
        ensures
            final(self).wf(),
            final(self).is_disposed(e as int),
            old(self).is_disposed(e as int) ==> *final(self) == *old(self),
            !old(self).is_disposed(e as int) ==> exists|k: int|
                0 <= k < old(self).disposal_list(old(self).owner(e as int)).len()
                    && old(self).disposal_list(old(self).owner(e as int))[k] == e
                    && final(self).disposal_list(old(self).owner(e as int)) == old(self).disposal_list(
                    old(self).owner(e as int),
                ).remove(k),
            final(self).node_count() == old(self).node_count(),
            final(self).effect_count() == old(self).effect_count(),
            forall|n: int|
                #![trigger final(self).disposal_list(n)]
                0 <= n < old(self).node_count() && n != old(self).owner(e as int)
                    ==> final(self).disposal_list(n) == old(self).disposal_list(n),
            forall|n: int|
                #![trigger final(self).is_mounted(n)]
                0 <= n < old(self).node_count() ==> final(self).is_mounted(n) == old(self).is_mounted(n)
                    && final(self).text_of(n) == old(self).text_of(n),
            forall|x: int|
                #![trigger final(self).is_disposed(x)]
                0 <= x < old(self).effect_count() && x != e ==> final(self).is_disposed(x) == old(
                self).is_disposed(x) && final(self).owner(x) == old(self).owner(x)
                    && final(self).subscription(x) == old(self).subscription(x),
    {
        let rec = self.effects[e];
        if rec.disposed {
            return;
        }
        let n = rec.owner;
        let ghost o = *self;
        assert(o.nodes@[n as int].effects@.contains(e));
        let len = self.nodes[n].effects.len();
        let mut k: usize = 0;
        while k < len && self.nodes[n].effects[k] != e
            invariant
                *self == o,
                len == o.nodes@[n as int].effects@.len(),
                n < o.nodes@.len(),
                k <= len,
                o.nodes@[n as int].effects@.contains(e),
                forall|j: int| 0 <= j < k ==> o.nodes@[n as int].effects@[j] != e,
            decreases len - k,
        {
            k = k + 1;
        }
        assert(k < len) by {
            if k == len {
                let j = choose|j: int| 0 <= j < len && o.nodes@[n as int].effects@[j] == e;
            }
        }
        assert(k < len && o.nodes@[n as int].effects@[k as int] == e);
        let mut node = self.nodes.remove(n);
        node.effects.remove(k);
        self.nodes.insert(n, node);
        self.effects.set(e, EffectRecord { owner: rec.owner, subscription: rec.subscription, disposed: true });
        proof {
            let old_list = o.nodes@[n as int].effects@;
            let new_list = self.nodes@[n as int].effects@;
            assert(new_list == old_list.remove(k as int));
            assert(old_list[k as int] == e);
            assert forall|i: int| 0 <= i < new_list.len() implies new_list[i] != e by {
                if i < k {
                } else {
                    assert(new_list[i] == old_list[i + 1]);
                }
            }
            assert forall|m: int, j: int|
                #![trigger self.nodes@[m].effects@[j]]
                0 <= m < self.nodes@.len() && 0 <= j < self.nodes@[m].effects@.len() implies {
                let x = self.nodes@[m].effects@[j] as int;
                &&& x < self.effects@.len()
                &&& self.effects@[x].owner == m
                &&& !self.effects@[x].disposed
            } by {
                if m == n {
                    if j < k {
                        assert(new_list[j] == old_list[j]);
                    } else {
                        assert(new_list[j] == old_list[j + 1]);
                    }
                } else {
                    assert(self.nodes@[m] == o.nodes@[m]);
                    assert(self.nodes@[m].effects@[j] == o.nodes@[m].effects@[j]);
                    assert(o.effects@[o.nodes@[m].effects@[j] as int].owner == m);
                }
            }
            assert forall|m: int|
                0 <= m < self.nodes@.len() implies (#[trigger] self.nodes@[m]).effects@.no_duplicates() by {
                if m == n {
                    assert forall|a: int, b: int| 0 <= a < b < new_list.len() implies new_list[a] != new_list[b] by {
                        let a2 = if a < k { a } else { a + 1 };
                        let b2 = if b < k { b } else { b + 1 };
                        assert(new_list[a] == old_list[a2]);
                        assert(new_list[b] == old_list[b2]);
                        assert(o.nodes@[n as int].effects@.no_duplicates());
                    }
                } else {
                    assert(self.nodes@[m] == o.nodes@[m]);
                }
            }
            assert forall|x: usize|
                x < self.effects@.len() && !(#[trigger] self.effects@[x as int]).disposed
                implies self.nodes@[self.effects@[x as int].owner as int].effects@.contains(x) by {
                assert(x != e);
                assert(self.effects@[x as int] == o.effects@[x as int]);
                let m = o.effects@[x as int].owner as int;
                assert(o.nodes@[m].effects@.contains(x));
                let j = choose|j: int| 0 <= j < o.nodes@[m].effects@.len() && o.nodes@[m].effects@[j] == x;
                if m == n {
                    assert(old_list[k as int] == e);
                    assert(j != k as int);
                    if j < k {
                        assert(new_list[j] == x);
                    } else {
                        assert(new_list[j - 1] == x);
                    }
                } else {
                    assert(self.nodes@[m] == o.nodes@[m]);
                }
            }
            assert(self.disposal_list(o.owner(e as int)) == o.disposal_list(o.owner(e as int)).remove(k as int));
            assert forall|m: int|
                0 <= m < self.nodes@.len() && !(#[trigger] self.nodes@[m]).mounted
                implies self.nodes@[m].effects@.len() == 0 by {
                if m == n {
                    assert(o.nodes@[m].effects@.len() > 0);
                } else {
                    assert(self.nodes@[m] == o.nodes@[m]);
                }
            }
        }
    }

    /// Unmounts `node`: disposes its effects, the most recent first, and
    /// returns them in the order they were disposed.
    pub fn unmount(&mut self, node: usize) -> (r: Vec<usize>)
        requires
            old(self).wf(),
            node < old(self).node_count(),
        ensures
            final(self).wf(),
            r@ == old(self).disposal_list(node as int).reverse(),
            !final(self).is_mounted(node as int),
            final(self).disposal_list(node as int) == Seq::<usize>::empty(),
            final(self).text_of(node as int) == old(self).text_of(node as int),
            final(self).node_count() == old(self).node_count(),
            final(self).effect_count() == old(self).effect_count(),
            forall|k: int| 0 <= k < r@.len() ==> final(self).is_disposed(#[trigger] r@[k] as int),
            forall|k: int| 0 <= k < r@.len() ==> #[trigger] r@[k] < final(self).effect_count(),
            forall|n: int|
                #![trigger final(self).disposal_list(n)]
                0 <= n < old(self).node_count() && n != node ==> final(self).disposal_list(n) == old(
                self).disposal_list(n),
            forall|n: int|
                #![trigger final(self).is_mounted(n)]
                0 <= n < old(self).node_count() && n != node ==> final(self).is_mounted(n) == old(
                self).is_mounted(n) && final(self).text_of(n) == old(self).text_of(n),
            forall|x: int|
                #![trigger final(self).is_disposed(x)]
                0 <= x < old(self).effect_count() && !old(self).disposal_list(node as int).contains(
                    x as usize,
                ) ==> final(self).is_disposed(x) == old(self).is_disposed(x),
            forall|x: int|
                #![trigger final(self).owner(x)]
                0 <= x < old(self).effect_count() ==> final(self).owner(x) == old(self).owner(x)
                    && final(self).subscription(x) == old(self).subscription(x),
    {
        let ghost o = *self;
        let ghost list0 = o.nodes@[node as int].effects@;
        let mut out: Vec<usize> = Vec::new();
        let mut rec = self.nodes.remove(node);
        let ghost mid = *self;
        let mut rest = Vec::new();
        std::mem::swap(&mut rest, &mut rec.effects);
        self.nodes.insert(node, rec);
        assert(forall|m: int| 0 <= m < o.nodes@.len() && m != node ==> self.nodes@[m] == o.nodes@[m]);
        assert(rest@ == list0);
        let ghost before = *self;
        assert(list0 =~= rest@ + out@.reverse());
        let mut done = false;
        while rest.len() > 0
            invariant
                list0 == rest@ + out@.reverse(),
                self.nodes@.len() == o.nodes@.len(),
                self.effects@.len() == o.effects@.len(),
                self.nodes@ == before.nodes@,
                forall|m: int| 0 <= m < o.nodes@.len() && m != node ==> #[trigger] self.nodes@[m] == o.nodes@[m],
                self.nodes@[node as int].mounted == o.nodes@[node as int].mounted,
                self.nodes@[node as int].text == o.nodes@[node as int].text,
                self.nodes@[node as int].effects@.len() == 0,
                forall|k: int| 0 <= k < out@.len() ==> #[trigger] self.effects@[out@[k] as int].disposed,
                forall|k: int| 0 <= k < out@.len() ==> (#[trigger] out@[k]) < self.effects@.len(),
                forall|x: int|
                    #![trigger self.effects@[x]]
                    0 <= x < o.effects@.len() ==> self.effects@[x].owner == o.effects@[x].owner
                        && self.effects@[x].subscription == o.effects@[x].subscription,
                forall|x: int|
                    #![trigger self.effects@[x]]
                    0 <= x < o.effects@.len() && !list0.contains(x as usize) ==> self.effects@[x]
                        == o.effects@[x],
                forall|k: int|
                    0 <= k < rest@.len() ==> self.effects@[#[trigger] rest@[k] as int] == o.effects@[rest@[k] as int],
                o.wf(),
                list0 == o.nodes@[node as int].effects@,
                node < o.nodes@.len(),
            decreases rest@.len(),
        {
            let ghost r0 = rest@;
            let e = rest.pop().unwrap();
            assert(r0 == rest@.push(e));
            assert(list0[r0.len() - 1] == e);
            let er = self.effects[e];
            self.effects.set(e, EffectRecord { owner: er.owner, subscription: er.subscription, disposed: true });
            out.push(e);
            assert(list0 =~= rest@ + out@.reverse());
            assert forall|k: int| 0 <= k < rest@.len() implies self.effects@[#[trigger] rest@[k] as int] == o.effects@[rest@[k] as int] by {
                assert(list0[k] == rest@[k]);
                assert(list0[r0.len() - 1] == e);
                assert(o.nodes@[node as int].effects@.no_duplicates());
                assert(r0[k] == rest@[k]);
            }
        }
        assert(out@.reverse().reverse() =~= out@);
        assert(list0 =~= out@.reverse());
        let mut rec = self.nodes.remove(node);
        rec.mounted = false;
        self.nodes.insert(node, rec);
        proof {
            assert(out@ =~= list0.reverse());
            assert forall|x: usize|
                x < self.effects@.len() && !(#[trigger] self.effects@[x as int]).disposed
                implies self.nodes@[self.effects@[x as int].owner as int].effects@.contains(x) by {
                if list0.contains(x) {
                    let k = choose|k: int| 0 <= k < list0.len() && list0[k] == x;
                    assert(out@[list0.len() - 1 - k] == x);
                } else {
                    assert(self.effects@[x as int] == o.effects@[x as int]);
                    let m = o.effects@[x as int].owner as int;
                    if m == node as int {
                    } else {
                        assert(self.nodes@[m] == o.nodes@[m]);
                    }
                }
            }
            assert forall|m: int, j: int|
                #![trigger self.nodes@[m].effects@[j]]
                0 <= m < self.nodes@.len() && 0 <= j < self.nodes@[m].effects@.len() implies {
                let x = self.nodes@[m].effects@[j] as int;
                &&& x < self.effects@.len()
                &&& self.effects@[x].owner == m
                &&& !self.effects@[x].disposed
            } by {
                assert(m != node);
                assert(self.nodes@[m] == o.nodes@[m]);
                let x = o.nodes@[m].effects@[j];
                assert(o.effects@[x as int].owner == m);
                if list0.contains(x) {
                    let k = choose|k: int| 0 <= k < list0.len() && list0[k] == x;
                    assert(o.effects@[list0[k] as int].owner == node);
                }
            }
            assert forall|m: int|
                0 <= m < self.nodes@.len() implies (#[trigger] self.nodes@[m]).effects@.no_duplicates() by {
                if m != node {
                    assert(self.nodes@[m] == o.nodes@[m]);
                }
            }
            assert forall|m: int|
                0 <= m < self.nodes@.len() && !(#[trigger] self.nodes@[m]).mounted
                implies self.nodes@[m].effects@.len() == 0 by {
                if m != node {
                    assert(self.nodes@[m] == o.nodes@[m]);
                }
            }
        }
        out
    }

    /// Replaces the text of `node`.
    pub fn set_text(&mut self, node: usize, text: String)
        requires
            old(self).wf(),
            node < old(self).node_count(),
        ensures
            final(self).wf(),
            final(self).text_of(node as int) == text@,
            final(self).node_count() == old(self).node_count(),
            final(self).effect_count() == old(self).effect_count(),
            forall|n: int|
                #![trigger final(self).disposal_list(n)]
                0 <= n < old(self).node_count() ==> final(self).disposal_list(n) == old(
                self).disposal_list(n) && final(self).is_mounted(n) == old(self).is_mounted(n),
            forall|n: int|
                #![trigger final(self).text_of(n)]
                0 <= n < old(self).node_count() && n != node ==> final(self).text_of(n) == old(
                self).text_of(n),
            forall|x: int|
                #![trigger final(self).is_disposed(x)]
                0 <= x < old(self).effect_count() ==> final(self).is_disposed(x) == old(
                self).is_disposed(x) && final(self).owner(x) == old(self).owner(x)
                    && final(self).subscription(x) == old(self).subscription(x),
    {
        let mut rec = self.nodes.remove(node);
        rec.text = text;
        self.nodes.insert(node, rec);
        proof {
            let o = old(self);
            assert forall|m: int| 0 <= m < o.nodes@.len() && m != node implies #[trigger] self.nodes@[m] == o.nodes@[m] by {
                if m < node {
                    assert(self.nodes@[m] == o.nodes@[m]);
                } else {
                    assert(self.nodes@[m] == o.nodes@[m]);
                }
            }
            assert(self.nodes@[node as int].effects == o.nodes@[node as int].effects);
        }
    }

    /// The text of `node`.
    pub fn text(&self, node: usize) -> (r: &String)
        requires
            node < self.node_count(),
        ensures
            r@ == self.text_of(node as int),
    {
        &self.nodes[node].text
    }

    /// Whether `node` is mounted.
    pub fn mounted(&self, node: usize) -> (r: bool)
        requires
            node < self.node_count(),
        ensures
            r == self.is_mounted(node as int),
    {
        self.nodes[node].mounted
    }

    /// Whether effect `e` was disposed.
    pub fn disposed(&self, e: usize) -> (r: bool)
        requires
            e < self.effect_count(),
        ensures
            r == self.is_disposed(e as int),
    {
        self.effects[e].disposed
    }

    /// The next value for effect `e` to run on, taken from its subscription
    /// to `cell`. A disposed effect gets nothing, and the cell is left as
    /// it was.
    pub fn poll<T: Clone>(&self, e: usize, cell: &mut ReactiveCell<T>) -> (r: Option<T>)
        requires
            e < self.effect_count(),
            self.subscription(e as int) < old(cell).count(),
        ensures
            self.is_disposed(e as int) ==> r is None && *final(cell) == *old(cell),
            !self.is_disposed(e as int) ==> {
                let s = self.subscription(e as int);
                &&& final(cell).count() == old(cell).count()
                &&& final(cell).current() == old(cell).current()
                &&& old(cell).inbox(s).len() == 0 ==> r is None && *final(cell) == *old(cell)
                &&& old(cell).inbox(s).len() > 0 ==> r == Some(old(cell).inbox(s)[0])
                    && final(cell).inbox(s) == old(cell).inbox(s).drop_first()
                &&& forall|i: int|
                    #![trigger final(cell).inbox(i)]
                    0 <= i < old(cell).count() && i != s ==> final(cell).inbox(i) == old(cell).inbox(i)
                &&& forall|i: int|
                    0 <= i < old(cell).count() ==> final(cell).is_active(i) == old(cell).is_active(i)
            },
    {
        let rec = self.effects[e];
        if rec.disposed {
            return None;
        }
        cell.take(rec.subscription)
    }

    /// One run of a text binding: when effect `e` has a value waiting in
    /// `cell`, that value becomes the text of the effect's node. Returns
    /// whether it ran; a disposed effect never runs.
    pub fn update_text(&mut self, e: usize, cell: &mut ReactiveCell<String>) -> (r: bool)
        requires
            old(self).wf(),
            e < old(self).effect_count(),
            old(self).subscription(e as int) < old(cell).count(),
        ensures
            final(self).wf(),
            final(self).node_count() == old(self).node_count(),
            final(self).effect_count() == old(self).effect_count(),
            old(self).is_disposed(e as int) ==> !r && *final(self) == *old(self) && *final(cell) == *old(cell),
            !old(self).is_disposed(e as int) ==> {
                let s = old(self).subscription(e as int);
                let n = old(self).owner(e as int);
                &&& final(cell).count() == old(cell).count()
                &&& r == (old(cell).inbox(s).len() > 0)
                &&& !r ==> *final(self) == *old(self) && *final(cell) == *old(cell)
                &&& r ==> final(self).text_of(n) == old(cell).inbox(s)[0]@
                    && final(cell).inbox(s) == old(cell).inbox(s).drop_first()
            },
            forall|n: int|
                #![trigger final(self).disposal_list(n)]
                0 <= n < old(self).node_count() ==> final(self).disposal_list(n) == old(self).disposal_list(n)
                    && final(self).is_mounted(n) == old(self).is_mounted(n),
            forall|n: int|
                #![trigger final(self).text_of(n)]
                0 <= n < old(self).node_count() && n != old(self).owner(e as int) ==> final(self).text_of(n)
                    == old(self).text_of(n),
            forall|x: int|
                #![trigger final(self).is_disposed(x)]
                0 <= x < old(self).effect_count() ==> final(self).is_disposed(x) == old(self).is_disposed(x)
                    && final(self).owner(x) == old(self).owner(x) && final(self).subscription(x)
                    == old(self).subscription(x),
    {
        match self.poll(e, cell) {
            None => false,
            Some(v) => {
                let owner = self.effects[e].owner;
                self.set_text(owner, v);
                true
            },
        }
    }
}

} // verus!
