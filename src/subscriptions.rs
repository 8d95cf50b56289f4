//! The subscription index: for each quadrant, the connections that asked
//! for its updates.

use vstd::prelude::*;

verus! {

/// Removes `x` from a list without duplicates.
fn remove_value(v: &mut Vec<usize>, x: usize)
    requires
        old(v)@.no_duplicates(),
    ensures
        final(v)@.no_duplicates(),
        final(v)@.to_set() == old(v)@.to_set().remove(x),
{
    let mut k: usize = 0;
    while k < v.len()
        invariant
            v@ == old(v)@,
            v@.no_duplicates(),
            0 <= k <= v@.len(),
            forall|m: int| 0 <= m < k ==> v@[m] != x,
        decreases v@.len() - k,
    {
        if v[k] == x {
            let ghost s = v@;
            v.remove(k);
            assert forall|y: usize| #[trigger] v@.contains(y) <==> s.contains(y) && y != x by {
                if s.contains(y) && y != x {
                    let m = choose|m: int| 0 <= m < s.len() && s[m] == y;
                    if m < k {
                        assert(v@[m] == y);
                    } else {
                        assert(v@[m - 1] == y);
                    }
                }
                if v@.contains(y) {
                    let m = choose|m: int| 0 <= m < v@.len() && v@[m] == y;
                    assert(s[k as int] == x);
                    if m < k {
                        assert(s[m] == y);
                    } else {
                        assert(s[m + 1] == y);
                    }
                }
            }
            assert(v@.to_set() =~= s.to_set().remove(x));
            return;
        }
        k = k + 1;
    }
    assert(v@.to_set() =~= v@.to_set().remove(x));
}

/// Adds `x` to a list without duplicates, unless it is there already.
fn insert_value(v: &mut Vec<usize>, x: usize)
    requires
        old(v)@.no_duplicates(),
    ensures
        final(v)@.no_duplicates(),
        final(v)@.to_set() == old(v)@.to_set().insert(x),
{
    let mut k: usize = 0;
    while k < v.len()
        invariant
            v@ == old(v)@,
            v@.no_duplicates(),
            0 <= k <= v@.len(),
            forall|m: int| 0 <= m < k ==> v@[m] != x,
        decreases v@.len() - k,
    {
        if v[k] == x {
            assert(v@.contains(x));
            assert(v@.to_set() =~= v@.to_set().insert(x));
            return;
        }
        k = k + 1;
    }
    let ghost s = v@;
    v.push(x);
    assert(v@ =~= s.push(x));
    assert forall|y: usize| #[trigger] v@.contains(y) <==> s.contains(y) || y == x by {
        if s.contains(y) {
            let m = choose|m: int| 0 <= m < s.len() && s[m] == y;
            assert(v@[m] == y);
        }
        if y == x {
            assert(v@[s.len() as int] == y);
        }
        if v@.contains(y) && y != x {
            let m = choose|m: int| 0 <= m < v@.len() && v@[m] == y;
            assert(s[m] == y);
        }
    }
    assert(v@.to_set() =~= s.to_set().insert(x));
}

/// Quadrant id → ids of the connections subscribed to it.
pub struct SubscriptionIndex {
    subs: Vec<Vec<usize>>,
}

impl SubscriptionIndex {
    /// The subscribers of each quadrant, indexed by quadrant id.
    pub closed spec fn view(&self) -> Seq<Set<usize>> {
        Seq::new(self.subs@.len(), |q: int| self.subs@[q]@.to_set())
    }

    pub closed spec fn wf(&self) -> bool {
        forall|q: int| 0 <= q < self.subs@.len() ==> (#[trigger] self.subs@[q])@.no_duplicates()
    }

    /// No subscriber yet for any of `quadrant_count` quadrants.
    pub fn new(quadrant_count: usize) -> (r: SubscriptionIndex)
        ensures
            r.wf(),
            r.view() == Seq::new(quadrant_count as nat, |q: int| Set::<usize>::empty()),
    {
        let mut subs: Vec<Vec<usize>> = Vec::new();
        let mut q: usize = 0;
        while q < quadrant_count
            invariant
                0 <= q <= quadrant_count,
                subs@.len() == q,
                forall|k: int| 0 <= k < q ==> (#[trigger] subs@[k])@ == Seq::<usize>::empty(),
            decreases quadrant_count - q,
        {
            subs.push(Vec::new());
            q = q + 1;
        }
        let r = SubscriptionIndex { subs };
        assert forall|k: int| 0 <= k < quadrant_count implies #[trigger] r.view()[k]
            =~= Set::<usize>::empty() by {
            assert(r.subs@[k]@ == Seq::<usize>::empty());
        }
        assert(r.view() =~= Seq::new(quadrant_count as nat, |q: int| Set::<usize>::empty()));
        r
    }

    pub fn len(&self) -> (r: usize)
        ensures
            r == self.view().len(),
    {
        self.subs.len()
    }

    /// Subscribes connection `id` to quadrant `q`.
    pub fn subscribe(&mut self, id: usize, q: usize)
        requires
            old(self).wf(),
            q < old(self).view().len(),
        ensures
            final(self).wf(),
            final(self).view() == old(self).view().update(q as int, old(self).view()[q as int].insert(id)),
    {
        insert_value(&mut self.subs[q], id);
        assert(self.view() =~= old(self).view().update(
            q as int,
            old(self).view()[q as int].insert(id),
        ));
    }

    /// Unsubscribes connection `id` from quadrant `q`; nothing happens if
    /// it was not subscribed.
    pub fn unsubscribe(&mut self, id: usize, q: usize)
        requires
            old(self).wf(),
            q < old(self).view().len(),
        ensures
            final(self).wf(),
            final(self).view() == old(self).view().update(q as int, old(self).view()[q as int].remove(id)),
    {
        remove_value(&mut self.subs[q], id);
        assert(self.view() =~= old(self).view().update(
            q as int,
            old(self).view()[q as int].remove(id),
        ));
    }

    /// Unsubscribes connection `id` from every quadrant.
    pub fn purge(&mut self, id: usize)
        requires
            old(self).wf(),
        ensures
            final(self).wf(),
            final(self).view() == old(self).view().map_values(|s: Set<usize>| s.remove(id)),
    {
        let mut q: usize = 0;
        while q < self.subs.len()
            invariant
                self.wf(),
                0 <= q <= self.subs@.len(),
                self.subs@.len() == old(self).subs@.len(),
                forall|k: int|
                    0 <= k < q ==> (#[trigger] self.subs@[k])@.to_set() == old(
                        self,
                    ).subs@[k]@.to_set().remove(id),
                forall|k: int| q <= k < self.subs@.len() ==> #[trigger] self.subs@[k] == old(self).subs@[k],
            decreases self.subs@.len() - q,
        {
            remove_value(&mut self.subs[q], id);
            q = q + 1;
        }
        assert(self.view() =~= old(self).view().map_values(|s: Set<usize>| s.remove(id)));
    }

    /// Unsubscribes every connection in `ids` from every quadrant.
    pub fn purge_all(&mut self, ids: &Vec<usize>)
        requires
            old(self).wf(),
        ensures
            final(self).wf(),
            final(self).view() == old(self).view().map_values(
                |s: Set<usize>| s.difference(ids@.to_set()),
            ),
    {
        let mut k: usize = 0;
        proof {
            let start = old(self).view().map_values(
                |s: Set<usize>| s.difference(ids@.take(0).to_set()),
            );
            assert forall|q: int| 0 <= q < start.len() implies #[trigger] start[q] =~= old(
                self,
            ).view()[q] by {}
            assert(self.view() =~= start);
        }
        while k < ids.len()
            invariant
                self.wf(),
                0 <= k <= ids@.len(),
                self.view() == old(self).view().map_values(
                    |s: Set<usize>| s.difference(ids@.take(k as int).to_set()),
                ),
            decreases ids@.len() - k,
        {
            let ghost before = self.view();
            self.purge(ids[k]);
            proof {
                let target = old(self).view().map_values(
                    |s: Set<usize>| s.difference(ids@.take(k + 1).to_set()),
                );
                assert(ids@.take(k + 1) =~= ids@.take(k as int).push(ids@[k as int]));
                assert forall|q: int| 0 <= q < target.len() implies #[trigger] self.view()[q]
                    =~= target[q] by {
                    assert forall|x: usize| ids@.take(k + 1).contains(x) <==> ids@.take(
                        k as int,
                    ).contains(x) || x == ids@[k as int] by {
                        if ids@.take(k + 1).contains(x) && x != ids@[k as int] {
                            let m = choose|m: int| 0 <= m < k + 1 && #[trigger] ids@.take(k + 1)[m] == x;
                            assert(ids@.take(k as int)[m] == x);
                        }
                        if x == ids@[k as int] {
                            assert(ids@.take(k + 1)[k as int] == x);
                        }
                        if ids@.take(k as int).contains(x) {
                            let m = choose|m: int| 0 <= m < k && #[trigger] ids@.take(k as int)[m] == x;
                            assert(ids@.take(k + 1)[m] == x);
                        }
                    }
                }
                assert(self.view() =~= target);
            }
            k = k + 1;
        }
        assert(ids@.take(k as int) =~= ids@);
    }

    /// The subscribers of quadrant `q`, each once, in order of subscription.
    pub fn subscribers_of(&self, q: usize) -> (r: Vec<usize>)
        requires
            self.wf(),
            q < self.view().len(),
        ensures
            r@.to_set() == self.view()[q as int],
            r@.no_duplicates(),
    {
        self.subs[q].clone()
    }
}

} // verus!
