//! Live connections: numeric ids handed out in increasing order, the time of
//! each connection's last activity, and a bounded outbox per connection.

use crate::message::{envelopes, Envelope, Outbound};
use vstd::prelude::*;

verus! {

broadcast use vstd::seq_lib::group_seq_properties;

/// Why a connection was not admitted.
#[derive(Debug, Clone, Copy, PartialEq, Eq, Structural)]
pub enum RegistryError {
    /// The registry is full, or no further id can be allocated.
    ConnectionLimitReached,
}

/// The state of one live connection.
#[verifier::ext_equal]
pub struct ConnectionView {
    pub id: usize,
    /// Milliseconds timestamp of the last sign of life.
    pub last_active: u64,
    /// Messages queued and not yet taken.
    pub outbox: Seq<Envelope>,
    /// Whether anything has been taken from the outbox yet.
    pub drained: bool,
}

/// Which connections a message is meant for.
pub enum Audience {
    Everyone,
    Only(Vec<usize>),
}

impl Audience {
    pub open spec fn includes(&self, id: usize) -> bool {
        match self {
            Audience::Everyone => true,
            Audience::Only(ids) => ids@.contains(id),
        }
    }

    fn contains(&self, id: usize) -> (r: bool)
        ensures
            r == self.includes(id),
    {
        match self {
            Audience::Everyone => true,
            Audience::Only(ids) => {
                let mut k: usize = 0;
                while k < ids.len()
                    invariant
                        self.includes(id) == ids@.contains(id),
                        0 <= k <= ids@.len(),
                        forall|m: int| 0 <= m < k ==> ids@[m] != id,
                    decreases ids@.len() - k,
                {
                    if ids[k] == id {
                        assert(ids@[k as int] == id);
                        return true;
                    }
                    k = k + 1;
                }
                false
            },
        }
    }
}

pub open spec fn has_id(s: Seq<ConnectionView>, id: usize) -> bool {
    exists|i: int| 0 <= i < s.len() && s[i].id == id
}

/// Ids strictly increase along the sequence, so no id occurs twice.
pub open spec fn ids_increasing(s: Seq<ConnectionView>) -> bool {
    forall|i: int, j: int| 0 <= i < j < s.len() ==> s[i].id < s[j].id
}

/// A connection that has not been drained yet holds the configuration
/// message at the head of its outbox.
pub open spec fn configuration_first(s: Seq<ConnectionView>) -> bool {
    forall|i: int|
        0 <= i < s.len() && !(#[trigger] s[i]).drained ==> s[i].outbox.len() > 0
            && s[i].outbox[0] == Envelope::Configuration
}

/// More than `timeout` milliseconds have passed since the last activity
/// (a clock that went back counts as no time passed).
pub open spec fn is_stale(c: ConnectionView, now: u64, timeout: u64) -> bool {
    now - c.last_active > timeout
}

/// A connection after a keep-alive from connection `id` at time `now`.
pub open spec fn touched(c: ConnectionView, id: usize, now: u64) -> ConnectionView {
    if c.id == id {
        ConnectionView { id: c.id, last_active: now, outbox: c.outbox, drained: c.drained }
    } else {
        c
    }
}

/// A connection after its outbox was taken, if it is connection `id`.
pub open spec fn emptied(c: ConnectionView, id: usize) -> ConnectionView {
    if c.id == id {
        ConnectionView { id: c.id, last_active: c.last_active, outbox: Seq::empty(), drained: true }
    } else {
        c
    }
}

/// One connection after a delivery of `m`: untouched if not addressed; the
/// message appended if its outbox has room below `cap`; dropped otherwise.
pub open spec fn delivery_step(c: ConnectionView, addressed: bool, m: Envelope, cap: nat) -> Option<
    ConnectionView,
> {
    if !addressed {
        Some(c)
    } else if c.outbox.len() < cap {
        Some(
            ConnectionView {
                id: c.id,
                last_active: c.last_active,
                outbox: c.outbox.push(m),
                drained: c.drained,
            },
        )
    } else {
        None
    }
}

/// Whether a delivery to `a` drops connection `c` for a full outbox.
pub open spec fn overflows(c: ConnectionView, a: Audience, cap: nat) -> bool {
    a.includes(c.id) && c.outbox.len() >= cap
}

pub open spec fn ids_of(s: Seq<ConnectionView>) -> Seq<usize> {
    s.map_values(|c: ConnectionView| c.id)
}

pub(crate) struct Connection {
    pub(crate) id: usize,
    pub(crate) last_active: u64,
    pub(crate) outbox: Vec<Outbound>,
    pub(crate) drained: bool,
}

impl Connection {
    pub(crate) closed spec fn view(&self) -> ConnectionView {
        ConnectionView {
            id: self.id,
            last_active: self.last_active,
            outbox: envelopes(self.outbox@),
            drained: self.drained,
        }
    }
}

/// The live connections, oldest first.
pub struct Registry {
    conns: Vec<Connection>,
    next_id: usize,
    max_connections: usize,
    outbox_capacity: usize,
}

impl Registry {
    /// The live connections, in order of admission.
    pub closed spec fn view(&self) -> Seq<ConnectionView> {
        self.conns@.map_values(|c: Connection| c.view())
    }

    pub closed spec fn spec_next_id(&self) -> usize {
        self.next_id
    }

    pub closed spec fn spec_max_connections(&self) -> usize {
        self.max_connections
    }

    pub closed spec fn spec_outbox_capacity(&self) -> usize {
        self.outbox_capacity
    }

    /// Ids increase in order of admission and stay below the next id to
    /// hand out; every connection not yet drained has the configuration
    /// message at the head of its outbox.
    pub closed spec fn wf(&self) -> bool {
        &&& ids_increasing(self.view())
        &&& forall|i: int| 0 <= i < self.view().len() ==> (#[trigger] self.view()[i]).id < self.next_id
        &&& configuration_first(self.view())
    }

    /// What well-formedness guarantees of the live connections.
    pub proof fn lemma_wf(&self)
        requires
            self.wf(),
        ensures
            ids_increasing(self.view()),
            configuration_first(self.view()),
            forall|i: int|
                0 <= i < self.view().len() ==> (#[trigger] self.view()[i]).id < self.spec_next_id(),
    {
    }

    /// An empty registry admitting at most `max_connections` connections,
    /// each with room for `outbox_capacity` queued messages.
    pub fn new(max_connections: usize, outbox_capacity: usize) -> (r: Registry)
        ensures
            r.wf(),
            r.view() == Seq::<ConnectionView>::empty(),
            r.spec_next_id() == 0,
            r.spec_max_connections() == max_connections,
            r.spec_outbox_capacity() == outbox_capacity,
    {
        let r = Registry { conns: Vec::new(), next_id: 0, max_connections, outbox_capacity };
        assert(r.view() =~= Seq::<ConnectionView>::empty());
        r
    }

    pub fn len(&self) -> (r: usize)
        ensures
            r == self.view().len(),
    {
        self.conns.len()
    }

    pub fn outbox_capacity(&self) -> (r: usize)
        ensures
            r == self.spec_outbox_capacity(),
    {
        self.outbox_capacity
    }

    /// Admits a connection active at `now`, with the configuration message
    /// queued as its first message.
    pub fn add(&mut self, now: u64) -> (r: Result<usize, RegistryError>)
        requires
            old(self).wf(),
        ensures
            final(self).wf(),
            final(self).spec_max_connections() == old(self).spec_max_connections(),
            final(self).spec_outbox_capacity() == old(self).spec_outbox_capacity(),
            r is Err <==> (old(self).view().len() >= old(self).spec_max_connections()
                || old(self).spec_next_id() == usize::MAX),
            r is Err ==> r == Err::<usize, RegistryError>(RegistryError::ConnectionLimitReached)
                && final(self).view() == old(self).view() && final(self).spec_next_id()
                == old(self).spec_next_id(),
            r matches Ok(id) ==> {
                &&& id == old(self).spec_next_id()
                &&& final(self).spec_next_id() == id + 1
                &&& final(self).view() == old(self).view().push(
                    ConnectionView {
                        id,
                        last_active: now,
                        outbox: seq![Envelope::Configuration],
                        drained: false,
                    },
                )
            },
    {
        if self.conns.len() >= self.max_connections || self.next_id == usize::MAX {
            return Err(RegistryError::ConnectionLimitReached);
        }
        let id = self.next_id;
        let mut outbox: Vec<Outbound> = Vec::new();
        outbox.push(Outbound::Configuration);
        let c = Connection { id, last_active: now, outbox, drained: false };
        assert(c.view().outbox =~= seq![Envelope::Configuration]);
        self.conns.push(c);
        self.next_id = id + 1;
        assert(self.view() =~= old(self).view().push(c.view()));
        Ok(id)
    }

    /// Closes connection `id`, if it is live. Removing an id that is not
    /// live changes nothing.
    pub fn remove(&mut self, id: usize) -> (r: bool)
        requires
            old(self).wf(),
        ensures
            final(self).wf(),
            final(self).spec_next_id() == old(self).spec_next_id(),
            final(self).spec_max_connections() == old(self).spec_max_connections(),
            final(self).spec_outbox_capacity() == old(self).spec_outbox_capacity(),
            r == has_id(old(self).view(), id),
            final(self).view() == old(self).view().filter(|c: ConnectionView| c.id != id),
    {
        let ghost s = self.view();
        let ghost p = |c: ConnectionView| c.id != id;
        let mut i: usize = 0;
        let ghost mut j: int = 0;
        let mut found = false;
        while i < self.conns.len()
            invariant
                self.wf(),
                self.next_id == old(self).next_id,
                self.max_connections == old(self).max_connections,
                self.outbox_capacity == old(self).outbox_capacity,
                s == old(self).view(),
                p == (|c: ConnectionView| c.id != id),
                0 <= j <= s.len(),
                self.view() == s.take(j).filter(p) + s.skip(j),
                i == s.take(j).filter(p).len(),
                found == has_id(s.take(j), id),
            decreases s.len() - j,
        {
            let ghost before = self.view();
            assert(before[i as int] == s[j]);
            assert(s.take(j + 1) =~= s.take(j).push(s[j]));
            proof {
                s.take(j).lemma_filter_push(s[j], p);
            }
            if self.conns[i].id == id {
                let _ = self.conns.remove(i);
                found = true;
                assert(self.view() =~= before.remove(i as int));
                assert(self.view() =~= s.take(j + 1).filter(p) + s.skip(j + 1));
                assert(s.take(j + 1)[j] == s[j]);
            } else {
                i = i + 1;
                assert(self.view() =~= s.take(j + 1).filter(p) + s.skip(j + 1));
                assert(has_id(s.take(j + 1), id) ==> has_id(s.take(j), id)) by {
                    if has_id(s.take(j + 1), id) {
                        let k = choose|k: int| 0 <= k < j + 1 && (#[trigger] s.take(j + 1)[k]).id == id;
                        assert(s.take(j)[k].id == id);
                    }
                }
            }
            proof {
                j = j + 1;
            }
        }
        assert(s.take(j) =~= s);
        assert(s.skip(j) =~= Seq::<ConnectionView>::empty());
        assert(self.view() =~= s.filter(p));
        found
    }

    /// Closes every connection idle for more than `timeout` milliseconds at
    /// time `now`; returns their ids, oldest first.
    pub fn remove_stale(&mut self, now: u64, timeout: u64) -> (r: Vec<usize>)
        requires
            old(self).wf(),
        ensures
            final(self).wf(),
            final(self).spec_next_id() == old(self).spec_next_id(),
            final(self).spec_max_connections() == old(self).spec_max_connections(),
            final(self).spec_outbox_capacity() == old(self).spec_outbox_capacity(),
            final(self).view() == old(self).view().filter(
                |c: ConnectionView| !is_stale(c, now, timeout),
            ),
            r@ == ids_of(old(self).view().filter(|c: ConnectionView| is_stale(c, now, timeout))),
    {
        let ghost s = self.view();
        let ghost p = |c: ConnectionView| !is_stale(c, now, timeout);
        let ghost q = |c: ConnectionView| is_stale(c, now, timeout);
        let mut removed: Vec<usize> = Vec::new();
        let mut i: usize = 0;
        let ghost mut j: int = 0;
        while i < self.conns.len()
            invariant
                self.wf(),
                self.next_id == old(self).next_id,
                self.max_connections == old(self).max_connections,
                self.outbox_capacity == old(self).outbox_capacity,
                s == old(self).view(),
                p == (|c: ConnectionView| !is_stale(c, now, timeout)),
                q == (|c: ConnectionView| is_stale(c, now, timeout)),
                0 <= j <= s.len(),
                self.view() == s.take(j).filter(p) + s.skip(j),
                i == s.take(j).filter(p).len(),
                removed@ == ids_of(s.take(j).filter(q)),
            decreases s.len() - j,
        {
            let ghost before = self.view();
            assert(before[i as int] == s[j]);
            assert(s.take(j + 1) =~= s.take(j).push(s[j]));
            proof {
                s.take(j).lemma_filter_push(s[j], p);
                s.take(j).lemma_filter_push(s[j], q);
            }
            let last = self.conns[i].last_active;
            if now > last && now - last > timeout {
                let c = self.conns.remove(i);
                removed.push(c.id);
                assert(self.view() =~= before.remove(i as int));
                assert(self.view() =~= s.take(j + 1).filter(p) + s.skip(j + 1));
                assert(removed@ =~= ids_of(s.take(j + 1).filter(q)));
            } else {
                i = i + 1;
                assert(self.view() =~= s.take(j + 1).filter(p) + s.skip(j + 1));
                assert(removed@ =~= ids_of(s.take(j + 1).filter(q)));
            }
            proof {
                j = j + 1;
            }
        }
        assert(s.take(j) =~= s);
        assert(s.skip(j) =~= Seq::<ConnectionView>::empty());
        assert(self.view() =~= s.filter(p));
        removed
    }

    /// Position of connection `id` among the live connections.
    fn position(&self, id: usize) -> (r: Option<usize>)
        ensures
            r is None <==> !has_id(self.view(), id),
            r matches Some(i) ==> i < self.view().len() && self.view()[i as int].id == id,
    {
        let mut i: usize = 0;
        while i < self.conns.len()
            invariant
                0 <= i <= self.view().len(),
                self.view().len() == self.conns@.len(),
                forall|k: int| 0 <= k < i ==> self.view()[k].id != id,
            decreases self.conns@.len() - i,
        {
            if self.conns[i].id == id {
                assert(self.view()[i as int].id == id);
                return Some(i);
            }
            i = i + 1;
        }
        None
    }

    /// Records activity of connection `id` at time `now`; `false`, with
    /// nothing changed, if it is not live.
    pub fn touch(&mut self, id: usize, now: u64) -> (r: bool)
        requires
            old(self).wf(),
        ensures
            final(self).wf(),
            final(self).spec_next_id() == old(self).spec_next_id(),
            final(self).spec_max_connections() == old(self).spec_max_connections(),
            final(self).spec_outbox_capacity() == old(self).spec_outbox_capacity(),
            r == has_id(old(self).view(), id),
            final(self).view() == old(self).view().map_values(
                |c: ConnectionView| touched(c, id, now),
            ),
    {
        match self.position(id) {
            None => {
                assert(self.view() =~= old(self).view().map_values(
                    |c: ConnectionView| touched(c, id, now),
                ));
                false
            },
            Some(i) => {
                self.conns[i].last_active = now;
                assert(self.view() =~= old(self).view().map_values(
                    |c: ConnectionView| touched(c, id, now),
                ));
                true
            },
        }
    }

    /// Takes every message queued for connection `id`, oldest first,
    /// leaving its outbox empty; `None`, with nothing changed, if it is not
    /// live.
    pub fn take_outbox(&mut self, id: usize) -> (r: Option<Vec<Outbound>>)
        requires
            old(self).wf(),
        ensures
            final(self).wf(),
            final(self).spec_next_id() == old(self).spec_next_id(),
            final(self).spec_max_connections() == old(self).spec_max_connections(),
            final(self).spec_outbox_capacity() == old(self).spec_outbox_capacity(),
            r is Some <==> has_id(old(self).view(), id),
            final(self).view() == old(self).view().map_values(|c: ConnectionView| emptied(c, id)),
            r matches Some(v) ==> forall|k: int|
                0 <= k < old(self).view().len() && (#[trigger] old(self).view()[k]).id == id
                    ==> envelopes(v@) == old(self).view()[k].outbox,
    {
        match self.position(id) {
            None => {
                assert(self.view() =~= old(self).view().map_values(
                    |c: ConnectionView| emptied(c, id),
                ));
                None
            },
            Some(i) => {
                let mut out: Vec<Outbound> = Vec::new();
                std::mem::swap(&mut self.conns[i].outbox, &mut out);
                self.conns[i].drained = true;
                assert(envelopes(self.conns@[i as int].outbox@) =~= Seq::<Envelope>::empty());
                assert(self.view() =~= old(self).view().map_values(
                    |c: ConnectionView| emptied(c, id),
                ));
                Some(out)
            },
        }
    }

    /// Queues `msg` for every live connection that `audience` includes. A
    /// connection whose outbox already holds `outbox_capacity` messages is
    /// closed instead; the ids of those are returned, oldest first.
    pub fn deliver(&mut self, audience: &Audience, msg: &Outbound) -> (r: Vec<usize>)
        requires
            old(self).wf(),
        ensures
            final(self).wf(),
            final(self).spec_next_id() == old(self).spec_next_id(),
            final(self).spec_max_connections() == old(self).spec_max_connections(),
            final(self).spec_outbox_capacity() == old(self).spec_outbox_capacity(),
            final(self).view() == old(self).view().filter_map(
                |c: ConnectionView|
                    delivery_step(
                        c,
                        audience.includes(c.id),
                        msg@,
                        old(self).spec_outbox_capacity() as nat,
                    ),
            ),
            r@ == ids_of(
                old(self).view().filter(
                    |c: ConnectionView|
                        overflows(c, *audience, old(self).spec_outbox_capacity() as nat),
                ),
            ),
    {
        let ghost s = self.view();
        let ghost cap = self.outbox_capacity as nat;
        let ghost f = |c: ConnectionView| delivery_step(c, audience.includes(c.id), msg@, cap);
        let ghost q = |c: ConnectionView| overflows(c, *audience, cap);
        let mut dropped: Vec<usize> = Vec::new();
        let mut i: usize = 0;
        let ghost mut j: int = 0;
        while i < self.conns.len()
            invariant
                self.wf(),
                self.next_id == old(self).next_id,
                self.max_connections == old(self).max_connections,
                self.outbox_capacity == old(self).outbox_capacity,
                s == old(self).view(),
                cap == self.outbox_capacity as nat,
                f == (|c: ConnectionView| delivery_step(c, audience.includes(c.id), msg@, cap)),
                q == (|c: ConnectionView| overflows(c, *audience, cap)),
                0 <= j <= s.len(),
                self.view() == s.take(j).filter_map(f) + s.skip(j),
                i == s.take(j).filter_map(f).len(),
                dropped@ == ids_of(s.take(j).filter(q)),
            decreases s.len() - j,
        {
            let ghost before = self.view();
            assert(before[i as int] == s[j]);
            assert(s.take(j + 1) =~= s.take(j).push(s[j]));
            proof {
                s.lemma_filter_map_take_succ(f, j);
                s.take(j).lemma_filter_push(s[j], q);
            }
            let addressed = audience.contains(self.conns[i].id);
            if !addressed {
                i = i + 1;
                assert(self.view() =~= s.take(j + 1).filter_map(f) + s.skip(j + 1));
            } else if self.conns[i].outbox.len() < self.outbox_capacity {
                let ghost ob = self.conns@[i as int].outbox@;
                let m = msg.duplicate();
                self.conns[i].outbox.push(m);
                assert(envelopes(self.conns@[i as int].outbox@) =~= envelopes(ob).push(msg@));
                assert(self.view() =~= before.update(i as int, f(s[j]).unwrap()));
                i = i + 1;
                assert(self.view() =~= s.take(j + 1).filter_map(f) + s.skip(j + 1));
            } else {
                let c = self.conns.remove(i);
                dropped.push(c.id);
                assert(self.view() =~= before.remove(i as int));
                assert(self.view() =~= s.take(j + 1).filter_map(f) + s.skip(j + 1));
            }
            assert(dropped@ =~= ids_of(s.take(j + 1).filter(q)));
            proof {
                j = j + 1;
            }
        }
        assert(s.take(j) =~= s);
        assert(s.skip(j) =~= Seq::<ConnectionView>::empty());
        assert(self.view() =~= s.filter_map(f));
        dropped
    }

    /// Whether connection `id` is live.
    pub fn contains(&self, id: usize) -> (r: bool)
        ensures
            r == has_id(self.view(), id),
    {
        self.position(id).is_some()
    }

    /// The ids of the live connections, in order of admission.
    pub fn ids(&self) -> (r: Vec<usize>)
        ensures
            r@ == ids_of(self.view()),
    {
        let mut out: Vec<usize> = Vec::new();
        let mut i: usize = 0;
        while i < self.conns.len()
            invariant
                0 <= i <= self.view().len(),
                self.view().len() == self.conns@.len(),
                out@ == ids_of(self.view()).take(i as int),
            decreases self.conns@.len() - i,
        {
            out.push(self.conns[i].id);
            assert(ids_of(self.view()).take(i + 1) =~= out@);
            i = i + 1;
        }
        assert(ids_of(self.view()).take(i as int) =~= ids_of(self.view()));
        out
    }
}


/// An element that `f` keeps shows up, mapped, in `s.filter_map(f)`.
proof fn lemma_filter_map_keeps<A, B>(s: Seq<A>, f: spec_fn(A) -> Option<B>, k: int)
    requires
        0 <= k < s.len(),
        f(s[k]) is Some,
    ensures
        s.filter_map(f).contains(f(s[k])->Some_0),
    decreases s.len(),
{
    let rest = s.drop_last();
    let fm = s.filter_map(f);
    if k == s.len() - 1 {
        assert(fm == rest.filter_map(f) + seq![f(s[k])->Some_0]);
        assert(fm[fm.len() - 1] == f(s[k])->Some_0);
    } else {
        assert(rest[k] == s[k]);
        lemma_filter_map_keeps(rest, f, k);
        let m = choose|m: int|
            0 <= m < rest.filter_map(f).len() && rest.filter_map(f)[m] == f(s[k])->Some_0;
        match f(s.last()) {
            Some(x) => {
                assert(fm == rest.filter_map(f) + seq![x]);
                assert(fm[m] == f(s[k])->Some_0);
            },
            None => {},
        }
    }
}

/// What a delivery does to one connection: one left out is untouched, one
/// addressed gets the message appended if its outbox has room and is closed
/// otherwise; no other connection with its id appears.
pub proof fn lemma_delivery_outcome(
    s: Seq<ConnectionView>,
    addressed: spec_fn(usize) -> bool,
    m: Envelope,
    cap: nat,
    k: int,
)
    requires
        ids_increasing(s),
        0 <= k < s.len(),
    ensures
        ({
            let c = s[k];
            let after = s.filter_map(|x: ConnectionView| delivery_step(x, addressed(x.id), m, cap));
            &&& delivery_step(c, addressed(c.id), m, cap) matches Some(e) ==> after.contains(e)
                && forall|y: ConnectionView| #[trigger] after.contains(y) && y.id == c.id ==> y == e
            &&& delivery_step(c, addressed(c.id), m, cap) is None ==> !has_id(after, c.id)
        }),
{
    let c = s[k];
    let f = |x: ConnectionView| delivery_step(x, addressed(x.id), m, cap);
    let after = s.filter_map(f);
    assert forall|y: ConnectionView| #[trigger] after.contains(y) && y.id == c.id implies f(c) == Some(
        y,
    ) by {
        s.lemma_filter_map_contains(f, y);
        let t = choose|t: ConnectionView| #[trigger] s.contains(t) && f(t) == Some(y);
        let j = choose|j: int| 0 <= j < s.len() && s[j] == t;
        assert(t.id == y.id);
        if j < k {
            assert(s[j].id < s[k].id);
        } else if j > k {
            assert(s[k].id < s[j].id);
        }
    }
    if f(c) is Some {
        lemma_filter_map_keeps(s, f, k);
    } else {
        if has_id(after, c.id) {
            let i = choose|i: int| 0 <= i < after.len() && after[i].id == c.id;
            assert(after.contains(after[i]));
        }
    }
}

/// Right after a sweep at `now`, a connection is live exactly when it was
/// not idle for more than `timeout` milliseconds.
pub proof fn lemma_sweep_membership(s: Seq<ConnectionView>, now: u64, timeout: u64, k: int)
    requires
        ids_increasing(s),
        0 <= k < s.len(),
    ensures
        has_id(s.filter(|c: ConnectionView| !is_stale(c, now, timeout)), s[k].id) <==> !is_stale(
            s[k],
            now,
            timeout,
        ),
{
    let p = |c: ConnectionView| !is_stale(c, now, timeout);
    let f = s.filter(p);
    if !is_stale(s[k], now, timeout) {
        s.lemma_filter_contains(p, k);
        let i = choose|i: int| 0 <= i < f.len() && f[i] == s[k];
        assert(f[i].id == s[k].id);
    }
    if has_id(f, s[k].id) {
        let i = choose|i: int| 0 <= i < f.len() && f[i].id == s[k].id;
        s.lemma_filter_pred(p, i);
        assert(f.contains(f[i]));
        s.lemma_filter_contains_rev(p, f[i]);
        let j = choose|j: int| 0 <= j < s.len() && s[j] == f[i];
        if j < k {
            assert(s[j].id < s[k].id);
        } else if j > k {
            assert(s[k].id < s[j].id);
        }
    }
}

} // verus!
