//! The fan-out hub: quadrant layout, live connections and subscriptions
//! held together, and the dispatcher that turns a persisted draw into
//! queued updates.

use crate::clock::now_millis;
use crate::geometry::{enumerate_quadrants, Geometry, Quadrant};
use crate::message::{Envelope, Outbound};
use crate::codec::{valid_color, validate_cell, CodecError};
use crate::geometry::calculate_quadrant_id;
use crate::message::DrawReq;
use crate::registry::{
    configuration_first, delivery_step, emptied, has_id, ids_increasing, ids_of, is_stale,
    lemma_delivery_outcome, touched, Audience, ConnectionView, Registry, RegistryError,
};
use crate::subscriptions::SubscriptionIndex;
use vstd::prelude::*;

verus! {

/// How a persisted draw reaches the connections.
#[derive(Debug, Clone, Copy, PartialEq, Eq, Structural)]
pub enum DeliveryMode {
    /// Queued here, for the subscribers of the draw's quadrant.
    Direct,
    /// Handed back to be published on the message broker.
    Broker,
}

/// The hub's live connections and subscriptions.
#[verifier::ext_equal]
pub struct HubView {
    pub connections: Seq<ConnectionView>,
    /// Subscriber ids of each quadrant, indexed by quadrant id.
    pub subscribers: Seq<Set<usize>>,
}

/// Why a draw was not applied.
#[derive(Debug, Clone, Copy, PartialEq, Eq, Structural)]
pub enum DrawError {
    /// The cell lies outside the canvas.
    OutOfBounds,
    /// The colour does not fit in four bits.
    InvalidColor,
    /// The durable store did not take the write.
    Storage,
}

/// The durable store failed a write: the pool was exhausted, the transport
/// failed, or the store refused the command.
#[derive(Debug, Clone, Copy, PartialEq, Eq, Structural)]
pub struct StorageError;

/// What became of a persisted draw.
#[derive(Debug, Clone, Copy, PartialEq, Eq, Structural)]
pub enum Dispatch {
    /// Queued for the subscribers of its quadrant.
    Delivered,
    /// To be published on the broker topic as an update.
    Publish(DrawReq),
}

/// The single-nibble store write that persists a draw.
#[derive(Debug, Clone, Copy, PartialEq, Eq, Structural)]
pub struct CellWrite {
    /// Row-major index of the cell.
    pub index: usize,
    /// Bit offset of the cell's four bits in the packed canvas.
    pub bit_offset: usize,
    pub color: u8,
}

/// Why a draw on canvas `g` is refused before anything is written: bounds
/// are checked first, then the colour.
pub open spec fn rejection(g: Geometry, req: DrawReq) -> Option<DrawError> {
    if !g.in_bounds(req.x as int, req.y as int) {
        Some(DrawError::OutOfBounds)
    } else if !valid_color(req.color) {
        Some(DrawError::InvalidColor)
    } else {
        None
    }
}

/// Ids of the connections that a delivery closes for a full outbox.
pub open spec fn overflowed(v: HubView, addressed: spec_fn(usize) -> bool, cap: nat) -> Set<usize> {
    ids_of(
        v.connections.filter(|c: ConnectionView| addressed(c.id) && c.outbox.len() >= cap),
    ).to_set()
}

/// The hub after message `m` was delivered to the connections that
/// `addressed` picks: see `delivery_step`; the connections closed on the way
/// are unsubscribed everywhere.
pub open spec fn delivered(v: HubView, addressed: spec_fn(usize) -> bool, m: Envelope, cap: nat) -> HubView {
    HubView {
        connections: v.connections.filter_map(
            |c: ConnectionView| delivery_step(c, addressed(c.id), m, cap),
        ),
        subscribers: v.subscribers.map_values(
            |s: Set<usize>| s.difference(overflowed(v, addressed, cap)),
        ),
    }
}

/// The hub after `m` was delivered to the subscribers of quadrant `q`.
pub open spec fn notified(v: HubView, q: int, m: Envelope, cap: nat) -> HubView {
    delivered(v, |id: usize| v.subscribers[q].contains(id), m, cap)
}

/// The hub after `m` was delivered to every live connection.
pub open spec fn forwarded(v: HubView, m: Envelope, cap: nat) -> HubView {
    delivered(v, |id: usize| true, m, cap)
}

/// The hub after a sweep at `now`: connections idle for more than
/// `timeout` milliseconds are closed and unsubscribed everywhere.
pub open spec fn swept(v: HubView, now: u64, timeout: u64) -> HubView {
    HubView {
        connections: v.connections.filter(|c: ConnectionView| !is_stale(c, now, timeout)),
        subscribers: v.subscribers.map_values(
            |s: Set<usize>| s.difference(
                ids_of(v.connections.filter(|c: ConnectionView| is_stale(c, now, timeout))).to_set(),
            ),
        ),
    }
}

/// Every subscriber of every quadrant is a live connection.
pub open spec fn no_dangling(v: HubView) -> bool {
    forall|q: int, id: usize|
        0 <= q < v.subscribers.len() && #[trigger] v.subscribers[q].contains(id) ==> has_id(
            v.connections,
            id,
        )
}

pub struct GridHolder {
    geometry: Geometry,
    mode: DeliveryMode,
    quadrants: Vec<Quadrant>,
    registry: Registry,
    subscriptions: SubscriptionIndex,
}

impl GridHolder {
    pub closed spec fn view(&self) -> HubView {
        HubView { connections: self.registry.view(), subscribers: self.subscriptions.view() }
    }

    pub closed spec fn spec_geometry(&self) -> Geometry {
        self.geometry
    }

    pub closed spec fn spec_mode(&self) -> DeliveryMode {
        self.mode
    }

    pub closed spec fn spec_outbox_capacity(&self) -> usize {
        self.registry.spec_outbox_capacity()
    }

    pub closed spec fn spec_max_connections(&self) -> usize {
        self.registry.spec_max_connections()
    }

    pub closed spec fn spec_next_id(&self) -> usize {
        self.registry.spec_next_id()
    }

    /// The quadrant layout held by the hub.
    pub closed spec fn spec_quadrants(&self) -> Seq<Quadrant> {
        self.quadrants@
    }

    /// Everything but the quadrant list is in order.
    pub closed spec fn wf_state(&self) -> bool {
        &&& self.geometry.wf()
        &&& self.registry.wf()
        &&& self.subscriptions.wf()
        &&& self.subscriptions.view().len() == self.geometry.quadrant_count()
        &&& no_dangling(self.view())
    }

    /// The quadrant list matches the geometry, one subscriber set per
    /// quadrant, and no subscription names a connection that is gone.
    pub closed spec fn wf(&self) -> bool {
        &&& self.wf_state()
        &&& self.quadrants@ == self.geometry.quadrants()
    }

    /// What well-formedness guarantees of a hub.
    pub proof fn lemma_wf(&self)
        requires
            self.wf(),
        ensures
            self.wf_state(),
            self.spec_quadrants() == self.spec_geometry().quadrants(),
            self.spec_geometry().wf(),
            self.view().subscribers.len() == self.spec_geometry().quadrant_count(),
            no_dangling(self.view()),
            ids_increasing(self.view().connections),
            configuration_first(self.view().connections),
            forall|i: int|
                0 <= i < self.view().connections.len() ==> (#[trigger] self.view().connections[i]).id
                    < self.spec_next_id(),
    {
        self.registry.lemma_wf();
    }

    /// Computes the quadrant layout from the geometry. The layout depends on
    /// the geometry alone, so computing it again leaves the same list.
    pub fn initialize_quadrants(&mut self)
        requires
            old(self).wf_state(),
        ensures
            final(self).wf(),
            final(self).spec_quadrants() == old(self).spec_geometry().quadrants(),
            final(self).view() == old(self).view(),
            final(self).spec_geometry() == old(self).spec_geometry(),
            final(self).spec_mode() == old(self).spec_mode(),
            final(self).spec_outbox_capacity() == old(self).spec_outbox_capacity(),
            final(self).spec_max_connections() == old(self).spec_max_connections(),
            final(self).spec_next_id() == old(self).spec_next_id(),
    {
        self.quadrants = enumerate_quadrants(&self.geometry);
    }

    pub fn geometry(&self) -> (r: Geometry)
        ensures
            r == self.spec_geometry(),
    {
        self.geometry
    }

    pub fn mode(&self) -> (r: DeliveryMode)
        ensures
            r == self.spec_mode(),
    {
        self.mode
    }

    /// The quadrant layout, in id order.
    pub fn quadrants(&self) -> (r: &Vec<Quadrant>)
        requires
            self.wf(),
        ensures
            r@ == self.spec_geometry().quadrants(),
            r@ == self.spec_quadrants(),
    {
        &self.quadrants
    }

    /// Whether connection `id` is live.
    pub fn is_connected(&self, id: usize) -> (r: bool)
        ensures
            r == has_id(self.view().connections, id),
    {
        self.registry.contains(id)
    }

    /// The ids of the live connections, oldest first.
    pub fn connection_ids(&self) -> (r: Vec<usize>)
        ensures
            r@ == crate::registry::ids_of(self.view().connections),
    {
        self.registry.ids()
    }

    /// The subscribers of quadrant `quadrant_id`, each once; none for an id
    /// that names no quadrant.
    pub fn subscribers_of(&self, quadrant_id: usize) -> (r: Vec<usize>)
        requires
            self.wf(),
        ensures
            r@.no_duplicates(),
            quadrant_id < self.view().subscribers.len() ==> r@.to_set()
                == self.view().subscribers[quadrant_id as int],
            quadrant_id >= self.view().subscribers.len() ==> r@.len() == 0,
    {
        if quadrant_id < self.subscriptions.len() {
            self.subscriptions.subscribers_of(quadrant_id)
        } else {
            Vec::new()
        }
    }

    /// Admits a new connection, stamped with the current time. See
    /// `add_client_at`.
    pub fn add_client(&mut self) -> (r: Result<usize, RegistryError>)
        requires
            old(self).wf(),
        ensures
            final(self).wf(),
            final(self).spec_geometry() == old(self).spec_geometry(),
            final(self).spec_mode() == old(self).spec_mode(),
            final(self).spec_outbox_capacity() == old(self).spec_outbox_capacity(),
            final(self).spec_max_connections() == old(self).spec_max_connections(),
            final(self).view().subscribers == old(self).view().subscribers,
            r is Err <==> (old(self).view().connections.len() >= old(self).spec_max_connections()
                || old(self).spec_next_id() == usize::MAX),
            r is Err ==> r == Err::<usize, RegistryError>(RegistryError::ConnectionLimitReached)
                && final(self).view() == old(self).view() && final(self).spec_next_id()
                == old(self).spec_next_id(),
            r matches Ok(id) ==> {
                &&& id == old(self).spec_next_id()
                &&& final(self).spec_next_id() == id + 1
                &&& exists|now: u64|
                    final(self).view().connections == old(self).view().connections.push(
                        #[trigger] fresh_connection(id, now),
                    )
            },
    {
        let now = now_millis();
        let r = self.add_client_at(now);
        proof {
            if r is Ok {
                assert(fresh_connection(r->Ok_0, now) == fresh_connection(r->Ok_0, now));
            }
        }
        r
    }

    /// Admits a new connection active at `now`: it takes the next id, and
    /// the configuration message is queued as its first message before any
    /// update can reach it. Refused when the hub is full or out of ids.
    pub fn add_client_at(&mut self, now: u64) -> (r: Result<usize, RegistryError>)
        requires
            old(self).wf(),
        ensures
            final(self).wf(),
            final(self).spec_geometry() == old(self).spec_geometry(),
            final(self).spec_mode() == old(self).spec_mode(),
            final(self).spec_outbox_capacity() == old(self).spec_outbox_capacity(),
            final(self).spec_max_connections() == old(self).spec_max_connections(),
            final(self).view().subscribers == old(self).view().subscribers,
            r is Err <==> (old(self).view().connections.len() >= old(self).spec_max_connections()
                || old(self).spec_next_id() == usize::MAX),
            r is Err ==> r == Err::<usize, RegistryError>(RegistryError::ConnectionLimitReached)
                && final(self).view() == old(self).view() && final(self).spec_next_id()
                == old(self).spec_next_id(),
            r matches Ok(id) ==> {
                &&& id == old(self).spec_next_id()
                &&& final(self).spec_next_id() == id + 1
                &&& final(self).view().connections == old(self).view().connections.push(
                    fresh_connection(id, now),
                )
            },
    {
        let r = self.registry.add(now);
        proof {
            assert forall|q: int, x: usize|
                0 <= q < self.view().subscribers.len() && #[trigger] self.view().subscribers[q].contains(x) implies has_id(self.view().connections, x) by {
                assert(old(self).view().subscribers[q].contains(x));
                let k = choose|k: int|
                    0 <= k < old(self).view().connections.len() && old(self).view().connections[k].id
                        == x;
                assert(self.view().connections[k] == old(self).view().connections[k]);
            }
        }
        r
    }

    /// Closes connection `id` and, in the same step, unsubscribes it from
    /// every quadrant. Closing an id that is not live changes nothing.
    pub fn remove_client(&mut self, id: usize) -> (r: bool)
        requires
            old(self).wf(),
        ensures
            final(self).wf(),
            final(self).spec_geometry() == old(self).spec_geometry(),
            final(self).spec_mode() == old(self).spec_mode(),
            final(self).spec_outbox_capacity() == old(self).spec_outbox_capacity(),
            final(self).spec_max_connections() == old(self).spec_max_connections(),
            final(self).spec_next_id() == old(self).spec_next_id(),
            r == has_id(old(self).view().connections, id),
            final(self).view().connections == old(self).view().connections.filter(
                |c: ConnectionView| c.id != id,
            ),
            final(self).view().subscribers == old(self).view().subscribers.map_values(
                |s: Set<usize>| s.remove(id),
            ),
            !has_id(final(self).view().connections, id),
            forall|q: int|
                0 <= q < final(self).view().subscribers.len() ==> !#[trigger] final(self).view().subscribers[q].contains(id),
    {
        let r = self.registry.remove(id);
        self.subscriptions.purge(id);
        proof {
            let s = old(self).view().connections;
            let p = |c: ConnectionView| c.id != id;
            assert forall|q: int, x: usize|
                0 <= q < self.view().subscribers.len() && #[trigger] self.view().subscribers[q].contains(x) implies has_id(self.view().connections, x) by {
                assert(old(self).view().subscribers[q].contains(x));
                let k = choose|k: int| 0 <= k < s.len() && s[k].id == x;
                s.lemma_filter_contains(p, k);
            }
            lemma_filter_drops_id(s, id);
        }
        r
    }

    /// Subscribes connection `client_id` to quadrant `quadrant_id`. Returns
    /// `false`, with nothing changed, when the connection is not live or the
    /// quadrant does not exist.
    pub fn subscribe_to_quadrant(&mut self, client_id: usize, quadrant_id: usize) -> (r: bool)
        requires
            old(self).wf(),
        ensures
            final(self).wf(),
            final(self).spec_geometry() == old(self).spec_geometry(),
            final(self).spec_mode() == old(self).spec_mode(),
            final(self).spec_outbox_capacity() == old(self).spec_outbox_capacity(),
            final(self).spec_max_connections() == old(self).spec_max_connections(),
            final(self).spec_next_id() == old(self).spec_next_id(),
            final(self).view().connections == old(self).view().connections,
            r == (has_id(old(self).view().connections, client_id) && quadrant_id < old(self).view().subscribers.len()),
            r ==> final(self).view().subscribers == old(self).view().subscribers.update(
                quadrant_id as int,
                old(self).view().subscribers[quadrant_id as int].insert(client_id),
            ),
            !r ==> final(self).view().subscribers == old(self).view().subscribers,
    {
        if quadrant_id >= self.subscriptions.len() || !self.registry.contains(client_id) {
            return false;
        }
        self.subscriptions.subscribe(client_id, quadrant_id);
        proof {
            assert forall|q: int, x: usize|
                0 <= q < self.view().subscribers.len() && #[trigger] self.view().subscribers[q].contains(x) implies has_id(self.view().connections, x) by {
                if !(q == quadrant_id && x == client_id) {
                    assert(old(self).view().subscribers[q].contains(x));
                }
            }
        }
        true
    }

    /// Unsubscribes connection `client_id` from quadrant `quadrant_id`; a
    /// connection that was not subscribed, or a quadrant that does not
    /// exist, is no error and changes nothing.
    pub fn unsubscribe_from_quadrant(&mut self, client_id: usize, quadrant_id: usize)
        requires
            old(self).wf(),
        ensures
            final(self).wf(),
            final(self).spec_geometry() == old(self).spec_geometry(),
            final(self).spec_mode() == old(self).spec_mode(),
            final(self).spec_outbox_capacity() == old(self).spec_outbox_capacity(),
            final(self).spec_max_connections() == old(self).spec_max_connections(),
            final(self).spec_next_id() == old(self).spec_next_id(),
            final(self).view().connections == old(self).view().connections,
            quadrant_id < old(self).view().subscribers.len() ==> final(self).view().subscribers
                == old(self).view().subscribers.update(
                quadrant_id as int,
                old(self).view().subscribers[quadrant_id as int].remove(client_id),
            ),
            quadrant_id >= old(self).view().subscribers.len() ==> final(self).view().subscribers
                == old(self).view().subscribers,
    {
        if quadrant_id < self.subscriptions.len() {
            self.subscriptions.unsubscribe(client_id, quadrant_id);
        }
        proof {
            assert forall|q: int, x: usize|
                0 <= q < self.view().subscribers.len() && #[trigger] self.view().subscribers[q].contains(x) implies has_id(self.view().connections, x) by {
                assert(old(self).view().subscribers[q].contains(x));
            }
        }
    }

    /// Records a keep-alive from connection `client_id` at the current
    /// time. See `update_client_activity_at`.
    pub fn update_client_activity(&mut self, client_id: usize) -> (r: bool)
        requires
            old(self).wf(),
        ensures
            final(self).wf(),
            final(self).spec_geometry() == old(self).spec_geometry(),
            final(self).spec_mode() == old(self).spec_mode(),
            final(self).spec_outbox_capacity() == old(self).spec_outbox_capacity(),
            final(self).spec_max_connections() == old(self).spec_max_connections(),
            final(self).spec_next_id() == old(self).spec_next_id(),
            final(self).view().subscribers == old(self).view().subscribers,
            r == has_id(old(self).view().connections, client_id),
            final(self).view().connections.len() == old(self).view().connections.len(),
            forall|i: int|
                0 <= i < old(self).view().connections.len() ==> #[trigger] final(self).view().connections[i] == touched(
                    old(self).view().connections[i],
                    client_id,
                    final(self).view().connections[i].last_active,
                ),
    {
        let now = now_millis();
        self.update_client_activity_at(client_id, now)
    }

    /// Records a keep-alive from connection `client_id` at time `now`;
    /// `false`, with nothing changed, if it is not live.
    pub fn update_client_activity_at(&mut self, client_id: usize, now: u64) -> (r: bool)
        requires
            old(self).wf(),
        ensures
            final(self).wf(),
            final(self).spec_geometry() == old(self).spec_geometry(),
            final(self).spec_mode() == old(self).spec_mode(),
            final(self).spec_outbox_capacity() == old(self).spec_outbox_capacity(),
            final(self).spec_max_connections() == old(self).spec_max_connections(),
            final(self).spec_next_id() == old(self).spec_next_id(),
            final(self).view().subscribers == old(self).view().subscribers,
            r == has_id(old(self).view().connections, client_id),
            final(self).view().connections == old(self).view().connections.map_values(
                |c: ConnectionView| touched(c, client_id, now),
            ),
    {
        let r = self.registry.touch(client_id, now);
        proof {
            assert forall|q: int, x: usize|
                0 <= q < self.view().subscribers.len() && #[trigger] self.view().subscribers[q].contains(x) implies has_id(self.view().connections, x) by {
                assert(old(self).view().subscribers[q].contains(x));
                let k = choose|k: int|
                    0 <= k < old(self).view().connections.len() && old(self).view().connections[k].id
                        == x;
                assert(self.view().connections[k].id == x);
            }
        }
        r
    }

    /// Queues `msg` for every connection in `audience`; those with a full
    /// outbox are closed and unsubscribed.
    fn fan_out(&mut self, audience: &Audience, msg: &Outbound)
        requires
            old(self).wf(),
        ensures
            final(self).wf(),
            final(self).spec_geometry() == old(self).spec_geometry(),
            final(self).spec_mode() == old(self).spec_mode(),
            final(self).spec_outbox_capacity() == old(self).spec_outbox_capacity(),
            final(self).spec_max_connections() == old(self).spec_max_connections(),
            final(self).spec_next_id() == old(self).spec_next_id(),
            final(self).view() == delivered(
                old(self).view(),
                |id: usize| audience.includes(id),
                msg@,
                old(self).spec_outbox_capacity() as nat,
            ),
    {
        let ghost v = self.view();
        let ghost cap = self.spec_outbox_capacity() as nat;
        let ghost addressed = |id: usize| audience.includes(id);
        proof {
            self.registry.lemma_wf();
        }
        let dropped = self.registry.deliver(audience, msg);
        self.subscriptions.purge_all(&dropped);
        proof {
            let f1 = |c: ConnectionView| delivery_step(c, audience.includes(c.id), msg@, cap);
            let f2 = |c: ConnectionView| delivery_step(c, addressed(c.id), msg@, cap);
            assert(f1 =~= f2);
            let p1 = |c: ConnectionView| crate::registry::overflows(c, *audience, cap);
            let p2 = |c: ConnectionView| addressed(c.id) && c.outbox.len() >= cap;
            assert(p1 =~= p2);
            let gone = overflowed(v, addressed, cap);
            assert(dropped@.to_set() == gone);
            let target = delivered(v, addressed, msg@, cap);
            assert(self.view().connections == target.connections);
            assert(self.view().subscribers == target.subscribers);
            assert forall|q: int, x: usize|
                0 <= q < self.view().subscribers.len() && #[trigger] self.view().subscribers[q].contains(x) implies has_id(self.view().connections, x) by {
                assert(v.subscribers[q].contains(x));
                assert(!gone.contains(x));
                let k = choose|k: int| 0 <= k < v.connections.len() && v.connections[k].id == x;
                lemma_delivery_outcome(v.connections, addressed, msg@, cap, k);
                if f2(v.connections[k]) is None {
                    v.connections.lemma_filter_contains(p2, k);
                    let i = choose|i: int|
                        0 <= i < v.connections.filter(p2).len() && v.connections.filter(p2)[i]
                            == v.connections[k];
                    assert(ids_of(v.connections.filter(p2))[i] == x);
                    assert(gone.contains(x));
                }
                let e = f2(v.connections[k])->Some_0;
                let i = choose|i: int| 0 <= i < target.connections.len() && target.connections[i] == e;
                assert(target.connections[i].id == x);
            }
        }
    }

    /// Queues an update for the subscribers of the quadrant of a draw.
    fn notify_quadrant(&mut self, req: &DrawReq)
        requires
            old(self).wf(),
            old(self).spec_geometry().in_bounds(req.x as int, req.y as int),
        ensures
            final(self).wf(),
            final(self).spec_geometry() == old(self).spec_geometry(),
            final(self).spec_mode() == old(self).spec_mode(),
            final(self).spec_outbox_capacity() == old(self).spec_outbox_capacity(),
            final(self).spec_max_connections() == old(self).spec_max_connections(),
            final(self).spec_next_id() == old(self).spec_next_id(),
            final(self).view() == notified(
                old(self).view(),
                old(self).spec_geometry().quadrant_id_of(req.x as int, req.y as int),
                Envelope::Update(*req),
                old(self).spec_outbox_capacity() as nat,
            ),
    {
        let ghost v = self.view();
        let q = calculate_quadrant_id(&self.geometry, req.x, req.y);
        let subscribers = self.subscriptions.subscribers_of(q);
        let audience = Audience::Only(subscribers);
        self.fan_out(&audience, &Outbound::Update(*req));
        proof {
            let a1 = |id: usize| audience.includes(id);
            let a2 = |id: usize| v.subscribers[q as int].contains(id);
            assert(a1 =~= a2);
        }
    }

    /// Relays a broker payload, unfiltered, to every live connection;
    /// connections with a full outbox are closed instead.
    pub fn broadcast_payload(&mut self, payload: Vec<u8>)
        requires
            old(self).wf(),
        ensures
            final(self).wf(),
            final(self).spec_geometry() == old(self).spec_geometry(),
            final(self).spec_mode() == old(self).spec_mode(),
            final(self).spec_outbox_capacity() == old(self).spec_outbox_capacity(),
            final(self).spec_max_connections() == old(self).spec_max_connections(),
            final(self).spec_next_id() == old(self).spec_next_id(),
            final(self).view() == forwarded(
                old(self).view(),
                Envelope::Forward(payload@),
                old(self).spec_outbox_capacity() as nat,
            ),
    {
        let ghost v = self.view();
        let ghost bytes = payload@;
        let audience = Audience::Everyone;
        self.fan_out(&audience, &Outbound::Forward(payload));
        proof {
            let a1 = |id: usize| audience.includes(id);
            let a2 = |id: usize| true;
            assert(a1 =~= a2);
        }
    }

    /// The store write that persists `req`, once it passes validation.
    pub fn cell_write(&self, req: &DrawReq) -> (r: Result<CellWrite, DrawError>)
        requires
            self.wf(),
        ensures
            rejection(self.spec_geometry(), *req) matches Some(e) ==> r == Err::<
                CellWrite,
                DrawError,
            >(e),
            rejection(self.spec_geometry(), *req) is None ==> (r matches Ok(w) && w.index
                == self.spec_geometry().index_of(req.x as int, req.y as int) && w.bit_offset == 4
                * w.index && w.color == req.color),
    {
        match validate_cell(&self.geometry, req.x, req.y, req.color) {
            Err(CodecError::OutOfBounds) => Err(DrawError::OutOfBounds),
            Err(_) => Err(DrawError::InvalidColor),
            Ok(index) => {
                proof {
                    assert(4 * self.geometry.width * self.geometry.height == 4 * (
                    self.geometry.width * self.geometry.height)) by (nonlinear_arith);
                }
                Ok(CellWrite { index, bit_offset: 4 * index, color: req.color })
            },
        }
    }

    /// Completes a draw once the store has answered its write. A draw that
    /// fails validation is refused with nothing written; a write that
    /// failed is reported and nothing is delivered. A persisted draw is
    /// queued for the subscribers of its quadrant in direct mode, or handed
    /// back for publication in broker mode.
    pub fn update_cell(&mut self, req: &DrawReq, stored: Result<(), StorageError>) -> (r: Result<
        Dispatch,
        DrawError,
    >)
        requires
            old(self).wf(),
        ensures
            final(self).wf(),
            final(self).spec_geometry() == old(self).spec_geometry(),
            final(self).spec_mode() == old(self).spec_mode(),
            final(self).spec_outbox_capacity() == old(self).spec_outbox_capacity(),
            final(self).spec_max_connections() == old(self).spec_max_connections(),
            final(self).spec_next_id() == old(self).spec_next_id(),
            rejection(old(self).spec_geometry(), *req) matches Some(e) ==> r == Err::<
                Dispatch,
                DrawError,
            >(e) && final(self).view() == old(self).view(),
            rejection(old(self).spec_geometry(), *req) is None && stored is Err ==> r == Err::<
                Dispatch,
                DrawError,
            >(DrawError::Storage) && final(self).view() == old(self).view(),
            rejection(old(self).spec_geometry(), *req) is None && stored is Ok && old(
                self,
            ).spec_mode() == DeliveryMode::Broker ==> r == Ok::<Dispatch, DrawError>(
                Dispatch::Publish(*req),
            ) && final(self).view() == old(self).view(),
            rejection(old(self).spec_geometry(), *req) is None && stored is Ok && old(
                self,
            ).spec_mode() == DeliveryMode::Direct ==> r == Ok::<Dispatch, DrawError>(
                Dispatch::Delivered,
            ) && final(self).view() == notified(
                old(self).view(),
                old(self).spec_geometry().quadrant_id_of(req.x as int, req.y as int),
                Envelope::Update(*req),
                old(self).spec_outbox_capacity() as nat,
            ),
    {
        match validate_cell(&self.geometry, req.x, req.y, req.color) {
            Err(CodecError::OutOfBounds) => {
                return Err(DrawError::OutOfBounds);
            },
            Err(_) => {
                return Err(DrawError::InvalidColor);
            },
            Ok(_) => {},
        }
        if stored.is_err() {
            return Err(DrawError::Storage);
        }
        match self.mode {
            DeliveryMode::Broker => Ok(Dispatch::Publish(*req)),
            DeliveryMode::Direct => {
                self.notify_quadrant(req);
                Ok(Dispatch::Delivered)
            },
        }
    }

    /// Closes every connection idle for longer than `timeout` milliseconds
    /// by the current clock. See `clean_inactive_clients_at`.
    pub fn clean_inactive_clients(&mut self, timeout: u64) -> (r: Vec<usize>)
        requires
            old(self).wf(),
        ensures
            final(self).wf(),
            final(self).spec_geometry() == old(self).spec_geometry(),
            final(self).spec_mode() == old(self).spec_mode(),
            final(self).spec_outbox_capacity() == old(self).spec_outbox_capacity(),
            final(self).spec_max_connections() == old(self).spec_max_connections(),
            final(self).spec_next_id() == old(self).spec_next_id(),
            exists|now: u64| #[trigger] swept(old(self).view(), now, timeout) == final(self).view()
                && r@ == ids_of(old(self).view().connections.filter(
                |c: ConnectionView| is_stale(c, now, timeout),
            )),
    {
        let now = now_millis();
        let r = self.clean_inactive_clients_at(now, timeout);
        proof {
            assert(swept(old(self).view(), now, timeout) == self.view());
        }
        r
    }

    /// Closes, at time `now`, every connection idle for more than `timeout`
    /// milliseconds, through the same removal as an explicit disconnect:
    /// each is unsubscribed everywhere. Returns their ids, oldest first.
    pub fn clean_inactive_clients_at(&mut self, now: u64, timeout: u64) -> (r: Vec<usize>)
        requires
            old(self).wf(),
        ensures
            final(self).wf(),
            final(self).spec_geometry() == old(self).spec_geometry(),
            final(self).spec_mode() == old(self).spec_mode(),
            final(self).spec_outbox_capacity() == old(self).spec_outbox_capacity(),
            final(self).spec_max_connections() == old(self).spec_max_connections(),
            final(self).spec_next_id() == old(self).spec_next_id(),
            final(self).view() == swept(old(self).view(), now, timeout),
            r@ == ids_of(
                old(self).view().connections.filter(|c: ConnectionView| is_stale(c, now, timeout)),
            ),
    {
        let ghost v = self.view();
        let removed = self.registry.remove_stale(now, timeout);
        self.subscriptions.purge_all(&removed);
        proof {
            let p = |c: ConnectionView| !is_stale(c, now, timeout);
            let q = |c: ConnectionView| is_stale(c, now, timeout);
            assert forall|qd: int, x: usize|
                0 <= qd < self.view().subscribers.len() && #[trigger] self.view().subscribers[qd].contains(x) implies has_id(self.view().connections, x) by {
                assert(v.subscribers[qd].contains(x));
                assert(!removed@.to_set().contains(x));
                let k = choose|k: int| 0 <= k < v.connections.len() && v.connections[k].id == x;
                if is_stale(v.connections[k], now, timeout) {
                    v.connections.lemma_filter_contains(q, k);
                    let i = choose|i: int|
                        0 <= i < v.connections.filter(q).len() && v.connections.filter(q)[i]
                            == v.connections[k];
                    assert(removed@[i] == x);
                    assert(removed@.contains(x));
                }
                v.connections.lemma_filter_contains(p, k);
                let i = choose|i: int|
                    0 <= i < v.connections.filter(p).len() && v.connections.filter(p)[i]
                        == v.connections[k];
                assert(self.view().connections[i].id == x);
            }
            assert(self.view() == swept(v, now, timeout));
        }
        removed
    }

    /// Takes the messages queued for connection `client_id`, oldest first;
    /// `None` if it is not live. The first messages a connection ever
    /// yields begin with the configuration message.
    pub fn take_messages(&mut self, client_id: usize) -> (r: Option<Vec<Outbound>>)
        requires
            old(self).wf(),
        ensures
            final(self).wf(),
            final(self).spec_geometry() == old(self).spec_geometry(),
            final(self).spec_mode() == old(self).spec_mode(),
            final(self).spec_outbox_capacity() == old(self).spec_outbox_capacity(),
            final(self).spec_max_connections() == old(self).spec_max_connections(),
            final(self).spec_next_id() == old(self).spec_next_id(),
            final(self).view().subscribers == old(self).view().subscribers,
            r is Some <==> has_id(old(self).view().connections, client_id),
            final(self).view().connections == old(self).view().connections.map_values(
                |c: ConnectionView| emptied(c, client_id),
            ),
            r matches Some(v) ==> forall|k: int|
                0 <= k < old(self).view().connections.len() && (#[trigger] old(self).view().connections[k]).id == client_id ==> {
                    &&& crate::message::envelopes(v@) == old(self).view().connections[k].outbox
                    &&& !old(self).view().connections[k].drained ==> v@.len() > 0 && v@[0]@
                        == Envelope::Configuration
                },
    {
        proof {
            self.registry.lemma_wf();
        }
        let r = self.registry.take_outbox(client_id);
        proof {
            assert forall|q: int, x: usize|
                0 <= q < self.view().subscribers.len() && #[trigger] self.view().subscribers[q].contains(x) implies has_id(self.view().connections, x) by {
                assert(old(self).view().subscribers[q].contains(x));
                let k = choose|k: int|
                    0 <= k < old(self).view().connections.len() && old(self).view().connections[k].id
                        == x;
                assert(self.view().connections[k].id == x);
            }
            if r is Some {
                let v = r->Some_0;
                assert forall|k: int|
                    0 <= k < old(self).view().connections.len() && (#[trigger] old(self).view().connections[k]).id == client_id && !old(self).view().connections[k].drained implies v@.len() > 0 && v@[0]@
                    == Envelope::Configuration by {
                    assert(crate::message::envelopes(v@)[0] == v@[0]@);
                }
            }
        }
        r
    }
}

/// A connection just admitted at `now`: only the configuration message
/// queued.
pub open spec fn fresh_connection(id: usize, now: u64) -> ConnectionView {
    ConnectionView { id, last_active: now, outbox: seq![Envelope::Configuration], drained: false }
}

/// An empty hub over `geometry`: no connection, no subscription. At most
/// `max_connections` connections are admitted, and a connection whose
/// outbox holds `outbox_capacity` undelivered messages is closed rather
/// than queued further.
pub fn new(geometry: Geometry, mode: DeliveryMode, max_connections: usize, outbox_capacity: usize) -> (r: GridHolder)
    requires
        geometry.wf(),
    ensures
        r.wf(),
        r.spec_geometry() == geometry,
        r.spec_quadrants() == geometry.quadrants(),
        r.spec_mode() == mode,
        r.spec_max_connections() == max_connections,
        r.spec_outbox_capacity() == outbox_capacity,
        r.spec_next_id() == 0,
        r.view().connections == Seq::<ConnectionView>::empty(),
        r.view().subscribers == Seq::new(
            geometry.quadrant_count() as nat,
            |q: int| Set::<usize>::empty(),
        ),
{
    proof {
        crate::geometry::lemma_tiles(geometry);
    }
    let count = geometry.width / geometry.quadrant_size * (geometry.height
        / geometry.quadrant_size);
    let mut holder = GridHolder {
        geometry,
        mode,
        quadrants: Vec::new(),
        registry: Registry::new(max_connections, outbox_capacity),
        subscriptions: SubscriptionIndex::new(count),
    };
    holder.initialize_quadrants();
    holder
}

/// A subscription never outlives its connection: in a well-formed hub a
/// connection that is not live (for instance one just removed) is in no
/// quadrant's subscriber set.
pub proof fn lemma_no_dangling_subscription(h: GridHolder, id: usize)
    requires
        h.wf(),
        !has_id(h.view().connections, id),
    ensures
        forall|q: int|
            0 <= q < h.view().subscribers.len() ==> !(#[trigger] h.view().subscribers[q].contains(
                id,
            )),
{
}

/// A persisted draw reaches the subscribers of its quadrant and no one
/// else: a connection not subscribed to that quadrant is left exactly as it
/// was; a subscribed one gets the update appended to its outbox, or is
/// closed if its outbox is full.
pub proof fn lemma_targeted_delivery(h: GridHolder, req: DrawReq, k: int)
    requires
        h.wf(),
        rejection(h.spec_geometry(), req) is None,
        0 <= k < h.view().connections.len(),
    ensures
        ({
            let v = h.view();
            let c = v.connections[k];
            let q = h.spec_geometry().quadrant_id_of(req.x as int, req.y as int);
            let cap = h.spec_outbox_capacity() as nat;
            let after = notified(v, q, Envelope::Update(req), cap).connections;
            let updated = ConnectionView {
                id: c.id,
                last_active: c.last_active,
                outbox: c.outbox.push(Envelope::Update(req)),
                drained: c.drained,
            };
            &&& !v.subscribers[q].contains(c.id) ==> after.contains(c) && forall|y: ConnectionView|
                #[trigger] after.contains(y) && y.id == c.id ==> y == c
            &&& v.subscribers[q].contains(c.id) && c.outbox.len() < cap ==> after.contains(updated)
                && forall|y: ConnectionView| #[trigger] after.contains(y) && y.id == c.id ==> y
                == updated
            &&& v.subscribers[q].contains(c.id) && c.outbox.len() >= cap ==> !has_id(after, c.id)
        }),
{
    let v = h.view();
    let q = h.spec_geometry().quadrant_id_of(req.x as int, req.y as int);
    let cap = h.spec_outbox_capacity() as nat;
    h.lemma_wf();
    lemma_delivery_outcome(
        v.connections,
        |id: usize| v.subscribers[q].contains(id),
        Envelope::Update(req),
        cap,
        k,
    );
}

/// Right after a sweep at `now`, a connection that was live is still live
/// exactly when it had not been idle for more than `timeout` milliseconds.
pub proof fn lemma_sweep_correctness(h: GridHolder, now: u64, timeout: u64, k: int)
    requires
        h.wf(),
        0 <= k < h.view().connections.len(),
    ensures
        has_id(swept(h.view(), now, timeout).connections, h.view().connections[k].id) <==> !is_stale(
            h.view().connections[k],
            now,
            timeout,
        ),
{
    h.lemma_wf();
    crate::registry::lemma_sweep_membership(h.view().connections, now, timeout, k);
}

/// The first message that any connection yields is the configuration: in a
/// well-formed hub, every connection that has not been drained yet has it
/// at the head of its outbox.
pub proof fn lemma_configuration_first(h: GridHolder, k: int)
    requires
        h.wf(),
        0 <= k < h.view().connections.len(),
        !h.view().connections[k].drained,
    ensures
        h.view().connections[k].outbox.len() > 0,
        h.view().connections[k].outbox[0] == Envelope::Configuration,
{
    h.lemma_wf();
}

/// After filtering out id `id`, no connection with that id is left.
proof fn lemma_filter_drops_id(s: Seq<ConnectionView>, id: usize)
    ensures
        !has_id(s.filter(|c: ConnectionView| c.id != id), id),
{
    let p = |c: ConnectionView| c.id != id;
    let f = s.filter(p);
    if has_id(f, id) {
        let k = choose|k: int| 0 <= k < f.len() && f[k].id == id;
        s.lemma_filter_pred(p, k);
    }
}

} // verus!
