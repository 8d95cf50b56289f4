//! The per-connection message handler and the broker message handler: the
//! decisions behind each inbound client message and each consumed broker
//! message.

use crate::holder::{forwarded, rejection, CellWrite, DrawError, GridHolder, HubView};
use crate::message::{ClientMessage, DrawReq, Envelope};
use crate::registry::{has_id, touched};
use vstd::prelude::*;

verus! {

/// What is left to do after a client message was handled.
#[derive(Debug, Clone, Copy, PartialEq, Eq, Structural)]
pub enum Action {
    /// Nothing: the message took effect, or was a no-op.
    Done,
    /// The draw passed validation: perform this store write, then complete
    /// the draw with `GridHolder::update_cell`.
    Persist(DrawReq, CellWrite),
    /// The draw was refused before anything was written.
    Reject(DrawError),
}

/// Why a broker message could not be relayed.
#[derive(Debug, Clone, Copy, PartialEq, Eq, Structural)]
pub enum HandlerError {
    /// The message carried no payload.
    MissingPayload,
}

/// The hub after connection `id` subscribed to quadrant `q`: a no-op unless
/// the connection is live and the quadrant exists.
pub open spec fn after_subscribe(v: HubView, id: usize, q: usize) -> HubView {
    if has_id(v.connections, id) && q < v.subscribers.len() {
        HubView {
            connections: v.connections,
            subscribers: v.subscribers.update(q as int, v.subscribers[q as int].insert(id)),
        }
    } else {
        v
    }
}

/// The hub after connection `id` unsubscribed from quadrant `q`.
pub open spec fn after_unsubscribe(v: HubView, id: usize, q: usize) -> HubView {
    if q < v.subscribers.len() {
        HubView {
            connections: v.connections,
            subscribers: v.subscribers.update(q as int, v.subscribers[q as int].remove(id)),
        }
    } else {
        v
    }
}

/// Handles what one client sends over its connection.
pub struct GridWebSocketHandler;

impl GridWebSocketHandler {
    pub fn new() -> (r: GridWebSocketHandler) {
        GridWebSocketHandler
    }

    /// Applies one decoded message of connection `client_id` to the hub.
    /// Subscriptions and keep-alives take effect at once; a draw is
    /// validated and, when valid, handed back as the store write to make.
    pub fn handle_message(&self, hub: &mut GridHolder, client_id: usize, msg: ClientMessage) -> (r:
        Action)
        requires
            old(hub).wf(),
        ensures
            final(hub).wf(),
            final(hub).spec_geometry() == old(hub).spec_geometry(),
            final(hub).spec_mode() == old(hub).spec_mode(),
            final(hub).spec_outbox_capacity() == old(hub).spec_outbox_capacity(),
            final(hub).spec_max_connections() == old(hub).spec_max_connections(),
            final(hub).spec_next_id() == old(hub).spec_next_id(),
            msg matches ClientMessage::Subscribe { quadrant_id } ==> r == Action::Done
                && final(hub).view() == after_subscribe(old(hub).view(), client_id, quadrant_id),
            msg matches ClientMessage::Unsubscribe { quadrant_id } ==> r == Action::Done
                && final(hub).view() == after_unsubscribe(old(hub).view(), client_id, quadrant_id),
            msg matches ClientMessage::Draw(req) ==> final(hub).view() == old(hub).view() && (
            match rejection(old(hub).spec_geometry(), req) {
                Some(e) => r == Action::Reject(e),
                None => r matches Action::Persist(d, w) && d == req && w.index == old(hub).spec_geometry().index_of(req.x as int, req.y as int) && w.bit_offset == 4
                    * w.index && w.color == req.color,
            }),
            msg matches ClientMessage::Activity ==> r == Action::Done && final(hub).view().subscribers
                == old(hub).view().subscribers && final(hub).view().connections.len() == old(hub).view().connections.len() && forall|i: int|
                0 <= i < old(hub).view().connections.len() ==> #[trigger] final(hub).view().connections[i] == touched(
                    old(hub).view().connections[i],
                    client_id,
                    final(hub).view().connections[i].last_active,
                ),
    {
        match msg {
            ClientMessage::Subscribe { quadrant_id } => {
                hub.subscribe_to_quadrant(client_id, quadrant_id);
                assert(hub.view() =~= after_subscribe(old(hub).view(), client_id, quadrant_id));
                Action::Done
            },
            ClientMessage::Unsubscribe { quadrant_id } => {
                hub.unsubscribe_from_quadrant(client_id, quadrant_id);
                assert(hub.view() =~= after_unsubscribe(old(hub).view(), client_id, quadrant_id));
                Action::Done
            },
            ClientMessage::Draw(req) => match hub.cell_write(&req) {
                Ok(w) => Action::Persist(req, w),
                Err(e) => Action::Reject(e),
            },
            ClientMessage::Activity => {
                hub.update_client_activity(client_id);
                Action::Done
            },
        }
    }

    /// Cleans up after connection `client_id` went away: it is closed and
    /// unsubscribed from every quadrant.
    pub fn on_disconnect(&self, hub: &mut GridHolder, client_id: usize)
        requires
            old(hub).wf(),
        ensures
            final(hub).wf(),
            final(hub).spec_geometry() == old(hub).spec_geometry(),
            final(hub).spec_mode() == old(hub).spec_mode(),
            final(hub).spec_outbox_capacity() == old(hub).spec_outbox_capacity(),
            final(hub).spec_max_connections() == old(hub).spec_max_connections(),
            final(hub).spec_next_id() == old(hub).spec_next_id(),
            final(hub).view().connections == old(hub).view().connections.filter(
                |c: crate::registry::ConnectionView| c.id != client_id,
            ),
            final(hub).view().subscribers == old(hub).view().subscribers.map_values(
                |s: Set<usize>| s.remove(client_id),
            ),
    {
        hub.remove_client(client_id);
    }
}

/// Relays what the broker topic carries to this process's connections.
pub struct GridKafkaMessageHandler;

impl GridKafkaMessageHandler {
    pub fn new() -> (r: GridKafkaMessageHandler) {
        GridKafkaMessageHandler
    }

    /// Forwards one consumed message, unfiltered by quadrant, to every live
    /// connection. A message without payload is refused and changes nothing.
    pub fn handle_message(&self, hub: &mut GridHolder, payload: Option<Vec<u8>>) -> (r: Result<
        (),
        HandlerError,
    >)
        requires
            old(hub).wf(),
        ensures
            final(hub).wf(),
            final(hub).spec_geometry() == old(hub).spec_geometry(),
            final(hub).spec_mode() == old(hub).spec_mode(),
            final(hub).spec_outbox_capacity() == old(hub).spec_outbox_capacity(),
            final(hub).spec_max_connections() == old(hub).spec_max_connections(),
            final(hub).spec_next_id() == old(hub).spec_next_id(),
            payload is None ==> r == Err::<(), HandlerError>(HandlerError::MissingPayload)
                && final(hub).view() == old(hub).view(),
            payload matches Some(p) ==> r == Ok::<(), HandlerError>(()) && final(hub).view()
                == forwarded(
                old(hub).view(),
                Envelope::Forward(p@),
                old(hub).spec_outbox_capacity() as nat,
            ),
    {
        match payload {
            None => Err(HandlerError::MissingPayload),
            Some(p) => {
                hub.broadcast_payload(p);
                Ok(())
            },
        }
    }
}

} // verus!
