//! What travels through the engine: draw requests coming in, and the
//! messages queued for each connection going out.

use vstd::prelude::*;

verus! {

/// A request to paint cell `(x, y)` with palette colour `color`.
#[derive(Debug, Clone, Copy, PartialEq, Eq, Structural)]
pub struct DrawReq {
    pub x: usize,
    pub y: usize,
    pub color: u8,
}

/// A message waiting in a connection's outbox.
#[derive(Debug, PartialEq, Eq)]
pub enum Outbound {
    /// The quadrant layout; always the first message of a connection.
    Configuration,
    /// A cell that was durably repainted.
    Update(DrawReq),
    /// A payload relayed verbatim from the message broker.
    Forward(Vec<u8>),
}

/// The value of an outbound message.
pub enum Envelope {
    Configuration,
    Update(DrawReq),
    Forward(Seq<u8>),
}

impl View for Outbound {
    type V = Envelope;

    open spec fn view(&self) -> Envelope {
        match self {
            Outbound::Configuration => Envelope::Configuration,
            Outbound::Update(d) => Envelope::Update(*d),
            Outbound::Forward(b) => Envelope::Forward(b@),
        }
    }
}

/// The values of a queue of outbound messages.
pub open spec fn envelopes(v: Seq<Outbound>) -> Seq<Envelope> {
    v.map_values(|o: Outbound| o@)
}

impl Outbound {
    /// A copy of this message.
    pub fn duplicate(&self) -> (r: Outbound)
        ensures
            r@ == self@,
    {
        match self {
            Outbound::Configuration => Outbound::Configuration,
            Outbound::Update(d) => Outbound::Update(*d),
            Outbound::Forward(b) => Outbound::Forward(b.clone()),
        }
    }
}

/// A message from a client, already decoded from its wire form.
#[derive(Debug, Clone, Copy, PartialEq, Eq, Structural)]
pub enum ClientMessage {
    Subscribe { quadrant_id: usize },
    Unsubscribe { quadrant_id: usize },
    Draw(DrawReq),
    /// An application-level keep-alive.
    Activity,
}

} // verus!
