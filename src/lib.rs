//! A shared-canvas fan-out engine: a packed colour grid, a fixed partition of
//! the canvas into square quadrants, a registry of live connections with
//! bounded outboxes, and the dispatcher that persists a draw before it is
//! delivered to the connections that watch its quadrant.

mod clock;
pub mod codec;
pub mod geometry;
pub mod grid;
pub mod handlers;
pub mod holder;
pub mod message;
pub mod registry;
pub mod subscriptions;
