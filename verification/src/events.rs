//! The inbound event shapes the dispatcher consumes. The surrounding
//! program decodes the platform's webhook payloads into these.

use vstd::prelude::*;

verus! {

/// One chat message event: who wrote what, where, and when.
#[derive(Debug)]
pub struct MessageEvent {
    pub subtype: Option<String>,
    pub channel: String,
    pub user: String,
    pub text: String,
    pub ts: String,
}

/// The event carried by a callback envelope.
#[derive(Debug)]
pub enum EventType {
    Message(MessageEvent),
    Unsupported,
}

/// A callback envelope: the one field the dispatcher reads.
#[derive(Debug)]
pub struct CallbackEvent {
    pub event: EventType,
}

} // verus!
