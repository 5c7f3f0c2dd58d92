//! The stream that baked maps arrive on.

use vstd::prelude::*;

verus! {

/// How long the client waits before it connects again.
pub const RECONNECT_SECONDS: u64 = 2;

/// What happens on the stream.
#[derive(Clone, Copy, Debug, PartialEq, Eq, Structural)]
pub enum StreamEvent {
    /// A text came in.
    Text,
    /// The server closed the stream, or it ended.
    Closed,
    /// The stream failed.
    Failed,
    /// Something else came in.
    Other,
}

/// What the client does about it.
#[derive(Clone, Copy, Debug, PartialEq, Eq, Structural)]
pub enum StreamStep {
    /// Take the text for a message, and go on.
    Handle,
    /// Go on.
    Continue,
    /// Wait, and connect again.
    Reconnect,
    /// Warn, wait, and connect again.
    WarnAndReconnect,
}

/// What the client does about what happens on the stream.
pub fn run_client(event: StreamEvent) -> (r: StreamStep)
    ensures
        r == (match event {
            StreamEvent::Text => StreamStep::Handle,
            StreamEvent::Closed => StreamStep::Reconnect,
            StreamEvent::Failed => StreamStep::WarnAndReconnect,
            StreamEvent::Other => StreamStep::Continue,
        }),
{
    match event {
        StreamEvent::Text => StreamStep::Handle,
        StreamEvent::Closed => StreamStep::Reconnect,
        StreamEvent::Failed => StreamStep::WarnAndReconnect,
        StreamEvent::Other => StreamStep::Continue,
    }
}

} // verus!
