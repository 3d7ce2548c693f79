//! How long a server that talks over stdio goes on.

use vstd::prelude::*;

verus! {

/// How many requests to the IDA worker may wait.
pub const REQUEST_QUEUE_CAPACITY: usize = 64;

/// How often a server looks whether its transport was closed, in milliseconds.
pub const TRANSPORT_POLL_MILLIS: u64 = 200;

/// What a running server is told.
#[derive(Debug, Clone, Copy, PartialEq, Eq, Structural)]
pub enum ServeEvent {
    /// A shutdown was asked for.
    ShutdownRequested,
    /// It was time to look at the transport.
    Polled { transport_closed: bool },
}

/// What a running server does next.
#[derive(Debug, Clone, Copy, PartialEq, Eq, Structural)]
pub enum ServeAction {
    /// Close the service and stop.
    CloseService,
    /// The client is gone: wait for the service to end, and stop.
    AwaitService,
    /// Go on serving.
    KeepServing,
}

/// What a running server does next: a shutdown closes the service, and a closed transport
/// ends it.
pub fn serve_step(event: ServeEvent) -> (action: ServeAction)
    ensures
        action == match event {
            ServeEvent::ShutdownRequested => ServeAction::CloseService,
            ServeEvent::Polled { transport_closed } => if transport_closed {
                ServeAction::AwaitService
            } else {
                ServeAction::KeepServing
            },
        },
{
    match event {
        ServeEvent::ShutdownRequested => ServeAction::CloseService,
        ServeEvent::Polled { transport_closed } => if transport_closed {
            ServeAction::AwaitService
        } else {
            ServeAction::KeepServing
        },
    }
}

} // verus!
