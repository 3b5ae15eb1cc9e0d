//! The loops that accept clients, and what the programs around them do at start.

use vstd::prelude::*;

verus! {

/// Port of the server that runs beside the broadcast channel.
pub const BROADCAST_PORT: u16 = 9000;

/// Seconds between looks at the server's thread.
pub const SUPERVISE_SECS: u64 = 5;

/// What came of waiting for a client of the single-client server.
#[derive(Debug, Clone, Copy, PartialEq, Eq, Structural)]
pub enum Accepted {
    /// A client connected.
    Client,
    /// A client connected, but its address could not be had.
    PeerUnknown,
    /// The client could not be accepted.
    Failed,
}

/// What the server does about it.
#[derive(Debug, Clone, Copy, PartialEq, Eq, Structural)]
pub enum ServerAction {
    /// Serve the client to its end, then wait for the next.
    Serve,
    /// Wait for the next client.
    Next,
    /// Stop the server.
    Stop,
}

/// What the single-client server does.
pub open spec fn action_for(accepted: Accepted) -> ServerAction {
    match accepted {
        Accepted::Client => ServerAction::Serve,
        Accepted::PeerUnknown => ServerAction::Stop,
        Accepted::Failed => ServerAction::Next,
    }
}

/// One step of the server that serves one client after the other. A client that could
/// not be accepted is passed over.
pub fn websocket_server(accepted: Accepted) -> (r: ServerAction)
    ensures
        r == (match accepted {
            Accepted::Client => ServerAction::Serve,
            Accepted::PeerUnknown => ServerAction::Stop,
            Accepted::Failed => ServerAction::Next,
        }),
        r == action_for(accepted),
{
    match accepted {
        Accepted::Client => ServerAction::Serve,
        Accepted::PeerUnknown => ServerAction::Stop,
        Accepted::Failed => ServerAction::Next,
    }
}

/// What came of waiting for a client of the broadcast server.
#[derive(Debug, Clone, Copy, PartialEq, Eq, Structural)]
pub enum Upgraded {
    /// A client connected and speaks websocket.
    Websocket,
    /// A client connected, but does not.
    NotWebsocket,
    /// The client could not be accepted.
    Failed,
}

/// What the server of all clients does.
pub open spec fn action_for_upgrade(upgraded: Upgraded) -> ServerAction {
    match upgraded {
        Upgraded::Websocket => ServerAction::Serve,
        Upgraded::NotWebsocket => ServerAction::Next,
        Upgraded::Failed => ServerAction::Stop,
    }
}

/// One step of the server that serves all clients at once. A client that does not speak
/// websocket is let go; one that cannot be accepted stops the server.
pub fn broadcast_server(upgraded: Upgraded) -> (r: ServerAction)
    ensures
        r == (match upgraded {
            Upgraded::Websocket => ServerAction::Serve,
            Upgraded::NotWebsocket => ServerAction::Next,
            Upgraded::Failed => ServerAction::Stop,
        }),
        r == action_for_upgrade(upgraded),
{
    match upgraded {
        Upgraded::Websocket => ServerAction::Serve,
        Upgraded::NotWebsocket => ServerAction::Next,
        Upgraded::Failed => ServerAction::Stop,
    }
}

/// What the broadcast program does at start.
pub enum Startup {
    /// Join the network with these credentials, name and password.
    Join(String, String),
    /// Capture without a network.
    CaptureOnly,
}

/// Joins a network only where both credentials were built in.
pub fn startup(ssid: Option<String>, pass: Option<String>) -> (r: Startup)
    ensures
        match r {
            Startup::Join(s, p) => ssid == Some(s) && pass == Some(p),
            Startup::CaptureOnly => ssid is None || pass is None,
        },
        ssid is Some && pass is Some <==> r is Join,
{
    match (ssid, pass) {
        (Some(s), Some(p)) => Startup::Join(s, p),
        _ => Startup::CaptureOnly,
    }
}

/// Both servers serve exactly the clients that they can: one is served when it connected
/// and, where clients share the stream, speaks websocket. The first passes over a client
/// that it could not accept; the second stops there.
pub proof fn law_every_good_client_is_served(accepted: Accepted, upgraded: Upgraded)
    ensures
        action_for(accepted) == ServerAction::Serve <==> accepted == Accepted::Client,
        action_for(accepted) == ServerAction::Next <==> accepted == Accepted::Failed,
        action_for_upgrade(upgraded) == ServerAction::Serve <==> upgraded == Upgraded::Websocket,
        action_for_upgrade(upgraded) == ServerAction::Next <==> upgraded == Upgraded::NotWebsocket,
{
}

} // verus!
