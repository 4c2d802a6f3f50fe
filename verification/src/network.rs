//! The state of the connection to the game server, and how socket events change it.

use vstd::prelude::*;

verus! {

/// The state of the connection to the server.
#[derive(Debug, Clone, Copy, PartialEq, Eq, Structural)]
pub enum ConnectionStatus {
    Connected,
    Disconnected,
    Connecting,
    Error,
}

/// What happens to the connection: a request to connect, the outcome of creating the
/// socket, what the socket reports, and a request to disconnect (`had_socket` tells
/// whether a socket was there to close).
#[derive(Debug, Clone, Copy, PartialEq, Eq, Structural)]
pub enum ConnectionEvent {
    ConnectRequested,
    SocketCreated,
    SocketCreationFailed,
    Opened,
    Failed,
    Closed,
    DisconnectRequested { had_socket: bool },
}

/// What the connection manager must do next with the socket.
#[derive(Debug, Clone, Copy, PartialEq, Eq, Structural)]
pub enum ConnectionAction {
    Nothing,
    OpenSocket,
}

/// The state after `event` in state `status`, and the action it calls for.
pub open spec fn connection_transition(status: ConnectionStatus, event: ConnectionEvent) -> (ConnectionStatus, ConnectionAction) {
    match event {
        ConnectionEvent::ConnectRequested => if status == ConnectionStatus::Connecting {
            (status, ConnectionAction::Nothing)
        } else {
            (ConnectionStatus::Connecting, ConnectionAction::OpenSocket)
        },
        ConnectionEvent::SocketCreated => (status, ConnectionAction::Nothing),
        ConnectionEvent::SocketCreationFailed => (ConnectionStatus::Error, ConnectionAction::Nothing),
        ConnectionEvent::Opened => (ConnectionStatus::Connected, ConnectionAction::Nothing),
        ConnectionEvent::Failed => (ConnectionStatus::Error, ConnectionAction::Nothing),
        ConnectionEvent::Closed => (ConnectionStatus::Disconnected, ConnectionAction::Nothing),
        ConnectionEvent::DisconnectRequested { had_socket } => if had_socket {
            (ConnectionStatus::Disconnected, ConnectionAction::Nothing)
        } else {
            (status, ConnectionAction::Nothing)
        },
    }
}

/// Decides how the connection state changes on `event`: a request to connect while a
/// connection is being made is ignored, any other one starts connecting and asks for a
/// socket; a socket that cannot be created, or reports an error, leaves the connection in
/// error; an opened socket is connected; a closed one, or one closed on request, is
/// disconnected.
pub fn connection_step(status: ConnectionStatus, event: ConnectionEvent) -> (r: (ConnectionStatus, ConnectionAction))
    ensures
        r == connection_transition(status, event),
{
    match event {
        ConnectionEvent::ConnectRequested => {
            if status == ConnectionStatus::Connecting {
                (status, ConnectionAction::Nothing)
            } else {
                (ConnectionStatus::Connecting, ConnectionAction::OpenSocket)
            }
        },
        ConnectionEvent::SocketCreated => (status, ConnectionAction::Nothing),
        ConnectionEvent::SocketCreationFailed => (ConnectionStatus::Error, ConnectionAction::Nothing),
        ConnectionEvent::Opened => (ConnectionStatus::Connected, ConnectionAction::Nothing),
        ConnectionEvent::Failed => (ConnectionStatus::Error, ConnectionAction::Nothing),
        ConnectionEvent::Closed => (ConnectionStatus::Disconnected, ConnectionAction::Nothing),
        ConnectionEvent::DisconnectRequested { had_socket } => {
            if had_socket {
                (ConnectionStatus::Disconnected, ConnectionAction::Nothing)
            } else {
                (status, ConnectionAction::Nothing)
            }
        },
    }
}

/// A request to connect is ignored only while a connection is being made: from every
/// other state (connected, disconnected, or after an error) it starts connecting and asks
/// for a socket. So whatever the socket reported last, a client that is not already
/// connecting can always connect again.
pub proof fn lemma_connect_request_opens_socket(status: ConnectionStatus, last: ConnectionEvent)
    ensures
        connection_transition(status, ConnectionEvent::ConnectRequested).0 == ConnectionStatus::Connecting,
        (connection_transition(status, ConnectionEvent::ConnectRequested).1 == ConnectionAction::OpenSocket)
            <==> status != ConnectionStatus::Connecting,
        last != ConnectionEvent::ConnectRequested && last != ConnectionEvent::SocketCreated
            && !(last matches ConnectionEvent::DisconnectRequested { had_socket: false })
            ==> connection_transition(connection_transition(status, last).0, ConnectionEvent::ConnectRequested)
                == (ConnectionStatus::Connecting, ConnectionAction::OpenSocket),
{
}

} // verus!
