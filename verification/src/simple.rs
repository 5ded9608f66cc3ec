//! Simple stand-ins for a network: one server and one client that talk over a
//! pair of queues.
//!
//! The ends hold no queue themselves. They say what each step means: the first
//! event is always that the connection stands, and after that whatever the
//! queue yields.

use crate::network::{ClientEvent, ConnectionId, ServerEvent};
use vstd::prelude::*;

verus! {

/// What a look into a queue found.
pub enum Polled {
    /// Nothing waits.
    Empty,
    /// The other end is gone.
    Disconnected,
    /// A message.
    Message(Vec<u8>),
}

/// The server's end. Its one client has the connection id 0.
pub struct SimpleServer {
    sent_connected: bool,
}

impl SimpleServer {
    /// Whether the server has said that its client is connected.
    pub closed spec fn greeted(&self) -> bool {
        self.sent_connected
    }

    pub fn new() -> (r: SimpleServer)
        ensures
            !r.greeted(),
    {
        Self { sent_connected: false }
    }

    /// The event that comes before anything is read from the queue: that the
    /// client is connected, once.
    pub fn greeting(&mut self) -> (r: Option<ServerEvent>)
        ensures
            final(self).greeted(),
            old(self).greeted() ==> r is None,
            !old(self).greeted() ==> (r matches Some(ServerEvent::Connection(c)) && c == 0),
    {
        if !self.sent_connected {
            self.sent_connected = true;
            return Some(ServerEvent::Connection(0));
        }
        None
    }

    /// The event that a look into the queue from the client amounts to.
    pub fn next_event(&self, polled: Polled) -> (r: Option<ServerEvent>)
        ensures
            match polled {
                Polled::Empty => r is None,
                Polled::Disconnected => r matches Some(ServerEvent::ConnectionClosed(c)) && c == 0,
                Polled::Message(m) => r matches Some(ServerEvent::Message(c, n)) && c == 0 && n
                    == m,
            },
    {
        match polled {
            Polled::Empty => None,
            Polled::Disconnected => Some(ServerEvent::ConnectionClosed(0)),
            Polled::Message(message) => Some(ServerEvent::Message(0, message)),
        }
    }

    /// What to put into the queue to the client for a message to `client`: the
    /// message for client 0, and nothing for any other.
    pub fn send_message(&self, client: ConnectionId, message: Vec<u8>) -> (r: Option<Vec<u8>>)
        ensures
            r == (if client == 0 {
                Some(message)
            } else {
                None
            }),
    {
        if client == 0 {
            Some(message)
        } else {
            None
        }
    }
}

/// The client's end.
pub struct SimpleClient {
    sent_connected: bool,
}

impl SimpleClient {
    /// Whether the client has said that it is connected.
    pub closed spec fn greeted(&self) -> bool {
        self.sent_connected
    }

    pub fn new() -> (r: SimpleClient)
        ensures
            !r.greeted(),
    {
        Self { sent_connected: false }
    }

    /// The event that comes before anything is read from the queue: that the
    /// connection stands, once.
    pub fn greeting(&mut self) -> (r: Option<ClientEvent>)
        ensures
            final(self).greeted(),
            old(self).greeted() ==> r is None,
            !old(self).greeted() ==> (r matches Some(ClientEvent::Connection)),
    {
        if !self.sent_connected {
            self.sent_connected = true;
            return Some(ClientEvent::Connection);
        }
        None
    }

    /// The event that a look into the queue from the server amounts to.
    pub fn next_event(&self, polled: Polled) -> (r: Option<ClientEvent>)
        ensures
            match polled {
                Polled::Empty => r is None,
                Polled::Disconnected => r matches Some(ClientEvent::ConnectionClosed),
                Polled::Message(m) => r matches Some(ClientEvent::Message(n)) && n == m,
            },
    {
        match polled {
            Polled::Empty => None,
            Polled::Disconnected => Some(ClientEvent::ConnectionClosed),
            Polled::Message(message) => Some(ClientEvent::Message(message)),
        }
    }
}

} // verus!
