//! The life of one connection: handshake, registration, relaying, end.

use crate::frame::Inbound;
use crate::identity::{is_random_token, random_token};
use crate::registry::PeerRegistry;
use vstd::prelude::*;

verus! {

/// Where a connection stands. A connection that completed its handshake
/// carries its identity until it terminates.
#[derive(Clone, Copy, Debug, PartialEq, Eq, Structural)]
pub enum Connection {
    /// The protocol upgrade is under way; nothing is registered.
    Handshaking,
    /// The upgrade succeeded and the identity is minted; the entry is not
    /// in the registry yet.
    Registered(u128),
    /// The entry is in the registry and inbound frames are relayed.
    Relaying(u128),
    /// Over. Nothing more happens on this connection.
    Terminated,
}

/// What the handler does with one inbound result.
#[derive(Clone, Copy, Debug, PartialEq, Eq, Structural)]
pub enum Action {
    /// Deliver the payload to every registered peer.
    Relay,
    /// Drop the frame and read on.
    Ignore,
    /// Leave the read loop and terminate.
    Stop,
}

impl Connection {
    /// The identity that the connection carries, if it has one.
    pub open spec fn identity(self) -> Option<u128> {
        match self {
            Connection::Registered(id) => Some(id),
            Connection::Relaying(id) => Some(id),
            _ => None,
        }
    }

    /// The state after a handshake that succeeded with identity `id`.
    pub open spec fn after_handshake(self, id: u128) -> Connection {
        if self == Connection::Handshaking {
            Connection::Registered(id)
        } else {
            self
        }
    }

    /// The state after a handshake that failed.
    pub open spec fn after_failed_handshake(self) -> Connection {
        if self == Connection::Handshaking {
            Connection::Terminated
        } else {
            self
        }
    }

    /// The state after the entry was put into the registry.
    pub open spec fn after_registration(self) -> Connection {
        match self {
            Connection::Registered(id) => Connection::Relaying(id),
            _ => self,
        }
    }

    /// What one inbound result asks for in this state.
    pub open spec fn reaction(self, inbound: Inbound) -> Action {
        if !(self is Relaying) || inbound.ends_connection() {
            Action::Stop
        } else if inbound matches Inbound::Frame(kind) && kind.carries_payload() {
            Action::Relay
        } else {
            Action::Ignore
        }
    }

    /// The registry's contents after this connection terminated.
    pub open spec fn registry_after_end<S>(self, peers: Map<u128, S>) -> Map<u128, S> {
        match self.identity() {
            Some(id) => peers.remove(id),
            None => peers,
        }
    }

    /// A connection that was just accepted.
    pub fn new() -> (connection: Connection)
        ensures
            connection == Connection::Handshaking,
    {
        Connection::Handshaking
    }

    /// The identity of the connection, if it has one.
    pub fn id(&self) -> (id: Option<u128>)
        ensures
            id == self.identity(),
    {
        match self {
            Connection::Registered(id) => Some(*id),
            Connection::Relaying(id) => Some(*id),
            _ => None,
        }
    }

    /// The handshake failed: the connection is over and nothing was
    /// registered. In any other state than `Handshaking` nothing changes.
    pub fn fail_handshake(&mut self)
        ensures
            *final(self) == old(self).after_failed_handshake(),
    {
        if let Connection::Handshaking = self {
            *self = Connection::Terminated;
        }
    }

    /// The handshake succeeded and the connection is given the identity
    /// `id`. In any other state than `Handshaking` nothing changes.
    pub fn complete_handshake_as(&mut self, id: u128)
        ensures
            *final(self) == old(self).after_handshake(id),
    {
        if let Connection::Handshaking = self {
            *self = Connection::Registered(id);
        }
    }

    /// The handshake succeeded: mints a fresh random identity and gives it
    /// to the connection. The identity is returned; which one it is, is up
    /// to chance, but it has the layout of a random token.
    pub fn complete_handshake(&mut self) -> (id: u128)
        ensures
            is_random_token(id),
            *final(self) == old(self).after_handshake(id),
    {
        let id = random_token();
        self.complete_handshake_as(id);
        id
    }

    /// Puts the connection's entry, its identity bound to `sink`, into the
    /// registry and starts relaying. A sink that was bound to the same
    /// identity before is handed back in `Ok`. A connection that is not in
    /// state `Registered` changes nothing and gets its sink back in `Err`.
    pub fn register<S>(&mut self, registry: &mut PeerRegistry<S>, sink: S) -> (outcome: Result<
        Option<S>,
        S,
    >)
        ensures
            *final(self) == old(self).after_registration(),
            match *old(self) {
                Connection::Registered(id) => {
                    &&& final(registry)@ == old(registry)@.insert(id, sink)
                    &&& outcome == Ok::<Option<S>, S>(
                        if old(registry)@.contains_key(id) {
                            Some(old(registry)@[id])
                        } else {
                            None
                        },
                    )
                },
                _ => final(registry)@ == old(registry)@ && outcome == Err::<Option<S>, S>(sink),
            },
    {
        match *self {
            Connection::Registered(id) => {
                let replaced = registry.insert(id, sink);
                *self = Connection::Relaying(id);
                Ok(replaced)
            },
            _ => Err(sink),
        }
    }

    /// Decides what to do with one inbound result. Text and binary frames
    /// are relayed; a close frame, a read error and the end of the stream
    /// stop the loop; every other frame is ignored. A connection that is
    /// not relaying reads nothing, so for it the answer is `Stop`.
    pub fn on_inbound(&self, inbound: &Inbound) -> (action: Action)
        ensures
            action == self.reaction(*inbound),
    {
        match self {
            Connection::Relaying(_) => {
                if inbound.is_end() {
                    Action::Stop
                } else {
                    match inbound {
                        Inbound::Frame(kind) => {
                            if kind.is_payload() {
                                Action::Relay
                            } else {
                                Action::Ignore
                            }
                        },
                        _ => Action::Ignore,
                    }
                }
            },
            _ => Action::Stop,
        }
    }

    /// Ends the connection. If it has an identity, the entry of that
    /// identity leaves the registry and its sink is handed back; an entry
    /// that is already gone is no error. A connection without identity
    /// leaves the registry as it is.
    pub fn terminate<S>(&mut self, registry: &mut PeerRegistry<S>) -> (sink: Option<S>)
        ensures
            *final(self) == Connection::Terminated,
            final(registry)@ == old(self).registry_after_end(old(registry)@),
            sink == match old(self).identity() {
                Some(id) if old(registry)@.contains_key(id) => Some(old(registry)@[id]),
                _ => None,
            },
    {
        let id = self.id();
        *self = Connection::Terminated;
        match id {
            Some(id) => registry.remove(id),
            None => None,
        }
    }
}

/// A connection whose handshake failed is never registered: it is over at
/// once, carries no identity, relays nothing, and neither a later attempt to
/// register it nor its end changes the registry.
pub proof fn lemma_failed_handshake_registers_nothing<S>(peers: Map<u128, S>, inbound: Inbound)
    ensures
        Connection::Handshaking.after_failed_handshake() == Connection::Terminated,
        Connection::Terminated.identity() is None,
        Connection::Terminated.after_registration() == Connection::Terminated,
        Connection::Terminated.reaction(inbound) == Action::Stop,
        Connection::Terminated.registry_after_end(peers) == peers,
{
}

/// The end of a connection is idempotent on the registry: once the
/// connection's entry is gone, ending it again changes nothing.
pub proof fn lemma_end_is_idempotent<S>(connection: Connection, peers: Map<u128, S>)
    ensures
        connection.registry_after_end(connection.registry_after_end(peers))
            == connection.registry_after_end(peers),
        Connection::Terminated.registry_after_end(connection.registry_after_end(peers))
            == connection.registry_after_end(peers),
{
    match connection.identity() {
        Some(id) => {
            assert(peers.remove(id).remove(id) =~= peers.remove(id));
        },
        None => {},
    }
}

} // verus!
