//! The per-connection handler state machine: handshake, active chat, and
//! teardown.
//!
//! One `Handler` exists per accepted connection. The surrounding runtime
//! performs the I/O — sending the handshake prompt, reading lines, noticing
//! stream end or read failure — and feeds each observation in as a
//! `ConnEvent`. The handler decides, and answers with the `Action` the
//! runtime must carry out against the registry. Every I/O failure is local
//! to this connection: no action ever touches another connection's handler.
use vstd::prelude::*;

use crate::message::Message;

verus! {

/// The fixed prompt sent to a client when its connection is accepted,
/// before its first line is read.
pub const HANDSHAKE_PROMPT: &'static str = "send your name: ";

/// What the runtime observed on this handler's connection.
pub enum ConnEvent {
    /// One full line arrived.
    Line { text: String },
    /// The stream ended cleanly: the client closed the connection.
    Ended,
    /// A read failed with an I/O error.
    Failed,
}

/// Where a connection stands in its lifecycle.
pub enum HandlerPhase {
    /// The prompt has been sent; the first line will be taken verbatim as
    /// the display name.
    Handshaking,
    /// The peer is registered; every further line is a chat message.
    Active,
    /// Terminal: the connection is being torn down and never re-enters.
    Closing,
}

/// What the runtime must do against the registry in response to an event.
pub enum Action {
    /// Nothing: the registry is not touched.
    Nothing,
    /// Register this connection under `name` and announce `Joined` to all
    /// other peers (the registry's `join`).
    Join { name: String },
    /// Broadcast this message from this connection (the registry's
    /// `broadcast`, excluding this connection's key).
    Chat { message: Message },
    /// Announce `Left` to all other peers and deregister this connection
    /// (the registry's `depart_from`).
    Leave,
    /// Tear the connection down without any broadcast and without touching
    /// the registry: the client never completed its handshake.
    Stop,
}

/// The state machine of one connection. It never performs I/O itself; it
/// turns observed connection events into registry actions.
pub struct Handler {
    key: u64,
    phase: HandlerPhase,
    name: String,
}

impl Handler {
    /// This connection's key, unique for the connection's lifetime.
    pub closed spec fn key_spec(self) -> u64 {
        self.key
    }

    /// The lifecycle phase the connection is in.
    pub closed spec fn phase_spec(self) -> HandlerPhase {
        self.phase
    }

    /// The display name, meaningful once the handshake has completed.
    pub closed spec fn name_spec(self) -> String {
        self.name
    }

    /// A freshly accepted connection: the handshake prompt is owed to the
    /// client and no name is known yet.
    pub fn new(key: u64) -> (h: Handler)
        ensures
            h.key_spec() == key,
            h.phase_spec() is Handshaking,
    {
        Handler { key, phase: HandlerPhase::Handshaking, name: String::new() }
    }

    /// Feeds one observed connection event through the state machine and
    /// returns the registry action the runtime must perform.
    ///
    /// During the handshake, a line becomes the display name, verbatim, and
    /// activates the peer; a stream that ends or fails before a name arrives
    /// stops the connection with no broadcast and no registration. While
    /// active, each line becomes a chat message from this peer, and stream
    /// end or failure leaves the room, announcing `Left`. The closing phase
    /// is terminal: further events do nothing.
    pub fn on_event(&mut self, event: ConnEvent) -> (a: Action)
        ensures
            final(self).key_spec() == old(self).key_spec(),
            match old(self).phase_spec() {
                HandlerPhase::Handshaking => match event {
                    ConnEvent::Line { text } => {
                        &&& final(self).phase_spec() is Active
                        &&& final(self).name_spec() == text
                        &&& a == (Action::Join { name: text })
                    },
                    ConnEvent::Ended => {
                        &&& final(self).phase_spec() is Closing
                        &&& a == Action::Stop
                    },
                    ConnEvent::Failed => {
                        &&& final(self).phase_spec() is Closing
                        &&& a == Action::Stop
                    },
                },
                HandlerPhase::Active => match event {
                    ConnEvent::Line { text } => {
                        &&& final(self).phase_spec() is Active
                        &&& final(self).name_spec() == old(self).name_spec()
                        &&& a == (Action::Chat {
                            message: Message::Chat {
                                sender: old(self).name_spec(),
                                content: text,
                            },
                        })
                    },
                    ConnEvent::Ended => {
                        &&& final(self).phase_spec() is Closing
                        &&& a == Action::Leave
                    },
                    ConnEvent::Failed => {
                        &&& final(self).phase_spec() is Closing
                        &&& a == Action::Leave
                    },
                },
                HandlerPhase::Closing => {
                    &&& final(self).phase_spec() is Closing
                    &&& a == Action::Nothing
                },
            },
    {
        match self.phase {
            HandlerPhase::Handshaking => match event {
                ConnEvent::Line { text } => {
                    self.name = text.clone();
                    self.phase = HandlerPhase::Active;
                    Action::Join { name: text }
                },
                ConnEvent::Ended => {
                    self.phase = HandlerPhase::Closing;
                    Action::Stop
                },
                ConnEvent::Failed => {
                    self.phase = HandlerPhase::Closing;
                    Action::Stop
                },
            },
            HandlerPhase::Active => match event {
                ConnEvent::Line { text } => {
                    let sender = self.name.clone();
                    Action::Chat { message: Message::Chat { sender, content: text } }
                },
                ConnEvent::Ended => {
                    self.phase = HandlerPhase::Closing;
                    Action::Leave
                },
                ConnEvent::Failed => {
                    self.phase = HandlerPhase::Closing;
                    Action::Leave
                },
            },
            HandlerPhase::Closing => Action::Nothing,
        }
    }
}

} // verus!
