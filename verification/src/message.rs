//! The chat message type: an immutable, tagged value carried from the peer
//! that produced it to every other peer's delivery queue, together with its
//! textual rendering rule for the wire.
use vstd::prelude::*;
use vstd::string::*;

verus! {

/// One broadcast chat event. Immutable once constructed; a broadcast pushes
/// one copy onto every recipient's delivery queue.
pub enum Message {
    /// A peer completed its handshake under the given display name.
    Joined { name: String },
    /// A peer's connection ended and it was deregistered.
    Left { name: String },
    /// One line of chat sent by the named peer.
    Chat { sender: String, content: String },
}

/// The textual form of a message as it is written to a recipient's
/// connection, as a sequence of characters.
pub open spec fn render_spec(m: Message) -> Seq<char> {
    match m {
        Message::Joined { name } => name@ + " joined the chat"@,
        Message::Left { name } => name@ + " left the chat"@,
        Message::Chat { sender, content } => sender@ + ": "@ + content@,
    }
}

impl Message {
    /// Builds the announcement that a peer with this display name joined.
    pub fn joined(name: String) -> (m: Message)
        ensures
            m == (Message::Joined { name }),
    {
        Message::Joined { name }
    }

    /// Builds the announcement that a peer with this display name left.
    pub fn left(name: String) -> (m: Message)
        ensures
            m == (Message::Left { name }),
    {
        Message::Left { name }
    }

    /// Builds one line of chat attributed to the given sender.
    pub fn chat(sender: String, content: String) -> (m: Message)
        ensures
            m == (Message::Chat { sender, content }),
    {
        Message::Chat { sender, content }
    }

    /// Returns a copy equal to this message. Broadcast uses it to hand one
    /// shared message value to many delivery queues.
    pub fn duplicate(&self) -> (m: Message)
        ensures
            m == *self,
    {
        match self {
            Message::Joined { name } => Message::Joined { name: name.clone() },
            Message::Left { name } => Message::Left { name: name.clone() },
            Message::Chat { sender, content } => Message::Chat {
                sender: sender.clone(),
                content: content.clone(),
            },
        }
    }

    /// Renders this message to the single text line that is written to a
    /// recipient's connection.
    pub fn render(&self) -> (r: String)
        ensures
            r@ == render_spec(*self),
    {
        match self {
            Message::Joined { name } => {
                let mut s = name.clone();
                s.append(" joined the chat");
                s
            },
            Message::Left { name } => {
                let mut s = name.clone();
                s.append(" left the chat");
                s
            },
            Message::Chat { sender, content } => {
                let mut s = sender.clone();
                s.append(": ");
                s.append(content.as_str());
                s
            },
        }
    }
}

} // verus!
