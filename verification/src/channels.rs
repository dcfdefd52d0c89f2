//! Channel endpoints as the coordinator sees them: an identity, the junction
//! that made the channel, and the channel's mode.

use vstd::prelude::*;
use vstd::string::StringExecFns;
use crate::ids::{ChannelId, JunctionId};
use crate::model::Packet;

verus! {

/// How a channel is used.
#[derive(Debug, Clone, Copy, PartialEq, Eq, Structural, Hash)]
pub enum Mode {
    /// Asynchronous: the sender goes on at once.
    Send,
    /// Synchronous: the receiver waits for the value that a handler returns.
    Recv,
    /// Synchronous: the caller hands in a value and waits for the one that a
    /// handler returns.
    Bidir,
}

/// What is said of a word that names no mode.
pub open spec fn invalid_mode_message(word: Seq<char>) -> Seq<char> {
    "Invalid channel mode "@ + word + ", must be one of [Send|Recv|Bidir]"@
}

impl Mode {
    /// Whether a caller waits on a channel of this mode.
    pub open spec fn is_synchronous(self) -> bool {
        self != Mode::Send
    }

    /// The mode that the word names: `Send`, `Recv` or `Bidir`. Any other
    /// word is refused with a message that quotes it.
    pub fn from_str(s: &str) -> (mode: Result<Mode, String>)
        ensures
            s@ == "Send"@ ==> mode == Ok::<Mode, String>(Mode::Send),
            s@ == "Recv"@ ==> mode == Ok::<Mode, String>(Mode::Recv),
            s@ == "Bidir"@ ==> mode == Ok::<Mode, String>(Mode::Bidir),
            s@ != "Send"@ && s@ != "Recv"@ && s@ != "Bidir"@ ==> (mode matches Err(message)
                && message@ == invalid_mode_message(s@)),
    {
        proof {
            reveal_strlit("Send");
            reveal_strlit("Recv");
            reveal_strlit("Bidir");
            assert("Send"@[0] == 'S' && "Recv"@[0] == 'R' && "Bidir"@.len() == 5);
            assert("Send"@.len() == 4 && "Recv"@.len() == 4);
        }
        let word = String::from_str(s);
        if word == String::from_str("Send") {
            Ok(Mode::Send)
        } else if word == String::from_str("Bidir") {
            Ok(Mode::Bidir)
        } else if word == String::from_str("Recv") {
            Ok(Mode::Recv)
        } else {
            let mut message = String::from_str("Invalid channel mode ");
            message.append(s);
            message.append(", must be one of [Send|Recv|Bidir]");
            Err(message)
        }
    }
}

/// A channel reduced to what a pattern records of it.
#[derive(Debug, Clone, Copy, PartialEq, Eq, Structural)]
pub struct StrippedChannel {
    pub id: ChannelId,
    pub junction_id: JunctionId,
    pub mode: Mode,
}

/// An asynchronous channel.
#[derive(Debug, Clone, Copy, PartialEq, Eq, Structural)]
pub struct SendChannel {
    id: ChannelId,
    junction_id: JunctionId,
}

impl SendChannel {
    /// The channel's identity.
    pub closed spec fn channel(&self) -> ChannelId {
        self.id
    }

    /// The junction that made the channel.
    pub closed spec fn junction(&self) -> JunctionId {
        self.junction_id
    }

    /// What a pattern records of this channel.
    pub open spec fn stripped(&self) -> StrippedChannel {
        StrippedChannel { id: self.channel(), junction_id: self.junction(), mode: Mode::Send }
    }

    /// The send channel `id` of the junction `junction_id`.
    pub fn new(id: ChannelId, junction_id: JunctionId) -> (channel: SendChannel)
        ensures
            channel.stripped() == (StrippedChannel { id, junction_id, mode: Mode::Send }),
    {
        SendChannel { id, junction_id }
    }

    /// The channel's identity.
    pub fn id(&self) -> (id: ChannelId)
        ensures
            id == self.channel(),
    {
        self.id
    }

    /// The junction that made the channel.
    pub fn junction_id(&self) -> (junction_id: JunctionId)
        ensures
            junction_id == self.junction(),
    {
        self.junction_id
    }

    /// What a pattern records of this channel.
    pub fn strip(&self) -> (stripped: StrippedChannel)
        ensures
            stripped == self.stripped(),
    {
        StrippedChannel { id: self.id, junction_id: self.junction_id, mode: Mode::Send }
    }

    /// The packet that brings `value` to the coordinator as a message on
    /// this channel.
    pub fn send<M>(&self, value: M) -> (packet: Packet<M>)
        ensures
            packet == (Packet::Message { channel_id: self.channel(), msg: value }),
    {
        Packet::Message { channel_id: self.id, msg: value }
    }
}

/// A synchronous channel on which a value is received.
#[derive(Debug, Clone, Copy, PartialEq, Eq, Structural)]
pub struct RecvChannel {
    id: ChannelId,
    junction_id: JunctionId,
}

impl RecvChannel {
    /// The channel's identity.
    pub closed spec fn channel(&self) -> ChannelId {
        self.id
    }

    /// The junction that made the channel.
    pub closed spec fn junction(&self) -> JunctionId {
        self.junction_id
    }

    /// What a pattern records of this channel.
    pub open spec fn stripped(&self) -> StrippedChannel {
        StrippedChannel { id: self.channel(), junction_id: self.junction(), mode: Mode::Recv }
    }

    /// The receive channel `id` of the junction `junction_id`.
    pub fn new(id: ChannelId, junction_id: JunctionId) -> (channel: RecvChannel)
        ensures
            channel.stripped() == (StrippedChannel { id, junction_id, mode: Mode::Recv }),
    {
        RecvChannel { id, junction_id }
    }

    /// The channel's identity.
    pub fn id(&self) -> (id: ChannelId)
        ensures
            id == self.channel(),
    {
        self.id
    }

    /// The junction that made the channel.
    pub fn junction_id(&self) -> (junction_id: JunctionId)
        ensures
            junction_id == self.junction(),
    {
        self.junction_id
    }

    /// What a pattern records of this channel.
    pub fn strip(&self) -> (stripped: StrippedChannel)
        ensures
            stripped == self.stripped(),
    {
        StrippedChannel { id: self.id, junction_id: self.junction_id, mode: Mode::Recv }
    }

    /// The packet that asks the coordinator for a value on this channel.
    /// `reply` is where the value is to go: the handler that fires returns
    /// through it.
    pub fn recv<M>(&self, reply: M) -> (packet: Packet<M>)
        ensures
            packet == (Packet::Message { channel_id: self.channel(), msg: reply }),
    {
        Packet::Message { channel_id: self.id, msg: reply }
    }
}

/// A synchronous channel on which a value is handed in and another received.
#[derive(Debug, Clone, Copy, PartialEq, Eq, Structural)]
pub struct BidirChannel {
    id: ChannelId,
    junction_id: JunctionId,
}

impl BidirChannel {
    /// The channel's identity.
    pub closed spec fn channel(&self) -> ChannelId {
        self.id
    }

    /// The junction that made the channel.
    pub closed spec fn junction(&self) -> JunctionId {
        self.junction_id
    }

    /// What a pattern records of this channel.
    pub open spec fn stripped(&self) -> StrippedChannel {
        StrippedChannel { id: self.channel(), junction_id: self.junction(), mode: Mode::Bidir }
    }

    /// The bidirectional channel `id` of the junction `junction_id`.
    pub fn new(id: ChannelId, junction_id: JunctionId) -> (channel: BidirChannel)
        ensures
            channel.stripped() == (StrippedChannel { id, junction_id, mode: Mode::Bidir }),
    {
        BidirChannel { id, junction_id }
    }

    /// The channel's identity.
    pub fn id(&self) -> (id: ChannelId)
        ensures
            id == self.channel(),
    {
        self.id
    }

    /// The junction that made the channel.
    pub fn junction_id(&self) -> (junction_id: JunctionId)
        ensures
            junction_id == self.junction(),
    {
        self.junction_id
    }

    /// What a pattern records of this channel.
    pub fn strip(&self) -> (stripped: StrippedChannel)
        ensures
            stripped == self.stripped(),
    {
        StrippedChannel { id: self.id, junction_id: self.junction_id, mode: Mode::Bidir }
    }

    /// The packet that brings a value to the coordinator on this channel
    /// and asks for one in return. `value_and_reply` holds the value and
    /// where the answer is to go.
    pub fn send_recv<M>(&self, value_and_reply: M) -> (packet: Packet<M>)
        ensures
            packet == (Packet::Message { channel_id: self.channel(), msg: value_and_reply }),
    {
        Packet::Message { channel_id: self.id, msg: value_and_reply }
    }
}

} // verus!
