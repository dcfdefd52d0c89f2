//! The junction: the identity under which channels and patterns belong
//! together, the maker of both, and the keeper of the handle to its
//! coordinator until someone takes it.

use vstd::prelude::*;
use crate::channels::{BidirChannel, RecvChannel, SendChannel};
use crate::ids::{ChannelId, JunctionId, JunctionIdSource};
use crate::patterns::{BidirPartialPattern, PatternError, RecvPartialPattern, SendPartialPattern};

verus! {

/// A junction. `H` is the handle by which its coordinator is stopped.
pub struct Junction<H> {
    id: JunctionId,
    controller_handle: Option<H>,
}

impl<H> Junction<H> {
    /// The identity of the junction.
    pub closed spec fn junction_id(&self) -> JunctionId {
        self.id
    }

    /// The handle to the coordinator, while the junction still keeps it.
    pub closed spec fn kept_handle(&self) -> Option<H> {
        self.controller_handle
    }

    /// A junction with a fresh identity that keeps the handle to its
    /// coordinator.
    pub fn new(source: &mut JunctionIdSource, controller_handle: H) -> (junction: Junction<H>)
        ensures
            junction.junction_id().value() == old(source).latest(),
            junction.kept_handle() == Some(controller_handle),
            final(source).latest() == if old(source).latest() == usize::MAX {
                0
            } else {
                old(source).latest() + 1
            },
    {
        Junction { id: JunctionId::new(source), controller_handle: Some(controller_handle) }
    }

    /// The identity of the junction.
    pub fn id(&self) -> (id: JunctionId)
        ensures
            id == self.junction_id(),
    {
        self.id
    }

    /// Hand out the handle to the coordinator. The first call gets it; the
    /// junction keeps none after that, so every later call gets `None`.
    pub fn controller_handle(&mut self) -> (handle: Option<H>)
        ensures
            handle == old(self).kept_handle(),
            final(self).kept_handle() == None::<H>,
            final(self).junction_id() == old(self).junction_id(),
    {
        self.controller_handle.take()
    }

    /// The send channel of this junction with the identity `channel_id`.
    pub fn send_channel(&self, channel_id: ChannelId) -> (channel: SendChannel)
        ensures
            channel.channel() == channel_id,
            channel.junction() == self.junction_id(),
    {
        SendChannel::new(channel_id, self.id)
    }

    /// The receive channel of this junction with the identity `channel_id`.
    pub fn recv_channel(&self, channel_id: ChannelId) -> (channel: RecvChannel)
        ensures
            channel.channel() == channel_id,
            channel.junction() == self.junction_id(),
    {
        RecvChannel::new(channel_id, self.id)
    }

    /// The bidirectional channel of this junction with the identity
    /// `channel_id`.
    pub fn bidir_channel(&self, channel_id: ChannelId) -> (channel: BidirChannel)
        ensures
            channel.channel() == channel_id,
            channel.junction() == self.junction_id(),
    {
        BidirChannel::new(channel_id, self.id)
    }

    /// Start a pattern with a send channel of this junction. A channel of
    /// another junction is refused.
    pub fn when(&self, send_channel: &SendChannel) -> (pattern: Result<
        SendPartialPattern,
        PatternError,
    >)
        ensures
            match pattern {
                Ok(started) => {
                    &&& send_channel.junction() == self.junction_id()
                    &&& started@ == seq![send_channel.stripped()]
                    &&& started.junction() == self.junction_id()
                    &&& started.valid()
                },
                Err(error) => {
                    &&& send_channel.junction() != self.junction_id()
                    &&& error == PatternError::CrossJunctionPattern
                },
            },
    {
        if send_channel.junction_id() == self.id {
            Ok(SendPartialPattern::new(self.id, send_channel.strip()))
        } else {
            Err(PatternError::CrossJunctionPattern)
        }
    }

    /// Start and close a pattern with a receive channel of this junction. A
    /// channel of another junction is refused.
    pub fn when_recv(&self, recv_channel: &RecvChannel) -> (pattern: Result<
        RecvPartialPattern,
        PatternError,
    >)
        ensures
            match pattern {
                Ok(started) => {
                    &&& recv_channel.junction() == self.junction_id()
                    &&& started@ == seq![recv_channel.stripped()]
                    &&& started.valid()
                },
                Err(error) => {
                    &&& recv_channel.junction() != self.junction_id()
                    &&& error == PatternError::CrossJunctionPattern
                },
            },
    {
        if recv_channel.junction_id() == self.id {
            Ok(RecvPartialPattern::new(recv_channel.strip()))
        } else {
            Err(PatternError::CrossJunctionPattern)
        }
    }

    /// Start and close a pattern with a bidirectional channel of this
    /// junction. A channel of another junction is refused.
    pub fn when_bidir(&self, bidir_channel: &BidirChannel) -> (pattern: Result<
        BidirPartialPattern,
        PatternError,
    >)
        ensures
            match pattern {
                Ok(started) => {
                    &&& bidir_channel.junction() == self.junction_id()
                    &&& started@ == seq![bidir_channel.stripped()]
                    &&& started.valid()
                },
                Err(error) => {
                    &&& bidir_channel.junction() != self.junction_id()
                    &&& error == PatternError::CrossJunctionPattern
                },
            },
    {
        if bidir_channel.junction_id() == self.id {
            Ok(BidirPartialPattern::new(bidir_channel.strip()))
        } else {
            Err(PatternError::CrossJunctionPattern)
        }
    }
}

} // verus!
