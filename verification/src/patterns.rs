//! Join patterns and the builder that assembles them channel by channel.
//!
//! A pattern lists the channels that must each hold a message before it can
//! fire. Only the last channel may be synchronous, and all channels belong to
//! one junction. The builder keeps both rules at every step.

use vstd::prelude::*;
use crate::bag::{queue_of, Bag};
use crate::channels::{BidirChannel, Mode, RecvChannel, SendChannel, StrippedChannel};
use crate::ids::{ChannelId, JunctionId};

verus! {

/// Why a pattern could not be extended.
#[derive(Debug, Clone, Copy, PartialEq, Eq, Structural)]
pub enum PatternError {
    /// The channel belongs to another junction than the pattern.
    CrossJunctionPattern,
}

/// Every channel of the list belongs to `junction_id`.
pub open spec fn single_junction(channels: Seq<StrippedChannel>, junction_id: JunctionId) -> bool {
    forall|i: int| 0 <= i < channels.len() ==> (#[trigger] channels[i]).junction_id == junction_id
}

/// No channel but the last is synchronous.
pub open spec fn synchronous_only_last(channels: Seq<StrippedChannel>) -> bool {
    forall|i: int| 0 <= i < channels.len() - 1 ==> (#[trigger] channels[i]).mode == Mode::Send
}

/// What holds of the channels of every pattern: there is at least one, all
/// are of one junction, and none but the last is synchronous.
pub open spec fn well_formed(channels: Seq<StrippedChannel>) -> bool {
    &&& channels.len() > 0
    &&& single_junction(channels, channels[0].junction_id)
    &&& synchronous_only_last(channels)
}

/// The identities of the listed channels, in order.
pub open spec fn channel_keys(channels: Seq<StrippedChannel>) -> Seq<usize> {
    Seq::new(channels.len(), |i: int| channels[i].id.value())
}

/// How often the channel `key` is listed.
pub open spec fn multiplicity(keys: Seq<usize>, key: usize) -> nat
    decreases keys.len(),
{
    if keys.len() == 0 {
        0
    } else {
        multiplicity(keys.drop_first(), key) + if keys[0] == key {
            1nat
        } else {
            0nat
        }
    }
}

/// Listing one more channel at the end raises the count of that channel by
/// one and leaves every other count as it was.
pub proof fn lemma_multiplicity_push(keys: Seq<usize>, last: usize, key: usize)
    ensures
        multiplicity(keys.push(last), key) == multiplicity(keys, key) + if last == key {
            1nat
        } else {
            0nat
        },
    decreases keys.len(),
{
    if keys.len() == 0 {
        assert(keys.push(last).drop_first() =~= keys);
    } else {
        lemma_multiplicity_push(keys.drop_first(), last, key);
        assert(keys.push(last).drop_first() =~= keys.drop_first().push(last));
    }
}

/// A pattern is alive when every channel it lists holds at least as many
/// messages as the pattern lists it times.
pub open spec fn alive<M>(queues: Map<usize, Seq<M>>, keys: Seq<usize>) -> bool {
    forall|i: int|
        0 <= i < keys.len() ==> multiplicity(keys, #[trigger] keys[i]) <= queue_of(
            queues,
            keys[i],
        ).len()
}

/// A well-formed list of send channels stays well formed when a channel of
/// the same junction is added at its end, whatever that channel's mode.
pub proof fn lemma_extend_well_formed(channels: Seq<StrippedChannel>, last: StrippedChannel)
    requires
        well_formed(channels),
        forall|i: int| 0 <= i < channels.len() ==> (#[trigger] channels[i]).mode == Mode::Send,
        last.junction_id == channels[0].junction_id,
    ensures
        well_formed(channels.push(last)),
        channels.push(last).last() == last,
        channels.push(last)[0] == channels[0],
{
    let extended = channels.push(last);
    assert forall|i: int| 0 <= i < extended.len() implies (#[trigger] extended[i]).junction_id
        == extended[0].junction_id by {
        if i < channels.len() {
            assert(extended[i] == channels[i]);
        }
    }
    assert forall|i: int| 0 <= i < extended.len() - 1 implies (#[trigger] extended[i]).mode
        == Mode::Send by {
        assert(extended[i] == channels[i]);
    }
}

/// A pattern in the making that lists send channels only. It can grow by any
/// channel, or be finished as it is.
#[derive(Debug)]
pub struct SendPartialPattern {
    junction_id: JunctionId,
    channels: Vec<StrippedChannel>,
}

/// A pattern in the making that ends in a receive channel. It can only be
/// finished.
#[derive(Debug)]
pub struct RecvPartialPattern {
    channels: Vec<StrippedChannel>,
}

/// A pattern in the making that ends in a bidirectional channel. It can only
/// be finished.
#[derive(Debug)]
pub struct BidirPartialPattern {
    channels: Vec<StrippedChannel>,
}

/// A finished pattern: the channels it joins, in the order in which their
/// messages are handed to the handler.
#[derive(Debug)]
pub struct JoinPattern {
    channels: Vec<StrippedChannel>,
}

impl View for SendPartialPattern {
    type V = Seq<StrippedChannel>;

    closed spec fn view(&self) -> Seq<StrippedChannel> {
        self.channels@
    }
}

impl View for RecvPartialPattern {
    type V = Seq<StrippedChannel>;

    closed spec fn view(&self) -> Seq<StrippedChannel> {
        self.channels@
    }
}

impl View for BidirPartialPattern {
    type V = Seq<StrippedChannel>;

    closed spec fn view(&self) -> Seq<StrippedChannel> {
        self.channels@
    }
}

impl View for JoinPattern {
    type V = Seq<StrippedChannel>;

    closed spec fn view(&self) -> Seq<StrippedChannel> {
        self.channels@
    }
}

impl SendPartialPattern {
    /// The junction whose channels this pattern may list.
    pub closed spec fn junction(&self) -> JunctionId {
        self.junction_id
    }

    /// What holds of every value of this type.
    pub open spec fn valid(&self) -> bool {
        &&& well_formed(self@)
        &&& self@[0].junction_id == self.junction()
        &&& forall|i: int| 0 <= i < self@.len() ==> (#[trigger] self@[i]).mode == Mode::Send
    }

    #[verifier::type_invariant]
    pub open spec fn type_valid(&self) -> bool {
        self.valid()
    }

    /// Start a pattern with one send channel.
    pub(crate) fn new(junction_id: JunctionId, send_channel: StrippedChannel) -> (pattern:
        SendPartialPattern)
        requires
            send_channel.junction_id == junction_id,
            send_channel.mode == Mode::Send,
        ensures
            pattern@ == seq![send_channel],
            pattern.junction() == junction_id,
            pattern.valid(),
    {
        let mut channels: Vec<StrippedChannel> = Vec::new();
        channels.push(send_channel);
        assert(channels@ =~= seq![send_channel]);
        SendPartialPattern { junction_id, channels }
    }

    /// Extend the pattern by a send channel of the same junction.
    pub fn and(self, send_channel: &SendChannel) -> (extended: Result<
        SendPartialPattern,
        PatternError,
    >)
        ensures
            self.valid(),
            match extended {
                Ok(pattern) => {
                    &&& send_channel.junction() == self.junction()
                    &&& pattern@ == self@.push(send_channel.stripped())
                    &&& pattern.junction() == self.junction()
                    &&& pattern.valid()
                },
                Err(error) => {
                    &&& send_channel.junction() != self.junction()
                    &&& error == PatternError::CrossJunctionPattern
                },
            },
    {
        proof {
            use_type_invariant(&self);
        }
        if send_channel.junction_id() != self.junction_id {
            return Err(PatternError::CrossJunctionPattern);
        }
        let junction_id = self.junction_id;
        let mut channels = self.channels;
        channels.push(send_channel.strip());
        proof {
            lemma_extend_well_formed(self@, send_channel.stripped());
            assert forall|i: int| 0 <= i < channels@.len() implies (#[trigger] channels@[i]).mode
                == Mode::Send by {
                if i < self@.len() {
                    assert(channels@[i] == self@[i]);
                }
            }
        }
        Ok(SendPartialPattern { junction_id, channels })
    }

    /// Close the pattern with a receive channel of the same junction.
    pub fn and_recv(self, recv_channel: &RecvChannel) -> (extended: Result<
        RecvPartialPattern,
        PatternError,
    >)
        ensures
            self.valid(),
            match extended {
                Ok(pattern) => {
                    &&& recv_channel.junction() == self.junction()
                    &&& pattern@ == self@.push(recv_channel.stripped())
                    &&& pattern.valid()
                },
                Err(error) => {
                    &&& recv_channel.junction() != self.junction()
                    &&& error == PatternError::CrossJunctionPattern
                },
            },
    {
        proof {
            use_type_invariant(&self);
        }
        if recv_channel.junction_id() != self.junction_id {
            return Err(PatternError::CrossJunctionPattern);
        }
        let mut channels = self.channels;
        channels.push(recv_channel.strip());
        proof {
            lemma_extend_well_formed(self@, recv_channel.stripped());
        }
        Ok(RecvPartialPattern { channels })
    }

    /// Close the pattern with a bidirectional channel of the same junction.
    pub fn and_bidir(self, bidir_channel: &BidirChannel) -> (extended: Result<
        BidirPartialPattern,
        PatternError,
    >)
        ensures
            self.valid(),
            match extended {
                Ok(pattern) => {
                    &&& bidir_channel.junction() == self.junction()
                    &&& pattern@ == self@.push(bidir_channel.stripped())
                    &&& pattern.valid()
                },
                Err(error) => {
                    &&& bidir_channel.junction() != self.junction()
                    &&& error == PatternError::CrossJunctionPattern
                },
            },
    {
        proof {
            use_type_invariant(&self);
        }
        if bidir_channel.junction_id() != self.junction_id {
            return Err(PatternError::CrossJunctionPattern);
        }
        let mut channels = self.channels;
        channels.push(bidir_channel.strip());
        proof {
            lemma_extend_well_formed(self@, bidir_channel.stripped());
        }
        Ok(BidirPartialPattern { channels })
    }

    /// Finish the pattern: it joins the channels listed so far.
    pub fn then_do(self) -> (pattern: JoinPattern)
        ensures
            pattern@ == self@,
            pattern.valid(),
            pattern.mode() == Mode::Send,
    {
        proof {
            use_type_invariant(&self);
        }
        JoinPattern { channels: self.channels }
    }
}

impl RecvPartialPattern {
    /// What holds of every value of this type.
    pub open spec fn valid(&self) -> bool {
        &&& well_formed(self@)
        &&& self@.last().mode == Mode::Recv
    }

    #[verifier::type_invariant]
    pub open spec fn type_valid(&self) -> bool {
        self.valid()
    }

    /// Start and close a pattern with one receive channel.
    pub(crate) fn new(recv_channel: StrippedChannel) -> (pattern: RecvPartialPattern)
        requires
            recv_channel.mode == Mode::Recv,
        ensures
            pattern@ == seq![recv_channel],
            pattern.valid(),
    {
        let mut channels: Vec<StrippedChannel> = Vec::new();
        channels.push(recv_channel);
        assert(channels@ =~= seq![recv_channel]);
        RecvPartialPattern { channels }
    }

    /// Finish the pattern: it joins the channels listed so far.
    pub fn then_do(self) -> (pattern: JoinPattern)
        ensures
            pattern@ == self@,
            pattern.valid(),
            pattern.mode() == Mode::Recv,
    {
        proof {
            use_type_invariant(&self);
        }
        JoinPattern { channels: self.channels }
    }
}

impl BidirPartialPattern {
    /// What holds of every value of this type.
    pub open spec fn valid(&self) -> bool {
        &&& well_formed(self@)
        &&& self@.last().mode == Mode::Bidir
    }

    #[verifier::type_invariant]
    pub open spec fn type_valid(&self) -> bool {
        self.valid()
    }

    /// Start and close a pattern with one bidirectional channel.
    pub(crate) fn new(bidir_channel: StrippedChannel) -> (pattern: BidirPartialPattern)
        requires
            bidir_channel.mode == Mode::Bidir,
        ensures
            pattern@ == seq![bidir_channel],
            pattern.valid(),
    {
        let mut channels: Vec<StrippedChannel> = Vec::new();
        channels.push(bidir_channel);
        assert(channels@ =~= seq![bidir_channel]);
        BidirPartialPattern { channels }
    }

    /// Finish the pattern: it joins the channels listed so far.
    pub fn then_do(self) -> (pattern: JoinPattern)
        ensures
            pattern@ == self@,
            pattern.valid(),
            pattern.mode() == Mode::Bidir,
    {
        proof {
            use_type_invariant(&self);
        }
        JoinPattern { channels: self.channels }
    }
}

impl JoinPattern {
    /// What holds of every value of this type.
    pub open spec fn valid(&self) -> bool {
        well_formed(self@)
    }

    #[verifier::type_invariant]
    pub open spec fn type_valid(&self) -> bool {
        self.valid()
    }

    /// The mode of the pattern: that of its last channel.
    pub open spec fn mode(&self) -> Mode {
        self@.last().mode
    }

    /// The identities of the channels that the pattern joins, in order.
    pub open spec fn keys(&self) -> Seq<usize> {
        channel_keys(self@)
    }

    /// The channels that the pattern joins, in order.
    pub fn channels(&self) -> (ids: Vec<ChannelId>)
        ensures
            self.valid(),
            ids@.len() == self@.len(),
            forall|i: int| 0 <= i < ids@.len() ==> (#[trigger] ids@[i]) == self@[i].id,
    {
        proof {
            use_type_invariant(self);
        }
        let mut ids: Vec<ChannelId> = Vec::new();
        let mut i: usize = 0;
        while i < self.channels.len()
            invariant
                i <= self.channels@.len(),
                ids@.len() == i,
                forall|j: int| 0 <= j < i ==> (#[trigger] ids@[j]) == self.channels@[j].id,
            decreases self.channels@.len() - i,
        {
            ids.push(self.channels[i].id);
            i += 1;
        }
        ids
    }

    /// The mode of the pattern's last channel.
    pub fn terminal_mode(&self) -> (mode: Mode)
        ensures
            self.valid(),
            mode == self.mode(),
    {
        proof {
            use_type_invariant(self);
        }
        self.channels[self.channels.len() - 1].mode
    }

    /// How often the pattern lists the channel `key`.
    pub fn required(&self, key: usize) -> (count: usize)
        ensures
            count == multiplicity(self.keys(), key),
    {
        let ghost keys = self.keys();
        let n: usize = self.channels.len();
        let mut count: usize = 0;
        let mut i: usize = 0;
        while i < n
            invariant
                i <= n,
                n == self.channels@.len(),
                keys == channel_keys(self.channels@),
                count == multiplicity(keys.take(i as int), key),
                count <= i,
            decreases n - i,
        {
            proof {
                lemma_multiplicity_push(keys.take(i as int), keys[i as int], key);
                assert(keys.take(i + 1) =~= keys.take(i as int).push(keys[i as int]));
            }
            if self.channels[i].id.to_usize() == key {
                count += 1;
            }
            i += 1;
        }
        assert(keys.take(n as int) =~= keys);
        count
    }

    /// Whether the pattern is alive: whether `messages` holds, for every
    /// channel the pattern lists, at least as many messages as the pattern
    /// lists that channel times.
    pub fn is_alive<M>(&self, messages: &Bag<usize, M>) -> (is_alive: bool)
        ensures
            is_alive == alive(messages@, self.keys()),
    {
        let ghost keys = self.keys();
        let n: usize = self.channels.len();
        let mut i: usize = 0;
        while i < n
            invariant
                i <= n,
                n == self.channels@.len(),
                keys == channel_keys(self.channels@),
                forall|j: int|
                    0 <= j < i ==> multiplicity(keys, #[trigger] keys[j]) <= queue_of(
                        messages@,
                        keys[j],
                    ).len(),
            decreases n - i,
        {
            let key: usize = self.channels[i].id.to_usize();
            assert(key == keys[i as int]);
            if messages.count_items(&key) < self.required(key) {
                return false;
            }
            i += 1;
        }
        true
    }
}

} // verus!
