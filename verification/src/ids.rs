//! Identities of channels, join patterns and junctions.

use vstd::prelude::*;

verus! {

/// Identity of a channel, unique within the junction that minted it.
#[derive(Debug, Clone, Copy, PartialEq, Eq, Structural, Hash)]
pub struct ChannelId(usize);

impl ChannelId {
    /// The number behind the identity.
    pub closed spec fn value(&self) -> usize {
        self.0
    }

    /// The identity with the given number.
    pub fn from_usize(value: usize) -> (id: ChannelId)
        ensures
            id.value() == value,
    {
        ChannelId(value)
    }

    /// The number behind the identity.
    pub fn to_usize(&self) -> (value: usize)
        ensures
            value == self.value(),
    {
        self.0
    }

    /// Step to the next identity.
    pub fn increment(&mut self)
        requires
            old(self).value() < usize::MAX,
        ensures
            final(self).value() == old(self).value() + 1,
    {
        self.0 += 1;
    }

    /// Two identities with the same number are the same identity.
    pub proof fn lemma_value_injective(a: ChannelId, b: ChannelId)
        requires
            a.value() == b.value(),
        ensures
            a == b,
    {
    }
}

impl Default for ChannelId {
    fn default() -> (id: ChannelId)
        ensures
            id.value() == 0,
    {
        ChannelId(0)
    }
}

/// Identity of a join pattern, unique within the junction that registered it.
#[derive(Debug, Clone, Copy, PartialEq, Eq, Structural, Hash)]
pub struct JoinPatternId(usize);

impl JoinPatternId {
    /// The number behind the identity.
    pub closed spec fn value(&self) -> usize {
        self.0
    }

    /// The identity with the given number.
    pub fn from_usize(value: usize) -> (id: JoinPatternId)
        ensures
            id.value() == value,
    {
        JoinPatternId(value)
    }

    /// The number behind the identity.
    pub fn to_usize(&self) -> (value: usize)
        ensures
            value == self.value(),
    {
        self.0
    }

    /// Step to the next identity.
    pub fn increment(&mut self)
        requires
            old(self).value() < usize::MAX,
        ensures
            final(self).value() == old(self).value() + 1,
    {
        self.0 += 1;
    }

    /// Two identities with the same number are the same identity.
    pub proof fn lemma_value_injective(a: JoinPatternId, b: JoinPatternId)
        requires
            a.value() == b.value(),
        ensures
            a == b,
    {
    }
}

impl Default for JoinPatternId {
    fn default() -> (id: JoinPatternId)
        ensures
            id.value() == 0,
    {
        JoinPatternId(0)
    }
}

/// The counter from which junction identities are drawn. One instance per
/// process makes every junction identity distinct until the counter wraps.
#[derive(Debug)]
pub struct JunctionIdSource {
    latest: usize,
}

impl JunctionIdSource {
    /// The number that the next junction identity will carry.
    pub closed spec fn latest(&self) -> usize {
        self.latest
    }

    /// A source whose first identity carries the number 0.
    pub fn new() -> (source: JunctionIdSource)
        ensures
            source.latest() == 0,
    {
        JunctionIdSource { latest: 0 }
    }
}

/// Identity of a junction.
#[derive(Debug, Clone, Copy, PartialEq, Eq, Structural)]
pub struct JunctionId(usize);

impl JunctionId {
    /// The number behind the identity.
    pub closed spec fn value(&self) -> usize {
        self.0
    }

    /// Draw a fresh identity: it carries the source's current number, and the
    /// source moves on by one, wrapping to 0 after the largest number.
    pub fn new(source: &mut JunctionIdSource) -> (id: JunctionId)
        ensures
            id.value() == old(source).latest(),
            final(source).latest() == if old(source).latest() == usize::MAX {
                0
            } else {
                old(source).latest() + 1
            },
    {
        let value: usize = source.latest;
        source.latest = value.wrapping_add(1);
        JunctionId(value)
    }

    /// The number behind the identity.
    pub fn to_usize(&self) -> (value: usize)
        ensures
            value == self.value(),
    {
        self.0
    }

    /// Two identities with the same number are the same identity.
    pub proof fn lemma_value_injective(a: JunctionId, b: JunctionId)
        requires
            a.value() == b.value(),
        ensures
            a == b,
    {
    }
}

} // verus!
