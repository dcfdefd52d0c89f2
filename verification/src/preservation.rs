//! The well-formedness of the coordinator's state is kept by every step.

use vstd::prelude::*;
use crate::channels::StrippedChannel;
use crate::counter::{lemma_precedes_transitive, lemma_successor};
use crate::inverted_index::values_of;
use crate::model::{
    fire, index_complete, index_sound, index_with, is_selected, keys_of, not_after, register,
    registered, run, selected, step, step_message, store, well_formed_state, CoordinatorState,
    Packet,
};
use crate::patterns::{channel_keys, well_formed};

verus! {

/// Every join pattern that the packet carries is well formed.
pub open spec fn packet_valid<M>(packet: Packet<M>) -> bool {
    match packet {
        Packet::AddJoinPatternRequest { join_pattern } => join_pattern.valid(),
        _ => true,
    }
}

/// Every packet of the sequence is valid.
pub open spec fn packets_valid<M>(packets: Seq<Packet<M>>) -> bool {
    forall|i: int| 0 <= i < packets.len() ==> packet_valid(#[trigger] packets[i])
}

/// After a pattern has been entered under the listed channels, a channel's
/// entries are those it had, and the pattern as well if the channel is
/// listed.
pub proof fn lemma_index_with_contains(
    index: Map<usize, Seq<usize>>,
    keys: Seq<usize>,
    pattern: usize,
    channel: usize,
    entry: usize,
)
    ensures
        values_of(index_with(index, keys, pattern), channel).contains(entry) <==> values_of(
            index,
            channel,
        ).contains(entry) || (entry == pattern && keys.contains(channel)),
    decreases keys.len(),
{
    if keys.len() > 0 {
        let entered = values_of(index, keys[0]).push(pattern);
        let next = index.insert(keys[0], entered);
        let rest = keys.drop_first();
        lemma_index_with_contains(next, rest, pattern, channel, entry);
        if channel == keys[0] {
            assert(values_of(next, channel) == entered);
            if values_of(index, channel).contains(entry) {
                let k = choose|k: int|
                    0 <= k < values_of(index, channel).len() && values_of(index, channel)[k]
                        == entry;
                assert(entered[k] == entry);
            }
            assert(entered[entered.len() - 1] == pattern);
            assert(keys[0] == channel);
        } else {
            assert(values_of(next, channel) == values_of(index, channel));
        }
        if rest.contains(channel) {
            let k = choose|k: int| 0 <= k < rest.len() && rest[k] == channel;
            assert(keys[k + 1] == channel);
        }
        if keys.contains(channel) && channel != keys[0] {
            let k = choose|k: int| 0 <= k < keys.len() && keys[k] == channel;
            assert(rest[k - 1] == channel);
        }
    }
}

/// A change of the state that leaves the registered patterns and the index
/// as they were leaves the index sound and complete.
pub proof fn lemma_index_kept<M>(state: CoordinatorState<M>, after: CoordinatorState<M>)
    requires
        index_sound(state),
        index_complete(state),
        after.next_pattern == state.next_pattern,
        after.patterns == state.patterns,
        after.index == state.index,
    ensures
        index_sound(after),
        index_complete(after),
{
    assert forall|c: usize, p: usize|
        #![trigger values_of(after.index, c).contains(p)]
        values_of(after.index, c).contains(p) implies registered(after, p) && keys_of(
        after,
        p,
    ).contains(c) by {
        assert(values_of(state.index, c).contains(p));
        assert(keys_of(after, p) == keys_of(state, p));
    }
    assert forall|c: usize, p: usize|
        #![trigger values_of(after.index, c).contains(p)]
        registered(after, p) && keys_of(after, p).contains(c) implies values_of(
        after.index,
        c,
    ).contains(p) by {
        assert(keys_of(after, p) == keys_of(state, p));
        assert(values_of(state.index, c).contains(p));
    }
}

/// Storing a message keeps the state well formed.
pub proof fn lemma_store_well_formed<M>(state: CoordinatorState<M>, channel: usize, msg: M)
    requires
        well_formed_state(state),
    ensures
        well_formed_state(store(state, channel, msg)),
{
    let after = store(state, channel, msg);
    lemma_successor(state.clock);
    assert forall|pattern: usize| registered(after, pattern) implies not_after(
        #[trigger] after.last_fired[pattern],
        after.clock,
    ) by {
        assert(not_after(state.last_fired[pattern], state.clock));
        match state.last_fired[pattern] {
            Some(fired) => {
                if fired != state.clock {
                    lemma_precedes_transitive(fired, state.clock, after.clock);
                }
            },
            None => {},
        }
    }
    lemma_index_kept(state, after);
}

/// The firing of a registered pattern keeps the state well formed.
pub proof fn lemma_fire_well_formed<M>(state: CoordinatorState<M>, pattern: usize)
    requires
        well_formed_state(state),
        registered(state, pattern),
    ensures
        well_formed_state(fire(state, pattern)),
{
    let after = fire(state, pattern);
    assert forall|p: usize| #[trigger]
        after.last_fired.contains_key(p) <==> registered(after, p) by {
        assert(state.last_fired.contains_key(p) <==> registered(state, p));
    }
    assert forall|p: usize| registered(after, p) implies not_after(
        #[trigger] after.last_fired[p],
        after.clock,
    ) by {
        assert(not_after(state.last_fired[p], state.clock));
    }
    lemma_index_kept(state, after);
}

/// Registering a well-formed pattern keeps the state well formed.
pub proof fn lemma_register_well_formed<M>(
    state: CoordinatorState<M>,
    channels: Seq<StrippedChannel>,
)
    requires
        well_formed_state(state),
        well_formed(channels),
        state.next_pattern < usize::MAX,
    ensures
        well_formed_state(register(state, channels)),
{
    let after = register(state, channels);
    let new = state.next_pattern;
    let keys = channel_keys(channels);
    assert forall|p: usize| #[trigger]
        after.patterns.contains_key(p) <==> registered(after, p) by {
        assert(state.patterns.contains_key(p) <==> registered(state, p));
    }
    assert forall|p: usize| #[trigger]
        after.last_fired.contains_key(p) <==> registered(after, p) by {
        assert(state.last_fired.contains_key(p) <==> registered(state, p));
    }
    assert forall|p: usize| registered(after, p) implies well_formed(
        #[trigger] after.patterns[p],
    ) by {
        if p != new {
            assert(registered(state, p));
            assert(well_formed(state.patterns[p]));
        }
    }
    assert forall|p: usize| registered(after, p) implies not_after(
        #[trigger] after.last_fired[p],
        after.clock,
    ) by {
        if p != new {
            assert(not_after(state.last_fired[p], state.clock));
        }
    }
    assert(index_sound(after)) by {
        assert forall|c: usize, p: usize|
            #![trigger values_of(after.index, c).contains(p)]
            values_of(after.index, c).contains(p) implies registered(after, p) && keys_of(
            after,
            p,
        ).contains(c) by {
            lemma_index_with_contains(state.index, keys, new, c, p);
            if values_of(state.index, c).contains(p) {
                assert(registered(state, p));
                assert(keys_of(after, p) == keys_of(state, p));
            }
        }
    }
    assert(index_complete(after)) by {
        assert forall|c: usize, p: usize|
            #![trigger values_of(after.index, c).contains(p)]
            registered(after, p) && keys_of(after, p).contains(c) implies values_of(
            after.index,
            c,
        ).contains(p) by {
            lemma_index_with_contains(state.index, keys, new, c, p);
            if p != new {
                assert(keys_of(after, p) == keys_of(state, p));
                assert(values_of(state.index, c).contains(p));
            }
        }
    }
}

/// The pattern that is selected for a message is registered.
pub proof fn lemma_selected_registered<M>(state: CoordinatorState<M>, channel: usize)
    requires
        well_formed_state(state),
    ensures
        selected(state, channel) matches Some(pattern) ==> registered(state, pattern)
            && is_selected(state, channel, pattern),
{
    if let Some(pattern) = selected(state, channel) {
        assert(is_selected(state, channel, pattern));
        assert(state.patterns.contains_key(pattern));
    }
}

/// A message keeps the state well formed.
pub proof fn lemma_message_well_formed<M>(state: CoordinatorState<M>, channel: usize, msg: M)
    requires
        well_formed_state(state),
    ensures
        well_formed_state(step_message(state, channel, msg).0),
{
    let stored = store(state, channel, msg);
    lemma_store_well_formed(state, channel, msg);
    lemma_selected_registered(stored, channel);
    if let Some(pattern) = selected(stored, channel) {
        lemma_fire_well_formed(stored, pattern);
    }
}

/// Every step keeps the state well formed.
pub proof fn lemma_step_well_formed<M>(state: CoordinatorState<M>, packet: Packet<M>)
    requires
        well_formed_state(state),
        packet_valid(packet),
    ensures
        well_formed_state(step(state, packet).0),
{
    if state.running {
        match packet {
            Packet::Message { channel_id, msg } => {
                lemma_message_well_formed(state, channel_id.value(), msg);
            },
            Packet::NewChannelIdRequest => {
                lemma_index_kept(state, step(state, packet).0);
            },
            Packet::AddJoinPatternRequest { join_pattern } => {
                if state.next_pattern < usize::MAX {
                    lemma_register_well_formed(state, join_pattern@);
                }
            },
            Packet::ShutDownRequest => {
                lemma_index_kept(state, step(state, packet).0);
            },
        }
    }
}

/// Every run of valid packets keeps the state well formed.
pub proof fn lemma_run_well_formed<M>(state: CoordinatorState<M>, packets: Seq<Packet<M>>)
    requires
        well_formed_state(state),
        packets_valid(packets),
    ensures
        well_formed_state(run(state, packets)),
    decreases packets.len(),
{
    if packets.len() > 0 {
        let before = packets.drop_last();
        assert forall|i: int| 0 <= i < before.len() implies packet_valid(#[trigger] before[i]) by {
            assert(before[i] == packets[i]);
        }
        lemma_run_well_formed(state, before);
        lemma_step_well_formed(run(state, before), packets.last());
    }
}

} // verus!
