//! What holds of every run of the coordinator: messages of a channel are
//! handed out in the order in which they came, none is lost or handed out
//! twice, a firing takes exactly what its pattern lists, and a stopped
//! coordinator does nothing more.

use vstd::prelude::*;
use crate::bag::{queue_of, queues_add, queues_retrieve};
use crate::channels::StrippedChannel;
use crate::inverted_index::values_of;
use crate::model::{
    consume, consumed, fire, initial_state, is_candidate, is_selected, keys_of,
    lemma_alive_step, lemma_initial_state_well_formed, lemma_queue_after_add,
    lemma_queue_after_retrieve, registered, run, selected, step, step_message, store,
    well_formed_state, ControlError, CoordinatorState, Effect, Packet,
};
use crate::patterns::{alive, multiplicity, well_formed};
use crate::preservation::{lemma_run_well_formed, packets_valid};

verus! {

/// Of the messages that a firing hands out, those that came from `channel`,
/// in the order in which they are handed out. `keys` lists the channel of
/// each message.
pub open spec fn delivered_on<M>(keys: Seq<usize>, messages: Seq<M>, channel: usize) -> Seq<M>
    decreases keys.len(),
{
    if keys.len() == 0 || messages.len() == 0 {
        Seq::empty()
    } else {
        let rest = delivered_on(keys.drop_first(), messages.drop_first(), channel);
        if keys[0] == channel {
            seq![messages[0]] + rest
        } else {
            rest
        }
    }
}

/// A firing hands out one message for each channel that its pattern lists.
pub proof fn lemma_consumed_len<M>(queues: Map<usize, Seq<M>>, keys: Seq<usize>)
    ensures
        consumed(queues, keys).len() == keys.len(),
    decreases keys.len(),
{
    if keys.len() > 0 {
        lemma_consumed_len(queues_retrieve(queues, keys[0]), keys.drop_first());
    }
}

/// A firing of an alive pattern takes from each channel as many messages as
/// the pattern lists the channel times: they are the oldest of the channel,
/// they are handed out oldest first, and the others stay in their order.
pub proof fn lemma_consume_queue<M>(queues: Map<usize, Seq<M>>, keys: Seq<usize>, channel: usize)
    requires
        alive(queues, keys),
    ensures
        multiplicity(keys, channel) <= queue_of(queues, channel).len(),
        queue_of(consume(queues, keys), channel) == queue_of(queues, channel).skip(
            multiplicity(keys, channel) as int,
        ),
        delivered_on(keys, consumed(queues, keys), channel) == queue_of(queues, channel).take(
            multiplicity(keys, channel) as int,
        ),
    decreases keys.len(),
{
    let queue = queue_of(queues, channel);
    if keys.len() == 0 {
        assert(queue.skip(0) =~= queue);
        assert(queue.take(0) =~= Seq::<M>::empty());
    } else {
        let rest = keys.drop_first();
        let after = queues_retrieve(queues, keys[0]);
        let messages = consumed(queues, keys);
        lemma_alive_step(queues, keys);
        lemma_consume_queue(after, rest, channel);
        lemma_queue_after_retrieve(queues, keys[0], channel);
        lemma_consumed_len(after, rest);
        assert(messages.drop_first() =~= consumed(after, rest));
        assert(messages[0] == queue_of(queues, keys[0])[0]);
        let n = multiplicity(rest, channel) as int;
        if keys[0] == channel {
            assert(queue.drop_first().skip(n) =~= queue.skip(n + 1));
            assert(seq![queue[0]] + queue.drop_first().take(n) =~= queue.take(n + 1));
        }
    }
}

/// Each message that a firing of an alive pattern hands out is the one that
/// waited on the channel listed at its place, as far from the head of that
/// channel's queue as the channel is listed before that place.
pub proof fn law_consumed_at<M>(queues: Map<usize, Seq<M>>, keys: Seq<usize>, place: int)
    requires
        alive(queues, keys),
        0 <= place < keys.len(),
    ensures
        multiplicity(keys.take(place), keys[place]) < queue_of(queues, keys[place]).len(),
        consumed(queues, keys)[place] == queue_of(queues, keys[place])[multiplicity(
            keys.take(place),
            keys[place],
        ) as int],
    decreases keys.len(),
{
    let key = keys[place];
    lemma_alive_step(queues, keys);
    if place == 0 {
        assert(keys.take(0) =~= Seq::<usize>::empty());
    } else {
        let rest = keys.drop_first();
        let after = queues_retrieve(queues, keys[0]);
        law_consumed_at(after, rest, place - 1);
        lemma_queue_after_retrieve(queues, keys[0], key);
        lemma_consumed_len(after, rest);
        assert(rest[place - 1] == key);
        assert(keys.take(place).drop_first() =~= rest.take(place - 1));
        assert(consumed(queues, keys)[place] == consumed(after, rest)[place - 1]);
    }
}

/// A channel that is not listed is listed zero times.
pub proof fn lemma_multiplicity_absent(keys: Seq<usize>, channel: usize)
    requires
        !keys.contains(channel),
    ensures
        multiplicity(keys, channel) == 0,
    decreases keys.len(),
{
    if keys.len() > 0 {
        let rest = keys.drop_first();
        assert(keys[0] != channel);
        assert forall|k: int| 0 <= k < rest.len() implies rest[k] != channel by {
            assert(rest[k] == keys[k + 1]);
        }
        lemma_multiplicity_absent(rest, channel);
    }
}

/// The messages that the packets brought to `channel` while the coordinator
/// ran, in the order of the packets.
pub open spec fn sent_on<M>(state: CoordinatorState<M>, packets: Seq<Packet<M>>, channel: usize) -> Seq<M>
    decreases packets.len(),
{
    if packets.len() == 0 {
        Seq::empty()
    } else {
        let earlier = sent_on(state, packets.drop_last(), channel);
        match packets.last() {
            Packet::Message { channel_id, msg } => if run(state, packets.drop_last()).running
                && channel_id.value() == channel {
                earlier.push(msg)
            } else {
                earlier
            },
            _ => earlier,
        }
    }
}

/// Of the messages that one step hands out, those that came from `channel`.
pub open spec fn step_delivered_on<M>(state: CoordinatorState<M>, packet: Packet<M>, channel: usize) -> Seq<M> {
    match step(state, packet).1 {
        Effect::Fired { pattern, messages } => delivered_on(
            keys_of(state, pattern),
            messages,
            channel,
        ),
        _ => Seq::empty(),
    }
}

/// The messages of `channel` that the firings during the packets handed
/// out, in the order in which they were handed out.
pub open spec fn delivered<M>(state: CoordinatorState<M>, packets: Seq<Packet<M>>, channel: usize) -> Seq<M>
    decreases packets.len(),
{
    if packets.len() == 0 {
        Seq::empty()
    } else {
        delivered(state, packets.drop_last(), channel) + step_delivered_on(
            run(state, packets.drop_last()),
            packets.last(),
            channel,
        )
    }
}

/// One step: what waited on a channel, followed by what the packet brought
/// to it, is what the step handed out from it, followed by what waits on it
/// afterwards.
pub proof fn lemma_step_conserves<M>(state: CoordinatorState<M>, packet: Packet<M>, channel: usize)
    ensures
        queue_of(state.inventory, channel) + sent_on(state, seq![packet], channel)
            == step_delivered_on(state, packet, channel) + queue_of(
            step(state, packet).0.inventory,
            channel,
        ),
{
    let queue = queue_of(state.inventory, channel);
    let after = queue_of(step(state, packet).0.inventory, channel);
    let sent = sent_on(state, seq![packet], channel);
    assert(seq![packet].drop_last() =~= Seq::<Packet<M>>::empty());
    assert(seq![packet].last() == packet);
    assert(sent_on(state, Seq::<Packet<M>>::empty(), channel) =~= Seq::<M>::empty());
    match packet {
        Packet::Message { channel_id, msg } => {
            if state.running {
                let arrived = channel_id.value();
                let stored = store(state, arrived, msg);
                lemma_queue_after_add(state.inventory, arrived, msg, channel);
                assert(queue_of(stored.inventory, channel) =~= queue + sent);
                match selected(stored, arrived) {
                    Some(pattern) => {
                        assert(is_selected(stored, arrived, pattern));
                        let keys = keys_of(stored, pattern);
                        lemma_consume_queue(stored.inventory, keys, channel);
                        let full = queue_of(stored.inventory, channel);
                        let n = multiplicity(keys, channel) as int;
                        assert(full.take(n) + full.skip(n) =~= full);
                        assert(keys_of(state, pattern) == keys);
                    },
                    None => {
                        assert(Seq::<M>::empty() + after =~= after);
                    },
                }
            } else {
                assert(queue + sent =~= queue);
                assert(Seq::<M>::empty() + after =~= after);
            }
        },
        _ => {
            assert(queue + sent =~= queue);
            assert(Seq::<M>::empty() + after =~= after);
        },
    }
}

/// What a sequence of packets brought to a channel does not depend on how
/// the sequence is split.
pub proof fn lemma_sent_on_last<M>(state: CoordinatorState<M>, packets: Seq<Packet<M>>, channel: usize)
    requires
        packets.len() > 0,
    ensures
        sent_on(state, packets, channel) == sent_on(state, packets.drop_last(), channel)
            + sent_on(run(state, packets.drop_last()), seq![packets.last()], channel),
{
    let before = packets.drop_last();
    let last = packets.last();
    let mid = run(state, before);
    assert(seq![last].drop_last() =~= Seq::<Packet<M>>::empty());
    assert(seq![last].last() == last);
    assert(run(mid, Seq::<Packet<M>>::empty()) == mid);
    assert(sent_on(mid, Seq::<Packet<M>>::empty(), channel) =~= Seq::<M>::empty());
    let earlier = sent_on(state, before, channel);
    let single = sent_on(mid, seq![last], channel);
    match last {
        Packet::Message { channel_id, msg } => {
            if mid.running && channel_id.value() == channel {
                assert(single =~= seq![msg]);
                assert(earlier.push(msg) =~= earlier + single);
            } else {
                assert(earlier + single =~= earlier);
            }
        },
        _ => {
            assert(earlier + single =~= earlier);
        },
    }
}

/// Messages are handed out in the order in which they came, and none is
/// lost or handed out twice: for every channel, what waited on it at the
/// start, followed by what the packets brought to it, is what the firings
/// handed out from it, in that order, followed by what waits on it at the
/// end.
pub proof fn law_fifo_conservation<M>(
    state: CoordinatorState<M>,
    packets: Seq<Packet<M>>,
    channel: usize,
)
    ensures
        queue_of(state.inventory, channel) + sent_on(state, packets, channel) == delivered(
            state,
            packets,
            channel,
        ) + queue_of(run(state, packets).inventory, channel),
    decreases packets.len(),
{
    let queue = queue_of(state.inventory, channel);
    if packets.len() == 0 {
        assert(queue + Seq::<M>::empty() =~= Seq::<M>::empty() + queue);
    } else {
        let before = packets.drop_last();
        let last = packets.last();
        let mid = run(state, before);
        law_fifo_conservation(state, before, channel);
        lemma_step_conserves(mid, last, channel);
        lemma_sent_on_last(state, packets, channel);
        let sent_before = sent_on(state, before, channel);
        let sent_last = sent_on(mid, seq![last], channel);
        let out_before = delivered(state, before, channel);
        let out_last = step_delivered_on(mid, last, channel);
        let waiting_mid = queue_of(mid.inventory, channel);
        let waiting_end = queue_of(run(state, packets).inventory, channel);
        assert(queue + (sent_before + sent_last) =~= (queue + sent_before) + sent_last);
        assert((out_before + waiting_mid) + sent_last =~= out_before + (waiting_mid + sent_last));
        assert(out_before + (out_last + waiting_end) =~= (out_before + out_last) + waiting_end);
    }
}

/// From a new coordinator on, the messages that the firings handed out from
/// a channel are the first of those that the packets brought to it, in the
/// same order, and the rest of them still wait: as many were sent as were
/// handed out or wait.
pub proof fn law_sent_is_delivered_then_waiting<M>(packets: Seq<Packet<M>>, channel: usize)
    ensures
        sent_on(initial_state::<M>(), packets, channel) == delivered(
            initial_state::<M>(),
            packets,
            channel,
        ) + queue_of(run(initial_state::<M>(), packets).inventory, channel),
        sent_on(initial_state::<M>(), packets, channel).len() == delivered(
            initial_state::<M>(),
            packets,
            channel,
        ).len() + queue_of(run(initial_state::<M>(), packets).inventory, channel).len(),
{
    let state = initial_state::<M>();
    law_fifo_conservation(state, packets, channel);
    assert(queue_of(state.inventory, channel) + sent_on(state, packets, channel) =~= sent_on(
        state,
        packets,
        channel,
    ));
}

/// A firing takes exactly what its pattern lists. When a message makes a
/// pattern fire, every channel held at least as many messages as the pattern
/// lists it times, the message that just came counted in; the firing hands
/// out that many from the head of the channel's queue, oldest first, one
/// message for each entry of the pattern's list, and the rest of the queue
/// stays.
pub proof fn law_firing_consumes<M>(
    state: CoordinatorState<M>,
    arrived: usize,
    msg: M,
    channel: usize,
)
    ensures
        step_message(state, arrived, msg).1 matches Effect::Fired { pattern, messages } ==> {
            let keys = keys_of(state, pattern);
            let held = queue_of(queues_add(state.inventory, arrived, msg), channel);
            let after = step_message(state, arrived, msg).0;
            &&& is_candidate(store(state, arrived, msg), arrived, pattern)
            &&& messages.len() == keys.len()
            &&& multiplicity(keys, channel) <= held.len()
            &&& delivered_on(keys, messages, channel) == held.take(
                multiplicity(keys, channel) as int,
            )
            &&& queue_of(after.inventory, channel) == held.skip(multiplicity(keys, channel) as int)
        },
{
    let stored = store(state, arrived, msg);
    if let Some(pattern) = selected(stored, arrived) {
        assert(is_selected(stored, arrived, pattern));
        let keys = keys_of(stored, pattern);
        assert(keys == keys_of(state, pattern));
        lemma_consume_queue(stored.inventory, keys, channel);
        lemma_consumed_len(stored.inventory, keys);
    }
}

/// The messages of a firing come in the order of the pattern's list. The
/// message at each place is the one that waited on the channel listed
/// there, as far from the head of the queue as the channel is listed before
/// that place; so the message at the last place is the one of the pattern's
/// last channel, the only one that can be synchronous.
pub proof fn law_firing_follows_list<M>(
    state: CoordinatorState<M>,
    arrived: usize,
    msg: M,
    place: int,
)
    ensures
        step_message(state, arrived, msg).1 matches Effect::Fired { pattern, messages } ==> {
            let keys = keys_of(state, pattern);
            let held = queues_add(state.inventory, arrived, msg);
            0 <= place < keys.len() ==> {
                &&& multiplicity(keys.take(place), keys[place]) < queue_of(held, keys[place]).len()
                &&& messages[place] == queue_of(held, keys[place])[multiplicity(
                    keys.take(place),
                    keys[place],
                ) as int]
            }
        },
{
    let stored = store(state, arrived, msg);
    if let Some(pattern) = selected(stored, arrived) {
        assert(is_selected(stored, arrived, pattern));
        let keys = keys_of(stored, pattern);
        assert(keys == keys_of(state, pattern));
        if 0 <= place < keys.len() {
            law_consumed_at(stored.inventory, keys, place);
        }
    }
}

/// In a well-formed list of channels only the last can be synchronous, and
/// all channels are of one junction.
pub proof fn law_pattern_shape(channels: Seq<StrippedChannel>)
    requires
        well_formed(channels),
    ensures
        forall|i: int|
            0 <= i < channels.len() && (#[trigger] channels[i]).mode.is_synchronous() ==> i
                == channels.len() - 1,
        forall|i: int, j: int|
            0 <= i < channels.len() && 0 <= j < channels.len() ==> (#[trigger] channels[i]).junction_id
                == (#[trigger] channels[j]).junction_id,
{
}

/// Every pattern that a coordinator has registered is well formed: at most
/// its last channel is synchronous and all its channels are of one junction.
pub proof fn law_registered_patterns_well_formed<M>(packets: Seq<Packet<M>>, pattern: usize)
    requires
        packets_valid(packets),
        run(initial_state::<M>(), packets).patterns.contains_key(pattern),
    ensures
        well_formed(run(initial_state::<M>(), packets).patterns[pattern]),
{
    lemma_initial_state_well_formed::<M>();
    lemma_run_well_formed(initial_state::<M>(), packets);
    assert(registered(run(initial_state::<M>(), packets), pattern));
}

/// The patterns that may fire for a message on a channel are the registered
/// patterns that list the channel and are alive: every pattern registered
/// before the message is considered, and no other.
pub proof fn law_candidates_are_the_listing_patterns<M>(
    state: CoordinatorState<M>,
    channel: usize,
    pattern: usize,
)
    requires
        well_formed_state(state),
    ensures
        is_candidate(state, channel, pattern) <==> registered(state, pattern) && keys_of(
            state,
            pattern,
        ).contains(channel) && alive(state.inventory, keys_of(state, pattern)),
{
    assert(state.patterns.contains_key(pattern) <==> registered(state, pattern));
    if registered(state, pattern) && keys_of(state, pattern).contains(channel) {
        assert(values_of(state.index, channel).contains(pattern));
    }
}

/// A stopped coordinator refuses every packet and stays as it is.
pub proof fn law_stopped_refuses<M>(state: CoordinatorState<M>, packet: Packet<M>)
    requires
        !state.running,
    ensures
        step(state, packet).0 == state,
        step(state, packet).1 == (Effect::<M>::Refused {
            error: ControlError::PostAfterShutdown,
        }),
{
}

/// Stopping changes nothing but that the coordinator no longer runs, and
/// whatever packets follow, a second stop among them too, change nothing
/// more.
pub proof fn law_stop_is_final<M>(state: CoordinatorState<M>, packets: Seq<Packet<M>>)
    ensures
        step(state, Packet::ShutDownRequest).0 == (CoordinatorState { running: false, ..state }),
        run(step(state, Packet::ShutDownRequest).0, packets) == step(
            state,
            Packet::ShutDownRequest,
        ).0,
    decreases packets.len(),
{
    if packets.len() > 0 {
        law_stop_is_final(state, packets.drop_last());
    }
}

/// While no registered pattern lists a channel, the messages sent on it only
/// wait: a step hands none of them out, and the queue of the channel is what
/// it was, with the message that the step brought at its end.
pub proof fn law_unmatched_channel_waits<M>(
    state: CoordinatorState<M>,
    packet: Packet<M>,
    channel: usize,
)
    requires
        forall|pattern: usize|
            state.patterns.contains_key(pattern) ==> !(#[trigger] keys_of(state, pattern)).contains(
                channel,
            ),
    ensures
        step_delivered_on(state, packet, channel) == Seq::<M>::empty(),
        queue_of(step(state, packet).0.inventory, channel) == queue_of(state.inventory, channel)
            + sent_on(state, seq![packet], channel),
{
    lemma_step_conserves(state, packet, channel);
    let after = queue_of(step(state, packet).0.inventory, channel);
    if let Effect::Fired { pattern, messages } = step(state, packet).1 {
        match packet {
            Packet::Message { channel_id, msg } => {
                let arrived = channel_id.value();
                let stored = store(state, arrived, msg);
                assert(is_selected(stored, arrived, pattern));
                assert(state.patterns.contains_key(pattern));
                let keys = keys_of(state, pattern);
                assert(keys == keys_of(stored, pattern));
                lemma_multiplicity_absent(keys, channel);
                lemma_consume_queue(stored.inventory, keys, channel);
                assert(queue_of(stored.inventory, channel).take(0) =~= Seq::<M>::empty());
            },
            _ => {},
        }
    }
    assert(Seq::<M>::empty() + after =~= after);
}

} // verus!
