//! The coordinator as a state machine: its state, the packets that drive it,
//! and the function from a state and a packet to the next state and what the
//! coordinator answers. The executable coordinator is proved to follow it.

use vstd::prelude::*;
use core::cmp::Ordering;
use crate::bag::{queue_of, queues_add, queues_retrieve};
use crate::channels::StrippedChannel;
use crate::counter::{lemma_digits_unique, precedes, successor};
use crate::ids::{ChannelId, JoinPatternId};
use crate::inverted_index::values_of;
use crate::patterns::{alive, channel_keys, multiplicity, JoinPattern};

verus! {

/// What the coordinator is asked to do.
#[derive(Debug)]
pub enum Packet<M> {
    /// A message arrived on the channel `channel_id`.
    Message { channel_id: ChannelId, msg: M },
    /// A new channel needs an identity.
    NewChannelIdRequest,
    /// A pattern is to be registered.
    AddJoinPatternRequest { join_pattern: JoinPattern },
    /// The coordinator is to stop.
    ShutDownRequest,
}

/// Why the coordinator refused a packet.
#[derive(Debug, Clone, Copy, PartialEq, Eq, Structural)]
pub enum ControlError {
    /// The coordinator has stopped.
    PostAfterShutdown,
    /// No identity is left to hand out.
    IdentitiesExhausted,
}

/// What the coordinator answers to a packet that it accepted.
#[derive(Debug)]
pub enum Reply<M> {
    /// The message was stored and no pattern fired.
    Stored,
    /// The message was stored and the pattern `pattern_id` fired. It consumed
    /// `messages`, one for each channel it lists, in the order of its list.
    Fired { pattern_id: JoinPatternId, messages: Vec<M> },
    /// The identity for the new channel.
    NewChannelId { channel_id: ChannelId },
    /// The pattern was registered under `pattern_id`.
    Registered { pattern_id: JoinPatternId },
    /// The coordinator has stopped.
    ShutDown,
}

/// What a step of the coordinator does besides changing its state.
pub enum Effect<M> {
    /// The message was stored and no pattern fired.
    Stored,
    /// The message was stored and the pattern `pattern` fired on `messages`.
    Fired { pattern: usize, messages: Seq<M> },
    /// The channel identity `channel` was handed out.
    NewChannelId { channel: usize },
    /// The pattern was registered under `pattern`.
    Registered { pattern: usize },
    /// The coordinator stopped.
    ShutDown,
    /// The packet was refused and nothing changed.
    Refused { error: ControlError },
}

/// The effect that an answer of the coordinator stands for.
pub open spec fn effect_of<M>(answer: Result<Reply<M>, ControlError>) -> Effect<M> {
    match answer {
        Ok(Reply::Stored) => Effect::Stored,
        Ok(Reply::Fired { pattern_id, messages }) => Effect::Fired {
            pattern: pattern_id.value(),
            messages: messages@,
        },
        Ok(Reply::NewChannelId { channel_id }) => Effect::NewChannelId {
            channel: channel_id.value(),
        },
        Ok(Reply::Registered { pattern_id }) => Effect::Registered { pattern: pattern_id.value() },
        Ok(Reply::ShutDown) => Effect::ShutDown,
        Err(error) => Effect::Refused { error },
    }
}

/// All that the coordinator knows.
pub struct CoordinatorState<M> {
    /// Whether packets are still accepted.
    pub running: bool,
    /// The identity that the next channel gets.
    pub next_channel: usize,
    /// The identity that the next pattern gets.
    pub next_pattern: usize,
    /// The digits of the number of messages that have arrived.
    pub clock: Seq<u64>,
    /// The messages that wait, by channel, oldest first.
    pub inventory: Map<usize, Seq<M>>,
    /// The registered patterns, each with the channels it lists.
    pub patterns: Map<usize, Seq<StrippedChannel>>,
    /// For each pattern the clock at which it last fired, if it ever did.
    pub last_fired: Map<usize, Option<Seq<u64>>>,
    /// For each channel the patterns that list it.
    pub index: Map<usize, Seq<usize>>,
}

/// The state of a coordinator that has just been made.
pub open spec fn initial_state<M>() -> CoordinatorState<M> {
    CoordinatorState {
        running: true,
        next_channel: 0,
        next_pattern: 0,
        clock: seq![0u64],
        inventory: Map::empty(),
        patterns: Map::empty(),
        last_fired: Map::empty(),
        index: Map::empty(),
    }
}

/// The channels that the pattern `pattern` lists, as map keys.
pub open spec fn keys_of<M>(state: CoordinatorState<M>, pattern: usize) -> Seq<usize> {
    channel_keys(state.patterns[pattern])
}

/// The pattern is registered and alive.
pub open spec fn pattern_alive<M>(state: CoordinatorState<M>, pattern: usize) -> bool {
    state.patterns.contains_key(pattern) && alive(state.inventory, keys_of(state, pattern))
}

/// The pattern lists `channel` and is alive: it may fire when a message
/// arrives on that channel.
pub open spec fn is_candidate<M>(state: CoordinatorState<M>, channel: usize, pattern: usize) -> bool {
    values_of(state.index, channel).contains(pattern) && pattern_alive(state, pattern)
}

/// The first firing is earlier than the second. Never having fired is
/// earlier than any firing.
pub open spec fn earlier(first: Option<Seq<u64>>, second: Option<Seq<u64>>) -> bool {
    match (first, second) {
        (None, Some(_)) => true,
        (Some(a), Some(b)) => precedes(a, b),
        _ => false,
    }
}

/// The pattern `first` is to fire rather than `second`: it fired earlier, or
/// neither fired earlier than the other and it was registered first.
pub open spec fn takes_precedence<M>(state: CoordinatorState<M>, first: usize, second: usize) -> bool {
    let a = state.last_fired[first];
    let b = state.last_fired[second];
    earlier(a, b) || (!earlier(b, a) && first < second)
}

/// The pattern is the one to fire for a message on `channel`: it is a
/// candidate and takes precedence over every other candidate.
pub open spec fn is_selected<M>(state: CoordinatorState<M>, channel: usize, pattern: usize) -> bool {
    &&& is_candidate(state, channel, pattern)
    &&& forall|other: usize|
        is_candidate(state, channel, other) && other != pattern ==> #[trigger] takes_precedence(
            state,
            pattern,
            other,
        )
}

/// The pattern to fire for a message on `channel`, if there is a candidate.
pub open spec fn selected<M>(state: CoordinatorState<M>, channel: usize) -> Option<usize> {
    if exists|pattern: usize| is_selected(state, channel, pattern) {
        Some(choose|pattern: usize| is_selected(state, channel, pattern))
    } else {
        None
    }
}

/// The queues after one message has left each of the listed channels, in the
/// order of the list.
pub open spec fn consume<M>(queues: Map<usize, Seq<M>>, keys: Seq<usize>) -> Map<usize, Seq<M>>
    decreases keys.len(),
{
    if keys.len() == 0 {
        queues
    } else {
        consume(queues_retrieve(queues, keys[0]), keys.drop_first())
    }
}

/// The messages that leave when one message is taken from each of the listed
/// channels, in the order of the list.
pub open spec fn consumed<M>(queues: Map<usize, Seq<M>>, keys: Seq<usize>) -> Seq<M>
    decreases keys.len(),
{
    if keys.len() == 0 {
        Seq::empty()
    } else {
        seq![queue_of(queues, keys[0])[0]] + consumed(
            queues_retrieve(queues, keys[0]),
            keys.drop_first(),
        )
    }
}

/// The index after `pattern` has been entered under each of the listed
/// channels, in the order of the list.
pub open spec fn index_with(index: Map<usize, Seq<usize>>, keys: Seq<usize>, pattern: usize) -> Map<
    usize,
    Seq<usize>,
>
    decreases keys.len(),
{
    if keys.len() == 0 {
        index
    } else {
        index_with(
            index.insert(keys[0], values_of(index, keys[0]).push(pattern)),
            keys.drop_first(),
            pattern,
        )
    }
}

/// The state after a message has been stored: it waits last in its channel's
/// queue, and the clock has moved on.
pub open spec fn store<M>(state: CoordinatorState<M>, channel: usize, msg: M) -> CoordinatorState<M> {
    CoordinatorState {
        clock: successor(state.clock),
        inventory: queues_add(state.inventory, channel, msg),
        ..state
    }
}

/// The state after the pattern has fired: one message has left each channel
/// it lists, and the pattern's last firing is now.
pub open spec fn fire<M>(state: CoordinatorState<M>, pattern: usize) -> CoordinatorState<M> {
    CoordinatorState {
        inventory: consume(state.inventory, keys_of(state, pattern)),
        last_fired: state.last_fired.insert(pattern, Some(state.clock)),
        ..state
    }
}

/// The state after a pattern with the given channels has been registered
/// under the next pattern identity.
pub open spec fn register<M>(state: CoordinatorState<M>, channels: Seq<StrippedChannel>) -> CoordinatorState<M> {
    CoordinatorState {
        next_pattern: (state.next_pattern + 1) as usize,
        patterns: state.patterns.insert(state.next_pattern, channels),
        last_fired: state.last_fired.insert(state.next_pattern, None),
        index: index_with(state.index, channel_keys(channels), state.next_pattern),
        ..state
    }
}

/// What a message on `channel` does to a running coordinator.
pub open spec fn step_message<M>(state: CoordinatorState<M>, channel: usize, msg: M) -> (
    CoordinatorState<M>,
    Effect<M>,
) {
    let stored = store(state, channel, msg);
    match selected(stored, channel) {
        Some(pattern) => (
            fire(stored, pattern),
            Effect::Fired {
                pattern,
                messages: consumed(stored.inventory, keys_of(stored, pattern)),
            },
        ),
        None => (stored, Effect::Stored),
    }
}

/// One step of the coordinator: the state after `packet`, and the effect.
pub open spec fn step<M>(state: CoordinatorState<M>, packet: Packet<M>) -> (
    CoordinatorState<M>,
    Effect<M>,
) {
    if !state.running {
        (state, Effect::Refused { error: ControlError::PostAfterShutdown })
    } else {
        match packet {
            Packet::Message { channel_id, msg } => step_message(state, channel_id.value(), msg),
            Packet::NewChannelIdRequest => if state.next_channel == usize::MAX {
                (state, Effect::Refused { error: ControlError::IdentitiesExhausted })
            } else {
                (
                    CoordinatorState {
                        next_channel: (state.next_channel + 1) as usize,
                        ..state
                    },
                    Effect::NewChannelId { channel: state.next_channel },
                )
            },
            Packet::AddJoinPatternRequest { join_pattern } => if state.next_pattern
                == usize::MAX {
                (state, Effect::Refused { error: ControlError::IdentitiesExhausted })
            } else {
                (
                    register(state, join_pattern@),
                    Effect::Registered { pattern: state.next_pattern },
                )
            },
            Packet::ShutDownRequest => (
                CoordinatorState { running: false, ..state },
                Effect::ShutDown,
            ),
        }
    }
}

/// The state after the packets have been handled one after another.
pub open spec fn run<M>(state: CoordinatorState<M>, packets: Seq<Packet<M>>) -> CoordinatorState<M>
    decreases packets.len(),
{
    if packets.len() == 0 {
        state
    } else {
        step(run(state, packets.drop_last()), packets.last()).0
    }
}

/// The effects of the packets handled one after another, one for each packet.
pub open spec fn effects<M>(state: CoordinatorState<M>, packets: Seq<Packet<M>>) -> Seq<Effect<M>>
    decreases packets.len(),
{
    if packets.len() == 0 {
        Seq::empty()
    } else {
        effects(state, packets.drop_last()).push(
            step(run(state, packets.drop_last()), packets.last()).1,
        )
    }
}

/// There is one effect for each packet.
pub proof fn lemma_effects_len<M>(state: CoordinatorState<M>, packets: Seq<Packet<M>>)
    ensures
        effects(state, packets).len() == packets.len(),
    decreases packets.len(),
{
    if packets.len() > 0 {
        lemma_effects_len(state, packets.drop_last());
    }
}

/// The pattern is registered.
pub open spec fn registered<M>(state: CoordinatorState<M>, pattern: usize) -> bool {
    pattern < state.next_pattern
}

/// The firing is not later than the clock.
pub open spec fn not_after(stamp: Option<Seq<u64>>, clock: Seq<u64>) -> bool {
    match stamp {
        Some(fired) => fired == clock || precedes(fired, clock),
        None => true,
    }
}

/// Every entry of the index names a registered pattern that lists the
/// channel under which it is entered.
pub open spec fn index_sound<M>(state: CoordinatorState<M>) -> bool {
    forall|channel: usize, pattern: usize|
        #![trigger values_of(state.index, channel).contains(pattern)]
        values_of(state.index, channel).contains(pattern) ==> registered(state, pattern)
            && keys_of(state, pattern).contains(channel)
}

/// Every registered pattern is entered in the index under each channel that
/// it lists.
pub open spec fn index_complete<M>(state: CoordinatorState<M>) -> bool {
    forall|channel: usize, pattern: usize|
        #![trigger values_of(state.index, channel).contains(pattern)]
        registered(state, pattern) && keys_of(state, pattern).contains(channel) ==> values_of(
            state.index,
            channel,
        ).contains(pattern)
}

/// What holds of the state of a coordinator at all times: the registered
/// patterns are those with an identity below the next one, each is well
/// formed and has a record of its last firing that is not later than the
/// clock, and the index lists exactly the patterns of each channel.
pub open spec fn well_formed_state<M>(state: CoordinatorState<M>) -> bool {
    &&& forall|pattern: usize| #[trigger]
        state.patterns.contains_key(pattern) <==> registered(state, pattern)
    &&& forall|pattern: usize| #[trigger]
        state.last_fired.contains_key(pattern) <==> registered(state, pattern)
    &&& forall|pattern: usize|
        registered(state, pattern) ==> crate::patterns::well_formed(
            #[trigger] state.patterns[pattern],
        )
    &&& forall|pattern: usize|
        registered(state, pattern) ==> not_after(
            #[trigger] state.last_fired[pattern],
            state.clock,
        )
    &&& index_sound(state)
    &&& index_complete(state)
}

/// The state of a new coordinator is well formed.
pub proof fn lemma_initial_state_well_formed<M>()
    ensures
        well_formed_state(initial_state::<M>()),
{
    let state = initial_state::<M>();
    assert forall|channel: usize, pattern: usize|
        values_of(state.index, channel).contains(pattern) implies false by {
        assert(values_of(state.index, channel) =~= Seq::<usize>::empty());
    }
}

/// Of two firings at most one is earlier than the other, and where neither
/// is, they are the same.
pub proof fn lemma_earlier_total(first: Option<Seq<u64>>, second: Option<Seq<u64>>)
    ensures
        !(earlier(first, second) && earlier(second, first)),
        first == second || earlier(first, second) || earlier(second, first),
{
    match (first, second) {
        (Some(a), Some(b)) => {
            if !precedes(a, b) && !precedes(b, a) {
                lemma_digits_unique(a, b);
            }
        },
        _ => {},
    }
}

/// A firing earlier than one that is earlier than a third is earlier than
/// the third.
pub proof fn lemma_earlier_transitive(
    first: Option<Seq<u64>>,
    second: Option<Seq<u64>>,
    third: Option<Seq<u64>>,
)
    requires
        earlier(first, second),
        earlier(second, third),
    ensures
        earlier(first, third),
{
}

/// Of two different patterns exactly one takes precedence over the other.
pub proof fn lemma_precedence_total<M>(state: CoordinatorState<M>, first: usize, second: usize)
    ensures
        !(takes_precedence(state, first, second) && takes_precedence(state, second, first)),
        first == second || takes_precedence(state, first, second) || takes_precedence(
            state,
            second,
            first,
        ),
{
    lemma_earlier_total(state.last_fired[first], state.last_fired[second]);
}

/// Precedence among patterns is transitive.
pub proof fn lemma_precedence_transitive<M>(
    state: CoordinatorState<M>,
    first: usize,
    second: usize,
    third: usize,
)
    requires
        takes_precedence(state, first, second),
        takes_precedence(state, second, third),
    ensures
        takes_precedence(state, first, third),
{
    let a = state.last_fired[first];
    let b = state.last_fired[second];
    let c = state.last_fired[third];
    lemma_earlier_total(a, b);
    lemma_earlier_total(b, c);
    lemma_earlier_total(a, c);
    if earlier(a, b) && earlier(b, c) {
        lemma_earlier_transitive(a, b, c);
    }
}

/// No two patterns are selected for the same message: a pattern that is
/// selected is the one that `selected` names.
pub proof fn lemma_selected_unique<M>(state: CoordinatorState<M>, channel: usize, pattern: usize)
    requires
        is_selected(state, channel, pattern),
    ensures
        selected(state, channel) == Some(pattern),
{
    let chosen = choose|chosen: usize| is_selected(state, channel, chosen);
    if chosen != pattern {
        assert(takes_precedence(state, pattern, chosen));
        assert(takes_precedence(state, chosen, pattern));
        lemma_precedence_total(state, pattern, chosen);
    }
}

/// The three-way comparison of two last firings.
pub open spec fn compare_stamps(first: Option<Seq<u64>>, second: Option<Seq<u64>>) -> Ordering {
    if earlier(first, second) {
        Ordering::Less
    } else if earlier(second, first) {
        Ordering::Greater
    } else {
        Ordering::Equal
    }
}

/// Taking the oldest message of one channel shortens that channel's queue at
/// its head and leaves every other queue as it was.
pub proof fn lemma_queue_after_retrieve<M>(queues: Map<usize, Seq<M>>, taken: usize, key: usize)
    ensures
        queue_of(queues_retrieve(queues, taken), key) == if key == taken && queue_of(
            queues,
            taken,
        ).len() > 0 {
            queue_of(queues, taken).drop_first()
        } else {
            queue_of(queues, key)
        },
{
    if key == taken {
        let queue = queue_of(queues, taken);
        if queue.len() == 1 {
            assert(queue.drop_first() =~= Seq::<M>::empty());
        }
    }
}

/// A message joining one channel lengthens that channel's queue at its end
/// and leaves every other queue as it was.
pub proof fn lemma_queue_after_add<M>(queues: Map<usize, Seq<M>>, added: usize, msg: M, key: usize)
    ensures
        queue_of(queues_add(queues, added, msg), key) == if key == added {
            queue_of(queues, added).push(msg)
        } else {
            queue_of(queues, key)
        },
{
}

/// Where the listed channels hold enough messages, the first of them holds
/// one, and once that one is taken the channels listed after the first still
/// hold enough.
pub proof fn lemma_alive_step<M>(queues: Map<usize, Seq<M>>, keys: Seq<usize>)
    requires
        alive(queues, keys),
        keys.len() > 0,
    ensures
        queue_of(queues, keys[0]).len() > 0,
        alive(queues_retrieve(queues, keys[0]), keys.drop_first()),
{
    let rest = keys.drop_first();
    let after = queues_retrieve(queues, keys[0]);
    assert(multiplicity(keys, keys[0]) >= 1);
    assert forall|i: int| 0 <= i < rest.len() implies multiplicity(rest, #[trigger] rest[i])
        <= queue_of(after, rest[i]).len() by {
        assert(rest[i] == keys[i + 1]);
        lemma_queue_after_retrieve(queues, keys[0], rest[i]);
    }
}

} // verus!
