//! Fairness of the choice among patterns. A pattern that is passed over falls
//! behind the pattern that fired in its place, so no pattern is passed over
//! by the same pattern twice before it fires itself; and a pattern that
//! keeps being ready while no new patterns are registered fires again and
//! again.

use vstd::prelude::*;
use crate::counter::{lemma_precedes_transitive, lemma_successor};
use crate::inverted_index::values_of;
use crate::model::{
    earlier, fire, initial_state, is_candidate, is_selected, lemma_initial_state_well_formed,
    lemma_precedence_total, lemma_precedence_transitive, not_after, registered, run, selected,
    step, store, takes_precedence, well_formed_state, CoordinatorState, Effect, Packet,
};
use crate::preservation::{
    lemma_run_well_formed, lemma_store_well_formed, packet_valid, packets_valid,
};

verus! {

/// The step that `packet` causes in `state` fires `pattern`.
pub open spec fn fires<M>(state: CoordinatorState<M>, packet: Packet<M>, pattern: usize) -> bool {
    step(state, packet).1 matches Effect::Fired { pattern: fired, .. } && fired == pattern
}

/// The packet is a message that the coordinator accepts, and once it is
/// stored `pattern` is a candidate to fire for it.
pub open spec fn ready<M>(state: CoordinatorState<M>, packet: Packet<M>, pattern: usize) -> bool {
    packet matches Packet::Message { channel_id, msg } && state.running && is_candidate(
        store(state, channel_id.value(), msg),
        channel_id.value(),
        pattern,
    )
}

/// The pattern that fires takes precedence over every other pattern that
/// was ready.
pub proof fn law_fired_takes_precedence<M>(
    state: CoordinatorState<M>,
    packet: Packet<M>,
    fired: usize,
    other: usize,
)
    requires
        fires(state, packet, fired),
        ready(state, packet, other),
        other != fired,
    ensures
        ready(state, packet, fired),
        takes_precedence(state, fired, other),
{
    match packet {
        Packet::Message { channel_id, msg } => {
            let stored = store(state, channel_id.value(), msg);
            assert(is_selected(stored, channel_id.value(), fired));
            assert(takes_precedence(stored, fired, other));
        },
        _ => {},
    }
}

/// A pattern that has just fired comes after every other registered
/// pattern, and the last firings of the others are what they were.
pub proof fn law_fired_falls_behind<M>(
    state: CoordinatorState<M>,
    packet: Packet<M>,
    fired: usize,
    other: usize,
)
    requires
        well_formed_state(state),
        fires(state, packet, fired),
        registered(state, other),
        other != fired,
    ensures
        takes_precedence(step(state, packet).0, other, fired),
        step(state, packet).0.last_fired[other] == state.last_fired[other],
{
    match packet {
        Packet::Message { channel_id, msg } => {
            let stored = store(state, channel_id.value(), msg);
            let after = step(state, packet).0;
            assert(after == fire(stored, fired));
            lemma_successor(state.clock);
            assert(not_after(state.last_fired[other], state.clock));
            match state.last_fired[other] {
                Some(stamp) => {
                    if stamp != state.clock {
                        lemma_precedes_transitive(stamp, state.clock, stored.clock);
                    }
                },
                None => {},
            }
            assert(after.last_fired[fired] == Some(stored.clock));
            assert(earlier(after.last_fired[other], after.last_fired[fired]));
        },
        _ => {},
    }
}

/// A step in which a pattern does not fire leaves it ahead of every pattern
/// over which it took precedence.
pub proof fn law_precedence_kept<M>(
    state: CoordinatorState<M>,
    packet: Packet<M>,
    first: usize,
    second: usize,
)
    requires
        well_formed_state(state),
        registered(state, first),
        registered(state, second),
        first != second,
        takes_precedence(state, first, second),
        !fires(state, packet, first),
    ensures
        takes_precedence(step(state, packet).0, first, second),
{
    let after = step(state, packet).0;
    if fires(state, packet, second) {
        law_fired_falls_behind(state, packet, second, first);
    } else {
        assert(after.last_fired[first] == state.last_fired[first]);
        assert(after.last_fired[second] == state.last_fired[second]);
    }
}

/// A pattern does not fire in place of a ready pattern that takes
/// precedence over it.
pub proof fn law_no_overtaking<M>(
    state: CoordinatorState<M>,
    packet: Packet<M>,
    first: usize,
    second: usize,
)
    requires
        first != second,
        takes_precedence(state, first, second),
        ready(state, packet, first),
    ensures
        !fires(state, packet, second),
{
    if fires(state, packet, second) {
        law_fired_takes_precedence(state, packet, second, first);
        lemma_precedence_total(state, first, second);
    }
}

/// No pattern is passed over twice by the same pattern. Once a pattern
/// takes precedence over another, it keeps doing so until it fires, and at
/// no step before that does the other fire while the first is ready.
pub proof fn law_no_repeated_overtaking<M>(
    state: CoordinatorState<M>,
    packets: Seq<Packet<M>>,
    first: usize,
    second: usize,
)
    requires
        well_formed_state(state),
        packets_valid(packets),
        registered(state, first),
        registered(state, second),
        first != second,
        takes_precedence(state, first, second),
        forall|i: int|
            0 <= i < packets.len() ==> !fires(
                run(state, #[trigger] packets.take(i)),
                packets[i],
                first,
            ),
    ensures
        takes_precedence(run(state, packets), first, second),
        registered(run(state, packets), first),
        registered(run(state, packets), second),
        forall|i: int|
            0 <= i < packets.len() && ready(
                run(state, #[trigger] packets.take(i)),
                packets[i],
                first,
            ) ==> !fires(run(state, packets.take(i)), packets[i], second),
    decreases packets.len(),
{
    if packets.len() > 0 {
        let before = packets.drop_last();
        let last = packets.last();
        let mid = run(state, before);
        assert(packets_valid(before)) by {
            assert forall|i: int| 0 <= i < before.len() implies packet_valid(
                #[trigger] before[i],
            ) by {
                assert(before[i] == packets[i]);
            }
        }
        assert forall|i: int| 0 <= i < before.len() implies !fires(
            run(state, #[trigger] before.take(i)),
            before[i],
            first,
        ) by {
            assert(before.take(i) =~= packets.take(i));
            assert(before[i] == packets[i]);
        }
        law_no_repeated_overtaking(state, before, first, second);
        lemma_run_well_formed(state, before);
        assert(packets.take(packets.len() - 1) =~= before);
        law_precedence_kept(mid, last, first, second);
        lemma_registered_kept(mid, last, first);
        lemma_registered_kept(mid, last, second);
        assert forall|i: int|
            0 <= i < packets.len() && ready(
                run(state, #[trigger] packets.take(i)),
                packets[i],
                first,
            ) implies !fires(run(state, packets.take(i)), packets[i], second) by {
            if i < before.len() {
                assert(before.take(i) =~= packets.take(i));
                assert(before[i] == packets[i]);
            } else {
                law_no_overtaking(mid, last, first, second);
            }
        }
    }
}

/// A registered pattern stays registered.
pub proof fn lemma_registered_kept<M>(state: CoordinatorState<M>, packet: Packet<M>, pattern: usize)
    requires
        registered(state, pattern),
    ensures
        registered(step(state, packet).0, pattern),
{
}

/// Where some pattern is a candidate for a message, one pattern is selected.
/// The result is the candidate that takes precedence over all the others
/// among the first `count` entries of the channel's index, if there is a
/// candidate among them.
pub proof fn lemma_best_candidate<M>(state: CoordinatorState<M>, channel: usize, count: int) -> (best:
    Option<usize>)
    requires
        0 <= count <= values_of(state.index, channel).len(),
    ensures
        match best {
            Some(pattern) => {
                &&& is_candidate(state, channel, pattern)
                &&& forall|j: int|
                    0 <= j < count && is_candidate(
                        state,
                        channel,
                        #[trigger] values_of(state.index, channel)[j],
                    ) && values_of(state.index, channel)[j] != pattern ==> takes_precedence(
                        state,
                        pattern,
                        values_of(state.index, channel)[j],
                    )
            },
            None => forall|j: int|
                0 <= j < count ==> !is_candidate(
                    state,
                    channel,
                    #[trigger] values_of(state.index, channel)[j],
                ),
        },
    decreases count,
{
    let listed = values_of(state.index, channel);
    if count == 0 {
        None
    } else {
        let before = lemma_best_candidate(state, channel, count - 1);
        let next = listed[count - 1];
        if !is_candidate(state, channel, next) {
            before
        } else {
            match before {
                None => Some(next),
                Some(pattern) => {
                    lemma_precedence_total(state, pattern, next);
                    if pattern == next || takes_precedence(state, pattern, next) {
                        before
                    } else {
                        assert forall|j: int|
                            0 <= j < count && is_candidate(state, channel, #[trigger] listed[j])
                                && listed[j] != next implies takes_precedence(
                            state,
                            next,
                            listed[j],
                        ) by {
                            if listed[j] != pattern {
                                lemma_precedence_transitive(state, next, pattern, listed[j]);
                            }
                        }
                        Some(next)
                    }
                },
            }
        }
    }
}

/// Where some pattern is a candidate for a message, a pattern is selected.
pub proof fn lemma_candidate_means_selection<M>(
    state: CoordinatorState<M>,
    channel: usize,
    pattern: usize,
)
    requires
        is_candidate(state, channel, pattern),
    ensures
        selected(state, channel) is Some,
{
    let listed = values_of(state.index, channel);
    let best = lemma_best_candidate(state, channel, listed.len() as int);
    let k = choose|k: int| 0 <= k < listed.len() && listed[k] == pattern;
    assert(is_candidate(state, channel, listed[k]));
    let chosen = best->Some_0;
    assert forall|other: usize|
        is_candidate(state, channel, other) && other != chosen implies #[trigger] takes_precedence(
        state,
        chosen,
        other,
    ) by {
        let j = choose|j: int| 0 <= j < listed.len() && listed[j] == other;
        assert(is_candidate(state, channel, listed[j]));
    }
    assert(is_selected(state, channel, chosen));
}

/// A message for which a pattern is ready makes some pattern fire.
pub proof fn law_ready_means_firing<M>(state: CoordinatorState<M>, packet: Packet<M>, pattern: usize) -> (fired:
    usize)
    requires
        ready(state, packet, pattern),
    ensures
        fires(state, packet, fired),
{
    match packet {
        Packet::Message { channel_id, msg } => {
            let stored = store(state, channel_id.value(), msg);
            lemma_candidate_means_selection(stored, channel_id.value(), pattern);
            selected(stored, channel_id.value())->Some_0
        },
        _ => 0,
    }
}

/// The pattern `other` is ahead of `pattern`: it would fire in its place.
pub open spec fn is_ahead<M>(state: CoordinatorState<M>, other: usize, pattern: usize) -> bool {
    other != pattern && takes_precedence(state, other, pattern)
}

/// How many of the patterns with an identity below `bound` are ahead of
/// `pattern`.
pub open spec fn ahead_count<M>(state: CoordinatorState<M>, pattern: usize, bound: nat) -> nat
    decreases bound,
{
    if bound == 0 {
        0
    } else {
        ahead_count(state, pattern, (bound - 1) as nat) + if is_ahead(
            state,
            (bound - 1) as usize,
            pattern,
        ) {
            1nat
        } else {
            0nat
        }
    }
}

/// Where every pattern that is ahead in the second state is ahead in the
/// first, no more patterns are ahead in the second; and fewer are, when
/// `witness` is ahead in the first only.
pub proof fn lemma_ahead_count_shrinks<M>(
    first: CoordinatorState<M>,
    second: CoordinatorState<M>,
    pattern: usize,
    bound: nat,
    witness: usize,
)
    requires
        bound <= usize::MAX,
        forall|other: usize|
            other < bound && #[trigger] is_ahead(second, other, pattern) ==> is_ahead(
                first,
                other,
                pattern,
            ),
    ensures
        ahead_count(second, pattern, bound) <= ahead_count(first, pattern, bound),
        witness < bound && is_ahead(first, witness, pattern) && !is_ahead(second, witness, pattern)
            ==> ahead_count(second, pattern, bound) < ahead_count(first, pattern, bound),
    decreases bound,
{
    if bound > 0 {
        lemma_ahead_count_shrinks(first, second, pattern, (bound - 1) as nat, witness);
        let top = (bound - 1) as usize;
        if is_ahead(second, top, pattern) {
            assert(is_ahead(first, top, pattern));
        }
    }
}

/// A step in which `pattern` does not fire puts no registered pattern
/// ahead of it that was not ahead before.
pub proof fn lemma_step_keeps_behind<M>(
    state: CoordinatorState<M>,
    packet: Packet<M>,
    pattern: usize,
    other: usize,
)
    requires
        well_formed_state(state),
        registered(state, pattern),
        registered(state, other),
        !fires(state, packet, pattern),
        is_ahead(step(state, packet).0, other, pattern),
    ensures
        is_ahead(state, other, pattern),
{
    lemma_precedence_total(state, pattern, other);
    if takes_precedence(state, pattern, other) {
        law_precedence_kept(state, packet, pattern, other);
        lemma_precedence_total(step(state, packet).0, pattern, other);
    }
}

/// An unending sequence of packets, cut after its first `count` packets.
pub open spec fn prefix<M>(stream: spec_fn(nat) -> Packet<M>, count: nat) -> Seq<Packet<M>> {
    Seq::new(count, |i: int| stream(i as nat))
}

/// The state of a new coordinator after the first `count` packets.
pub open spec fn state_at<M>(stream: spec_fn(nat) -> Packet<M>, count: nat) -> CoordinatorState<M> {
    run(initial_state::<M>(), prefix(stream, count))
}

/// The pattern is ready for the packet at position `at`.
pub open spec fn ready_at<M>(stream: spec_fn(nat) -> Packet<M>, at: nat, pattern: usize) -> bool {
    ready(state_at(stream, at), stream(at), pattern)
}

/// The pattern fires on the packet at position `at`.
pub open spec fn fires_at<M>(stream: spec_fn(nat) -> Packet<M>, at: nat, pattern: usize) -> bool {
    fires(state_at(stream, at), stream(at), pattern)
}

/// The pattern is ready at some position from `from` on.
pub open spec fn ready_again<M>(stream: spec_fn(nat) -> Packet<M>, from: nat, pattern: usize) -> bool {
    exists|at: nat| at >= from && #[trigger] ready_at(stream, at, pattern)
}

/// The pattern fires at some position from `from` on.
pub open spec fn fires_again<M>(stream: spec_fn(nat) -> Packet<M>, from: nat, pattern: usize) -> bool {
    exists|at: nat| at >= from && #[trigger] fires_at(stream, at, pattern)
}

/// Every packet of the stream is valid, and from position `quiet_from` on no
/// packet registers a pattern.
pub open spec fn settled<M>(stream: spec_fn(nat) -> Packet<M>, quiet_from: nat) -> bool {
    &&& forall|at: nat| packet_valid(#[trigger] stream(at))
    &&& forall|at: nat|
        at >= quiet_from ==> !(#[trigger] stream(at) is AddJoinPatternRequest)
}

/// The state after one more packet is the step from the state before it.
pub proof fn lemma_state_at_next<M>(stream: spec_fn(nat) -> Packet<M>, at: nat)
    ensures
        state_at(stream, at + 1) == step(state_at(stream, at), stream(at)).0,
{
    let longer = prefix(stream, at + 1);
    assert(longer.drop_last() =~= prefix(stream, at));
    assert(longer.last() == stream(at));
}

/// The state after any number of packets of a settled stream is well
/// formed.
pub proof fn lemma_state_at_well_formed<M>(
    stream: spec_fn(nat) -> Packet<M>,
    quiet_from: nat,
    at: nat,
)
    requires
        settled(stream, quiet_from),
    ensures
        well_formed_state(state_at(stream, at)),
{
    lemma_initial_state_well_formed::<M>();
    let packets = prefix(stream, at);
    assert forall|i: int| 0 <= i < packets.len() implies packet_valid(#[trigger] packets[i]) by {
        assert(packets[i] == stream(i as nat));
    }
    lemma_run_well_formed(initial_state::<M>(), packets);
}

/// Once no pattern is registered any more, the registered patterns stay the
/// same.
pub proof fn lemma_registry_settled<M>(
    stream: spec_fn(nat) -> Packet<M>,
    quiet_from: nat,
    at: nat,
)
    requires
        settled(stream, quiet_from),
        at >= quiet_from,
    ensures
        state_at(stream, at).next_pattern == state_at(stream, quiet_from).next_pattern,
    decreases at,
{
    if at > quiet_from {
        let before = (at - 1) as nat;
        lemma_registry_settled(stream, quiet_from, before);
        lemma_state_at_next(stream, before);
        assert(!(stream(before) is AddJoinPatternRequest));
    }
}

/// Between two positions of a settled stream, either the pattern fires, or
/// at the second position no more patterns are ahead of it than at the
/// first.
pub proof fn lemma_wait<M>(
    stream: spec_fn(nat) -> Packet<M>,
    quiet_from: nat,
    pattern: usize,
    start: nat,
    end: nat,
) -> (fired_at: Option<nat>)
    requires
        settled(stream, quiet_from),
        quiet_from <= start <= end,
        registered(state_at(stream, start), pattern),
    ensures
        match fired_at {
            Some(at) => start <= at < end && fires_at(stream, at, pattern),
            None => ahead_count(
                state_at(stream, end),
                pattern,
                state_at(stream, quiet_from).next_pattern as nat,
            ) <= ahead_count(
                state_at(stream, start),
                pattern,
                state_at(stream, quiet_from).next_pattern as nat,
            ),
        },
    decreases end - start,
{
    if end == start {
        None
    } else {
        let before = (end - 1) as nat;
        let earlier_firing = lemma_wait(stream, quiet_from, pattern, start, before);
        if earlier_firing is Some {
            earlier_firing
        } else if fires_at(stream, before, pattern) {
            Some(before)
        } else {
            let bound = state_at(stream, quiet_from).next_pattern as nat;
            let first = state_at(stream, before);
            let second = state_at(stream, end);
            lemma_state_at_next(stream, before);
            lemma_state_at_well_formed(stream, quiet_from, before);
            lemma_registry_settled(stream, quiet_from, before);
            lemma_registry_settled(stream, quiet_from, start);
            assert forall|other: usize|
                other < bound && #[trigger] is_ahead(second, other, pattern) implies is_ahead(
                first,
                other,
                pattern,
            ) by {
                lemma_step_keeps_behind(first, stream(before), pattern, other);
            }
            lemma_ahead_count_shrinks(first, second, pattern, bound, 0);
            None
        }
    }
}

/// In a settled stream, a pattern that is registered and will be ready
/// again and again fires at some position from `start` on. `budget` bounds
/// the number of patterns that are ahead of it.
pub proof fn lemma_fires_within<M>(
    stream: spec_fn(nat) -> Packet<M>,
    quiet_from: nat,
    pattern: usize,
    start: nat,
    budget: nat,
) -> (at: nat)
    requires
        settled(stream, quiet_from),
        forall|from: nat| #[trigger] ready_again(stream, from, pattern),
        quiet_from <= start,
        registered(state_at(stream, start), pattern),
        ahead_count(
            state_at(stream, start),
            pattern,
            state_at(stream, quiet_from).next_pattern as nat,
        ) <= budget,
    ensures
        at >= start,
        fires_at(stream, at, pattern),
    decreases budget,
{
    let bound = state_at(stream, quiet_from).next_pattern as nat;
    assert(ready_again(stream, start, pattern));
    let next = choose|next: nat| next >= start && #[trigger] ready_at(stream, next, pattern);
    let waited = lemma_wait(stream, quiet_from, pattern, start, next);
    if let Some(at) = waited {
        at
    } else {
        let state = state_at(stream, next);
        let packet = stream(next);
        let fired = law_ready_means_firing(state, packet, pattern);
        if fired == pattern {
            next
        } else {
            let after = state_at(stream, next + 1);
            lemma_state_at_next(stream, next);
            lemma_state_at_well_formed(stream, quiet_from, next);
            lemma_registry_settled(stream, quiet_from, next);
            lemma_registry_settled(stream, quiet_from, start);
            lemma_registry_settled(stream, quiet_from, next + 1);
            law_fired_takes_precedence(state, packet, fired, pattern);
            assert(registered(state, fired)) by {
                match packet {
                    Packet::Message { channel_id, msg } => {
                        let stored = store(state, channel_id.value(), msg);
                        lemma_store_well_formed(state, channel_id.value(), msg);
                        assert(is_selected(stored, channel_id.value(), fired));
                        assert(stored.patterns.contains_key(fired));
                    },
                    _ => {},
                }
            }
            law_fired_falls_behind(state, packet, fired, pattern);
            lemma_precedence_total(after, pattern, fired);
            assert forall|other: usize|
                other < bound && #[trigger] is_ahead(after, other, pattern) implies is_ahead(
                state,
                other,
                pattern,
            ) by {
                lemma_step_keeps_behind(state, packet, pattern, other);
            }
            lemma_ahead_count_shrinks(state, after, pattern, bound, fired);
            lemma_fires_within(stream, quiet_from, pattern, next + 1, (budget - 1) as nat)
        }
    }
}

/// Fairness. In an unending run in which patterns are registered only up
/// to some point, a pattern that is ready again and again fires again and
/// again.
pub proof fn law_fairness<M>(
    stream: spec_fn(nat) -> Packet<M>,
    quiet_from: nat,
    pattern: usize,
    from: nat,
)
    requires
        settled(stream, quiet_from),
        forall|from: nat| #[trigger] ready_again(stream, from, pattern),
    ensures
        fires_again(stream, from, pattern),
{
    let later = if from >= quiet_from {
        from
    } else {
        quiet_from
    };
    assert(ready_again(stream, later, pattern));
    let start = choose|start: nat| start >= later && #[trigger] ready_at(stream, start, pattern);
    lemma_state_at_well_formed(stream, quiet_from, start);
    assert(registered(state_at(stream, start), pattern)) by {
        let state = state_at(stream, start);
        match stream(start) {
            Packet::Message { channel_id, msg } => {
                let stored = store(state, channel_id.value(), msg);
                assert(stored.patterns.contains_key(pattern));
            },
            _ => {},
        }
    }
    let budget = ahead_count(
        state_at(stream, start),
        pattern,
        state_at(stream, quiet_from).next_pattern as nat,
    );
    let at = lemma_fires_within(stream, quiet_from, pattern, start, budget);
    assert(at >= from && fires_at(stream, at, pattern));
}

} // verus!
