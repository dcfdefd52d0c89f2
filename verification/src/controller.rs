//! The coordinator of a junction. It mints identities, keeps the messages
//! that wait and the patterns that were registered, and decides on every
//! message which pattern fires.

use vstd::prelude::*;
use core::cmp::Ordering;
use std::collections::HashMap;
use crate::bag::{queue_of, Bag};
use crate::counter::Counter;
use crate::ids::{ChannelId, JoinPatternId};
use crate::inverted_index::{values_of, InvertedIndex};
use crate::model::{
    compare_stamps, consume, consumed, effect_of, effects, fire, index_with, initial_state,
    is_candidate, is_selected, keys_of, lemma_alive_step, lemma_effects_len,
    lemma_initial_state_well_formed, lemma_precedence_total, lemma_precedence_transitive,
    lemma_selected_unique, pattern_alive, register, registered, run, selected, step,
    step_message, store, takes_precedence, well_formed_state, ControlError, CoordinatorState,
    Packet, Reply,
};
use crate::patterns::{alive, channel_keys, JoinPattern};
use crate::preservation::{
    lemma_fire_well_formed, lemma_register_well_formed, lemma_selected_registered,
    lemma_step_well_formed, lemma_store_well_formed,
};

verus! {

/// The digits of the counter at a pattern's last firing, if it ever fired.
pub open spec fn stamp_view(stamp: Option<Counter>) -> Option<Seq<u64>> {
    match stamp {
        Some(counter) => Some(counter@),
        None => None,
    }
}

/// The coordinator of one junction.
pub struct Controller<M> {
    running: bool,
    latest_channel_id: ChannelId,
    latest_join_pattern_id: JoinPatternId,
    /// How many messages have arrived.
    message_counter: Counter,
    /// The messages that wait, by channel.
    messages: Bag<usize, M>,
    /// The registered patterns.
    join_patterns: HashMap<usize, JoinPattern>,
    /// For each pattern the message count at which it last fired.
    join_pattern_last_fired: HashMap<usize, Option<Counter>>,
    /// For each channel the patterns that list it.
    join_pattern_index: InvertedIndex<usize, usize>,
}

impl<M> View for Controller<M> {
    type V = CoordinatorState<M>;

    closed spec fn view(&self) -> CoordinatorState<M> {
        CoordinatorState {
            running: self.running,
            next_channel: self.latest_channel_id.value(),
            next_pattern: self.latest_join_pattern_id.value(),
            clock: self.message_counter@,
            inventory: self.messages@,
            patterns: Map::new(
                |pattern: usize| self.join_patterns@.contains_key(pattern),
                |pattern: usize| self.join_patterns@[pattern]@,
            ),
            last_fired: Map::new(
                |pattern: usize| self.join_pattern_last_fired@.contains_key(pattern),
                |pattern: usize| stamp_view(self.join_pattern_last_fired@[pattern]),
            ),
            index: self.join_pattern_index@,
        }
    }
}

impl<M> Controller<M> {
    /// What holds of a coordinator at all times.
    pub open spec fn wf(&self) -> bool {
        well_formed_state(self@)
    }

    /// A coordinator that runs, with nothing registered and nothing waiting.
    pub fn new() -> (controller: Controller<M>)
        ensures
            controller@ == initial_state::<M>(),
            controller.wf(),
    {
        let controller = Controller {
            running: true,
            latest_channel_id: ChannelId::default(),
            latest_join_pattern_id: JoinPatternId::default(),
            message_counter: Counter::default(),
            messages: Bag::new(),
            join_patterns: HashMap::new(),
            join_pattern_last_fired: HashMap::new(),
            join_pattern_index: InvertedIndex::new(),
        };
        proof {
            lemma_initial_state_well_formed::<M>();
            assert(controller@.patterns =~= Map::empty());
            assert(controller@.last_fired =~= Map::empty());
        }
        controller
    }

    /// A coordinator like a new one, but for the identity that its first
    /// channel gets.
    pub fn with_first_channel_id(first: ChannelId) -> (controller: Controller<M>)
        ensures
            controller@ == (CoordinatorState {
                next_channel: first.value(),
                ..initial_state::<M>()
            }),
            controller.wf(),
    {
        let mut controller = Controller::new();
        controller.latest_channel_id = first;
        proof {
            lemma_initial_state_well_formed::<M>();
            assert(controller@.patterns =~= Map::empty());
            assert(controller@.last_fired =~= Map::empty());
        }
        controller
    }

    /// Whether the coordinator still accepts packets.
    pub fn is_running(&self) -> (running: bool)
        ensures
            running == self@.running,
    {
        self.running
    }

    /// How many messages wait on the channel.
    pub fn pending(&self, channel_id: ChannelId) -> (count: usize)
        ensures
            count == queue_of(self@.inventory, channel_id.value()).len(),
    {
        let channel: usize = channel_id.to_usize();
        self.messages.count_items(&channel)
    }

    /// Mint the identity of a new channel.
    fn new_channel_id(&mut self) -> (channel_id: ChannelId)
        requires
            old(self)@.next_channel < usize::MAX,
        ensures
            channel_id.value() == old(self)@.next_channel,
            final(self)@ == (CoordinatorState {
                next_channel: (old(self)@.next_channel + 1) as usize,
                ..old(self)@
            }),
    {
        let channel_id = self.latest_channel_id;
        self.latest_channel_id.increment();
        channel_id
    }

    /// Mint the identity of a new pattern.
    fn new_join_pattern_id(&mut self) -> (pattern_id: JoinPatternId)
        requires
            old(self)@.next_pattern < usize::MAX,
        ensures
            pattern_id.value() == old(self)@.next_pattern,
            final(self)@ == (CoordinatorState {
                next_pattern: (old(self)@.next_pattern + 1) as usize,
                ..old(self)@
            }),
    {
        let pattern_id = self.latest_join_pattern_id;
        self.latest_join_pattern_id.increment();
        pattern_id
    }

    /// Record that the pattern has not fired yet.
    fn initialize_last_fired(&mut self, join_pattern_id: JoinPatternId)
        ensures
            final(self)@ == (CoordinatorState {
                last_fired: old(self)@.last_fired.insert(join_pattern_id.value(), None),
                ..old(self)@
            }),
    {
        self.join_pattern_last_fired.insert(join_pattern_id.to_usize(), None);
        assert(self@.last_fired =~= old(self)@.last_fired.insert(join_pattern_id.value(), None));
    }

    /// Record that the pattern fired at the current message count.
    fn reset_last_fired(&mut self, join_pattern_id: JoinPatternId)
        ensures
            final(self)@ == (CoordinatorState {
                last_fired: old(self)@.last_fired.insert(
                    join_pattern_id.value(),
                    Some(old(self)@.clock),
                ),
                ..old(self)@
            }),
    {
        let now = self.message_counter.clone();
        self.join_pattern_last_fired.insert(join_pattern_id.to_usize(), Some(now));
        assert(self@.last_fired =~= old(self)@.last_fired.insert(
            join_pattern_id.value(),
            Some(old(self)@.clock),
        ));
    }

    /// Store the pattern under `join_pattern_id` and enter it in the index
    /// under each channel that it lists.
    fn insert_join_pattern(&mut self, join_pattern_id: JoinPatternId, join_pattern: JoinPattern)
        ensures
            final(self)@ == (CoordinatorState {
                patterns: old(self)@.patterns.insert(join_pattern_id.value(), join_pattern@),
                index: index_with(
                    old(self)@.index,
                    channel_keys(join_pattern@),
                    join_pattern_id.value(),
                ),
                ..old(self)@
            }),
    {
        let pattern: usize = join_pattern_id.to_usize();
        let channels = join_pattern.channels();
        let ghost keys = channel_keys(join_pattern@);
        let mut i: usize = 0;
        assert(keys.skip(0) =~= keys);
        while i < channels.len()
            invariant
                i <= channels@.len(),
                channels@.len() == keys.len(),
                forall|j: int| 0 <= j < channels@.len() ==> (#[trigger] channels@[j]).value() == keys[j],
                index_with(old(self)@.index, keys, pattern) == index_with(
                    self.join_pattern_index@,
                    keys.skip(i as int),
                    pattern,
                ),
                self.running == old(self).running,
                self.latest_channel_id == old(self).latest_channel_id,
                self.latest_join_pattern_id == old(self).latest_join_pattern_id,
                self.message_counter == old(self).message_counter,
                self.messages == old(self).messages,
                self.join_patterns == old(self).join_patterns,
                self.join_pattern_last_fired == old(self).join_pattern_last_fired,
            decreases channels@.len() - i,
        {
            proof {
                assert(keys.skip(i as int).drop_first() =~= keys.skip(i + 1));
            }
            self.join_pattern_index.insert_single(channels[i].to_usize(), pattern);
            i += 1;
        }
        self.join_patterns.insert(pattern, join_pattern);
        proof {
            assert(keys.skip(keys.len() as int) =~= Seq::<usize>::empty());
            assert(self@.patterns =~= old(self)@.patterns.insert(pattern, join_pattern@));
        }
    }

    /// Register the pattern under the next pattern identity.
    fn handle_add_join_pattern_request(&mut self, join_pattern: JoinPattern) -> (pattern_id:
        JoinPatternId)
        requires
            old(self).wf(),
            old(self)@.next_pattern < usize::MAX,
        ensures
            pattern_id.value() == old(self)@.next_pattern,
            final(self)@ == register(old(self)@, join_pattern@),
            final(self).wf(),
    {
        proof {
            use_type_invariant(&join_pattern);
            lemma_register_well_formed(self@, join_pattern@);
        }
        let pattern_id = self.new_join_pattern_id();
        self.initialize_last_fired(pattern_id);
        self.insert_join_pattern(pattern_id, join_pattern);
        pattern_id
    }

    /// Answer a request for a new channel identity.
    fn handle_new_channel_id_request(&mut self) -> (channel_id: ChannelId)
        requires
            old(self).wf(),
            old(self)@.next_channel < usize::MAX,
        ensures
            channel_id.value() == old(self)@.next_channel,
            final(self)@ == (CoordinatorState {
                next_channel: (old(self)@.next_channel + 1) as usize,
                ..old(self)@
            }),
            final(self).wf(),
    {
        proof {
            lemma_step_well_formed(self@, Packet::<M>::NewChannelIdRequest);
        }
        self.new_channel_id()
    }

    /// The patterns that list the channel, in the order of their entry;
    /// `None` where no pattern ever listed it.
    fn relevant_join_patterns(&self, channel_id: ChannelId) -> (patterns: Option<&Vec<usize>>)
        ensures
            match patterns {
                Some(listed) => self@.index.contains_key(channel_id.value()) && listed@
                    == self@.index[channel_id.value()],
                None => !self@.index.contains_key(channel_id.value()),
            },
    {
        let channel: usize = channel_id.to_usize();
        self.join_pattern_index.peek_all(&channel)
    }

    /// Whether the pattern is registered and alive.
    pub fn is_alive(&self, join_pattern_id: JoinPatternId) -> (is_alive: bool)
        ensures
            is_alive == pattern_alive(self@, join_pattern_id.value()),
    {
        let pattern: usize = join_pattern_id.to_usize();
        match self.join_patterns.get(&pattern) {
            Some(join_pattern) => join_pattern.is_alive(&self.messages),
            None => false,
        }
    }

    /// Those of the given patterns that are alive, in the given order.
    fn alive_join_patterns(&self, join_pattern_ids: &Vec<usize>) -> (alive_ids: Vec<usize>)
        ensures
            alive_ids@ == join_pattern_ids@.filter(
                |pattern: usize| pattern_alive(self@, pattern),
            ),
    {
        let ghost is_alive = |pattern: usize| pattern_alive(self@, pattern);
        let mut alive_ids: Vec<usize> = Vec::new();
        let mut i: usize = 0;
        proof {
            reveal(Seq::filter);
            assert(join_pattern_ids@.take(0) =~= Seq::<usize>::empty());
        }
        while i < join_pattern_ids.len()
            invariant
                i <= join_pattern_ids@.len(),
                is_alive == |pattern: usize| pattern_alive(self@, pattern),
                alive_ids@ == join_pattern_ids@.take(i as int).filter(is_alive),
            decreases join_pattern_ids@.len() - i,
        {
            let pattern: usize = join_pattern_ids[i];
            proof {
                reveal(Seq::filter);
                let next = join_pattern_ids@.take(i + 1);
                assert(next.drop_last() =~= join_pattern_ids@.take(i as int));
                assert(next.last() == pattern);
            }
            if self.is_alive(JoinPatternId::from_usize(pattern)) {
                alive_ids.push(pattern);
            }
            i += 1;
        }
        assert(join_pattern_ids@.take(join_pattern_ids@.len() as int) =~= join_pattern_ids@);
        alive_ids
    }

    /// Take one message from each channel that the pattern lists, in the
    /// order of its list, and hand them out in that order.
    fn fire_join_pattern(&mut self, join_pattern_id: JoinPatternId) -> (messages: Vec<M>)
        requires
            pattern_alive(old(self)@, join_pattern_id.value()),
        ensures
            messages@ == consumed(
                old(self)@.inventory,
                keys_of(old(self)@, join_pattern_id.value()),
            ),
            final(self)@ == (CoordinatorState {
                inventory: consume(
                    old(self)@.inventory,
                    keys_of(old(self)@, join_pattern_id.value()),
                ),
                ..old(self)@
            }),
    {
        let pattern: usize = join_pattern_id.to_usize();
        let ghost keys = keys_of(self@, pattern);
        let ghost before = self@.inventory;
        let channels = match self.join_patterns.get(&pattern) {
            Some(join_pattern) => join_pattern.channels(),
            None => Vec::new(),
        };
        let mut messages: Vec<M> = Vec::new();
        let mut i: usize = 0;
        proof {
            assert(keys.skip(0) =~= keys);
        }
        while i < channels.len()
            invariant
                i <= channels@.len(),
                channels@.len() == keys.len(),
                forall|j: int|
                    0 <= j < channels@.len() ==> (#[trigger] channels@[j]).value() == keys[j],
                alive(self.messages@, keys.skip(i as int)),
                consume(before, keys) == consume(self.messages@, keys.skip(i as int)),
                consumed(before, keys) == messages@ + consumed(
                    self.messages@,
                    keys.skip(i as int),
                ),
                self.running == old(self).running,
                self.latest_channel_id == old(self).latest_channel_id,
                self.latest_join_pattern_id == old(self).latest_join_pattern_id,
                self.message_counter == old(self).message_counter,
                self.join_patterns == old(self).join_patterns,
                self.join_pattern_last_fired == old(self).join_pattern_last_fired,
                self.join_pattern_index == old(self).join_pattern_index,
            decreases channels@.len() - i,
        {
            let ghost rest = keys.skip(i as int);
            let ghost queues = self.messages@;
            let ghost taken = messages@;
            proof {
                lemma_alive_step(queues, rest);
                assert(rest.drop_first() =~= keys.skip(i + 1));
                assert(rest[0] == keys[i as int]);
            }
            let channel: usize = channels[i].to_usize();
            match self.messages.retrieve(&channel) {
                Some(message) => {
                    messages.push(message);
                },
                None => {},
            }
            proof {
                assert(messages@ + consumed(self.messages@, keys.skip(i + 1)) =~= taken
                    + consumed(queues, rest));
            }
            i += 1;
        }
        proof {
            assert(keys.skip(keys.len() as int) =~= Seq::<usize>::empty());
            assert(messages@ + Seq::<M>::empty() =~= messages@);
        }
        messages
    }

    /// Compare the last firings of two registered patterns. A pattern that
    /// never fired comes before one that did; two that never fired are equal.
    fn compare_last_fired(&self, jp_id_1: JoinPatternId, jp_id_2: JoinPatternId) -> (order:
        Ordering)
        requires
            self@.last_fired.contains_key(jp_id_1.value()),
            self@.last_fired.contains_key(jp_id_2.value()),
        ensures
            order == compare_stamps(
                self@.last_fired[jp_id_1.value()],
                self@.last_fired[jp_id_2.value()],
            ),
    {
        let first: usize = jp_id_1.to_usize();
        let second: usize = jp_id_2.to_usize();
        let last_fired_1 = self.join_pattern_last_fired.get(&first).unwrap();
        let last_fired_2 = self.join_pattern_last_fired.get(&second).unwrap();
        match (last_fired_1, last_fired_2) {
            (None, None) => Ordering::Equal,
            (None, Some(_)) => Ordering::Less,
            (Some(_), None) => Ordering::Greater,
            (Some(a), Some(b)) => {
                proof {
                    Counter::lemma_equal_iff_same_digits(a@, b@);
                }
                a.cmp(b)
            },
        }
    }

    /// Among the given patterns, the one that takes precedence over all the
    /// others: the one that fired longest ago, and among those that fired at
    /// the same time or never, the one registered first.
    fn select_to_fire(&self, alive_jp_ids: &Vec<usize>) -> (choice: Option<JoinPatternId>)
        requires
            forall|i: int|
                0 <= i < alive_jp_ids@.len() ==> self@.last_fired.contains_key(
                    #[trigger] alive_jp_ids@[i],
                ),
        ensures
            choice is None <==> alive_jp_ids@.len() == 0,
            choice matches Some(pattern_id) ==> {
                &&& alive_jp_ids@.contains(pattern_id.value())
                &&& forall|i: int|
                    0 <= i < alive_jp_ids@.len() && alive_jp_ids@[i] != pattern_id.value()
                        ==> takes_precedence(self@, pattern_id.value(), #[trigger] alive_jp_ids@[i])
            },
    {
        if alive_jp_ids.len() == 0 {
            return None;
        }
        let mut best: usize = alive_jp_ids[0];
        let mut i: usize = 1;
        while i < alive_jp_ids.len()
            invariant
                1 <= i <= alive_jp_ids@.len(),
                alive_jp_ids@.contains(best),
                self@.last_fired.contains_key(best),
                forall|j: int|
                    0 <= j < alive_jp_ids@.len() ==> self@.last_fired.contains_key(
                        #[trigger] alive_jp_ids@[j],
                    ),
                forall|j: int|
                    0 <= j < i && alive_jp_ids@[j] != best ==> takes_precedence(
                        self@,
                        best,
                        #[trigger] alive_jp_ids@[j],
                    ),
            decreases alive_jp_ids@.len() - i,
        {
            let next: usize = alive_jp_ids[i];
            let order = self.compare_last_fired(
                JoinPatternId::from_usize(next),
                JoinPatternId::from_usize(best),
            );
            let better = match order {
                Ordering::Less => true,
                Ordering::Equal => next < best,
                Ordering::Greater => false,
            };
            proof {
                lemma_precedence_total(self@, next, best);
            }
            if better {
                proof {
                    assert forall|j: int|
                        0 <= j < i + 1 && alive_jp_ids@[j] != next implies takes_precedence(
                        self@,
                        next,
                        #[trigger] alive_jp_ids@[j],
                    ) by {
                        if alive_jp_ids@[j] != best {
                            lemma_precedence_transitive(self@, next, best, alive_jp_ids@[j]);
                        }
                    }
                }
                best = next;
            }
            i += 1;
        }
        Some(JoinPatternId::from_usize(best))
    }

    /// Fire a pattern for a message that has just been stored on the
    /// channel, if any pattern that lists the channel is alive: the one that
    /// takes precedence fires, and its last firing is set to now.
    pub fn handle_join_pattern_firing(&mut self, channel_id: ChannelId) -> (fired: Option<
        (JoinPatternId, Vec<M>),
    >)
        requires
            old(self).wf(),
        ensures
            match selected(old(self)@, channel_id.value()) {
                Some(pattern) => {
                    &&& fired matches Some((pattern_id, messages))
                    &&& pattern_id.value() == pattern
                    &&& messages@ == consumed(old(self)@.inventory, keys_of(old(self)@, pattern))
                    &&& final(self)@ == fire(old(self)@, pattern)
                },
                None => fired is None && final(self)@ == old(self)@,
            },
            final(self).wf(),
    {
        proof {
            lemma_selected_registered(self@, channel_id.value());
            if let Some(pattern) = selected(self@, channel_id.value()) {
                lemma_fire_well_formed(self@, pattern);
            }
        }
        let ghost channel = channel_id.value();
        let ghost state = self@;
        let ghost is_alive = |pattern: usize| pattern_alive(state, pattern);
        let mut alive_join_patterns: Vec<usize> = Vec::new();
        proof {
            reveal(Seq::filter);
            assert(Seq::<usize>::empty().filter(is_alive) =~= Seq::<usize>::empty());
        }
        if let Some(jp_ids) = self.relevant_join_patterns(channel_id) {
            alive_join_patterns = self.alive_join_patterns(jp_ids);
        }
        let ghost listed = values_of(state.index, channel);
        proof {
            broadcast use vstd::seq_lib::group_filter_ensures;

            assert(alive_join_patterns@ == listed.filter(is_alive));
            assert forall|pattern: usize|
                alive_join_patterns@.contains(pattern) <==> is_candidate(
                    state,
                    channel,
                    pattern,
                ) by {
                if alive_join_patterns@.contains(pattern) {
                    listed.lemma_filter_contains_rev(is_alive, pattern);
                }
                if is_candidate(state, channel, pattern) {
                    let k = choose|k: int| 0 <= k < listed.len() && listed[k] == pattern;
                    listed.lemma_filter_contains(is_alive, k);
                }
            }
        }
        match self.select_to_fire(&alive_join_patterns) {
            Some(jp_id_to_fire) => {
                proof {
                    let chosen = jp_id_to_fire.value();
                    assert forall|other: usize|
                        is_candidate(state, channel, other) && other
                            != chosen implies #[trigger] takes_precedence(state, chosen, other) by {
                        assert(alive_join_patterns@.contains(other));
                        let k = choose|k: int|
                            0 <= k < alive_join_patterns@.len() && alive_join_patterns@[k]
                                == other;
                        assert(alive_join_patterns@[k] != chosen);
                    }
                    assert(is_selected(state, channel, jp_id_to_fire.value()));
                    lemma_selected_unique(state, channel, jp_id_to_fire.value());
                }
                let messages = self.fire_join_pattern(jp_id_to_fire);
                self.reset_last_fired(jp_id_to_fire);
                Some((jp_id_to_fire, messages))
            },
            None => {
                proof {
                    assert forall|pattern: usize| !is_selected(state, channel, pattern) by {
                        assert(!alive_join_patterns@.contains(pattern));
                    }
                }
                None
            },
        }
    }

    /// Store a message that arrived on the channel, count it, and fire the
    /// pattern that it makes ready, if there is one.
    pub fn handle_message(&mut self, channel_id: ChannelId, msg: M) -> (reply: Reply<M>)
        requires
            old(self).wf(),
        ensures
            final(self)@ == step_message(old(self)@, channel_id.value(), msg).0,
            effect_of(Ok(reply)) == step_message(old(self)@, channel_id.value(), msg).1,
            final(self).wf(),
    {
        proof {
            lemma_store_well_formed(self@, channel_id.value(), msg);
        }
        self.messages.add(channel_id.to_usize(), msg);
        self.message_counter.increment();
        assert(self@ == store(old(self)@, channel_id.value(), msg));
        match self.handle_join_pattern_firing(channel_id) {
            Some((pattern_id, messages)) => Reply::Fired { pattern_id, messages },
            None => Reply::Stored,
        }
    }

    /// Stop accepting packets.
    pub fn shut_down(&mut self)
        requires
            old(self).wf(),
        ensures
            final(self)@ == (CoordinatorState { running: false, ..old(self)@ }),
            final(self).wf(),
    {
        proof {
            if self@.running {
                lemma_step_well_formed(self@, Packet::<M>::ShutDownRequest);
            } else {
                assert(self@ == (CoordinatorState { running: false, ..self@ }));
            }
        }
        self.running = false;
    }

    /// Handle one packet: the state moves as `step` says, and the answer
    /// stands for the effect that `step` names. A stopped coordinator
    /// refuses every packet; a coordinator that has handed out its last
    /// identity refuses to mint another.
    pub fn handle_packet(&mut self, packet: Packet<M>) -> (answer: Result<Reply<M>, ControlError>)
        requires
            old(self).wf(),
        ensures
            final(self)@ == step(old(self)@, packet).0,
            effect_of(answer) == step(old(self)@, packet).1,
            final(self).wf(),
    {
        if !self.running {
            return Err(ControlError::PostAfterShutdown);
        }
        match packet {
            Packet::Message { channel_id, msg } => Ok(self.handle_message(channel_id, msg)),
            Packet::NewChannelIdRequest => {
                if self.latest_channel_id.to_usize() == usize::MAX {
                    Err(ControlError::IdentitiesExhausted)
                } else {
                    let channel_id = self.handle_new_channel_id_request();
                    Ok(Reply::NewChannelId { channel_id })
                }
            },
            Packet::AddJoinPatternRequest { join_pattern } => {
                if self.latest_join_pattern_id.to_usize() == usize::MAX {
                    Err(ControlError::IdentitiesExhausted)
                } else {
                    let pattern_id = self.handle_add_join_pattern_request(join_pattern);
                    Ok(Reply::Registered { pattern_id })
                }
            },
            Packet::ShutDownRequest => {
                self.shut_down();
                Ok(Reply::ShutDown)
            },
        }
    }

    /// Handle the packets one after another and collect the answers.
    pub fn handle_packets(&mut self, packets: Vec<Packet<M>>) -> (answers: Vec<
        Result<Reply<M>, ControlError>,
    >)
        requires
            old(self).wf(),
        ensures
            final(self)@ == run(old(self)@, packets@),
            answers@.len() == packets@.len(),
            forall|i: int|
                0 <= i < answers@.len() ==> effect_of(#[trigger] answers@[i]) == effects(
                    old(self)@,
                    packets@,
                )[i],
            final(self).wf(),
    {
        let ghost all = packets@;
        let ghost start = self@;
        let n: usize = packets.len();
        let mut packets = packets;
        let mut answers: Vec<Result<Reply<M>, ControlError>> = Vec::new();
        let mut i: usize = 0;
        proof {
            assert(all.take(0) =~= Seq::<Packet<M>>::empty());
            lemma_effects_len(start, all);
        }
        while i < n
            invariant
                i <= n,
                self.wf(),
                packets@.len() == n - i,
                all.len() == n,
                packets@ == all.skip(i as int),
                self@ == run(start, all.take(i as int)),
                answers@.len() == i,
                forall|j: int|
                    0 <= j < i ==> effect_of(#[trigger] answers@[j]) == effects(
                        start,
                        all.take(i as int),
                    )[j],
            decreases n - i,
        {
            let ghost done = all.take(i as int);
            let ghost now = self@;
            let packet = packets.remove(0);
            proof {
                assert(packet == all[i as int]);
                assert(packets@ =~= all.skip(i + 1));
                assert(all.take(i + 1).drop_last() =~= done);
                assert(all.take(i + 1).last() == packet);
            }
            let answer = self.handle_packet(packet);
            answers.push(answer);
            proof {
                let next = all.take(i + 1);
                lemma_effects_len(start, done);
                assert(effects(start, next) == effects(start, done).push(step(now, packet).1));
                assert forall|j: int| 0 <= j < i + 1 implies effect_of(#[trigger] answers@[j])
                    == effects(start, next)[j] by {
                    if j < i {
                        assert(effects(start, next)[j] == effects(start, done)[j]);
                    }
                }
            }
            i += 1;
        }
        proof {
            assert(all.take(n as int) =~= all);
            lemma_effects_len(start, all);
        }
        answers
    }
}

} // verus!
