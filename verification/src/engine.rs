//! The engine: one event transition at a time, and the run to a horizon.

use crate::dynamics::{spec_after_birth, spec_source};
use crate::index::{spec_neighbors, spec_purged};
use crate::individual::EFFECT_MAX;
use crate::population::{Checkpoint, Population, SimError};
use crate::scheduler::{spec_sum, spec_waiting_time, waiting_time, Channel, Choice};
use crate::species::Event;
use vstd::prelude::*;

verus! {

/// What one step came to.
#[derive(Clone, Debug)]
pub enum Step {
    /// The total rate is zero: no event is possible any more.
    Exhausted,
    /// An event was executed: its kind, the checkpoint taken after it and
    /// the total rate under which it was chosen.
    Fired(Event, Checkpoint, u64),
}

/// The random input that one step of a run consumes besides the
/// generator's: two standard normal deviates, which place a child, and one
/// positive standard exponential deviate, which sets the waiting time. All
/// three are in fixed point.
#[derive(Clone, Copy, Debug)]
pub struct Noise {
    pub jitter_x: i64,
    pub jitter_y: i64,
    pub wait: u64,
}

/// Where a run stands.
#[derive(Clone, Copy, Debug, PartialEq, Eq, Structural)]
pub enum RunState {
    /// No event has been executed yet and the horizon lies ahead.
    Initialized,
    /// Events have been executed, the horizon is not reached and more may
    /// follow.
    Running,
    /// The total rate fell to zero before the horizon.
    Exhausted,
    /// The clock has reached the horizon.
    Complete,
}

/// How a run ended and how many births and deaths it executed.
#[derive(Clone, Copy, Debug)]
pub struct RunReport {
    pub state: RunState,
    pub births: usize,
    pub deaths: usize,
}

/// The size of a population after one event.
pub open spec fn spec_size_after(size: int, event: Event) -> int {
    match event {
        Event::Birth => size + 1,
        Event::Death => size - 1,
    }
}

/// The books balance: `births` births and `deaths` deaths, one checkpoint
/// appended for each, lead from the size `before` to the size `after`.
pub open spec fn spec_balanced(
    before: int,
    after: int,
    appended: int,
    births: int,
    deaths: int,
) -> bool {
    &&& births >= 0
    &&& deaths >= 0
    &&& births + deaths == appended
    &&& after == before + births - deaths
}

/// Link `k` of a trail: the population at `k` stood before the horizon and
/// the next came from it by one event of a run under entry `k` of the noise.
pub open spec fn spec_link(trail: Seq<Population>, noise: Seq<Noise>, max_t: u64, k: int) -> bool {
    trail[k].t < max_t && trail[k + 1].advanced_from(trail[k], noise[k])
}

/// The size of a population after a sequence of events.
pub open spec fn spec_replay(size: int, events: Seq<Event>) -> int
    decreases events.len(),
{
    if events.len() == 0 {
        size
    } else {
        spec_size_after(spec_replay(size, events.drop_last()), events.last())
    }
}

/// How many events of a sequence are of the given kind.
pub open spec fn spec_count(events: Seq<Event>, kind: Event) -> int
    decreases events.len(),
{
    if events.len() == 0 {
        0
    } else {
        spec_count(events.drop_last(), kind) + if events.last() == kind {
            1int
        } else {
            0int
        }
    }
}

/// After any sequence of births and deaths the size is the initial size
/// plus the number of births minus the number of deaths.
pub proof fn lemma_bookkeeping(size: int, events: Seq<Event>)
    ensures
        spec_replay(size, events) == size + spec_count(events, Event::Birth) - spec_count(
            events,
            Event::Death,
        ),
    decreases events.len(),
{
    if events.len() > 0 {
        lemma_bookkeeping(size, events.drop_last());
    }
}

/// Along any sequence of populations in which each comes from the one
/// before by one birth or one death, the size of the last is the size of
/// the first plus the number of births minus the number of deaths; it
/// counts the live individuals, and no more died than ever lived.
pub proof fn lemma_bookkeeping_along(trace: Seq<Population>, events: Seq<Event>)
    requires
        trace.len() == events.len() + 1,
        forall|k: int| 0 <= k < trace.len() ==> (#[trigger] trace[k]).wf(),
        forall|k: int|
            0 <= k < events.len() ==> (#[trigger] trace[k + 1]).size == spec_size_after(
                trace[k].size as int,
                events[k],
            ),
    ensures
        trace.last().size == trace[0].size + spec_count(events, Event::Birth) - spec_count(
            events,
            Event::Death,
        ),
        trace.last().size == trace.last().individuals@.len(),
        spec_count(events, Event::Death) <= trace[0].size + spec_count(events, Event::Birth),
        trace.last().size == spec_replay(trace[0].size as int, events),
    decreases events.len(),
{
    assert(trace[trace.len() - 1].wf());
    lemma_bookkeeping(trace[0].size as int, events);
    if events.len() > 0 {
        let shorter = trace.drop_last();
        let earlier = events.drop_last();
        assert forall|k: int| 0 <= k < shorter.len() implies (#[trigger] shorter[k]).wf() by {
            assert(shorter[k] == trace[k]);
            assert(trace[k].wf());
        }
        assert forall|k: int| 0 <= k < earlier.len() implies (#[trigger] shorter[k + 1]).size
            == spec_size_after(shorter[k].size as int, earlier[k]) by {
            assert(shorter[k + 1] == trace[k + 1]);
            assert(shorter[k] == trace[k]);
            assert(earlier[k] == events[k]);
        }
        lemma_bookkeeping_along(shorter, earlier);
        let k = events.len() - 1;
        assert(trace[k + 1].size == spec_size_after(trace[k].size as int, events[k]));
        assert(shorter.last() == trace[k]);
        assert(shorter[0] == trace[0]);
    }
}

/// A sequence of zeros sums to zero.
pub proof fn lemma_sum_of_zeros(n: nat)
    ensures
        spec_sum(Seq::new(n, |k: int| 0int)) == 0,
    decreases n,
{
    if n > 0 {
        assert(Seq::new(n, |k: int| 0int).drop_last() =~= Seq::new((n - 1) as nat, |k: int| 0int));
        lemma_sum_of_zeros((n - 1) as nat);
    }
}

impl Population {
    /// A population whose species have no base rate, no neighbour
    /// coefficient and no move integral has a total rate of zero: its first
    /// step reports exhaustion.
    pub proof fn lemma_barren_rate(&self)
        requires
            self.wf(),
            forall|k: int|
                0 <= k < self.species_list@.len() ==> {
                    let species = #[trigger] self.species_list@[k];
                    &&& species.b0 == 0
                    &&& species.b1 == 0
                    &&& species.d0 == 0
                    &&& species.d1 == 0
                    &&& species.mintegral == 0
                },
        ensures
            self.spec_total_rate() == 0,
    {
        let n = self.individuals@.len();
        assert forall|channel: Channel| #[trigger] self.due(channel) =~= Seq::new(n, |k: int| 0int) by {
            assert forall|k: int| 0 <= k < n implies self.due(channel)[k] == 0 by {
                assert(self.individuals@[k].settled(self.species_list@.len() as int));
                let species = self.species_of(k);
                assert(species.valid());
                assert(species.b1 == 0 && species.d1 == 0 && species.b0 == 0 && species.d0 == 0
                    && species.mintegral == 0);
                let births = crate::individual::spec_weight_sum(
                    self.individuals@[k].neighbors(Event::Birth),
                );
                let deaths = crate::individual::spec_weight_sum(
                    self.individuals@[k].neighbors(Event::Death),
                );
                assert(0int * births == 0) by (nonlinear_arith);
                assert(0int * deaths == 0) by (nonlinear_arith);
            }
        }
        lemma_sum_of_zeros(n);
        assert(self.due(Channel::Birth) == Seq::new(n, |k: int| 0int));
        assert(self.due(Channel::Death) == Seq::new(n, |k: int| 0int));
        assert(self.due(Channel::Move) == Seq::new(n, |k: int| 0int));
    }

    /// Recomputes every individual's neighbour effects and intensities from
    /// its sparse lists and its species. Nobody moves and no list changes.
    pub fn refresh_rates(&mut self)
        requires
            old(self).wf(),
        ensures
            final(self).wf(),
            final(self).same_places(*old(self)),
            final(self).rates_current(),
            final(self).effects_current(),
            final(self).spec_stored_rate() == old(self).spec_total_rate(),
            final(self).spec_total_rate() == old(self).spec_total_rate(),
            old(self).indexed() ==> final(self).indexed(),
    {
        let ghost start = *self;
        self.compute_neighbor_weights(Event::Birth);
        let ghost first = *self;
        proof {
            first.lemma_same_places(start);
        }
        self.compute_neighbor_weights(Event::Death);
        let ghost second = *self;
        proof {
            second.lemma_same_places(first);
            assert forall|k: int| 0 <= k < second.individuals@.len() implies (
            #[trigger] second.individuals@[k]).birth_neighbor_weight
                <= EFFECT_MAX && second.individuals@[k].death_neighbor_weight
                <= EFFECT_MAX by {
                assert(first.individuals@[k].neighbor_weight(Event::Birth)
                    <= EFFECT_MAX);
                assert(second.individuals@[k].neighbor_weight(Event::Death)
                    <= EFFECT_MAX);
            }
        }
        self.update_probabilities();
        let ghost ready = *self;
        proof {
            ready.lemma_same_places(second);
            assert forall|k: int| 0 <= k < ready.individuals@.len() implies (
            #[trigger] ready.individuals@[k]).same_place(start.individuals@[k]) by {
                assert(ready.individuals@[k].same_place(second.individuals@[k]));
                assert(second.individuals@[k].same_place(first.individuals@[k]));
                assert(first.individuals@[k].same_place(start.individuals@[k]));
            }
            assert(ready.same_places(start));
            ready.lemma_same_places(start);
            assert forall|k: int, channel: Channel| 0 <= k < ready.individuals@.len() implies (
            #[trigger] ready.individuals@[k].intensity(channel)) == ready.individuals@[k].spec_rate(
                ready.species_of(k),
                channel,
            ) by {
                let now = ready.individuals@[k];
                assert(now.same_place(second.individuals@[k]));
                assert(second.individuals@[k].same_place(first.individuals@[k]));
                assert(first.individuals@[k].neighbor_weight(Event::Birth)
                    == first.individuals@[k].spec_neighbor_effect(
                    first.species_of(k),
                    Event::Birth,
                ));
                assert(second.individuals@[k].neighbor_weight(Event::Death)
                    == second.individuals@[k].spec_neighbor_effect(
                    second.species_of(k),
                    Event::Death,
                ));
                assert(second.individuals@[k].birth_neighbor_weight
                    == first.individuals@[k].birth_neighbor_weight);
                match channel {
                    Channel::Birth => {},
                    Channel::Death => {},
                    Channel::Move => {},
                }
            }
            assert(ready.rates_current());
            assert forall|k: int, kind: Event| 0 <= k < ready.individuals@.len() implies (
            #[trigger] ready.individuals@[k].neighbor_weight(kind))
                == ready.individuals@[k].spec_neighbor_effect(ready.species_of(k), kind) by {
                assert(ready.individuals@[k].same_place(second.individuals@[k]));
                assert(second.individuals@[k].same_place(first.individuals@[k]));
                assert(first.individuals@[k].neighbor_weight(Event::Birth)
                    == first.individuals@[k].spec_neighbor_effect(
                    first.species_of(k),
                    Event::Birth,
                ));
                assert(second.individuals@[k].neighbor_weight(Event::Death)
                    == second.individuals@[k].spec_neighbor_effect(
                    second.species_of(k),
                    Event::Death,
                ));
                assert(second.individuals@[k].birth_neighbor_weight
                    == first.individuals@[k].birth_neighbor_weight);
                match kind {
                    Event::Birth => {},
                    Event::Death => {},
                }
            }
            assert(ready.effects_current());
            assert(ready.stored(Channel::Birth) =~= ready.due(Channel::Birth));
            assert(ready.stored(Channel::Death) =~= ready.due(Channel::Death));
            assert(ready.stored(Channel::Move) =~= ready.due(Channel::Move));
            assert(ready.spec_stored_rate() == start.spec_total_rate());
        }
    }

    /// Executes the event of a choice made on refreshed intensities. `start`
    /// is the population as it was before the refresh, which moved nobody.
    fn fire(
        &mut self,
        choice: Choice,
        jitter_x: i64,
        jitter_y: i64,
        Ghost(start): Ghost<Population>,
    ) -> (r: Result<(), SimError>)
        requires
            old(self).wf(),
            old(self).same_places(start),
            old(self).rates_current(),
            old(self).effects_current(),
            choice.actor < old(self).individuals@.len(),
            choice.event == Event::Birth ==> old(self).individuals@[choice.actor as int].p_birth
                > 0,
            choice.event == Event::Death ==> (spec_sum(old(self).stored(Channel::Death)) > 0
                ==> old(self).individuals@[choice.actor as int].p_death > 0),
        ensures
            r is Err <==> choice.event == Event::Birth && (old(self).size == usize::MAX
                || old(self).individuals@.last().id == usize::MAX),
            r matches Err(e) ==> e == SimError::IdOverflow && *final(self) == *old(self),
            r is Ok ==> {
                &&& final(self).wf()
                &&& final(self).species_list@ == old(self).species_list@
                &&& final(self).t == old(self).t
                &&& final(self).history == old(self).history
                &&& final(self).size == spec_size_after(old(self).size as int, choice.event)
                &&& old(self).indexed() ==> final(self).indexed()
                &&& final(self).stepped_from(start, choice.event, jitter_x, jitter_y)
            },
    {
        let ghost ready = *self;
        proof {
            ready.lemma_same_places(start);
            assert(ready.stored(Channel::Birth) =~= ready.due(Channel::Birth));
            assert(ready.stored(Channel::Death) =~= ready.due(Channel::Death));
            assert(ready.stored(Channel::Move) =~= ready.due(Channel::Move));
        }
        match choice.event {
            Event::Birth => {
                match self.execute_birth(choice.actor, jitter_x, jitter_y) {
                    Err(e) => {
                        return Err(e);
                    },
                    Ok(()) => {},
                }
                proof {
                    let parent = choice.actor as int;
                    assert(ready.spec_child_site(parent, jitter_x, jitter_y) == start.spec_child_site(
                        parent,
                        jitter_x,
                        jitter_y,
                    )) by {
                        assert(ready.individuals@[parent].same_place(start.individuals@[parent]));
                        assert(ready.individuals@.last().same_place(start.individuals@.last()));
                    }
                    assert(ready.individuals@[parent].same_place(start.individuals@[parent]));
                    assert(ready.individuals@[parent].intensity(Channel::Birth)
                        == ready.individuals@[parent].spec_rate(
                        ready.species_of(parent),
                        Channel::Birth,
                    ));
                    assert(self.sites() =~= start.sites().push(
                        start.spec_child_site(parent, jitter_x, jitter_y),
                    )) by {
                        assert forall|k: int| 0 <= k < ready.individuals@.len() implies self.sites()[k]
                            == start.sites()[k] by {
                            assert(self.individuals@[k].same_state(ready.individuals@[k]));
                            assert(ready.individuals@[k].same_place(start.individuals@[k]));
                        }
                    }
                    let n = start.individuals@.len() as int;
                    let child = start.spec_child_site(parent, jitter_x, jitter_y);
                    assert(ready.sites() == start.sites());
                    assert forall|channel: Channel|
                        (#[trigger] self.individuals@[n].intensity(channel)) == 0 by {
                        match channel {
                            Channel::Birth => {},
                            Channel::Death => {},
                            Channel::Move => {},
                        }
                    }
                    assert forall|k: int| 0 <= k < n implies (
                    #[trigger] self.individuals@[k]).species
                        == start.individuals@[k].species by {
                        assert(self.individuals@[k].same_state(ready.individuals@[k]));
                        assert(ready.individuals@[k].same_place(start.individuals@[k]));
                    }
                    assert forall|k: int, kind: Event| 0 <= k < n implies (
                    #[trigger] self.individuals@[k].neighbors(kind)) == spec_after_birth(
                        start.individuals@[k].neighbors(kind),
                        start.sites()[k],
                        start.species_of(k),
                        child,
                        kind,
                    ) by {
                        assert(ready.individuals@[k].same_place(start.individuals@[k]));
                    }
                    assert forall|k: int, channel: Channel| 0 <= k < n implies (
                    #[trigger] self.individuals@[k].intensity(channel))
                        == start.individuals@[k].spec_rate(start.species_of(k), channel) by {
                        assert(self.individuals@[k].same_state(ready.individuals@[k]));
                        assert(ready.individuals@[k].same_place(start.individuals@[k]));
                        assert(ready.individuals@[k].intensity(channel)
                            == ready.individuals@[k].spec_rate(ready.species_of(k), channel));
                        match channel {
                            Channel::Birth => {},
                            Channel::Death => {},
                            Channel::Move => {},
                        }
                    }
                    assert forall|kind: Event|
                        (#[trigger] self.individuals@[n].neighbor_weight(kind)) == 0 by {
                        match kind {
                            Event::Birth => {},
                            Event::Death => {},
                        }
                    }
                    assert forall|k: int, kind: Event| 0 <= k < n implies (
                    #[trigger] self.individuals@[k].neighbor_weight(kind))
                        == start.individuals@[k].spec_neighbor_effect(start.species_of(k), kind) by {
                        assert(self.individuals@[k].same_state(ready.individuals@[k]));
                        assert(ready.individuals@[k].same_place(start.individuals@[k]));
                        assert(ready.individuals@[k].neighbor_weight(kind)
                            == ready.individuals@[k].spec_neighbor_effect(
                            ready.species_of(k),
                            kind,
                        ));
                        match kind {
                            Event::Birth => {},
                            Event::Death => {},
                        }
                    }
                    assert(self.born_of(start, parent, jitter_x, jitter_y));
                }
            },
            Event::Death => {
                self.execute_death(choice.actor);
                proof {
                    let victim = choice.actor as int;
                    assert(ready.individuals@[victim].same_place(start.individuals@[victim]));
                    assert(ready.due(Channel::Death) == start.due(Channel::Death));
                    assert(ready.individuals@[victim].intensity(Channel::Death)
                        == ready.individuals@[victim].spec_rate(
                        ready.species_of(victim),
                        Channel::Death,
                    ));
                    assert(ready.sites() == start.sites());
                    assert forall|k: int| 0 <= k < self.individuals@.len() implies (
                    #[trigger] self.individuals@[k]).species == start.individuals@[spec_source(
                        k,
                        victim,
                    )].species by {
                        let src = spec_source(k, victim);
                        assert(self.individuals@[k].same_state(ready.individuals@[src]));
                        assert(ready.individuals@[src].same_place(start.individuals@[src]));
                    }
                    assert forall|k: int, kind: Event| 0 <= k < self.individuals@.len() implies (
                    #[trigger] self.individuals@[k].neighbors(kind)) == spec_purged(
                        start.individuals@[spec_source(k, victim)].neighbors(kind),
                        start.individuals@[victim].id,
                    ) by {
                        let src = spec_source(k, victim);
                        assert(ready.individuals@[src].same_place(start.individuals@[src]));
                    }
                    assert forall|k: int, channel: Channel| 0 <= k < self.individuals@.len() implies (
                    #[trigger] self.individuals@[k].intensity(channel))
                        == start.individuals@[spec_source(k, victim)].spec_rate(
                        start.species_of(spec_source(k, victim)),
                        channel,
                    ) by {
                        let src = spec_source(k, victim);
                        assert(self.individuals@[k].same_state(ready.individuals@[src]));
                        assert(ready.individuals@[src].same_place(start.individuals@[src]));
                        assert(ready.individuals@[src].intensity(channel)
                            == ready.individuals@[src].spec_rate(ready.species_of(src), channel));
                        match channel {
                            Channel::Birth => {},
                            Channel::Death => {},
                            Channel::Move => {},
                        }
                    }
                    assert forall|k: int, kind: Event| 0 <= k < self.individuals@.len() implies (
                    #[trigger] self.individuals@[k].neighbor_weight(kind))
                        == start.individuals@[spec_source(k, victim)].spec_neighbor_effect(
                        start.species_of(spec_source(k, victim)),
                        kind,
                    ) by {
                        let src = spec_source(k, victim);
                        assert(self.individuals@[k].same_state(ready.individuals@[src]));
                        assert(ready.individuals@[src].same_place(start.individuals@[src]));
                        assert(ready.individuals@[src].neighbor_weight(kind)
                            == ready.individuals@[src].spec_neighbor_effect(
                            ready.species_of(src),
                            kind,
                        ));
                        match kind {
                            Event::Birth => {},
                            Event::Death => {},
                        }
                    }
                    assert(self.bereft_of(start, victim));
                }
            },
        }
        Ok(())
    }

    /// This population is `before` after one step that executed an event of
    /// the given kind: a birth by some parent or a death of some victim.
    pub open spec fn stepped_from(
        &self,
        before: Population,
        event: Event,
        jitter_x: i64,
        jitter_y: i64,
    ) -> bool {
        match event {
            Event::Birth => exists|parent: int|
                0 <= parent < before.individuals@.len() && #[trigger] self.born_of(
                    before,
                    parent,
                    jitter_x,
                    jitter_y,
                ),
            Event::Death => exists|victim: int|
                0 <= victim < before.individuals@.len() && #[trigger] self.bereft_of(
                    before,
                    victim,
                ),
        }
    }

    /// This population is `before` after one event of a run under `draw`:
    /// what one step does to a population of positive rate, and the clock
    /// advanced by the waiting time of the draw under that rate.
    pub open spec fn advanced_from(&self, before: Population, draw: Noise) -> bool {
        &&& before.wf()
        &&& self.wf()
        &&& 0 < before.spec_total_rate() <= u64::MAX
        &&& draw.wait > 0
        &&& self.t == before.t + spec_waiting_time(before.spec_total_rate() as u64, draw.wait)
        &&& self.species_list@ == before.species_list@
        &&& self.history.checkpoints@.len() == before.history.checkpoints@.len() + 1
        &&& self.history.checkpoints@.last()@ == self.spec_checkpoint()
        &&& self.stepped_from(before, Event::Birth, draw.jitter_x, draw.jitter_y)
            || self.stepped_from(before, Event::Death, draw.jitter_x, draw.jitter_y)
    }

    /// This population is where a run from `before` leaves it: `trail`
    /// holds the population as it was at the start and after each event,
    /// each event was due before the horizon and consumed the entry of
    /// noise of its turn, and nobody has moved since the last of them.
    #[verifier::opaque]
    pub open spec fn ran_along(
        &self,
        trail: Seq<Population>,
        before: Population,
        noise: Seq<Noise>,
        max_t: u64,
    ) -> bool {
        &&& 1 <= trail.len() <= noise.len() + 1
        &&& trail[0] == before
        &&& self.same_places(trail.last())
        &&& forall|k: int| 0 <= k < trail.len() - 1 ==> #[trigger] spec_link(trail, noise, max_t, k)
    }

    /// One event of a run moves the size by one: up for a birth, down for a
    /// death.
    pub proof fn lemma_advanced_size(&self, before: Population, draw: Noise)
        requires
            self.advanced_from(before, draw),
        ensures
            self.size == spec_size_after(before.size as int, Event::Birth) || self.size
                == spec_size_after(before.size as int, Event::Death),
    {
        if self.stepped_from(before, Event::Birth, draw.jitter_x, draw.jitter_y) {
            let parent = choose|parent: int|
                0 <= parent < before.individuals@.len() && #[trigger] self.born_of(
                    before,
                    parent,
                    draw.jitter_x,
                    draw.jitter_y,
                );
            assert(self.individuals@.len() == before.individuals@.len() + 1);
        } else {
            let victim = choose|victim: int|
                0 <= victim < before.individuals@.len() && #[trigger] self.bereft_of(
                    before,
                    victim,
                );
            assert(self.individuals@.len() == before.individuals@.len() - 1);
        }
    }

    /// A population has run nowhere from itself.
    pub proof fn lemma_ran_nowhere(&self, noise: Seq<Noise>, max_t: u64)
        ensures
            self.ran_along(seq![*self], *self, noise, max_t),
    {
        reveal(Population::ran_along);
        assert(seq![*self].last() == *self);
    }

    /// A run goes on by one event: the trail grows by the population that
    /// the event and the advance of the clock leave.
    pub proof fn lemma_ran_on(
        &self,
        prev: Population,
        trail: Seq<Population>,
        before: Population,
        noise: Seq<Noise>,
        max_t: u64,
    )
        requires
            prev.ran_along(trail, before, noise, max_t),
            trail.len() >= 1,
            trail.last() == prev,
            trail.len() <= noise.len(),
            prev.t < max_t,
            self.advanced_from(prev, noise[trail.len() - 1]),
        ensures
            self.ran_along(trail.push(*self), before, noise, max_t),
    {
        reveal(Population::ran_along);
        let longer = trail.push(*self);
        assert forall|k: int| 0 <= k < longer.len() - 1 implies #[trigger] spec_link(
            longer,
            noise,
            max_t,
            k,
        ) by {
            if k < trail.len() - 1 {
                assert(longer[k] == trail[k]);
                assert(longer[k + 1] == trail[k + 1]);
                assert(spec_link(trail, noise, max_t, k));
            } else {
                assert(longer[k] == prev);
                assert(longer[k + 1] == *self);
            }
        }
        assert(longer[0] == trail[0]);
        assert(longer.last() == *self);
    }

    /// A run is where it was as long as nobody moves.
    pub proof fn lemma_ran_in_place(
        &self,
        other: Population,
        trail: Seq<Population>,
        before: Population,
        noise: Seq<Noise>,
        max_t: u64,
    )
        requires
            other.ran_along(trail, before, noise, max_t),
            trail.len() >= 1,
            trail.last() == other,
            self.same_places(other),
        ensures
            self.ran_along(trail, before, noise, max_t),
    {
        reveal(Population::ran_along);
    }

    /// What one step made of a population shows in its individuals alone.
    pub proof fn lemma_stepped_frame(
        &self,
        other: Population,
        before: Population,
        event: Event,
        jitter_x: i64,
        jitter_y: i64,
    )
        requires
            self.individuals@ == other.individuals@,
            other.stepped_from(before, event, jitter_x, jitter_y),
        ensures
            self.stepped_from(before, event, jitter_x, jitter_y),
    {
        assert(self.sites() =~= other.sites());
        match event {
            Event::Birth => {
                let parent = choose|parent: int|
                    0 <= parent < before.individuals@.len() && #[trigger] other.born_of(
                        before,
                        parent,
                        jitter_x,
                        jitter_y,
                    );
                assert(self.born_of(before, parent, jitter_x, jitter_y));
            },
            Event::Death => {
                let victim = choose|victim: int|
                    0 <= victim < before.individuals@.len() && #[trigger] other.bereft_of(
                        before,
                        victim,
                    );
                assert(self.bereft_of(before, victim));
            },
        }
    }

    /// Performs exactly one event transition: recomputes the neighbour
    /// effects and the intensities, chooses the event and its actor,
    /// executes it and takes a checkpoint. The clock and the history are the
    /// caller's to advance and to append to. Where the total rate is zero
    /// the step reports exhaustion and leaves the population in place.
    pub fn step(
        &mut self,
        rng: &mut rand::rngs::StdRng,
        jitter_x: i64,
        jitter_y: i64,
    ) -> (r: Result<Step, SimError>)
        requires
            old(self).wf(),
        ensures
            final(self).wf(),
            final(self).species_list@ == old(self).species_list@,
            final(self).t == old(self).t,
            final(self).history == old(self).history,
            old(self).indexed() ==> final(self).indexed(),
            old(self).spec_total_rate() > u64::MAX <==> r == Err::<Step, SimError>(
                SimError::RateOverflow,
            ),
            r matches Err(e) ==> {
                &&& e == SimError::RateOverflow || e == SimError::IdOverflow
                &&& e == SimError::IdOverflow ==> old(self).size == usize::MAX
                    || old(self).individuals@.last().id == usize::MAX
                &&& final(self).same_places(*old(self))
                &&& final(self).rates_current()
                &&& final(self).effects_current()
            },
            old(self).spec_total_rate() == 0 <==> r matches Ok(Step::Exhausted),
            r matches Ok(Step::Exhausted) ==> final(self).same_places(*old(self))
                && final(self).rates_current() && final(self).effects_current(),
            r matches Ok(Step::Fired(event, checkpoint, rate)) ==> {
                &&& rate == old(self).spec_total_rate()
                &&& rate > 0
                &&& checkpoint@ == final(self).spec_checkpoint()
                &&& final(self).size == spec_size_after(old(self).size as int, event)
                &&& event == Event::Birth ==> exists|parent: int|
                    0 <= parent < old(self).individuals@.len() && #[trigger] final(self).born_of(
                        *old(self),
                        parent,
                        jitter_x,
                        jitter_y,
                    )
                &&& event == Event::Death ==> exists|victim: int|
                    0 <= victim < old(self).individuals@.len() && #[trigger] final(self).bereft_of(
                        *old(self),
                        victim,
                    )
            },
    {
        let ghost start = *self;
        self.refresh_rates();
        let ghost ready = *self;
        proof {
            ready.lemma_same_places(start);
            assert(ready.stored(Channel::Birth) =~= ready.due(Channel::Birth));
            assert(ready.stored(Channel::Death) =~= ready.due(Channel::Death));
            assert(ready.stored(Channel::Move) =~= ready.due(Channel::Move));
        }
        let choice = match self.choose_event(rng) {
            Err(e) => {
                return Err(e);
            },
            Ok(None) => {
                return Ok(Step::Exhausted);
            },
            Ok(Some(choice)) => choice,
        };
        match self.fire(choice, jitter_x, jitter_y, Ghost(start)) {
            Err(e) => {
                return Err(e);
            },
            Ok(()) => {},
        }
        let checkpoint: Checkpoint = self.get_checkpoint();
        Ok(Step::Fired(choice.event, checkpoint, choice.rate))
    }

    /// This population is `before` after one step that executed a birth:
    /// a child of the individual at position `parent`, which had a positive
    /// birth intensity, stands at the end of the population, of the parent's
    /// species, placed where the two deviates put it, with the lists that a
    /// pass over the others builds and no neighbour effect or intensity yet;
    /// everyone else is where it was, has the child at the end of its lists
    /// where the child is in reach, and carries the neighbour effects and
    /// the intensities that were due.
    pub open spec fn born_of(
        &self,
        before: Population,
        parent: int,
        jitter_x: i64,
        jitter_y: i64,
    ) -> bool {
        let n = before.individuals@.len() as int;
        let child = before.spec_child_site(parent, jitter_x, jitter_y);
        &&& self.individuals@.len() == n + 1
        &&& self.sites() == before.sites().push(child)
        &&& self.individuals@[n].species == before.individuals@[parent].species
        &&& before.individuals@[parent].spec_rate(before.species_of(parent), Channel::Birth) > 0
        &&& forall|channel: Channel| (#[trigger] self.individuals@[n].intensity(channel)) == 0
        &&& forall|kind: Event| (#[trigger] self.individuals@[n].neighbor_weight(kind)) == 0
        &&& forall|kind: Event|
            (#[trigger] self.individuals@[n].neighbors(kind)) == spec_neighbors(
                child,
                before.species_of(parent),
                before.sites(),
                kind,
            )
        &&& forall|k: int|
            0 <= k < n ==> (#[trigger] self.individuals@[k]).species
                == before.individuals@[k].species
        &&& forall|k: int, kind: Event|
            0 <= k < n ==> (#[trigger] self.individuals@[k].neighbors(kind)) == spec_after_birth(
                before.individuals@[k].neighbors(kind),
                before.sites()[k],
                before.species_of(k),
                child,
                kind,
            )
        &&& forall|k: int, channel: Channel|
            0 <= k < n ==> (#[trigger] self.individuals@[k].intensity(channel))
                == before.individuals@[k].spec_rate(before.species_of(k), channel)
        &&& forall|k: int, kind: Event|
            0 <= k < n ==> (#[trigger] self.individuals@[k].neighbor_weight(kind))
                == before.individuals@[k].spec_neighbor_effect(before.species_of(k), kind)
    }

    /// This population is `before` after one step that executed a death:
    /// the individual at position `victim`, which had a positive death
    /// intensity if anyone had, is gone; the survivors are where they were,
    /// in their order, without the entries that referred to the victim, and
    /// carry the neighbour effects and the intensities that were due.
    pub open spec fn bereft_of(&self, before: Population, victim: int) -> bool {
        &&& self.individuals@.len() == before.individuals@.len() - 1
        &&& self.sites() == before.sites().remove(victim)
        &&& spec_sum(before.due(Channel::Death)) > 0 ==> before.individuals@[victim].spec_rate(
            before.species_of(victim),
            Channel::Death,
        ) > 0
        &&& forall|k: int|
            0 <= k < self.individuals@.len() ==> (#[trigger] self.individuals@[k]).species
                == before.individuals@[spec_source(k, victim)].species
        &&& forall|k: int, kind: Event|
            0 <= k < self.individuals@.len() ==> (#[trigger] self.individuals@[k].neighbors(kind))
                == spec_purged(
                before.individuals@[spec_source(k, victim)].neighbors(kind),
                before.individuals@[victim].id,
            )
        &&& forall|k: int, channel: Channel|
            0 <= k < self.individuals@.len() ==> (#[trigger] self.individuals@[k].intensity(
                channel,
            )) == before.individuals@[spec_source(k, victim)].spec_rate(
                before.species_of(spec_source(k, victim)),
                channel,
            )
        &&& forall|k: int, kind: Event|
            0 <= k < self.individuals@.len() ==> (
            #[trigger] self.individuals@[k].neighbor_weight(kind))
                == before.individuals@[spec_source(k, victim)].spec_neighbor_effect(
                before.species_of(spec_source(k, victim)),
                kind,
            )
    }

    /// Runs the simulation until the clock reaches `max_t`, the total rate
    /// falls to zero or the noise is used up, whichever comes first; the
    /// report names the state in which the run was left. A zero wait is
    /// refused, with nothing changed, only where an event is possible:
    /// exhaustion is reported first. Whatever stops the run stops it before
    /// the next event: the population is then the one of the last
    /// checkpoint. Every event of the run is what one step does to the
    /// population that the event before left, followed by the advance of the
    /// clock and one checkpoint; the contract states this along a trail of
    /// the populations that the events left. Each
    /// event executes one step, advances the clock by the waiting time and
    /// appends a checkpoint, taken after the advance, to the history.
    pub fn simulate(
        &mut self,
        max_t: u64,
        rng: &mut rand::rngs::StdRng,
        noise: &Vec<Noise>,
    ) -> (r: Result<RunReport, SimError>)
        requires
            old(self).wf(),
        ensures
            final(self).wf(),
            final(self).species_list@ == old(self).species_list@,
            old(self).indexed() ==> final(self).indexed(),
            final(self).t >= old(self).t,
            final(self).history.checkpoints@.len() >= old(self).history.checkpoints@.len(),
            final(self).history.checkpoints@.take(old(self).history.checkpoints@.len() as int)
                == old(self).history.checkpoints@,
            final(self).history.checkpoints@.len() <= old(self).history.checkpoints@.len()
                + noise@.len(),
            forall|k: int|
                old(self).history.checkpoints@.len() <= k < final(self).history.checkpoints@.len()
                    - 1 ==> (#[trigger] final(self).history.checkpoints@[k]).time < max_t,
            final(self).history.checkpoints@.len() > old(self).history.checkpoints@.len()
                ==> final(self).history.checkpoints@.last().time == final(self).t,
            final(self).history.checkpoints@.len() == old(self).history.checkpoints@.len()
                ==> final(self).t == old(self).t,
            final(self).history.checkpoints@.len() > old(self).history.checkpoints@.len()
                ==> final(self).history.checkpoints@.last()@ == final(self).spec_checkpoint(),
            final(self).history.checkpoints@.len() == old(self).history.checkpoints@.len()
                ==> final(self).same_places(*old(self)),
            r matches Err(e) ==> e == SimError::InvalidDraw || e == SimError::RateOverflow || e
                == SimError::IdOverflow || e == SimError::TimeOverflow,
            r is Err ==> final(self).spec_total_rate() > 0,
            r == Err::<RunReport, SimError>(SimError::RateOverflow)
                ==> final(self).spec_total_rate() > u64::MAX,
            r == Err::<RunReport, SimError>(SimError::IdOverflow) ==> final(self).size
                == usize::MAX || final(self).individuals@.last().id == usize::MAX,
            r == Err::<RunReport, SimError>(SimError::TimeOverflow) ==> {
                let k = final(self).history.checkpoints@.len() - old(self).history.checkpoints@.len();
                &&& k < noise@.len()
                &&& noise@[k].wait > 0
                &&& final(self).spec_total_rate() <= u64::MAX
                &&& final(self).t + spec_waiting_time(
                    final(self).spec_total_rate() as u64,
                    noise@[k].wait,
                ) > u64::MAX
            },
            r == Err::<RunReport, SimError>(SimError::InvalidDraw) ==> {
                let k = final(self).history.checkpoints@.len() - old(self).history.checkpoints@.len();
                &&& k < noise@.len()
                &&& noise@[k].wait == 0
                &&& final(self).spec_total_rate() <= u64::MAX
            },
            final(self).history.checkpoints@.len() == old(self).history.checkpoints@.len() + 1
                ==> final(self).t == old(self).t + spec_waiting_time(
                old(self).spec_total_rate() as u64,
                noise@[0].wait,
            ),
            noise@.len() == 1 && final(self).history.checkpoints@.len()
                == old(self).history.checkpoints@.len() + 1 ==> final(self).stepped_from(
                *old(self),
                Event::Birth,
                noise@[0].jitter_x,
                noise@[0].jitter_y,
            ) || final(self).stepped_from(
                *old(self),
                Event::Death,
                noise@[0].jitter_x,
                noise@[0].jitter_y,
            ),
            exists|trail: Seq<Population>| #[trigger]
                final(self).ran_along(trail, *old(self), noise@, max_t) && trail.len()
                    == final(self).history.checkpoints@.len() - old(self).history.checkpoints@.len() + 1,
            exists|births: int, deaths: int| #[trigger]
                spec_balanced(
                    old(self).size as int,
                    final(self).size as int,
                    final(self).history.checkpoints@.len() - old(self).history.checkpoints@.len(),
                    births,
                    deaths,
                ),
            old(self).t < max_t && noise@.len() == 1 && noise@[0].wait > 0
                && 0 < old(self).spec_total_rate() <= u64::MAX
                && old(self).size < usize::MAX
                && old(self).individuals@.last().id < usize::MAX
                && old(self).t + spec_waiting_time(
                old(self).spec_total_rate() as u64,
                noise@[0].wait,
            ) <= u64::MAX ==> r is Ok && final(self).history.checkpoints@.len()
                == old(self).history.checkpoints@.len() + 1,
            final(self).spec_total_rate() == 0 && final(self).t < max_t
                && final(self).history.checkpoints@.len() < old(self).history.checkpoints@.len()
                + noise@.len() ==> (r matches Ok(report) && report.state
                == RunState::Exhausted),
            old(self).t < max_t && noise@.len() == 0 ==> (r matches Ok(report) && report.state
                == RunState::Initialized),
            old(self).t < max_t && noise@.len() > 0 && old(self).spec_total_rate() > u64::MAX
                ==> r == Err::<RunReport, SimError>(SimError::RateOverflow)
                && final(self).same_places(*old(self)),
            old(self).t < max_t && noise@.len() > 0 && noise@[0].wait == 0
                && 0 < old(self).spec_total_rate() <= u64::MAX
                ==> r == Err::<RunReport, SimError>(SimError::InvalidDraw)
                && *final(self) == *old(self),
            old(self).t < max_t && noise@.len() > 0 && noise@[0].wait > 0
                && 0 < old(self).spec_total_rate() <= u64::MAX
                && old(self).t + spec_waiting_time(
                old(self).spec_total_rate() as u64,
                noise@[0].wait,
            ) > u64::MAX ==> r == Err::<RunReport, SimError>(SimError::TimeOverflow)
                && final(self).same_places(*old(self)),
            old(self).t < max_t && noise@.len() > 0 && noise@[0].wait > 0
                && 0 < old(self).spec_total_rate() <= u64::MAX
                && old(self).size < usize::MAX
                && old(self).individuals@.last().id < usize::MAX
                && old(self).t + spec_waiting_time(
                old(self).spec_total_rate() as u64,
                noise@[0].wait,
            ) <= u64::MAX ==> final(self).history.checkpoints@.len()
                > old(self).history.checkpoints@.len(),
            (forall|k: int| 0 <= k < noise@.len() ==> (#[trigger] noise@[k]).wait > 0) ==> r
                != Err::<RunReport, SimError>(SimError::InvalidDraw),
            old(self).t >= max_t ==> r is Ok && *final(self) == *old(self),
            old(self).t < max_t && noise@.len() > 0 && old(self).spec_total_rate() == 0
                ==> final(self).same_places(*old(self)) && (
            r matches Ok(report) && report.state == RunState::Exhausted && report.births == 0
                && report.deaths == 0),
            r matches Ok(report) ==> {
                &&& final(self).size == old(self).size + report.births - report.deaths
                &&& final(self).history.checkpoints@.len() == old(self).history.checkpoints@.len()
                    + report.births + report.deaths
                &&& report.state == RunState::Complete <==> final(self).t >= max_t
                &&& report.state == RunState::Exhausted ==> final(self).spec_total_rate() == 0
                &&& report.state == RunState::Exhausted <==> final(self).t < max_t
                    && report.births + report.deaths < noise@.len()
                &&& report.state == RunState::Running ==> report.births + report.deaths
                    == noise@.len() && noise@.len() > 0
                &&& report.state == RunState::Initialized ==> noise@.len() == 0 && *final(self)
                    == *old(self)
            },
    {
        let mut births: usize = 0;
        let mut deaths: usize = 0;
        let mut used: usize = 0;
        let ghost origin = old(self).history.checkpoints@;
        let ghost trail: Seq<Population> = seq![*self];
        proof {
            self.lemma_ran_nowhere(noise@, max_t);
            assert(trail.last() == *self);
        }
        while self.t < max_t
            invariant
                self.wf(),
                self.species_list@ == old(self).species_list@,
                old(self).indexed() ==> self.indexed(),
                self.t >= old(self).t,
                origin == old(self).history.checkpoints@,
                used <= noise@.len(),
                used == births + deaths,
                trail.len() == used + 1,
                trail.last() == *self,
                self.ran_along(trail, *old(self), noise@, max_t),
                spec_balanced(
                    old(self).size as int,
                    self.size as int,
                    self.history.checkpoints@.len() - origin.len(),
                    births as int,
                    deaths as int,
                ),
                self.size == old(self).size + births - deaths,
                self.history.checkpoints@.len() == origin.len() + used,
                self.history.checkpoints@.take(origin.len() as int) == origin,
                forall|k: int|
                    origin.len() <= k < self.history.checkpoints@.len() - 1 ==> (
                    #[trigger] self.history.checkpoints@[k]).time < max_t,
                used > 0 ==> self.history.checkpoints@.last().time == self.t,
                used == 0 ==> *self == *old(self),
                used == 0 ==> self.same_places(*old(self)),
                old(self).t >= max_t ==> used == 0,
                used > 0 ==> 0 < old(self).spec_total_rate() <= u64::MAX,
                used > 0 ==> noise@[0].wait > 0,
                used == 1 ==> self.t == old(self).t + spec_waiting_time(
                    old(self).spec_total_rate() as u64,
                    noise@[0].wait,
                ),
                used == 1 && noise@.len() == 1 ==> self.stepped_from(
                    *old(self),
                    Event::Birth,
                    noise@[0].jitter_x,
                    noise@[0].jitter_y,
                ) || self.stepped_from(
                    *old(self),
                    Event::Death,
                    noise@[0].jitter_x,
                    noise@[0].jitter_y,
                ),
                used > 0 ==> old(self).t + spec_waiting_time(
                    old(self).spec_total_rate() as u64,
                    noise@[0].wait,
                ) <= u64::MAX,
                used > 0 ==> self.history.checkpoints@.last()@ == self.spec_checkpoint(),
            decreases noise@.len() - used,
        {
            if used == noise.len() {
                let state: RunState = if used == 0 {
                    RunState::Initialized
                } else {
                    RunState::Running
                };
                return Ok(RunReport { state, births, deaths });
            }
            let draw: Noise = noise[used];
            let ghost before = *self;
            if draw.wait == 0 {
                match self.due_rate() {
                    None => {
                        return Err(SimError::RateOverflow);
                    },
                    Some(rate) => {
                        if rate == 0 {
                            return Ok(RunReport { state: RunState::Exhausted, births, deaths });
                        }
                        return Err(SimError::InvalidDraw);
                    },
                }
            }
            self.refresh_rates();
            let ghost ready = *self;
            proof {
                ready.lemma_same_places(before);
                ready.lemma_checkpoint_same(before);
                ready.lemma_rate_nonnegative();
                ready.lemma_ran_in_place(before, trail, *old(self), noise@, max_t);
                assert(ready.individuals@.len() > 0 ==> ready.individuals@.last().same_place(
                    before.individuals@.last(),
                ));
            }
            let choice: Choice = match self.choose_event(rng) {
                Err(e) => {
                    return Err(e);
                },
                Ok(None) => {
                    return Ok(RunReport { state: RunState::Exhausted, births, deaths });
                },
                Ok(Some(choice)) => choice,
            };
            let wait: u128 = waiting_time(choice.rate, draw.wait);
            if wait > (u64::MAX - self.t) as u128 {
                return Err(SimError::TimeOverflow);
            }
            let event: Event = choice.event;
            match self.fire(choice, draw.jitter_x, draw.jitter_y, Ghost(before)) {
                Err(e) => {
                    return Err(e);
                },
                Ok(()) => {},
            }
            let ghost fired = *self;
            match self.increment_time(choice.rate, draw.wait) {
                Err(e) => {
                    return Err(e);
                },
                Ok(()) => {},
            }
            let checkpoint: Checkpoint = self.get_checkpoint();
            let ghost held = self.history.checkpoints@;
            self.history.checkpoints.push(checkpoint);
            proof {
                self.lemma_stepped_frame(fired, before, event, draw.jitter_x, draw.jitter_y);
                let now = self.history.checkpoints@;
                assert(now.take(origin.len() as int) =~= held.take(origin.len() as int));
                assert forall|i: int, j: int| 0 <= i < j < now.len() implies now[i].time
                    < now[j].time by {
                    if j < held.len() {
                        assert(now[i] == held[i] && now[j] == held[j]);
                    } else {
                        assert(now[i] == held[i]);
                        assert(held[i].time <= before.t);
                    }
                }
                assert forall|k: int| origin.len() <= k < now.len() - 1 implies (
                #[trigger] now[k]).time
                    < max_t by {
                    assert(now[k] == held[k]);
                    if k < held.len() - 1 {
                    } else {
                        assert(held.last().time == before.t);
                    }
                }
            }
            proof {
                assert(self.advanced_from(before, draw));
                self.lemma_ran_on(before, trail, *old(self), noise@, max_t);
                trail = trail.push(*self);
            }
            match event {
                Event::Birth => {
                    births += 1;
                },
                Event::Death => {
                    deaths += 1;
                },
            }
            used += 1;
        }
        Ok(RunReport { state: RunState::Complete, births, deaths })
    }
}

} // verus!
