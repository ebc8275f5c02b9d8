//! The event scheduler: intensities, the choice of the next event and its
//! actor, and the advance of the clock.

use crate::geometry::UNIT;
use crate::index::spec_neighbors;
use crate::individual::{effect_of, spec_weight_sum, Individual, Site, EFFECT_MAX};
use crate::population::{Population, SimError};
use crate::sampling::{spec_total, total_weight, weighted_sample};
use crate::species::{spec_effect, Event, Species};
use vstd::prelude::*;

verus! {

/// The three intensities that an individual carries.
#[derive(Clone, Copy, Debug, PartialEq, Eq, Structural)]
pub enum Channel {
    Birth,
    Death,
    /// Carried in the total rate, never dispatched as an event of its own.
    Move,
}

/// The event, its actor and the total rate that the choice was made under.
#[derive(Clone, Copy, Debug)]
pub struct Choice {
    pub event: Event,
    /// The position of the acting individual in the population.
    pub actor: usize,
    pub rate: u64,
}

/// The sum of a sequence of numbers.
pub open spec fn spec_sum(values: Seq<int>) -> int
    decreases values.len(),
{
    if values.len() == 0 {
        0
    } else {
        spec_sum(values.drop_last()) + values.last()
    }
}

/// The time to wait for the next event: the draw over the rate, in fixed
/// point, rounded up so that a positive draw never gives a zero wait.
pub open spec fn spec_waiting_time(rate: u64, draw: u64) -> int {
    (draw * UNIT + rate - 1) / (rate as int)
}

/// The event that a slot of the three-way draw stands for. The third slot,
/// weighted by the summed move intensities, dispatches a death: movement is
/// never executed, and its weight is deliberately left with death.
pub open spec fn spec_event_of_slot(slot: usize) -> Event {
    if slot == 0 {
        Event::Birth
    } else {
        Event::Death
    }
}

/// A sum of non-negative numbers is non-negative and at least each of them.
pub proof fn lemma_sum_covers(values: Seq<int>, k: int)
    requires
        forall|i: int| 0 <= i < values.len() ==> values[i] >= 0,
        0 <= k < values.len(),
    ensures
        0 <= values[k] <= spec_sum(values),
    decreases values.len(),
{
    lemma_sum_nonnegative(values.drop_last());
    if k < values.len() - 1 {
        lemma_sum_covers(values.drop_last(), k);
    }
}

/// A sum of non-negative numbers is non-negative.
pub proof fn lemma_sum_nonnegative(values: Seq<int>)
    requires
        forall|i: int| 0 <= i < values.len() ==> values[i] >= 0,
    ensures
        0 <= spec_sum(values),
    decreases values.len(),
{
    if values.len() > 0 {
        lemma_sum_nonnegative(values.drop_last());
    }
}

/// The sum of a prefix of non-negative numbers is at most the sum of all.
pub proof fn lemma_sum_prefix(values: Seq<int>, k: int)
    requires
        forall|i: int| 0 <= i < values.len() ==> values[i] >= 0,
        0 <= k <= values.len(),
    ensures
        spec_sum(values.take(k)) <= spec_sum(values),
    decreases values.len(),
{
    if k == values.len() {
        assert(values.take(k) =~= values);
    } else {
        assert(values.drop_last().take(k) =~= values.take(k));
        lemma_sum_prefix(values.drop_last(), k);
    }
}

/// A sum of kernel weights is never negative.
pub proof fn lemma_weight_sum_nonnegative(list: Seq<(usize, u64)>)
    ensures
        spec_weight_sum(list) >= 0,
    decreases list.len(),
{
    if list.len() > 0 {
        lemma_weight_sum_nonnegative(list.drop_last());
    }
}

/// A neighbour effect of a coefficient and a sum that are not negative is
/// not negative.
pub proof fn lemma_effect_nonnegative(coefficient: int, total_weight: int, norm: Option<u64>)
    requires
        coefficient >= 0,
        total_weight >= 0,
    ensures
        spec_effect(coefficient, total_weight, norm) >= 0,
{
    match norm {
        Some(n) => {
            if n > 0 {
                assert(coefficient * total_weight >= 0) by (nonlinear_arith)
                    requires
                        coefficient >= 0,
                        total_weight >= 0,
                ;
                vstd::arithmetic::div_mod::lemma_div_pos_is_pos(
                    coefficient * total_weight,
                    n as int,
                );
            }
        },
        None => {},
    }
}

/// Weights that agree one by one with a sequence of numbers have its sum.
pub proof fn lemma_total_is_sum(weights: Seq<u64>, values: Seq<int>)
    requires
        weights.len() == values.len(),
        forall|i: int| 0 <= i < weights.len() ==> weights[i] == values[i],
    ensures
        spec_total(weights) == spec_sum(values),
    decreases weights.len(),
{
    if weights.len() > 0 {
        lemma_total_is_sum(weights.drop_last(), values.drop_last());
    }
}

/// For any positive rate and any positive draw the waiting time is positive.
pub proof fn lemma_waiting_time_positive(rate: u64, draw: u64)
    requires
        rate > 0,
        draw > 0,
    ensures
        spec_waiting_time(rate, draw) > 0,
{
    assert(draw * UNIT >= 1) by (nonlinear_arith)
        requires
            draw >= 1,
            UNIT == 1_000_000,
    ;
    let numerator: int = draw * UNIT + rate - 1;
    assert(numerator >= rate);
    vstd::arithmetic::div_mod::lemma_div_is_ordered(rate as int, numerator, rate as int);
    vstd::arithmetic::div_mod::lemma_div_basics(rate as int);
}

/// Computes the time to wait for the next event.
pub fn waiting_time(rate: u64, draw: u64) -> (wait: u128)
    requires
        rate > 0,
    ensures
        wait == spec_waiting_time(rate, draw),
{
    assert(draw * UNIT <= 0xFFFF_FFFF_FFFF_FFFF * 1_000_000) by (nonlinear_arith)
        requires
            0 <= draw <= 0xFFFF_FFFF_FFFF_FFFF,
            UNIT == 1_000_000,
    ;
    assert(draw * UNIT >= 0) by (nonlinear_arith)
        requires
            draw >= 0,
            UNIT == 1_000_000,
    ;
    ((draw as u128) * (UNIT as u128) + (rate as u128) - 1) / (rate as u128)
}

/// Names the event that a slot of the three-way draw stands for.
pub fn event_of_slot(slot: usize) -> (event: Event)
    ensures
        event == spec_event_of_slot(slot),
{
    if slot == 0 {
        Event::Birth
    } else {
        Event::Death
    }
}

impl Individual {
    /// The stored intensity of a channel.
    pub open spec fn intensity(&self, channel: Channel) -> u128 {
        match channel {
            Channel::Birth => self.p_birth,
            Channel::Death => self.p_death,
            Channel::Move => self.p_move,
        }
    }

    /// The intensity that the species and the neighbour lists give: the base
    /// rate plus the neighbour effect, and the move integral.
    pub open spec fn spec_rate(&self, species: Species, channel: Channel) -> int {
        match channel {
            Channel::Birth => species.b0 + self.spec_neighbor_effect(species, Event::Birth),
            Channel::Death => species.d0 + self.spec_neighbor_effect(species, Event::Death),
            Channel::Move => species.mintegral as int,
        }
    }

    /// Reads the stored intensity of a channel.
    pub fn stored_intensity(&self, channel: Channel) -> (p: u128)
        ensures
            p == self.intensity(channel),
    {
        match channel {
            Channel::Birth => self.p_birth,
            Channel::Death => self.p_death,
            Channel::Move => self.p_move,
        }
    }
}

impl Population {
    /// The stored intensities of a channel, in the population's order.
    pub open spec fn stored(&self, channel: Channel) -> Seq<int> {
        Seq::new(self.individuals@.len(), |k: int| self.individuals@[k].intensity(channel) as int)
    }

    /// The intensities of a channel that the species and the neighbour
    /// lists give, in the population's order.
    pub open spec fn due(&self, channel: Channel) -> Seq<int> {
        Seq::new(
            self.individuals@.len(),
            |k: int| self.individuals@[k].spec_rate(self.species_of(k), channel),
        )
    }

    /// The total of the stored intensities.
    pub open spec fn spec_stored_rate(&self) -> int {
        spec_sum(self.stored(Channel::Birth)) + spec_sum(self.stored(Channel::Death)) + spec_sum(
            self.stored(Channel::Move),
        )
    }

    /// The total event rate that the species and the neighbour lists give.
    pub open spec fn spec_total_rate(&self) -> int {
        spec_sum(self.due(Channel::Birth)) + spec_sum(self.due(Channel::Death)) + spec_sum(
            self.due(Channel::Move),
        )
    }

    /// The other population has the same catalogue, clock, history and
    /// size, and its individuals are where this one's are, under the same
    /// identifiers and with the same neighbour lists.
    pub open spec fn same_places(&self, other: Population) -> bool {
        &&& self.species_list@ == other.species_list@
        &&& self.size == other.size
        &&& self.t == other.t
        &&& self.history == other.history
        &&& self.individuals@.len() == other.individuals@.len()
        &&& forall|k: int|
            0 <= k < self.individuals@.len() ==> (#[trigger] self.individuals@[k]).same_place(
                other.individuals@[k],
            )
    }

    /// Every stored neighbour effect is the one that the species and the
    /// lists give.
    pub open spec fn effects_current(&self) -> bool {
        forall|k: int, kind: Event|
            0 <= k < self.individuals@.len() ==> (#[trigger] self.individuals@[k].neighbor_weight(
                kind,
            )) == self.individuals@[k].spec_neighbor_effect(self.species_of(k), kind)
    }

    /// Every stored intensity is the one that the species and the lists
    /// give.
    pub open spec fn rates_current(&self) -> bool {
        forall|k: int, channel: Channel|
            0 <= k < self.individuals@.len() ==> (#[trigger] self.individuals@[k].intensity(
                channel,
            )) == self.individuals@[k].spec_rate(self.species_of(k), channel)
    }

    /// Well-formedness, consistency of the index, the sites and the rates
    /// that are due depend on nothing but what `same_places` compares.
    pub proof fn lemma_same_places(&self, other: Population)
        requires
            self.same_places(other),
        ensures
            other.wf() ==> self.wf(),
            other.indexed() ==> self.indexed(),
            self.sites() == other.sites(),
            forall|channel: Channel| #[trigger] self.due(channel) == other.due(channel),
            self.spec_total_rate() == other.spec_total_rate(),
    {
        assert(self.sites() =~= other.sites());
        if other.wf() {
            assert forall|i: int| 0 <= i < self.individuals@.len() implies (
            #[trigger] self.individuals@[i]).settled(self.species_list@.len() as int) by {
                assert(self.individuals@[i].same_place(other.individuals@[i]));
                assert(other.individuals@[i].settled(self.species_list@.len() as int));
            }
            assert forall|a: int, b: int|
                0 <= a < b < self.individuals@.len() implies self.individuals@[a].id
                < self.individuals@[b].id by {
                assert(self.individuals@[a].same_place(other.individuals@[a]));
                assert(self.individuals@[b].same_place(other.individuals@[b]));
            }
        }
        if other.indexed() {
            assert forall|i: int, kind: Event| 0 <= i < self.individuals@.len() implies (
            #[trigger] self.individuals@[i].neighbors(kind)) == crate::index::spec_neighbors(
                self.sites()[i],
                self.species_of(i),
                self.sites(),
                kind,
            ) by {
                assert(self.individuals@[i].same_place(other.individuals@[i]));
                assert(other.individuals@[i].neighbors(kind) == crate::index::spec_neighbors(
                    other.sites()[i],
                    other.species_of(i),
                    other.sites(),
                    kind,
                ));
            }
        }
        assert forall|channel: Channel| #[trigger] self.due(channel) == other.due(channel) by {
            assert forall|k: int| 0 <= k < self.individuals@.len() implies self.due(channel)[k]
                == other.due(channel)[k] by {
                assert(self.individuals@[k].same_place(other.individuals@[k]));
            }
            assert(self.due(channel) =~= other.due(channel));
        }
        assert(self.due(Channel::Birth) == other.due(Channel::Birth));
        assert(self.due(Channel::Death) == other.due(Channel::Death));
        assert(self.due(Channel::Move) == other.due(Channel::Move));
    }

    /// Recomputes every individual's neighbour effect for one event kind
    /// from its sparse list. Nothing else changes.
    pub fn compute_neighbor_weights(&mut self, event: Event)
        requires
            old(self).wf(),
        ensures
            final(self).same_places(*old(self)),
            forall|k: int|
                0 <= k < final(self).individuals@.len() ==> {
                    let now = #[trigger] final(self).individuals@[k];
                    let was = old(self).individuals@[k];
                    &&& now.neighbor_weight(event) == now.spec_neighbor_effect(
                        final(self).species_of(k),
                        event,
                    )
                    &&& now.neighbor_weight(event) <= EFFECT_MAX
                    &&& event == Event::Birth ==> now.death_neighbor_weight
                        == was.death_neighbor_weight
                    &&& event == Event::Death ==> now.birth_neighbor_weight
                        == was.birth_neighbor_weight
                    &&& now.p_birth == was.p_birth
                    &&& now.p_death == was.p_death
                    &&& now.p_move == was.p_move
                },
    {
        let n: usize = self.individuals.len();
        let mut k: usize = 0;
        while k < n
            invariant
                n == self.individuals@.len(),
                k <= n,
                old(self).wf(),
                self.same_places(*old(self)),
                forall|m: int| k <= m < n ==> self.individuals@[m] == old(self).individuals@[m],
                forall|m: int|
                    0 <= m < n ==> {
                        let now = #[trigger] self.individuals@[m];
                        let was = old(self).individuals@[m];
                        &&& event == Event::Birth ==> now.death_neighbor_weight
                            == was.death_neighbor_weight
                        &&& event == Event::Death ==> now.birth_neighbor_weight
                            == was.birth_neighbor_weight
                        &&& now.p_birth == was.p_birth
                        &&& now.p_death == was.p_death
                        &&& now.p_move == was.p_move
                    },
                forall|m: int|
                    0 <= m < k ==> {
                        let now = #[trigger] self.individuals@[m];
                        &&& now.neighbor_weight(event) == now.spec_neighbor_effect(
                            self.species_of(m),
                            event,
                        )
                        &&& now.neighbor_weight(event) <= EFFECT_MAX
                    },
            decreases n - k,
        {
            let ghost prior = self.individuals@;
            assert(old(self).individuals@[k as int].settled(self.species_list@.len() as int));
            let owner: usize = self.individuals[k].species;
            let effect: u128 = self.individuals[k].neighbor_effect(&self.species_list[owner], event);
            match event {
                Event::Birth => {
                    self.individuals[k].birth_neighbor_weight = effect;
                },
                Event::Death => {
                    self.individuals[k].death_neighbor_weight = effect;
                },
            }
            proof {
                assert forall|m: int| 0 <= m < n implies (
                #[trigger] self.individuals@[m]).same_place(
                    old(self).individuals@[m],
                ) by {
                    if m != k {
                        assert(self.individuals@[m] == prior[m]);
                        assert(prior[m].same_place(old(self).individuals@[m]));
                    }
                }
                assert forall|m: int| 0 <= m < k + 1 implies {
                    let now = #[trigger] self.individuals@[m];
                    &&& now.neighbor_weight(event) == now.spec_neighbor_effect(
                        self.species_of(m),
                        event,
                    )
                    &&& now.neighbor_weight(event) <= EFFECT_MAX
                } by {
                    if m < k {
                        assert(self.individuals@[m] == prior[m]);
                    }
                }
                assert forall|m: int| 0 <= m < n implies {
                    let now = #[trigger] self.individuals@[m];
                    let was = old(self).individuals@[m];
                    &&& event == Event::Birth ==> now.death_neighbor_weight
                        == was.death_neighbor_weight
                    &&& event == Event::Death ==> now.birth_neighbor_weight
                        == was.birth_neighbor_weight
                    &&& now.p_birth == was.p_birth
                    &&& now.p_death == was.p_death
                    &&& now.p_move == was.p_move
                } by {
                    if m != k {
                        assert(self.individuals@[m] == prior[m]);
                    }
                }
            }
            k += 1;
        }
    }

    /// The neighbour effect of the individual at position `k` as the
    /// positions alone give it, whatever the sparse lists hold.
    pub open spec fn spec_dense_effect(&self, k: int, event: Event) -> int {
        spec_effect(
            self.species_of(k).coefficient(event) as int,
            spec_weight_sum(spec_neighbors(self.sites()[k], self.species_of(k), self.sites(), event)),
            self.species_of(k).norm(event),
        )
    }

    /// Where the spatial index is consistent the sparse lists give the
    /// neighbour effects that the positions give.
    pub proof fn lemma_sparse_is_dense(&self, k: int, event: Event)
        requires
            self.indexed(),
            0 <= k < self.individuals@.len(),
        ensures
            self.individuals@[k].spec_neighbor_effect(self.species_of(k), event)
                == self.spec_dense_effect(k, event),
    {
        assert(self.individuals@[k].neighbors(event) == spec_neighbors(
            self.sites()[k],
            self.species_of(k),
            self.sites(),
            event,
        ));
    }

    /// Sums the kernel weights of everyone in reach of the individual at
    /// position `k`, from the positions.
    fn dense_weight_sum(&self, k: usize, event: Event) -> (sum: u128)
        requires
            self.wf(),
            k < self.individuals@.len(),
        ensures
            sum == spec_weight_sum(
                spec_neighbors(self.sites()[k as int], self.species_of(k as int), self.sites(), event),
            ),
            sum <= 0xFFFF_FFFF_FFFF_FFFF * UNIT,
    {
        let n: usize = self.individuals.len();
        assert(self.individuals@[k as int].settled(self.species_list@.len() as int));
        let me: Site = self.individuals[k].site();
        let species: &Species = &self.species_list[self.individuals[k].species];
        let ghost sites = self.sites();
        let mut sum: u128 = 0;
        let mut j: usize = 0;
        while j < n
            invariant
                n == self.individuals@.len(),
                j <= n,
                self.wf(),
                sites == self.sites(),
                me == sites[k as int],
                me.inhabits(),
                *species == self.species_of(k as int),
                species.valid(),
                sum == spec_weight_sum(spec_neighbors(me, *species, sites.take(j as int), event)),
                sum <= j * UNIT,
            decreases n - j,
        {
            assert(self.individuals@[j as int].settled(self.species_list@.len() as int));
            let other: Site = self.individuals[j].site();
            proof {
                assert(sites.take(j + 1).drop_last() =~= sites.take(j as int));
                assert(sites.take(j + 1).last() == other);
                assert(j * UNIT + UNIT == (j + 1) * UNIT) by (nonlinear_arith);
                assert(j * UNIT <= 0xFFFF_FFFF_FFFF_FFFF * 1_000_000) by (nonlinear_arith)
                    requires
                        j <= 0xFFFF_FFFF_FFFF_FFFF,
                ;
            }
            if other.id != me.id {
                let d2: u64 = me.distance_sq(&other);
                if species.reaches(event, d2) {
                    let w: u64 = species.weight(event, d2);
                    proof {
                        let rest = spec_neighbors(me, *species, sites.take(j as int), event);
                        assert(rest.push((other.id, w)).drop_last() =~= rest);
                    }
                    sum = sum + (w as u128);
                }
            }
            j += 1;
        }
        proof {
            assert(sites.take(n as int) =~= sites);
            assert(n * UNIT <= 0xFFFF_FFFF_FFFF_FFFF * 1_000_000) by (nonlinear_arith)
                requires
                    n <= 0xFFFF_FFFF_FFFF_FFFF,
            ;
        }
        sum
    }

    /// Recomputes every individual's neighbour effect for one event kind
    /// from the positions, in a pass over all ordered pairs that does not
    /// consult the sparse lists. Where the index is consistent the result
    /// is that of `compute_neighbor_weights`.
    pub fn update_neighbor_weights(&mut self, event: Event)
        requires
            old(self).wf(),
        ensures
            final(self).same_places(*old(self)),
            forall|k: int|
                0 <= k < final(self).individuals@.len() ==> {
                    let now = #[trigger] final(self).individuals@[k];
                    let was = old(self).individuals@[k];
                    &&& now.neighbor_weight(event) == old(self).spec_dense_effect(k, event)
                    &&& now.neighbor_weight(event) <= EFFECT_MAX
                    &&& old(self).indexed() ==> now.neighbor_weight(event)
                        == now.spec_neighbor_effect(final(self).species_of(k), event)
                    &&& event == Event::Birth ==> now.death_neighbor_weight
                        == was.death_neighbor_weight
                    &&& event == Event::Death ==> now.birth_neighbor_weight
                        == was.birth_neighbor_weight
                    &&& now.p_birth == was.p_birth
                    &&& now.p_death == was.p_death
                    &&& now.p_move == was.p_move
                },
    {
        let n: usize = self.individuals.len();
        let mut k: usize = 0;
        while k < n
            invariant
                n == self.individuals@.len(),
                k <= n,
                old(self).wf(),
                self.wf(),
                self.same_places(*old(self)),
                forall|m: int| k <= m < n ==> self.individuals@[m] == old(self).individuals@[m],
                forall|m: int|
                    0 <= m < n ==> {
                        let now = #[trigger] self.individuals@[m];
                        let was = old(self).individuals@[m];
                        &&& event == Event::Birth ==> now.death_neighbor_weight
                            == was.death_neighbor_weight
                        &&& event == Event::Death ==> now.birth_neighbor_weight
                            == was.birth_neighbor_weight
                        &&& now.p_birth == was.p_birth
                        &&& now.p_death == was.p_death
                        &&& now.p_move == was.p_move
                    },
                forall|m: int|
                    0 <= m < k ==> {
                        let now = #[trigger] self.individuals@[m];
                        &&& now.neighbor_weight(event) == old(self).spec_dense_effect(m, event)
                        &&& now.neighbor_weight(event) <= EFFECT_MAX
                    },
            decreases n - k,
        {
            let ghost prior = *self;
            proof {
                prior.lemma_same_places(*old(self));
            }
            let sum: u128 = self.dense_weight_sum(k, event);
            let owner: usize = self.individuals[k].species;
            assert(self.individuals@[k as int].settled(self.species_list@.len() as int));
            let effect: u128 = match event {
                Event::Birth => effect_of(
                    self.species_list[owner].b1,
                    sum,
                    self.species_list[owner].birth_norm,
                ),
                Event::Death => effect_of(
                    self.species_list[owner].d1,
                    sum,
                    self.species_list[owner].death_norm,
                ),
            };
            match event {
                Event::Birth => {
                    self.individuals[k].birth_neighbor_weight = effect;
                },
                Event::Death => {
                    self.individuals[k].death_neighbor_weight = effect;
                },
            }
            proof {
                assert forall|m: int| 0 <= m < n implies (
                #[trigger] self.individuals@[m]).same_place(
                    old(self).individuals@[m],
                ) by {
                    if m != k {
                        assert(self.individuals@[m] == prior.individuals@[m]);
                    }
                    assert(prior.individuals@[m].same_place(old(self).individuals@[m]));
                }
                self.lemma_same_places(*old(self));
                assert(prior.individuals@[k as int].same_place(old(self).individuals@[k as int]));
                assert(prior.spec_dense_effect(k as int, event) == old(self).spec_dense_effect(
                    k as int,
                    event,
                ));
                assert forall|m: int| 0 <= m < k + 1 implies {
                    let now = #[trigger] self.individuals@[m];
                    &&& now.neighbor_weight(event) == old(self).spec_dense_effect(m, event)
                    &&& now.neighbor_weight(event) <= EFFECT_MAX
                } by {
                    if m < k {
                        assert(self.individuals@[m] == prior.individuals@[m]);
                    }
                }
                assert forall|m: int| 0 <= m < n implies {
                    let now = #[trigger] self.individuals@[m];
                    let was = old(self).individuals@[m];
                    &&& event == Event::Birth ==> now.death_neighbor_weight
                        == was.death_neighbor_weight
                    &&& event == Event::Death ==> now.birth_neighbor_weight
                        == was.birth_neighbor_weight
                    &&& now.p_birth == was.p_birth
                    &&& now.p_death == was.p_death
                    &&& now.p_move == was.p_move
                } by {
                    if m != k {
                        assert(self.individuals@[m] == prior.individuals@[m]);
                    }
                }
            }
            k += 1;
        }
        proof {
            if old(self).indexed() {
                self.lemma_same_places(*old(self));
                assert forall|m: int| 0 <= m < n implies (
                #[trigger] self.individuals@[m]).neighbor_weight(
                    event,
                ) == self.individuals@[m].spec_neighbor_effect(self.species_of(m), event) by {
                    self.lemma_sparse_is_dense(m, event);
                    assert(self.individuals@[m].same_place(old(self).individuals@[m]));
                    assert(self.spec_dense_effect(m, event) == old(self).spec_dense_effect(m, event));
                }
            }
        }
    }

    /// Updates the birth, death and move intensities of every individual
    /// from its species' base rates and its stored neighbour effects.
    pub fn update_probabilities(&mut self)
        requires
            old(self).wf(),
            forall|k: int|
                0 <= k < old(self).individuals@.len() ==> (
                #[trigger] old(self).individuals@[k]).birth_neighbor_weight <= EFFECT_MAX
                    && old(self).individuals@[k].death_neighbor_weight <= EFFECT_MAX,
        ensures
            final(self).same_places(*old(self)),
            forall|k: int|
                0 <= k < final(self).individuals@.len() ==> {
                    let now = #[trigger] final(self).individuals@[k];
                    let was = old(self).individuals@[k];
                    let species = final(self).species_of(k);
                    &&& now.p_birth == species.b0 + was.birth_neighbor_weight
                    &&& now.p_death == species.d0 + was.death_neighbor_weight
                    &&& now.p_move == species.mintegral
                    &&& now.birth_neighbor_weight == was.birth_neighbor_weight
                    &&& now.death_neighbor_weight == was.death_neighbor_weight
                },
    {
        let n: usize = self.individuals.len();
        let mut k: usize = 0;
        while k < n
            invariant
                n == self.individuals@.len(),
                k <= n,
                old(self).wf(),
                forall|m: int|
                    0 <= m < n ==> (#[trigger] old(self).individuals@[m]).birth_neighbor_weight
                        <= EFFECT_MAX && old(self).individuals@[m].death_neighbor_weight
                        <= EFFECT_MAX,
                self.same_places(*old(self)),
                forall|m: int| k <= m < n ==> self.individuals@[m] == old(self).individuals@[m],
                forall|m: int|
                    0 <= m < k ==> {
                        let now = #[trigger] self.individuals@[m];
                        let was = old(self).individuals@[m];
                        let species = self.species_of(m);
                        &&& now.p_birth == species.b0 + was.birth_neighbor_weight
                        &&& now.p_death == species.d0 + was.death_neighbor_weight
                        &&& now.p_move == species.mintegral
                        &&& now.birth_neighbor_weight == was.birth_neighbor_weight
                        &&& now.death_neighbor_weight == was.death_neighbor_weight
                    },
            decreases n - k,
        {
            let ghost prior = self.individuals@;
            assert(old(self).individuals@[k as int].settled(self.species_list@.len() as int));
            let owner: usize = self.individuals[k].species;
            self.individuals[k].update_probabilities(&self.species_list[owner]);
            proof {
                assert forall|m: int| 0 <= m < n implies (
                #[trigger] self.individuals@[m]).same_place(
                    old(self).individuals@[m],
                ) by {
                    if m != k {
                        assert(self.individuals@[m] == prior[m]);
                        assert(prior[m].same_place(old(self).individuals@[m]));
                    }
                }
                assert forall|m: int| 0 <= m < k + 1 implies {
                    let now = #[trigger] self.individuals@[m];
                    let was = old(self).individuals@[m];
                    let species = self.species_of(m);
                    &&& now.p_birth == species.b0 + was.birth_neighbor_weight
                    &&& now.p_death == species.d0 + was.death_neighbor_weight
                    &&& now.p_move == species.mintegral
                    &&& now.birth_neighbor_weight == was.birth_neighbor_weight
                    &&& now.death_neighbor_weight == was.death_neighbor_weight
                } by {
                    if m < k {
                        assert(self.individuals@[m] == prior[m]);
                    }
                }
            }
            k += 1;
        }
    }
}

impl Population {
    /// Collects the stored intensities of a channel as sampling weights and
    /// adds them up; `None` when their sum does not fit `u64`.
    fn channel_total(&self, channel: Channel) -> (r: Option<(Vec<u64>, u64)>)
        ensures
            r is None <==> spec_sum(self.stored(channel)) > u64::MAX,
            r matches Some((weights, sum)) ==> {
                &&& sum == spec_sum(self.stored(channel))
                &&& sum == spec_total(weights@)
                &&& weights@.len() == self.individuals@.len()
                &&& forall|k: int|
                    0 <= k < weights@.len() ==> #[trigger] weights@[k]
                        == self.individuals@[k].intensity(channel)
            },
    {
        let n: usize = self.individuals.len();
        let mut weights: Vec<u64> = Vec::new();
        let mut k: usize = 0;
        while k < n
            invariant
                n == self.individuals@.len(),
                k <= n,
                weights@.len() == k,
                forall|m: int|
                    0 <= m < k ==> #[trigger] weights@[m] == self.individuals@[m].intensity(
                        channel,
                    ),
            decreases n - k,
        {
            let p: u128 = self.individuals[k].stored_intensity(channel);
            if p > u64::MAX as u128 {
                proof {
                    lemma_sum_covers(self.stored(channel), k as int);
                }
                return None;
            }
            weights.push(p as u64);
            k += 1;
        }
        proof {
            lemma_total_is_sum(weights@, self.stored(channel));
        }
        match total_weight(&weights) {
            Some(sum) => Some((weights, sum)),
            None => None,
        }
    }

    /// In a well-formed population no intensity that is due is negative.
    pub proof fn lemma_due_nonnegative(&self, channel: Channel)
        requires
            self.wf(),
        ensures
            forall|k: int| 0 <= k < self.due(channel).len() ==> self.due(channel)[k] >= 0,
    {
        assert forall|k: int| 0 <= k < self.due(channel).len() implies self.due(channel)[k]
            >= 0 by {
            let individual = self.individuals@[k];
            let species = self.species_of(k);
            assert(individual.settled(self.species_list@.len() as int));
            assert(species.valid());
            lemma_weight_sum_nonnegative(individual.neighbors(Event::Birth));
            lemma_weight_sum_nonnegative(individual.neighbors(Event::Death));
            lemma_effect_nonnegative(
                species.b1 as int,
                spec_weight_sum(individual.neighbors(Event::Birth)),
                species.birth_norm,
            );
            lemma_effect_nonnegative(
                species.d1 as int,
                spec_weight_sum(individual.neighbors(Event::Death)),
                species.death_norm,
            );
        }
    }

    /// In a well-formed population the total rate is not negative.
    pub proof fn lemma_rate_nonnegative(&self)
        requires
            self.wf(),
        ensures
            self.spec_total_rate() >= 0,
    {
        self.lemma_due_nonnegative(Channel::Birth);
        self.lemma_due_nonnegative(Channel::Death);
        self.lemma_due_nonnegative(Channel::Move);
        lemma_sum_nonnegative(self.due(Channel::Birth));
        lemma_sum_nonnegative(self.due(Channel::Death));
        lemma_sum_nonnegative(self.due(Channel::Move));
    }

    /// Adds up the intensities that the species and the neighbour lists
    /// give, over all three channels, without storing anything; `None` when
    /// the total does not fit `u64`.
    pub fn due_rate(&self) -> (r: Option<u64>)
        requires
            self.wf(),
        ensures
            r is None <==> self.spec_total_rate() > u64::MAX,
            r matches Some(rate) ==> rate == self.spec_total_rate(),
    {
        let n: usize = self.individuals.len();
        let ghost births = self.due(Channel::Birth);
        let ghost deaths = self.due(Channel::Death);
        let ghost moves = self.due(Channel::Move);
        proof {
            self.lemma_due_nonnegative(Channel::Birth);
            self.lemma_due_nonnegative(Channel::Death);
            self.lemma_due_nonnegative(Channel::Move);
        }
        let mut acc: u128 = 0;
        let mut i: usize = 0;
        while i < n
            invariant
                n == self.individuals@.len(),
                i <= n,
                self.wf(),
                births == self.due(Channel::Birth),
                deaths == self.due(Channel::Death),
                moves == self.due(Channel::Move),
                forall|k: int| 0 <= k < births.len() ==> births[k] >= 0,
                forall|k: int| 0 <= k < deaths.len() ==> deaths[k] >= 0,
                forall|k: int| 0 <= k < moves.len() ==> moves[k] >= 0,
                acc <= u64::MAX,
                acc == spec_sum(births.take(i as int)) + spec_sum(deaths.take(i as int)) + spec_sum(
                    moves.take(i as int),
                ),
            decreases n - i,
        {
            assert(self.individuals@[i as int].settled(self.species_list@.len() as int));
            let individual: &Individual = &self.individuals[i];
            let species: &Species = &self.species_list[individual.species];
            let birth: u128 = (species.b0 as u128) + individual.neighbor_effect(
                species,
                Event::Birth,
            );
            let death: u128 = (species.d0 as u128) + individual.neighbor_effect(
                species,
                Event::Death,
            );
            let next: u128 = acc + birth + death + (species.mintegral as u128);
            proof {
                assert(births.take(i + 1).drop_last() =~= births.take(i as int));
                assert(deaths.take(i + 1).drop_last() =~= deaths.take(i as int));
                assert(moves.take(i + 1).drop_last() =~= moves.take(i as int));
                assert(births.take(i + 1).last() == birth);
                assert(deaths.take(i + 1).last() == death);
                assert(moves.take(i + 1).last() == species.mintegral);
            }
            if next > u64::MAX as u128 {
                proof {
                    lemma_sum_prefix(births, i + 1);
                    lemma_sum_prefix(deaths, i + 1);
                    lemma_sum_prefix(moves, i + 1);
                }
                return None;
            }
            acc = next;
            i += 1;
        }
        proof {
            assert(births.take(n as int) =~= births);
            assert(deaths.take(n as int) =~= deaths);
            assert(moves.take(n as int) =~= moves);
        }
        Some(acc as u64)
    }

    /// Picks the next event and its actor. The event is drawn among birth,
    /// death and death again, weighted by the summed birth, death and move
    /// intensities; the actor is drawn among all individuals, weighted by
    /// their own intensity for that event, or uniformly where those are all
    /// zero. Reports `None` where the total rate is zero: no event is
    /// possible.
    pub fn choose_event(&self, rng: &mut rand::rngs::StdRng) -> (r: Result<
        Option<Choice>,
        SimError,
    >)
        ensures
            r is Err <==> self.spec_stored_rate() > u64::MAX,
            r matches Err(e) ==> e == SimError::RateOverflow,
            r matches Ok(None) ==> self.spec_stored_rate() == 0,
            r matches Ok(Some(choice)) ==> {
                &&& choice.rate == self.spec_stored_rate()
                &&& choice.rate > 0
                &&& choice.actor < self.individuals@.len()
                &&& choice.event == Event::Birth ==> {
                    &&& spec_sum(self.stored(Channel::Birth)) > 0
                    &&& self.individuals@[choice.actor as int].p_birth > 0
                }
                &&& choice.event == Event::Death ==> {
                    &&& spec_sum(self.stored(Channel::Death)) + spec_sum(
                        self.stored(Channel::Move),
                    ) > 0
                    &&& spec_sum(self.stored(Channel::Death)) > 0
                        ==> self.individuals@[choice.actor as int].p_death > 0
                }
            },
    {
        proof {
            lemma_sum_nonnegative(self.stored(Channel::Birth));
            lemma_sum_nonnegative(self.stored(Channel::Death));
            lemma_sum_nonnegative(self.stored(Channel::Move));
        }
        let (births, birth_sum): (Vec<u64>, u64) = match self.channel_total(Channel::Birth) {
            Some(found) => found,
            None => {
                return Err(SimError::RateOverflow);
            },
        };
        let (deaths, death_sum): (Vec<u64>, u64) = match self.channel_total(Channel::Death) {
            Some(found) => found,
            None => {
                return Err(SimError::RateOverflow);
            },
        };
        let move_sum: u64 = match self.channel_total(Channel::Move) {
            Some(found) => found.1,
            None => {
                return Err(SimError::RateOverflow);
            },
        };
        let total: u128 = (birth_sum as u128) + (death_sum as u128) + (move_sum as u128);
        if total > u64::MAX as u128 {
            return Err(SimError::RateOverflow);
        }
        if total == 0 {
            return Ok(None);
        }
        let mut slots: Vec<u64> = Vec::new();
        slots.push(birth_sum);
        slots.push(death_sum);
        slots.push(move_sum);
        proof {
            let two = slots@.drop_last();
            let one = two.drop_last();
            assert(one.drop_last() =~= Seq::<u64>::empty());
            assert(spec_total(one.drop_last()) == 0);
            assert(one.last() == birth_sum);
            assert(two.last() == death_sum);
            assert(slots@.last() == move_sum);
            assert(spec_total(one) == birth_sum);
            assert(spec_total(two) == birth_sum + death_sum);
            assert(spec_total(slots@) == total);
        }
        let slot: usize = match weighted_sample(&slots, rng) {
            Some(found) => found,
            None => {
                return Ok(None);
            },
        };
        let event: Event = event_of_slot(slot);
        let drawn: Option<usize> = match event {
            Event::Birth => weighted_sample(&births, rng),
            Event::Death => weighted_sample(&deaths, rng),
        };
        match drawn {
            Some(actor) => Ok(Some(Choice { event, actor, rate: total as u64 })),
            None => Ok(None),
        }
    }

    /// Advances the clock by the waiting time that `draw`, a positive draw
    /// from the standard exponential distribution, gives under the total
    /// rate `p_total`. Refuses a zero rate or draw, and a wait that would
    /// carry the clock past its end; the population is then left as it was.
    pub fn increment_time(&mut self, p_total: u64, draw: u64) -> (r: Result<(), SimError>)
        ensures
            r is Err ==> *final(self) == *old(self),
            r matches Err(e) ==> e == SimError::InvalidDraw || e == SimError::TimeOverflow,
            r == Err::<(), SimError>(SimError::InvalidDraw) <==> (p_total == 0 || draw == 0),
            r == Err::<(), SimError>(SimError::TimeOverflow) <==> (p_total > 0 && draw > 0
                && old(self).t + spec_waiting_time(p_total, draw) > u64::MAX),
            r is Ok ==> {
                &&& final(self).t == old(self).t + spec_waiting_time(p_total, draw)
                &&& final(self).t > old(self).t
                &&& final(self).species_list == old(self).species_list
                &&& final(self).individuals == old(self).individuals
                &&& final(self).size == old(self).size
                &&& final(self).history == old(self).history
                &&& old(self).wf() ==> final(self).wf()
                &&& old(self).indexed() ==> final(self).indexed()
            },
    {
        if p_total == 0 || draw == 0 {
            return Err(SimError::InvalidDraw);
        }
        let wait: u128 = waiting_time(p_total, draw);
        proof {
            lemma_waiting_time_positive(p_total, draw);
        }
        if wait > (u64::MAX - self.t) as u128 {
            return Err(SimError::TimeOverflow);
        }
        self.t = self.t + wait as u64;
        Ok(())
    }
}

} // verus!
