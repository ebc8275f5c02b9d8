//! The population: the species catalogue, the live individuals, the clock
//! and the history of checkpoints.

use crate::geometry::UNIT;
use crate::index::{
    lemma_neighbors_bounded, lemma_neighbors_complete, lemma_neighbors_sound, spec_entry,
    spec_in_reach, spec_neighbors, spec_sites, update_distances,
};
use crate::individual::{Individual, Site};
use crate::sampling::uniform_below;
use crate::species::{Event, Species};
use vstd::prelude::*;

verus! {

/// Why an operation of the simulator was refused.
#[derive(Clone, Copy, Debug, PartialEq, Eq, Structural)]
pub enum SimError {
    /// The species list is empty, a parameter is negative or out of bounds,
    /// a kernel table is unusable, or the founders cannot be counted.
    MalformedInput,
    /// The total event rate does not fit the rate type.
    RateOverflow,
    /// The clock would run past its last representable instant.
    TimeOverflow,
    /// No further identifier can be assigned.
    IdOverflow,
    /// A waiting-time draw or a rate was zero.
    InvalidDraw,
}

/// The positions of all live individuals at one instant, grouped by species
/// in the catalogue's order.
#[derive(Clone, Debug)]
pub struct Checkpoint {
    pub time: u64,
    pub species_individuals: Vec<(Vec<u64>, Vec<u64>)>,
}

/// The checkpoints recorded so far, oldest first.
#[derive(Clone, Debug)]
pub struct History {
    pub checkpoints: Vec<Checkpoint>,
}

/// A population of individuals of several species on the torus.
#[derive(Clone, Debug)]
pub struct Population {
    pub species_list: Vec<Species>,
    pub individuals: Vec<Individual>,
    pub size: usize,
    pub history: History,
    pub t: u64,
}

/// The number of founders that a catalogue asks for.
pub open spec fn spec_census(species: Seq<Species>) -> int
    decreases species.len(),
{
    if species.len() == 0 {
        0
    } else {
        spec_census(species.drop_last()) + species.last().c1
    }
}

/// The species of each founder, in the order in which they are created:
/// catalogue order, each species as often as its count says.
pub open spec fn spec_founders(species: Seq<Species>) -> Seq<usize>
    decreases species.len(),
{
    if species.len() == 0 {
        Seq::empty()
    } else {
        spec_founders(species.drop_last()) + Seq::new(
            species.last().c1 as nat,
            |i: int| (species.len() - 1) as usize,
        )
    }
}

/// The species of each individual, in the population's order.
pub open spec fn spec_owners(individuals: Seq<Individual>) -> Seq<usize> {
    Seq::new(individuals.len(), |i: int| individuals[i].species)
}

/// The identifiers grow along the population's order.
pub open spec fn ids_increasing(individuals: Seq<Individual>) -> bool {
    forall|i: int, j: int| 0 <= i < j < individuals.len() ==> individuals[i].id < individuals[j].id
}

/// The x coordinates of the individuals of species `s`, in order.
pub open spec fn spec_xs(individuals: Seq<Individual>, s: int) -> Seq<u64>
    decreases individuals.len(),
{
    if individuals.len() == 0 {
        Seq::empty()
    } else {
        let rest = spec_xs(individuals.drop_last(), s);
        if individuals.last().species == s {
            rest.push(individuals.last().x_coord)
        } else {
            rest
        }
    }
}

/// The y coordinates of the individuals of species `s`, in order.
pub open spec fn spec_ys(individuals: Seq<Individual>, s: int) -> Seq<u64>
    decreases individuals.len(),
{
    if individuals.len() == 0 {
        Seq::empty()
    } else {
        let rest = spec_ys(individuals.drop_last(), s);
        if individuals.last().species == s {
            rest.push(individuals.last().y_coord)
        } else {
            rest
        }
    }
}

/// The coordinate arrays of every species of a catalogue of `n` species.
pub open spec fn spec_groups(individuals: Seq<Individual>, n: int) -> Seq<(Seq<u64>, Seq<u64>)> {
    Seq::new(n as nat, |s: int| (spec_xs(individuals, s), spec_ys(individuals, s)))
}

/// The founders asked for by a prefix of a catalogue of non-negative counts
/// are no more than those asked for by the whole.
pub proof fn lemma_census_prefix(species: Seq<Species>, k: int)
    requires
        0 <= k <= species.len(),
        forall|i: int| 0 <= i < species.len() ==> (#[trigger] species[i]).c1 >= 0,
    ensures
        0 <= spec_census(species.take(k)) <= spec_census(species),
    decreases species.len(),
{
    if k == species.len() {
        assert(species.take(k) =~= species);
        if k > 0 {
            lemma_census_prefix(species.drop_last(), k - 1);
        }
    } else {
        assert(species.drop_last().take(k) =~= species.take(k));
        lemma_census_prefix(species.drop_last(), k);
    }
}

impl View for Checkpoint {
    type V = (u64, Seq<(Seq<u64>, Seq<u64>)>);

    /// The instant and, for each species, its two coordinate arrays.
    open spec fn view(&self) -> (u64, Seq<(Seq<u64>, Seq<u64>)>) {
        (
            self.time,
            Seq::new(
                self.species_individuals@.len(),
                |s: int| (self.species_individuals@[s].0@, self.species_individuals@[s].1@),
            ),
        )
    }
}

impl History {
    /// The checkpoints are in strictly increasing order of time and none is
    /// later than `now`.
    pub open spec fn chronological(&self, now: u64) -> bool {
        &&& forall|i: int, j: int|
            0 <= i < j < self.checkpoints@.len() ==> self.checkpoints@[i].time
                < self.checkpoints@[j].time
        &&& forall|i: int|
            0 <= i < self.checkpoints@.len() ==> (#[trigger] self.checkpoints@[i]).time <= now
    }
}

impl Population {
    /// The species of the individual at position `i`.
    pub open spec fn species_of(&self, i: int) -> Species {
        self.species_list@[self.individuals@[i].species as int]
    }

    /// The sites of the live individuals, in order.
    pub open spec fn sites(&self) -> Seq<Site> {
        spec_sites(self.individuals@)
    }

    /// The population is well formed: the catalogue is not empty and every
    /// species acceptable; `size` counts the individuals; each belongs to a
    /// species of the catalogue, lies in the habitat and stores no weight
    /// above one; identifiers grow along the list; the history is in order.
    pub open spec fn wf(&self) -> bool {
        &&& self.species_list@.len() > 0
        &&& forall|k: int|
            0 <= k < self.species_list@.len() ==> (#[trigger] self.species_list@[k]).valid()
        &&& self.size == self.individuals@.len()
        &&& forall|i: int|
            0 <= i < self.individuals@.len() ==> (#[trigger] self.individuals@[i]).settled(
                self.species_list@.len() as int,
            )
        &&& ids_increasing(self.individuals@)
        &&& self.history.chronological(self.t)
    }

    /// The spatial index is consistent: each individual's two lists are the
    /// ones a fresh pass over the whole population would build.
    pub open spec fn indexed(&self) -> bool {
        forall|i: int, kind: Event|
            0 <= i < self.individuals@.len() ==> (#[trigger] self.individuals@[i].neighbors(kind))
                == spec_neighbors(self.sites()[i], self.species_of(i), self.sites(), kind)
    }

    /// What a consistent index means: the individual at position `i` keeps
    /// an entry for the one at position `j` exactly when `j` is another
    /// individual, the kernel of `i`'s species is switched on and the two
    /// are nearer than its radius.
    pub proof fn lemma_index_invariant(&self, i: int, j: int, kind: Event)
        requires
            self.wf(),
            self.indexed(),
            0 <= i < self.individuals@.len(),
            0 <= j < self.individuals@.len(),
        ensures
            (exists|e: int|
                0 <= e < self.individuals@[i].neighbors(kind).len()
                    && (#[trigger] self.individuals@[i].neighbors(kind)[e]).0
                    == self.individuals@[j].id) <==> (i != j && self.species_of(i).spec_reaches(
                kind,
                self.sites()[i].spec_distance_sq(self.sites()[j]),
            )),
    {
        let me = self.sites()[i];
        let species = self.species_of(i);
        let sites = self.sites();
        let list = self.individuals@[i].neighbors(kind);
        assert(list == spec_neighbors(me, species, sites, kind));
        assert(i != j ==> self.individuals@[i].id != self.individuals@[j].id) by {
            if i < j {
                assert(self.individuals@[i].id < self.individuals@[j].id);
            } else if j < i {
                assert(self.individuals@[j].id < self.individuals@[i].id);
            }
        }
        if spec_in_reach(me, species, sites[j], kind) {
            lemma_neighbors_complete(me, species, sites, kind, j);
            let entry = spec_entry(me, species, sites[j], kind);
            let at = choose|e: int| 0 <= e < list.len() && list[e] == entry;
            assert(list[at].0 == self.individuals@[j].id);
        }
        if exists|e: int| 0 <= e < list.len() && (#[trigger] list[e]).0 == self.individuals@[j].id {
            let at = choose|e: int| 0 <= e < list.len() && (#[trigger] list[e]).0
                == self.individuals@[j].id;
            assert(list.contains(list[at]));
            lemma_neighbors_sound(me, species, sites, kind, list[at]);
            let k = choose|k: int|
                0 <= k < sites.len() && spec_in_reach(me, species, #[trigger] sites[k], kind)
                    && list[at] == spec_entry(me, species, sites[k], kind);
            assert(sites[k].id == self.individuals@[j].id);
            if k < j {
                assert(self.individuals@[k].id < self.individuals@[j].id);
            } else if j < k {
                assert(self.individuals@[j].id < self.individuals@[k].id);
            }
            assert(k == j);
        }
    }

    /// Creates the founders of each species at uniformly random positions,
    /// with identifiers counting from zero, empty neighbour lists and a
    /// history that holds one checkpoint, of the founders at time zero. Refuses an empty
    /// catalogue, an unacceptable species and a census beyond `usize`.
    pub fn new(species_list: Vec<Species>, rng: &mut rand::rngs::StdRng) -> (r: Result<
        Population,
        SimError,
    >)
        ensures
            r is Err <==> (species_list@.len() == 0 || (exists|k: int|
                0 <= k < species_list@.len() && !(#[trigger] species_list@[k]).valid())
                || spec_census(species_list@) > usize::MAX),
            r matches Err(e) ==> e == SimError::MalformedInput,
            r matches Ok(p) ==> {
                &&& p.wf()
                &&& p.species_list@ == species_list@
                &&& p.size == spec_census(species_list@)
                &&& spec_owners(p.individuals@) == spec_founders(species_list@)
                &&& forall|i: int|
                    0 <= i < p.individuals@.len() ==> {
                        &&& (#[trigger] p.individuals@[i]).id == i
                        &&& p.individuals@[i].birth_distances@.len() == 0
                        &&& p.individuals@[i].death_distances@.len() == 0
                        &&& p.individuals@[i].p_birth == 0
                        &&& p.individuals@[i].p_death == 0
                        &&& p.individuals@[i].p_move == 0
                        &&& p.individuals@[i].birth_neighbor_weight == 0
                        &&& p.individuals@[i].death_neighbor_weight == 0
                    }
                &&& p.t == 0
                &&& p.history.checkpoints@.len() == 1
                &&& p.history.checkpoints@[0]@ == p.spec_checkpoint()
            },
    {
        let n: usize = species_list.len();
        if n == 0 {
            return Err(SimError::MalformedInput);
        }
        let mut k: usize = 0;
        while k < n
            invariant
                n == species_list@.len(),
                k <= n,
                forall|i: int| 0 <= i < k ==> (#[trigger] species_list@[i]).valid(),
            decreases n - k,
        {
            if !species_list[k].is_valid() {
                return Err(SimError::MalformedInput);
            }
            k += 1;
        }
        let mut census: usize = 0;
        k = 0;
        while k < n
            invariant
                n == species_list@.len(),
                k <= n,
                forall|i: int| 0 <= i < n ==> (#[trigger] species_list@[i]).valid(),
                census == spec_census(species_list@.take(k as int)),
            decreases n - k,
        {
            proof {
                assert(species_list@.take(k + 1).drop_last() =~= species_list@.take(k as int));
                lemma_census_prefix(species_list@, k + 1);
            }
            let count: u64 = species_list[k].c1 as u64;
            if count > (usize::MAX - census) as u64 {
                return Err(SimError::MalformedInput);
            }
            census = census + count as usize;
            k += 1;
        }
        proof {
            assert(species_list@.take(n as int) =~= species_list@);
        }
        let mut individuals: Vec<Individual> = Vec::new();
        let mut idx: usize = 0;
        let mut s: usize = 0;
        while s < n
            invariant
                n == species_list@.len(),
                s <= n,
                forall|i: int| 0 <= i < n ==> (#[trigger] species_list@[i]).valid(),
                spec_census(species_list@) <= usize::MAX,
                idx == spec_census(species_list@.take(s as int)),
                individuals@.len() == idx,
                spec_owners(individuals@) == spec_founders(species_list@.take(s as int)),
                forall|i: int|
                    0 <= i < individuals@.len() ==> {
                        &&& (#[trigger] individuals@[i]).id == i
                        &&& individuals@[i].settled(n as int)
                        &&& individuals@[i].birth_distances@.len() == 0
                        &&& individuals@[i].death_distances@.len() == 0
                        &&& individuals@[i].p_birth == 0
                        &&& individuals@[i].p_death == 0
                        &&& individuals@[i].p_move == 0
                        &&& individuals@[i].birth_neighbor_weight == 0
                        &&& individuals@[i].death_neighbor_weight == 0
                    },
            decreases n - s,
        {
            let count: u64 = species_list[s].c1 as u64;
            let ghost before = individuals@;
            let ghost base = idx;
            proof {
                assert(species_list@.take(s + 1).drop_last() =~= species_list@.take(s as int));
                lemma_census_prefix(species_list@, s + 1);
            }
            let mut j: u64 = 0;
            while j < count
                invariant
                    n == species_list@.len(),
                    s < n,
                    j <= count,
                    count == species_list@[s as int].c1,
                    base + count <= usize::MAX,
                    idx == base + j,
                    individuals@.len() == idx,
                    spec_owners(individuals@) == spec_owners(before) + Seq::new(
                        j as nat,
                        |i: int| s,
                    ),
                    forall|i: int|
                        0 <= i < individuals@.len() ==> {
                            &&& (#[trigger] individuals@[i]).id == i
                            &&& individuals@[i].settled(n as int)
                            &&& individuals@[i].birth_distances@.len() == 0
                            &&& individuals@[i].death_distances@.len() == 0
                            &&& individuals@[i].p_birth == 0
                            &&& individuals@[i].p_death == 0
                            &&& individuals@[i].p_move == 0
                            &&& individuals@[i].birth_neighbor_weight == 0
                            &&& individuals@[i].death_neighbor_weight == 0
                        },
                decreases count - j,
            {
                let x: u64 = uniform_below(UNIT, rng);
                let y: u64 = uniform_below(UNIT, rng);
                let ghost prior = individuals@;
                individuals.push(Individual::new(idx, s, x, y));
                proof {
                    assert(spec_owners(individuals@) =~= spec_owners(prior).push(s));
                    assert(spec_owners(individuals@) =~= spec_owners(before) + Seq::new(
                        (j + 1) as nat,
                        |i: int| s,
                    ));
                }
                idx += 1;
                j += 1;
            }
            s += 1;
        }
        proof {
            assert(species_list@.take(n as int) =~= species_list@);
        }
        let history = History { checkpoints: Vec::new() };
        let mut population = Population { species_list, individuals, size: idx, history, t: 0 };
        let initial_checkpoint: Checkpoint = population.get_checkpoint();
        population.history.checkpoints.push(initial_checkpoint);
        Ok(population)
    }

    /// Builds every individual's two neighbour lists from scratch, in one
    /// pass over all ordered pairs. Nothing else changes.
    pub fn compute_initial_distances(&mut self)
        requires
            old(self).wf(),
        ensures
            final(self).wf(),
            final(self).indexed(),
            final(self).species_list@ == old(self).species_list@,
            final(self).individuals@.len() == old(self).individuals@.len(),
            forall|i: int|
                0 <= i < final(self).individuals@.len() ==> (
                #[trigger] final(self).individuals@[i]).same_state(old(self).individuals@[i]),
            final(self).size == old(self).size,
            final(self).t == old(self).t,
            final(self).history == old(self).history,
    {
        let n: usize = self.individuals.len();
        let ghost sites = self.sites();
        let mut i: usize = 0;
        while i < n
            invariant
                n == self.individuals@.len(),
                n == old(self).individuals@.len(),
                i <= n,
                self.species_list@ == old(self).species_list@,
                self.size == old(self).size,
                self.t == old(self).t,
                self.history == old(self).history,
                old(self).wf(),
                sites == spec_sites(old(self).individuals@),
                forall|k: int|
                    0 <= k < n ==> (#[trigger] self.individuals@[k]).same_state(
                        old(self).individuals@[k],
                    ),
                forall|k: int| i <= k < n ==> self.individuals@[k] == old(self).individuals@[k],
                forall|k: int, kind: Event|
                    0 <= k < i ==> (#[trigger] self.individuals@[k].neighbors(kind))
                        == spec_neighbors(
                        sites[k],
                        old(self).species_list@[old(self).individuals@[k].species as int],
                        sites,
                        kind,
                    ),
            decreases n - i,
        {
            proof {
                assert(self.sites() =~= sites);
                assert(self.individuals@[i as int].same_state(old(self).individuals@[i as int]));
                assert forall|k: int| 0 <= k < n implies (
                #[trigger] self.individuals@[k]).spec_site().inhabits() by {
                    assert(self.individuals@[k].same_state(old(self).individuals@[k]));
                    assert(old(self).individuals@[k].settled(self.species_list@.len() as int));
                }
                assert(old(self).individuals@[i as int].settled(self.species_list@.len() as int));
            }
            let ghost prior = self.individuals@;
            self.rebuild_lists(i);
            proof {
                assert forall|k: int, kind: Event| 0 <= k < i + 1 implies (
                #[trigger] self.individuals@[k].neighbors(kind)) == spec_neighbors(
                    sites[k],
                    old(self).species_list@[old(self).individuals@[k].species as int],
                    sites,
                    kind,
                ) by {
                    if k < i {
                        assert(self.individuals@[k] == prior[k]);
                        assert(prior[k].neighbors(kind) == spec_neighbors(
                            sites[k],
                            old(self).species_list@[old(self).individuals@[k].species as int],
                            sites,
                            kind,
                        ));
                    }
                }
            }
            i += 1;
        }
        proof {
            assert(self.sites() =~= sites);
            assert forall|k: int| 0 <= k < n implies (#[trigger] self.individuals@[k]).settled(
                self.species_list@.len() as int,
            ) by {
                assert(self.individuals@[k].same_state(old(self).individuals@[k]));
                assert(old(self).individuals@[k].settled(self.species_list@.len() as int));
                let species = old(self).species_list@[old(self).individuals@[k].species as int];
                assert(species.valid());
                assert forall|m: int| 0 <= m < sites.len() implies (
                #[trigger] sites[m]).inhabits() by {
                    assert(old(self).individuals@[m].settled(self.species_list@.len() as int));
                }
                lemma_neighbors_bounded(sites[k], species, sites, Event::Birth);
                lemma_neighbors_bounded(sites[k], species, sites, Event::Death);
                assert(self.individuals@[k].neighbors(Event::Birth) == spec_neighbors(
                    sites[k],
                    species,
                    sites,
                    Event::Birth,
                ));
                assert(self.individuals@[k].neighbors(Event::Death) == spec_neighbors(
                    sites[k],
                    species,
                    sites,
                    Event::Death,
                ));
            }
            assert forall|a: int, b: int| 0 <= a < b < n implies self.individuals@[a].id
                < self.individuals@[b].id by {
                assert(self.individuals@[a].same_state(old(self).individuals@[a]));
                assert(self.individuals@[b].same_state(old(self).individuals@[b]));
            }
            assert forall|k: int, kind: Event| 0 <= k < n implies (
            #[trigger] self.individuals@[k].neighbors(kind)) == spec_neighbors(
                self.sites()[k],
                self.species_of(k),
                self.sites(),
                kind,
            ) by {
                assert(self.individuals@[k].same_state(old(self).individuals@[k]));
            }
        }
    }

    /// Replaces the two neighbour lists of the individual at position `i`
    /// by the ones a pass over the whole population builds.
    fn rebuild_lists(&mut self, i: usize)
        requires
            i < old(self).individuals@.len(),
            old(self).species_list@.len() > 0,
            forall|k: int|
                0 <= k < old(self).species_list@.len() ==> (
                #[trigger] old(self).species_list@[k]).valid(),
            forall|k: int|
                0 <= k < old(self).individuals@.len() ==> (
                #[trigger] old(self).individuals@[k]).spec_site().inhabits(),
            old(self).individuals@[i as int].species < old(self).species_list@.len(),
        ensures
            final(self).species_list@ == old(self).species_list@,
            final(self).size == old(self).size,
            final(self).t == old(self).t,
            final(self).history == old(self).history,
            final(self).individuals@.len() == old(self).individuals@.len(),
            forall|k: int|
                0 <= k < old(self).individuals@.len() && k != i ==> final(self).individuals@[k]
                    == old(self).individuals@[k],
            final(self).individuals@[i as int].same_state(old(self).individuals@[i as int]),
            forall|kind: Event|
                (#[trigger] final(self).individuals@[i as int].neighbors(kind)) == spec_neighbors(
                    old(self).sites()[i as int],
                    old(self).species_of(i as int),
                    old(self).sites(),
                    kind,
                ),
    {
        let n: usize = self.individuals.len();
        let me: Site = self.individuals[i].site();
        let owner: usize = self.individuals[i].species;
        let ghost sites = self.sites();
        let ghost species = self.species_list@[owner as int];
        self.individuals[i].birth_distances = Vec::new();
        self.individuals[i].death_distances = Vec::new();
        let mut j: usize = 0;
        while j < n
            invariant
                n == self.individuals@.len(),
                n == old(self).individuals@.len(),
                i < n,
                j <= n,
                owner < self.species_list@.len(),
                species == self.species_list@[owner as int],
                species.valid(),
                me == sites[i as int],
                me.inhabits(),
                sites == spec_sites(old(self).individuals@),
                self.species_list@ == old(self).species_list@,
                self.size == old(self).size,
                self.t == old(self).t,
                self.history == old(self).history,
                forall|k: int|
                    0 <= k < n && k != i ==> self.individuals@[k] == old(self).individuals@[k],
                forall|k: int|
                    0 <= k < n ==> (#[trigger] old(self).individuals@[k]).spec_site().inhabits(),
                self.individuals@[i as int].same_state(old(self).individuals@[i as int]),
                self.individuals@[i as int].birth_distances@ == spec_neighbors(
                    me,
                    species,
                    sites.take(j as int),
                    Event::Birth,
                ),
                self.individuals@[i as int].death_distances@ == spec_neighbors(
                    me,
                    species,
                    sites.take(j as int),
                    Event::Death,
                ),
            decreases n - j,
        {
            let other: Site = self.individuals[j].site();
            proof {
                assert(sites.take(j + 1).drop_last() =~= sites.take(j as int));
                assert(sites.take(j + 1).last() == sites[j as int]);
                assert(other == sites[j as int]);
                assert(old(self).individuals@[j as int].spec_site().inhabits());
            }
            if other.id != me.id {
                let d2: u64 = me.distance_sq(&other);
                let mine: &Species = &self.species_list[owner];
                update_distances(d2, &mut self.individuals[i], mine, Event::Birth, other.id);
                update_distances(d2, &mut self.individuals[i], mine, Event::Death, other.id);
            }
            j += 1;
        }
        proof {
            assert(sites.take(n as int) =~= sites);
            assert forall|kind: Event|
                (#[trigger] self.individuals@[i as int].neighbors(kind)) == spec_neighbors(
                    old(self).sites()[i as int],
                    old(self).species_of(i as int),
                    old(self).sites(),
                    kind,
                ) by {
                match kind {
                    Event::Birth => {},
                    Event::Death => {},
                }
            }
        }
    }
}

} // verus!
