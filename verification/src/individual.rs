//! An individual member of the population and its sparse neighbour lists.

use crate::geometry::{distance_sq, floor_sqrt, is_floor_sqrt, spec_distance_sq, UNIT};
use crate::species::{spec_effect, Event, Species};
use vstd::prelude::*;

verus! {

/// No neighbour effect exceeds this: the largest coefficient times the
/// largest possible sum of weights.
pub const EFFECT_MAX: u128 = 0x1000_0000_0000_0000_0000_0000_0000_0000;

/// Where an individual is and under which identifier: what the neighbour
/// lists of the others depend on.
#[derive(Clone, Copy, Debug, PartialEq, Eq, Structural)]
pub struct Site {
    pub id: usize,
    pub x: u64,
    pub y: u64,
}

/// An individual member of the population, which belongs to a species.
#[derive(Clone, Debug)]
pub struct Individual {
    pub id: usize,
    /// The position of the individual's species in the catalogue.
    pub species: usize,
    pub x_coord: u64,
    pub y_coord: u64,
    pub p_birth: u128,
    pub p_death: u128,
    pub p_move: u128,
    pub birth_neighbor_weight: u128,
    pub death_neighbor_weight: u128,
    pub birth_distances: Vec<(usize, u64)>,
    pub death_distances: Vec<(usize, u64)>,
}

/// The sum of the kernel weights of a neighbour list.
pub open spec fn spec_weight_sum(list: Seq<(usize, u64)>) -> int
    decreases list.len(),
{
    if list.len() == 0 {
        0
    } else {
        spec_weight_sum(list.drop_last()) + list.last().1
    }
}

/// No weight of the list exceeds one.
pub open spec fn weights_bounded(list: Seq<(usize, u64)>) -> bool {
    forall|k: int| 0 <= k < list.len() ==> (#[trigger] list[k]).1 <= UNIT
}

/// Computes a neighbour effect from the coefficient, the summed kernel
/// weights and the normalisation constant.
pub fn effect_of(coefficient: i64, total_weight: u128, norm: Option<u64>) -> (e: u128)
    requires
        crate::species::in_bounds(coefficient),
        total_weight <= 0xFFFF_FFFF_FFFF_FFFF * UNIT,
    ensures
        e == spec_effect(coefficient as int, total_weight as int, norm),
        e <= EFFECT_MAX,
{
    match norm {
        None => 0,
        Some(n) => {
            if n == 0 {
                0
            } else {
                proof {
                    assert(0 <= coefficient * total_weight <= 1_000_000_000_000 * (
                    0xFFFF_FFFF_FFFF_FFFF * 1_000_000)) by (nonlinear_arith)
                        requires
                            0 <= coefficient <= 1_000_000_000_000,
                            0 <= total_weight <= 0xFFFF_FFFF_FFFF_FFFF * 1_000_000,
                    ;
                    vstd::arithmetic::div_mod::lemma_div_is_ordered_by_denominator(
                        coefficient * total_weight,
                        1,
                        n as int,
                    );
                    vstd::arithmetic::div_mod::lemma_div_pos_is_pos(
                        coefficient * total_weight,
                        n as int,
                    );
                }
                (coefficient as u128) * total_weight / (n as u128)
            }
        },
    }
}

impl Site {
    /// The squared toroidal distance between two sites.
    pub open spec fn spec_distance_sq(&self, other: Site) -> int {
        spec_distance_sq(self.x, self.y, other.x, other.y)
    }

    /// The site lies in the habitat.
    pub open spec fn inhabits(&self) -> bool {
        self.x < UNIT && self.y < UNIT
    }

    /// Computes the squared toroidal distance between two sites.
    pub fn distance_sq(&self, other: &Site) -> (r: u64)
        requires
            self.inhabits(),
            other.inhabits(),
        ensures
            r == self.spec_distance_sq(*other),
    {
        distance_sq(self.x, self.y, other.x, other.y)
    }
}

impl Individual {
    /// The individual's site.
    pub open spec fn spec_site(&self) -> Site {
        Site { id: self.id, x: self.x_coord, y: self.y_coord }
    }

    /// The neighbour list of an event kind.
    pub open spec fn neighbors(&self, kind: Event) -> Seq<(usize, u64)> {
        match kind {
            Event::Birth => self.birth_distances@,
            Event::Death => self.death_distances@,
        }
    }

    /// The stored neighbour effect of an event kind.
    pub open spec fn neighbor_weight(&self, kind: Event) -> u128 {
        match kind {
            Event::Birth => self.birth_neighbor_weight,
            Event::Death => self.death_neighbor_weight,
        }
    }

    /// No stored kernel weight exceeds one.
    pub open spec fn bounded(&self) -> bool {
        weights_bounded(self.birth_distances@) && weights_bounded(self.death_distances@)
    }

    /// The neighbour effect that the lists and the species give.
    pub open spec fn spec_neighbor_effect(&self, species: Species, kind: Event) -> int {
        spec_effect(
            species.coefficient(kind) as int,
            spec_weight_sum(self.neighbors(kind)),
            species.norm(kind),
        )
    }

    /// The individual agrees with `other` on everything but the neighbour
    /// effects and the intensities.
    pub open spec fn same_place(&self, other: Individual) -> bool {
        &&& self.id == other.id
        &&& self.species == other.species
        &&& self.x_coord == other.x_coord
        &&& self.y_coord == other.y_coord
        &&& self.birth_distances@ == other.birth_distances@
        &&& self.death_distances@ == other.death_distances@
    }

    /// The individual agrees with `other` on everything but the two
    /// neighbour lists.
    pub open spec fn same_state(&self, other: Individual) -> bool {
        &&& self.id == other.id
        &&& self.species == other.species
        &&& self.x_coord == other.x_coord
        &&& self.y_coord == other.y_coord
        &&& self.p_birth == other.p_birth
        &&& self.p_death == other.p_death
        &&& self.p_move == other.p_move
        &&& self.birth_neighbor_weight == other.birth_neighbor_weight
        &&& self.death_neighbor_weight == other.death_neighbor_weight
    }

    /// The individual belongs to one of `catalogue` species, lies in the
    /// habitat and stores no kernel weight above one.
    pub open spec fn settled(&self, catalogue: int) -> bool {
        &&& self.species < catalogue
        &&& self.spec_site().inhabits()
        &&& self.bounded()
    }

    /// Creates an individual with no neighbours and no intensities yet.
    pub fn new(id: usize, species: usize, x_coord: u64, y_coord: u64) -> (r: Individual)
        ensures
            r.id == id,
            r.species == species,
            r.x_coord == x_coord,
            r.y_coord == y_coord,
            r.p_birth == 0,
            r.p_death == 0,
            r.p_move == 0,
            r.birth_neighbor_weight == 0,
            r.death_neighbor_weight == 0,
            r.birth_distances@.len() == 0,
            r.death_distances@.len() == 0,
    {
        Individual {
            id,
            species,
            x_coord,
            y_coord,
            p_birth: 0,
            p_death: 0,
            p_move: 0,
            birth_neighbor_weight: 0,
            death_neighbor_weight: 0,
            birth_distances: Vec::new(),
            death_distances: Vec::new(),
        }
    }

    /// Returns the individual's site.
    pub fn site(&self) -> (s: Site)
        ensures
            s == self.spec_site(),
    {
        Site { id: self.id, x: self.x_coord, y: self.y_coord }
    }

    /// Computes the toroidal distance between the positions of two
    /// individuals, rounded down to a whole number of millionths.
    pub fn distance(&self, other: &Individual) -> (r: u64)
        requires
            self.spec_site().inhabits(),
            other.spec_site().inhabits(),
        ensures
            is_floor_sqrt(self.spec_site().spec_distance_sq(other.spec_site()), r as int),
    {
        floor_sqrt(distance_sq(self.x_coord, self.y_coord, other.x_coord, other.y_coord))
    }

    /// Computes the neighbour effect of an event kind from the sparse list.
    pub fn neighbor_effect(&self, species: &Species, kind: Event) -> (e: u128)
        requires
            species.valid(),
            self.bounded(),
        ensures
            e == self.spec_neighbor_effect(*species, kind),
            e <= EFFECT_MAX,
    {
        let list: &Vec<(usize, u64)> = match kind {
            Event::Birth => &self.birth_distances,
            Event::Death => &self.death_distances,
        };
        let norm: Option<u64> = match kind {
            Event::Birth => species.birth_norm,
            Event::Death => species.death_norm,
        };
        let coefficient: i64 = match kind {
            Event::Birth => species.b1,
            Event::Death => species.d1,
        };
        let mut sum: u128 = 0;
        let mut k: usize = 0;
        while k < list.len()
            invariant
                k <= list@.len(),
                weights_bounded(list@),
                sum == spec_weight_sum(list@.take(k as int)),
                sum <= k * UNIT,
            decreases list@.len() - k,
        {
            proof {
                assert(list@.take(k + 1).drop_last() =~= list@.take(k as int));
                assert(list@.take(k + 1).last() == list@[k as int]);
                assert(k * UNIT + UNIT == (k + 1) * UNIT) by (nonlinear_arith);
                assert(k * UNIT <= 0xFFFF_FFFF_FFFF_FFFF * 1_000_000) by (nonlinear_arith)
                    requires
                        k <= 0xFFFF_FFFF_FFFF_FFFF,
                ;
            }
            sum = sum + (list[k].1 as u128);
            k += 1;
        }
        proof {
            assert(list@.take(k as int) =~= list@);
            assert(k * UNIT <= 0xFFFF_FFFF_FFFF_FFFF * 1_000_000) by (nonlinear_arith)
                requires
                    k <= 0xFFFF_FFFF_FFFF_FFFF,
            ;
        }
        effect_of(coefficient, sum, norm)
    }

    /// Updates the birth, death and move intensities from the base rates and
    /// the stored neighbour effects.
    pub fn update_probabilities(&mut self, species: &Species)
        requires
            species.valid(),
            old(self).birth_neighbor_weight <= EFFECT_MAX,
            old(self).death_neighbor_weight <= EFFECT_MAX,
        ensures
            final(self).p_birth == species.b0 + old(self).birth_neighbor_weight,
            final(self).p_death == species.d0 + old(self).death_neighbor_weight,
            final(self).p_move == species.mintegral,
            final(self).birth_neighbor_weight == old(self).birth_neighbor_weight,
            final(self).death_neighbor_weight == old(self).death_neighbor_weight,
            final(self).same_place(*old(self)),
    {
        self.p_birth = (species.b0 as u128) + self.birth_neighbor_weight;
        self.p_death = (species.d0 as u128) + self.death_neighbor_weight;
        self.p_move = species.mintegral as u128;
    }
}

} // verus!
