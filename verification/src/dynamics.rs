//! Births and deaths: the two mutations of the population, each with its
//! incremental update of the spatial index.

use crate::geometry::{displace, lemma_distance_sq_bounds, spec_displace};
use crate::index::{
    distinct_ids, lemma_neighbors_bounded, lemma_purge_removed, lemma_purged_bounded, purge,
    spec_entry, spec_in_reach, spec_neighbors, spec_purged, spec_sites, update_distances,
};
use crate::individual::{weights_bounded, Individual, Site};
use crate::population::{Population, SimError};
use crate::species::Event;
use vstd::prelude::*;

verus! {

/// The list that an individual keeps once `child` has been born: the old
/// list, with the child's entry at its end where the child is in reach.
pub open spec fn spec_after_birth(
    list: Seq<(usize, u64)>,
    me: Site,
    species: crate::species::Species,
    child: Site,
    kind: Event,
) -> Seq<(usize, u64)> {
    if spec_in_reach(me, species, child, kind) {
        list.push(spec_entry(me, species, child, kind))
    } else {
        list
    }
}

/// The position that the survivor at position `k` had before the individual
/// at position `victim` was removed.
pub open spec fn spec_source(k: int, victim: int) -> int {
    if k < victim {
        k
    } else {
        k + 1
    }
}

/// A list of bounded weights stays bounded when a bounded weight joins it.
pub proof fn lemma_push_bounded(list: Seq<(usize, u64)>, entry: (usize, u64))
    requires
        weights_bounded(list),
        entry.1 <= crate::geometry::UNIT,
    ensures
        weights_bounded(list.push(entry)),
{
    assert forall|k: int| 0 <= k < list.push(entry).len() implies (#[trigger] list.push(
        entry,
    )[k]).1 <= crate::geometry::UNIT by {
        if k < list.len() {
            assert(list.push(entry)[k] == list[k]);
        }
    }
}

impl Population {
    /// The site at which a child of the individual at position `parent`
    /// is placed, for the two standard deviates given.
    pub open spec fn spec_child_site(&self, parent: int, jitter_x: i64, jitter_y: i64) -> Site {
        Site {
            id: (self.individuals@.last().id + 1) as usize,
            x: spec_displace(
                self.individuals@[parent].x_coord,
                self.species_of(parent).mbsd as u64,
                jitter_x,
            ) as u64,
            y: spec_displace(
                self.individuals@[parent].y_coord,
                self.species_of(parent).mbsd as u64,
                jitter_y,
            ) as u64,
        }
    }

    /// Under a birth spread of zero the child stands on its parent, at
    /// distance zero, and every kernel of their species that reaches there
    /// weighs one there.
    pub proof fn lemma_child_on_parent(&self, parent: int, jitter_x: i64, jitter_y: i64)
        requires
            self.wf(),
            0 <= parent < self.individuals@.len(),
            self.species_of(parent).mbsd == 0,
        ensures
            self.spec_child_site(parent, jitter_x, jitter_y).x == self.individuals@[parent].x_coord,
            self.spec_child_site(parent, jitter_x, jitter_y).y == self.individuals@[parent].y_coord,
            self.spec_child_site(parent, jitter_x, jitter_y).spec_distance_sq(
                self.sites()[parent],
            ) == 0,
            forall|kind: Event| #[trigger]
                self.species_of(parent).spec_reaches(kind, 0) ==> self.species_of(
                    parent,
                ).spec_weight(kind, 0) == crate::geometry::UNIT,
    {
        assert(self.individuals@[parent].settled(self.species_list@.len() as int));
        crate::geometry::lemma_displace_without_spread(self.individuals@[parent].x_coord, jitter_x);
        crate::geometry::lemma_displace_without_spread(self.individuals@[parent].y_coord, jitter_y);
        let child = self.spec_child_site(parent, jitter_x, jitter_y);
        let site = self.sites()[parent];
        assert(child.x == site.x && child.y == site.y);
        crate::geometry::lemma_axis_delta_bounds(child.x, site.x);
        crate::geometry::lemma_axis_delta_bounds(child.y, site.y);
        assert forall|kind: Event| #[trigger]
            self.species_of(parent).spec_reaches(kind, 0) implies self.species_of(
            parent,
        ).spec_weight(kind, 0) == crate::geometry::UNIT by {
            self.species_of(parent).lemma_weight_at_zero(kind);
        }
    }

    /// Executes a birth. The child belongs to the parent's species, takes
    /// the identifier after the largest one alive and is placed at the
    /// parent's position displaced, along each axis, by the species' birth
    /// spread times the given standard deviate, wrapped into the habitat.
    /// The child's lists are built in one pass over the population and the
    /// child is entered in the lists of those that have it in reach. The
    /// clock and the history are left alone. Refused, with nothing changed,
    /// when no identifier or no room is left.
    pub fn execute_birth(&mut self, parent: usize, jitter_x: i64, jitter_y: i64) -> (r: Result<
        (),
        SimError,
    >)
        requires
            old(self).wf(),
            parent < old(self).individuals@.len(),
        ensures
            r is Err <==> (old(self).size == usize::MAX || old(self).individuals@.last().id
                == usize::MAX),
            r matches Err(e) ==> e == SimError::IdOverflow && *final(self) == *old(self),
            r is Ok ==> {
                let n = old(self).individuals@.len() as int;
                let child = old(self).spec_child_site(parent as int, jitter_x, jitter_y);
                let child_species = old(self).species_of(parent as int);
                &&& final(self).wf()
                &&& final(self).species_list@ == old(self).species_list@
                &&& final(self).t == old(self).t
                &&& final(self).history == old(self).history
                &&& final(self).size == old(self).size + 1
                &&& final(self).individuals@.len() == n + 1
                &&& final(self).individuals@[n].spec_site() == child
                &&& final(self).individuals@[n].species
                    == old(self).individuals@[parent as int].species
                &&& final(self).individuals@[n].p_birth == 0
                &&& final(self).individuals@[n].p_death == 0
                &&& final(self).individuals@[n].p_move == 0
                &&& final(self).individuals@[n].birth_neighbor_weight == 0
                &&& final(self).individuals@[n].death_neighbor_weight == 0
                &&& forall|kind: Event|
                    (#[trigger] final(self).individuals@[n].neighbors(kind)) == spec_neighbors(
                        child,
                        child_species,
                        old(self).sites(),
                        kind,
                    )
                &&& forall|k: int|
                    0 <= k < n ==> (#[trigger] final(self).individuals@[k]).same_state(
                        old(self).individuals@[k],
                    )
                &&& forall|k: int, kind: Event|
                    0 <= k < n ==> (#[trigger] final(self).individuals@[k].neighbors(kind))
                        == spec_after_birth(
                        old(self).individuals@[k].neighbors(kind),
                        old(self).sites()[k],
                        old(self).species_of(k),
                        child,
                        kind,
                    )
                &&& old(self).indexed() ==> final(self).indexed()
            },
    {
        let n: usize = self.individuals.len();
        let last_id: usize = self.individuals[n - 1].id;
        if self.size == usize::MAX || last_id == usize::MAX {
            return Err(SimError::IdOverflow);
        }
        let owner: usize = self.individuals[parent].species;
        let spread: u64 = self.species_list[owner].mbsd as u64;
        assert(self.individuals@[parent as int].settled(self.species_list@.len() as int));
        let child_x: u64 = displace(self.individuals[parent].x_coord, spread, jitter_x);
        let child_y: u64 = displace(self.individuals[parent].y_coord, spread, jitter_y);
        let mut child = Individual::new(last_id + 1, owner, child_x, child_y);
        let me: Site = child.site();
        let ghost sites = self.sites();
        let ghost species = self.species_list@[owner as int];
        assert(me == old(self).spec_child_site(parent as int, jitter_x, jitter_y));
        let mut k: usize = 0;
        while k < n
            invariant
                n == self.individuals@.len(),
                n == old(self).individuals@.len(),
                k <= n,
                old(self).wf(),
                owner < self.species_list@.len(),
                species == self.species_list@[owner as int],
                me.inhabits(),
                me.id == old(self).individuals@.last().id + 1,
                sites == spec_sites(old(self).individuals@),
                self.species_list@ == old(self).species_list@,
                self.size == old(self).size,
                self.t == old(self).t,
                self.history == old(self).history,
                child.spec_site() == me,
                child.species == owner,
                child.p_birth == 0,
                child.p_death == 0,
                child.p_move == 0,
                child.birth_neighbor_weight == 0,
                child.death_neighbor_weight == 0,
                child.birth_distances@ == spec_neighbors(
                    me,
                    species,
                    sites.take(k as int),
                    Event::Birth,
                ),
                child.death_distances@ == spec_neighbors(
                    me,
                    species,
                    sites.take(k as int),
                    Event::Death,
                ),
                forall|m: int| k <= m < n ==> self.individuals@[m] == old(self).individuals@[m],
                forall|m: int|
                    0 <= m < n ==> (#[trigger] self.individuals@[m]).same_state(
                        old(self).individuals@[m],
                    ),
                forall|m: int| 0 <= m < n ==> (#[trigger] self.individuals@[m]).bounded(),
                forall|m: int, kind: Event|
                    0 <= m < k ==> (#[trigger] self.individuals@[m].neighbors(kind))
                        == spec_after_birth(
                        old(self).individuals@[m].neighbors(kind),
                        sites[m],
                        old(self).species_of(m),
                        me,
                        kind,
                    ),
            decreases n - k,
        {
            let other: Site = self.individuals[k].site();
            let other_owner: usize = self.individuals[k].species;
            let ghost prior = self.individuals@;
            proof {
                assert(sites.take(k + 1).drop_last() =~= sites.take(k as int));
                assert(sites.take(k + 1).last() == sites[k as int]);
                assert(other == sites[k as int]);
                assert(old(self).individuals@[k as int].settled(self.species_list@.len() as int));
                assert(old(self).individuals@[k as int].id <= old(self).individuals@.last().id);
                lemma_distance_sq_bounds(me.x, me.y, other.x, other.y);
            }
            let d2: u64 = me.distance_sq(&other);
            update_distances(d2, &mut child, &self.species_list[owner], Event::Birth, other.id);
            update_distances(d2, &mut child, &self.species_list[owner], Event::Death, other.id);
            let theirs: &crate::species::Species = &self.species_list[other_owner];
            update_distances(d2, &mut self.individuals[k], theirs, Event::Birth, me.id);
            update_distances(d2, &mut self.individuals[k], theirs, Event::Death, me.id);
            proof {
                let now = self.individuals@[k as int];
                let was = old(self).individuals@[k as int];
                let sp = old(self).species_of(k as int);
                assert(prior[k as int] == was);
                assert(other.spec_distance_sq(me) == d2);
                assert(now.neighbors(Event::Birth) == spec_after_birth(
                    was.neighbors(Event::Birth),
                    sites[k as int],
                    sp,
                    me,
                    Event::Birth,
                ));
                assert(now.neighbors(Event::Death) == spec_after_birth(
                    was.neighbors(Event::Death),
                    sites[k as int],
                    sp,
                    me,
                    Event::Death,
                ));
                assert(was.bounded());
                if sp.spec_reaches(Event::Birth, d2 as int) {
                    lemma_push_bounded(
                        was.birth_distances@,
                        (me.id, sp.spec_weight(Event::Birth, d2 as int)),
                    );
                }
                if sp.spec_reaches(Event::Death, d2 as int) {
                    lemma_push_bounded(
                        was.death_distances@,
                        (me.id, sp.spec_weight(Event::Death, d2 as int)),
                    );
                }
                assert(now.bounded());
                assert forall|m: int, kind: Event| 0 <= m < k + 1 implies (
                #[trigger] self.individuals@[m].neighbors(kind)) == spec_after_birth(
                    old(self).individuals@[m].neighbors(kind),
                    sites[m],
                    old(self).species_of(m),
                    me,
                    kind,
                ) by {
                    if m < k {
                        assert(self.individuals@[m] == prior[m]);
                        assert(prior[m].neighbors(kind) == spec_after_birth(
                            old(self).individuals@[m].neighbors(kind),
                            sites[m],
                            old(self).species_of(m),
                            me,
                            kind,
                        ));
                    } else {
                        match kind {
                            Event::Birth => {},
                            Event::Death => {},
                        }
                    }
                }
                assert forall|m: int| 0 <= m < n implies (
                #[trigger] self.individuals@[m]).bounded() by {
                    if m != k {
                        assert(self.individuals@[m] == prior[m]);
                        assert(prior[m].bounded());
                    }
                }
                assert forall|m: int| 0 <= m < n implies (
                #[trigger] self.individuals@[m]).same_state(
                    old(self).individuals@[m],
                ) by {
                    if m != k {
                        assert(self.individuals@[m] == prior[m]);
                        assert(prior[m].same_state(old(self).individuals@[m]));
                    }
                }
            }
            k += 1;
        }
        proof {
            assert(sites.take(n as int) =~= sites);
            assert forall|m: int| 0 <= m < sites.len() implies (#[trigger] sites[m]).inhabits() by {
                assert(old(self).individuals@[m].settled(self.species_list@.len() as int));
            }
            lemma_neighbors_bounded(me, species, sites, Event::Birth);
            lemma_neighbors_bounded(me, species, sites, Event::Death);
        }
        self.individuals.push(child);
        self.size += 1;
        proof {
            let after = self.individuals@;
            assert(spec_sites(after) =~= sites.push(me));
            assert forall|kind: Event|
                (#[trigger] after[n as int].neighbors(kind)) == spec_neighbors(
                    me,
                    species,
                    sites,
                    kind,
                ) by {
                match kind {
                    Event::Birth => {},
                    Event::Death => {},
                }
            }
            assert forall|m: int| 0 <= m < after.len() implies (#[trigger] after[m]).settled(
                self.species_list@.len() as int,
            ) by {
                if m < n {
                    assert(after[m].same_state(old(self).individuals@[m]));
                    assert(old(self).individuals@[m].settled(self.species_list@.len() as int));
                    assert(after[m].bounded());
                }
            }
            assert forall|a: int, b: int| 0 <= a < b < after.len() implies after[a].id
                < after[b].id by {
                assert(after[a].same_state(old(self).individuals@[a]));
                assert(old(self).individuals@[a].id <= old(self).individuals@.last().id);
                if b < n {
                    assert(after[b].same_state(old(self).individuals@[b]));
                }
            }
            if old(self).indexed() {
                assert(sites.push(me).drop_last() =~= sites);
                assert forall|m: int, kind: Event| 0 <= m < after.len() implies (
                #[trigger] after[m].neighbors(kind)) == spec_neighbors(
                    self.sites()[m],
                    self.species_of(m),
                    self.sites(),
                    kind,
                ) by {
                    if m < n {
                        assert(after[m].same_state(old(self).individuals@[m]));
                        assert(old(self).individuals@[m].neighbors(kind) == spec_neighbors(
                            sites[m],
                            old(self).species_of(m),
                            sites,
                            kind,
                        ));
                    }
                }
            }
        }
        Ok(())
    }

    /// Executes a death: the individual at position `victim` leaves the
    /// population and every entry that refers to it leaves the lists of the
    /// others. The survivors keep their order. The clock and the history are
    /// left alone.
    pub fn execute_death(&mut self, victim: usize)
        requires
            old(self).wf(),
            victim < old(self).individuals@.len(),
        ensures
            final(self).wf(),
            final(self).species_list@ == old(self).species_list@,
            final(self).t == old(self).t,
            final(self).history == old(self).history,
            final(self).size == old(self).size - 1,
            final(self).individuals@.len() == old(self).individuals@.len() - 1,
            final(self).sites() == old(self).sites().remove(victim as int),
            forall|k: int|
                0 <= k < final(self).individuals@.len() ==> (
                #[trigger] final(self).individuals@[k]).same_state(
                    old(self).individuals@[spec_source(k, victim as int)],
                ),
            forall|k: int, kind: Event|
                0 <= k < final(self).individuals@.len() ==> (
                #[trigger] final(self).individuals@[k].neighbors(kind)) == spec_purged(
                    old(self).individuals@[spec_source(k, victim as int)].neighbors(kind),
                    old(self).individuals@[victim as int].id,
                ),
            old(self).indexed() ==> final(self).indexed(),
    {
        let n: usize = self.individuals.len();
        let deceased: usize = self.individuals[victim].id;
        let mut k: usize = 0;
        while k < n
            invariant
                n == self.individuals@.len(),
                n == old(self).individuals@.len(),
                k <= n,
                old(self).wf(),
                self.species_list@ == old(self).species_list@,
                self.size == old(self).size,
                self.t == old(self).t,
                self.history == old(self).history,
                forall|m: int| k <= m < n ==> self.individuals@[m] == old(self).individuals@[m],
                forall|m: int|
                    0 <= m < n ==> (#[trigger] self.individuals@[m]).same_state(
                        old(self).individuals@[m],
                    ),
                forall|m: int| 0 <= m < n ==> (#[trigger] self.individuals@[m]).bounded(),
                forall|m: int, kind: Event|
                    0 <= m < k ==> (#[trigger] self.individuals@[m].neighbors(kind)) == spec_purged(
                        old(self).individuals@[m].neighbors(kind),
                        deceased,
                    ),
            decreases n - k,
        {
            let ghost prior = self.individuals@;
            let births: Vec<(usize, u64)> = purge(&self.individuals[k].birth_distances, deceased);
            let deaths: Vec<(usize, u64)> = purge(&self.individuals[k].death_distances, deceased);
            self.individuals[k].birth_distances = births;
            self.individuals[k].death_distances = deaths;
            proof {
                let was = old(self).individuals@[k as int];
                assert(prior[k as int] == was);
                assert(was.settled(self.species_list@.len() as int));
                lemma_purged_bounded(was.birth_distances@, deceased);
                lemma_purged_bounded(was.death_distances@, deceased);
                assert forall|m: int, kind: Event| 0 <= m < k + 1 implies (
                #[trigger] self.individuals@[m].neighbors(kind)) == spec_purged(
                    old(self).individuals@[m].neighbors(kind),
                    deceased,
                ) by {
                    if m < k {
                        assert(self.individuals@[m] == prior[m]);
                        assert(prior[m].neighbors(kind) == spec_purged(
                            old(self).individuals@[m].neighbors(kind),
                            deceased,
                        ));
                    } else {
                        match kind {
                            Event::Birth => {},
                            Event::Death => {},
                        }
                    }
                }
                assert forall|m: int| 0 <= m < n implies (
                #[trigger] self.individuals@[m]).bounded() by {
                    if m != k {
                        assert(self.individuals@[m] == prior[m]);
                        assert(prior[m].bounded());
                    }
                }
                assert forall|m: int| 0 <= m < n implies (
                #[trigger] self.individuals@[m]).same_state(
                    old(self).individuals@[m],
                ) by {
                    if m != k {
                        assert(self.individuals@[m] == prior[m]);
                        assert(prior[m].same_state(old(self).individuals@[m]));
                    }
                }
            }
            k += 1;
        }
        let ghost purged = self.individuals@;
        self.individuals.remove(victim);
        self.size -= 1;
        proof {
            let after = self.individuals@;
            let sites = old(self).sites();
            assert(after =~= purged.remove(victim as int));
            assert forall|m: int| 0 <= m < after.len() implies after[m] == purged[spec_source(
                m,
                victim as int,
            )] by {}
            assert(self.sites() =~= sites.remove(victim as int)) by {
                assert forall|m: int| 0 <= m < after.len() implies self.sites()[m] == sites.remove(
                    victim as int,
                )[m] by {
                    let src = spec_source(m, victim as int);
                    assert(after[m] == purged[src]);
                    assert(purged[src].same_state(old(self).individuals@[src]));
                }
            }
            assert forall|m: int| 0 <= m < after.len() implies (#[trigger] after[m]).settled(
                self.species_list@.len() as int,
            ) by {
                let src = spec_source(m, victim as int);
                assert(after[m] == purged[src]);
                assert(purged[src].same_state(old(self).individuals@[src]));
                assert(purged[src].bounded());
                assert(old(self).individuals@[src].settled(self.species_list@.len() as int));
            }
            assert forall|a: int, b: int| 0 <= a < b < after.len() implies after[a].id
                < after[b].id by {
                let sa = spec_source(a, victim as int);
                let sb = spec_source(b, victim as int);
                assert(after[a] == purged[sa]);
                assert(after[b] == purged[sb]);
                assert(purged[sa].same_state(old(self).individuals@[sa]));
                assert(purged[sb].same_state(old(self).individuals@[sb]));
            }
            assert forall|m: int| 0 <= m < after.len() implies (#[trigger] after[m]).same_state(
                old(self).individuals@[spec_source(m, victim as int)],
            ) by {
                let src = spec_source(m, victim as int);
                assert(after[m] == purged[src]);
                assert(purged[src].same_state(old(self).individuals@[src]));
            }
            assert forall|m: int, kind: Event| 0 <= m < after.len() implies (
            #[trigger] after[m].neighbors(kind)) == spec_purged(
                old(self).individuals@[spec_source(m, victim as int)].neighbors(kind),
                deceased,
            ) by {
                let src = spec_source(m, victim as int);
                assert(after[m] == purged[src]);
                assert(purged[src].neighbors(kind) == spec_purged(
                    old(self).individuals@[src].neighbors(kind),
                    deceased,
                ));
            }
            if old(self).indexed() {
                assert(distinct_ids(sites)) by {
                    assert forall|a: int, b: int| 0 <= a < b < sites.len() implies sites[a].id
                        != sites[b].id by {
                        assert(old(self).individuals@[a].id < old(self).individuals@[b].id);
                    }
                }
                assert forall|m: int, kind: Event| 0 <= m < after.len() implies (
                #[trigger] after[m].neighbors(kind)) == spec_neighbors(
                    self.sites()[m],
                    self.species_of(m),
                    self.sites(),
                    kind,
                ) by {
                    let src = spec_source(m, victim as int);
                    assert(after[m] == purged[src]);
                    assert(purged[src].same_state(old(self).individuals@[src]));
                    assert(old(self).individuals@[src].neighbors(kind) == spec_neighbors(
                        sites[src],
                        old(self).species_of(src),
                        sites,
                        kind,
                    ));
                    lemma_purge_removed(
                        sites[src],
                        old(self).species_of(src),
                        sites,
                        kind,
                        victim as int,
                    );
                    assert(sites[victim as int].id == deceased);
                }
            }
        }
    }
}

} // verus!
