//! The spatial index: which individuals lie inside whose kernel, and with
//! what weight. The lists are kept as the sequence that a fresh pass over
//! the population, in its order, would produce.

use crate::geometry::UNIT;
use crate::individual::{weights_bounded, Individual, Site};
use crate::species::{Event, Species};
use vstd::prelude::*;

verus! {

/// `other` belongs in the list that `me` keeps for `kind`: it is another
/// individual, the kernel is switched on, and it is nearer than the radius.
pub open spec fn spec_in_reach(me: Site, species: Species, other: Site, kind: Event) -> bool {
    other.id != me.id && species.spec_reaches(kind, me.spec_distance_sq(other))
}

/// The entry that `me` keeps for `other`: its identifier and kernel weight.
pub open spec fn spec_entry(me: Site, species: Species, other: Site, kind: Event) -> (usize, u64) {
    (other.id, species.spec_weight(kind, me.spec_distance_sq(other)))
}

/// The neighbour list of `me` over `others`, in their order.
pub open spec fn spec_neighbors(me: Site, species: Species, others: Seq<Site>, kind: Event) -> Seq<
    (usize, u64),
>
    decreases others.len(),
{
    if others.len() == 0 {
        Seq::empty()
    } else {
        let rest = spec_neighbors(me, species, others.drop_last(), kind);
        if spec_in_reach(me, species, others.last(), kind) {
            rest.push(spec_entry(me, species, others.last(), kind))
        } else {
            rest
        }
    }
}

/// A list without the entries that refer to `victim`.
pub open spec fn spec_purged(list: Seq<(usize, u64)>, victim: usize) -> Seq<(usize, u64)>
    decreases list.len(),
{
    if list.len() == 0 {
        Seq::empty()
    } else {
        let rest = spec_purged(list.drop_last(), victim);
        if list.last().0 != victim {
            rest.push(list.last())
        } else {
            rest
        }
    }
}

/// The sites of a sequence of individuals.
pub open spec fn spec_sites(individuals: Seq<Individual>) -> Seq<Site> {
    Seq::new(individuals.len(), |i: int| individuals[i].spec_site())
}

/// No two sites carry the same identifier.
pub open spec fn distinct_ids(sites: Seq<Site>) -> bool {
    forall|i: int, j: int| 0 <= i < j < sites.len() ==> sites[i].id != sites[j].id
}

/// Every entry of a neighbour list names one of the `others`, and no weight
/// exceeds one.
pub proof fn lemma_neighbors_bounded(me: Site, species: Species, others: Seq<Site>, kind: Event)
    requires
        species.valid(),
        me.inhabits(),
        forall|k: int| 0 <= k < others.len() ==> (#[trigger] others[k]).inhabits(),
    ensures
        weights_bounded(spec_neighbors(me, species, others, kind)),
        spec_neighbors(me, species, others, kind).len() <= others.len(),
    decreases others.len(),
{
    if others.len() > 0 {
        lemma_neighbors_bounded(me, species, others.drop_last(), kind);
        if spec_in_reach(me, species, others.last(), kind) {
            let d2 = me.spec_distance_sq(others.last());
            assert(others.last().inhabits());
            crate::geometry::lemma_distance_sq_bounds(me.x, me.y, others.last().x, others.last().y);
            species.lemma_weight_bounded(kind, d2);
        }
    }
}

/// Whoever is in reach has its entry in the list.
pub proof fn lemma_neighbors_complete(
    me: Site,
    species: Species,
    others: Seq<Site>,
    kind: Event,
    j: int,
)
    requires
        0 <= j < others.len(),
        spec_in_reach(me, species, others[j], kind),
    ensures
        spec_neighbors(me, species, others, kind).contains(
            spec_entry(me, species, others[j], kind),
        ),
    decreases others.len(),
{
    let rest = spec_neighbors(me, species, others.drop_last(), kind);
    let list = spec_neighbors(me, species, others, kind);
    if j == others.len() - 1 {
        assert(list == rest.push(spec_entry(me, species, others[j], kind)));
        assert(list[list.len() - 1] == spec_entry(me, species, others[j], kind));
    } else {
        lemma_neighbors_complete(me, species, others.drop_last(), kind, j);
        let entry = spec_entry(me, species, others[j], kind);
        let at = choose|i: int| 0 <= i < rest.len() && rest[i] == entry;
        if spec_in_reach(me, species, others.last(), kind) {
            assert(list[at] == rest[at]);
        }
    }
}

/// Every entry of the list is the entry of someone in reach.
pub proof fn lemma_neighbors_sound(
    me: Site,
    species: Species,
    others: Seq<Site>,
    kind: Event,
    entry: (usize, u64),
)
    requires
        spec_neighbors(me, species, others, kind).contains(entry),
    ensures
        exists|j: int|
            0 <= j < others.len() && spec_in_reach(me, species, #[trigger] others[j], kind) && entry
                == spec_entry(me, species, others[j], kind),
    decreases others.len(),
{
    let list = spec_neighbors(me, species, others, kind);
    if others.len() > 0 {
        let rest = spec_neighbors(me, species, others.drop_last(), kind);
        let at = choose|i: int| 0 <= i < list.len() && list[i] == entry;
        if spec_in_reach(me, species, others.last(), kind) && at == list.len() - 1 {
            assert(entry == spec_entry(me, species, others[others.len() - 1], kind));
        } else {
            assert(rest[at] == entry);
            lemma_neighbors_sound(me, species, others.drop_last(), kind, entry);
            let j = choose|j: int|
                0 <= j < others.drop_last().len() && spec_in_reach(
                    me,
                    species,
                    #[trigger] others.drop_last()[j],
                    kind,
                ) && entry == spec_entry(me, species, others.drop_last()[j], kind);
            assert(others[j] == others.drop_last()[j]);
        }
    }
}

/// Purging keeps the weights bounded and never lengthens a list.
pub proof fn lemma_purged_bounded(list: Seq<(usize, u64)>, victim: usize)
    requires
        weights_bounded(list),
    ensures
        weights_bounded(spec_purged(list, victim)),
        spec_purged(list, victim).len() <= list.len(),
    decreases list.len(),
{
    if list.len() > 0 {
        lemma_purged_bounded(list.drop_last(), victim);
    }
}

/// A site whose identifier none of the others carries leaves no entry
/// behind: purging it from a list built over the others changes nothing.
pub proof fn lemma_purge_absent(
    me: Site,
    species: Species,
    others: Seq<Site>,
    kind: Event,
    victim: usize,
)
    requires
        forall|k: int| 0 <= k < others.len() ==> (#[trigger] others[k]).id != victim,
    ensures
        spec_purged(spec_neighbors(me, species, others, kind), victim) == spec_neighbors(
            me,
            species,
            others,
            kind,
        ),
    decreases others.len(),
{
    if others.len() > 0 {
        lemma_purge_absent(me, species, others.drop_last(), kind, victim);
        if spec_in_reach(me, species, others.last(), kind) {
            let rest = spec_neighbors(me, species, others.drop_last(), kind);
            let entry = spec_entry(me, species, others.last(), kind);
            assert(rest.push(entry).drop_last() =~= rest);
        }
    }
}

/// Removing one of the others and purging its identifier from the list
/// come to the same: the list stays the one a fresh pass would build.
pub proof fn lemma_purge_removed(me: Site, species: Species, others: Seq<Site>, kind: Event, k: int)
    requires
        0 <= k < others.len(),
        distinct_ids(others),
    ensures
        spec_purged(spec_neighbors(me, species, others, kind), others[k].id) == spec_neighbors(
            me,
            species,
            others.remove(k),
            kind,
        ),
    decreases others.len(),
{
    let victim = others[k].id;
    let front = others.drop_last();
    let rest = spec_neighbors(me, species, front, kind);
    let entry = spec_entry(me, species, others.last(), kind);
    if k == others.len() - 1 {
        assert(others.remove(k) =~= front);
        lemma_purge_absent(me, species, front, kind, victim);
        if spec_in_reach(me, species, others.last(), kind) {
            assert(rest.push(entry).drop_last() =~= rest);
        }
    } else {
        lemma_purge_removed(me, species, front, kind, k);
        assert(others.remove(k).drop_last() =~= front.remove(k));
        assert(others.remove(k).last() == others.last());
        assert(others.last().id != victim);
        if spec_in_reach(me, species, others.last(), kind) {
            assert(rest.push(entry).drop_last() =~= rest);
        }
    }
}

/// Records `idx` in the list that `individual` keeps for `event` when the
/// squared distance `d2` lies inside the kernel, with the kernel's weight
/// there; leaves the individual as it is otherwise.
pub fn update_distances(
    d2: u64,
    individual: &mut Individual,
    species: &Species,
    event: Event,
    idx: usize,
)
    requires
        species.valid(),
    ensures
        final(individual).neighbors(event) == (if species.spec_reaches(event, d2 as int) {
            old(individual).neighbors(event).push((idx, species.spec_weight(event, d2 as int)))
        } else {
            old(individual).neighbors(event)
        }),
        species.spec_reaches(event, d2 as int) ==> species.spec_weight(event, d2 as int) <= UNIT,
        event == Event::Birth ==> final(individual).death_distances@
            == old(individual).death_distances@,
        event == Event::Death ==> final(individual).birth_distances@
            == old(individual).birth_distances@,
        final(individual).id == old(individual).id,
        final(individual).species == old(individual).species,
        final(individual).x_coord == old(individual).x_coord,
        final(individual).y_coord == old(individual).y_coord,
        final(individual).p_birth == old(individual).p_birth,
        final(individual).p_death == old(individual).p_death,
        final(individual).p_move == old(individual).p_move,
        final(individual).birth_neighbor_weight == old(individual).birth_neighbor_weight,
        final(individual).death_neighbor_weight == old(individual).death_neighbor_weight,
{
    if species.reaches(event, d2) {
        let w: u64 = species.weight(event, d2);
        match event {
            Event::Birth => {
                individual.birth_distances.push((idx, w));
            },
            Event::Death => {
                individual.death_distances.push((idx, w));
            },
        }
    }
}

/// Copies a list without the entries that refer to `victim`.
pub fn purge(list: &Vec<(usize, u64)>, victim: usize) -> (kept: Vec<(usize, u64)>)
    ensures
        kept@ == spec_purged(list@, victim),
{
    let mut kept: Vec<(usize, u64)> = Vec::new();
    let mut k: usize = 0;
    while k < list.len()
        invariant
            k <= list@.len(),
            kept@ == spec_purged(list@.take(k as int), victim),
        decreases list@.len() - k,
    {
        proof {
            assert(list@.take(k + 1).drop_last() =~= list@.take(k as int));
        }
        let entry: (usize, u64) = list[k];
        if entry.0 != victim {
            kept.push(entry);
        }
        k += 1;
    }
    proof {
        assert(list@.take(k as int) =~= list@);
    }
    kept
}

} // verus!
