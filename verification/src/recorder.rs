//! Checkpoints: snapshots of the live positions, grouped by species.

use crate::individual::Individual;
use crate::population::{spec_groups, spec_xs, spec_ys, Checkpoint, Population};
use vstd::prelude::*;

verus! {

/// Two populations whose individuals agree, one by one, on species and
/// position have the same coordinate arrays for every species.
pub proof fn lemma_groups_agree(a: Seq<Individual>, b: Seq<Individual>, s: int)
    requires
        a.len() == b.len(),
        forall|k: int|
            0 <= k < a.len() ==> (#[trigger] a[k]).species == b[k].species && a[k].x_coord
                == b[k].x_coord && a[k].y_coord == b[k].y_coord,
    ensures
        spec_xs(a, s) == spec_xs(b, s),
        spec_ys(a, s) == spec_ys(b, s),
    decreases a.len(),
{
    if a.len() > 0 {
        assert forall|k: int| 0 <= k < a.drop_last().len() implies (#[trigger] a.drop_last()[k]).species
            == b.drop_last()[k].species && a.drop_last()[k].x_coord == b.drop_last()[k].x_coord
            && a.drop_last()[k].y_coord == b.drop_last()[k].y_coord by {
            assert(a.drop_last()[k] == a[k]);
            assert(b.drop_last()[k] == b[k]);
        }
        lemma_groups_agree(a.drop_last(), b.drop_last(), s);
        assert(a.last() == a[a.len() - 1]);
        assert(b.last() == b[b.len() - 1]);
    }
}

impl Population {
    /// A checkpoint depends on nothing but the clock, the number of species
    /// and where the individuals are.
    pub proof fn lemma_checkpoint_same(&self, other: Population)
        requires
            self.same_places(other),
        ensures
            self.spec_checkpoint() == other.spec_checkpoint(),
    {
        let n = self.species_list@.len() as int;
        assert forall|s: int| 0 <= s < n implies spec_groups(self.individuals@, n)[s]
            == spec_groups(other.individuals@, n)[s] by {
            assert forall|k: int| 0 <= k < self.individuals@.len() implies (
            #[trigger] self.individuals@[k]).species == other.individuals@[k].species
                && self.individuals@[k].x_coord == other.individuals@[k].x_coord
                && self.individuals@[k].y_coord == other.individuals@[k].y_coord by {
                assert(self.individuals@[k].same_place(other.individuals@[k]));
            }
            lemma_groups_agree(self.individuals@, other.individuals@, s);
        }
        assert(spec_groups(self.individuals@, n) =~= spec_groups(other.individuals@, n));
    }

    /// What a checkpoint taken now holds: the clock and, for each species of
    /// the catalogue in order, the coordinates of its live individuals.
    pub open spec fn spec_checkpoint(&self) -> (u64, Seq<(Seq<u64>, Seq<u64>)>) {
        (self.t, spec_groups(self.individuals@, self.species_list@.len() as int))
    }

    /// Takes a checkpoint of the population as it is now.
    pub fn get_checkpoint(&self) -> (checkpoint: Checkpoint)
        ensures
            checkpoint@ == self.spec_checkpoint(),
            checkpoint.time == self.t,
    {
        let mut species_individuals: Vec<(Vec<u64>, Vec<u64>)> = Vec::new();
        let n: usize = self.individuals.len();
        let mut s: usize = 0;
        while s < self.species_list.len()
            invariant
                n == self.individuals@.len(),
                s <= self.species_list@.len(),
                species_individuals@.len() == s,
                forall|g: int|
                    0 <= g < s ==> (#[trigger] species_individuals@[g]).0@ == spec_xs(
                        self.individuals@,
                        g,
                    ) && species_individuals@[g].1@ == spec_ys(self.individuals@, g),
            decreases self.species_list@.len() - s,
        {
            let mut xs: Vec<u64> = Vec::new();
            let mut ys: Vec<u64> = Vec::new();
            let mut k: usize = 0;
            while k < n
                invariant
                    n == self.individuals@.len(),
                    k <= n,
                    xs@ == spec_xs(self.individuals@.take(k as int), s as int),
                    ys@ == spec_ys(self.individuals@.take(k as int), s as int),
                decreases n - k,
            {
                proof {
                    assert(self.individuals@.take(k + 1).drop_last() =~= self.individuals@.take(
                        k as int,
                    ));
                }
                let member: &Individual = &self.individuals[k];
                if member.species == s {
                    xs.push(member.x_coord);
                    ys.push(member.y_coord);
                }
                k += 1;
            }
            proof {
                assert(self.individuals@.take(n as int) =~= self.individuals@);
            }
            species_individuals.push((xs, ys));
            s += 1;
        }
        let checkpoint = Checkpoint { time: self.t, species_individuals };
        proof {
            assert(checkpoint@.1 =~= self.spec_checkpoint().1);
        }
        checkpoint
    }
}

} // verus!
