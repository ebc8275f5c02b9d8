//! The species catalogue: per-species rates, kernel parameters and the
//! derived normalisation constants.

use crate::geometry::UNIT;
use vstd::prelude::*;

verus! {

/// The largest value a rate, a radius or a standard deviation may take:
/// a million whole units. It keeps every product of the model inside `u128`.
pub const LIMIT: i64 = 1_000_000_000_000;

/// Enumerates the possible events that can occur.
#[derive(Clone, Copy, Debug, PartialEq, Eq, Structural)]
pub enum Event {
    /// An event in which a new individual is created.
    Birth,
    /// An event in which an individual is destroyed.
    Death,
}

/// What a kernel contributes once its closed form has been evaluated in
/// real arithmetic, in fixed point: `norm`, the constant
/// `2 v pi (1 - exp(-r^2 / (2 v)))` of a Gaussian of variance `v` truncated
/// to a disk of radius `r`, and `profile`, the kernel's value
/// `exp(-d2 / (2 v))` at the knots that cut the squared distances between
/// zero and `r^2` into equal slices: entry `k` of `n + 1` is the value at
/// `d2 = k r^2 / n`, so the first entry is the value at distance zero,
/// which is one.
#[derive(Clone, Debug)]
pub struct KernelTable {
    pub norm: u64,
    pub profile: Vec<u64>,
}

/// A species: the parameters that individuals of this species use.
#[derive(Clone, Debug)]
pub struct Species {
    pub id: usize,
    pub b0: i64,
    pub b1: i64,
    pub c1: i64,
    pub d0: i64,
    pub d1: i64,
    pub mbrmax: i64,
    pub mbsd: i64,
    pub mintegral: i64,
    pub move_radius_max: i64,
    pub move_std: i64,
    pub birth_radius_max: i64,
    pub birth_std: i64,
    pub birth_norm: Option<u64>,
    pub birth_profile: Vec<u64>,
    /// The radius that the birth norm and profile were derived for.
    pub birth_derived_radius: i64,
    /// The standard deviation that they were derived for.
    pub birth_derived_std: i64,
    pub death_radius_max: i64,
    pub death_std: i64,
    pub death_norm: Option<u64>,
    pub death_profile: Vec<u64>,
    /// The radius that the death norm and profile were derived for.
    pub death_derived_radius: i64,
    /// The standard deviation that they were derived for.
    pub death_derived_std: i64,
}

/// A parameter is acceptable when it is neither negative nor beyond `LIMIT`.
pub open spec fn in_bounds(v: i64) -> bool {
    0 <= v <= LIMIT
}

/// The neighbour effect of a kernel: the coefficient times the summed kernel
/// weights over the normalisation constant, and nothing where the constant
/// is undefined.
pub open spec fn spec_effect(coefficient: int, total_weight: int, norm: Option<u64>) -> int {
    match norm {
        Some(n) => if n > 0 {
            coefficient * total_weight / (n as int)
        } else {
            0
        },
        None => 0,
    }
}

/// The slice, of `len` equal slices of the squared radius, that a squared
/// distance falls in.
pub open spec fn spec_bucket(d2: int, radius: int, len: int) -> int {
    d2 * len / (radius * radius)
}

/// The value between two knots of a profile, `part` of `whole` of the way
/// from the lower to the upper, rounded down.
pub open spec fn spec_between(lower: u64, upper: u64, part: int, whole: int) -> int {
    (lower * (whole - part) + upper * part) / whole
}

/// A value between two knots that do not exceed one does not exceed one.
pub proof fn lemma_between_bounded(lower: u64, upper: u64, part: int, whole: int)
    requires
        lower <= UNIT,
        upper <= UNIT,
        0 <= part < whole,
    ensures
        0 <= spec_between(lower, upper, part, whole) <= UNIT,
        0 <= lower * (whole - part) + upper * part <= UNIT * whole,
{
    let sum = lower * (whole - part) + upper * part;
    assert(0 <= lower * (whole - part) <= UNIT * (whole - part)) by (nonlinear_arith)
        requires
            0 <= lower <= UNIT,
            0 < whole - part,
    ;
    assert(0 <= upper * part <= UNIT * part) by (nonlinear_arith)
        requires
            0 <= upper <= UNIT,
            0 <= part,
    ;
    assert(UNIT * (whole - part) + UNIT * part == UNIT * whole) by (nonlinear_arith);
    vstd::arithmetic::div_mod::lemma_div_pos_is_pos(sum, whole);
    vstd::arithmetic::div_mod::lemma_div_is_ordered(sum, UNIT * whole, whole);
    vstd::arithmetic::div_mod::lemma_div_multiples_vanish(UNIT as int, whole);
    assert(UNIT * whole == whole * UNIT) by (nonlinear_arith);
}

/// A squared distance inside the squared radius falls in a slice that the
/// profile has.
pub proof fn lemma_bucket_in_profile(d2: int, radius: int, len: int)
    requires
        0 <= d2 < radius * radius,
        0 < len,
    ensures
        0 <= spec_bucket(d2, radius, len) < len,
{
    let rr = radius * radius;
    let q = d2 * len / rr;
    assert(d2 * len < rr * len) by (nonlinear_arith)
        requires
            0 <= d2 < rr,
            0 < len,
    ;
    assert(0 <= d2 * len) by (nonlinear_arith)
        requires
            0 <= d2,
            0 < len,
    ;
    vstd::arithmetic::div_mod::lemma_fundamental_div_mod(d2 * len, rr);
    vstd::arithmetic::div_mod::lemma_mod_bound(d2 * len, rr);
    vstd::arithmetic::div_mod::lemma_div_pos_is_pos(d2 * len, rr);
    if q >= len {
        assert(rr * q >= rr * len) by (nonlinear_arith)
            requires
                q >= len,
                rr > 0,
        ;
    }
}

impl Species {
    /// The kernel radius for an event kind.
    pub open spec fn radius(&self, kind: Event) -> i64 {
        match kind {
            Event::Birth => self.birth_radius_max,
            Event::Death => self.death_radius_max,
        }
    }

    /// The kernel standard deviation for an event kind.
    pub open spec fn spread(&self, kind: Event) -> i64 {
        match kind {
            Event::Birth => self.birth_std,
            Event::Death => self.death_std,
        }
    }

    /// The derived normalisation constant for an event kind.
    pub open spec fn norm(&self, kind: Event) -> Option<u64> {
        match kind {
            Event::Birth => self.birth_norm,
            Event::Death => self.death_norm,
        }
    }

    /// The kernel profile for an event kind.
    pub open spec fn profile(&self, kind: Event) -> Seq<u64> {
        match kind {
            Event::Birth => self.birth_profile@,
            Event::Death => self.death_profile@,
        }
    }

    /// The radius and standard deviation that the derived data of an event
    /// kind were derived for.
    pub open spec fn derived(&self, kind: Event) -> (i64, i64) {
        match kind {
            Event::Birth => (self.birth_derived_radius, self.birth_derived_std),
            Event::Death => (self.death_derived_radius, self.death_derived_std),
        }
    }

    /// The rate that does not depend on neighbours, for an event kind.
    pub open spec fn base_rate(&self, kind: Event) -> i64 {
        match kind {
            Event::Birth => self.b0,
            Event::Death => self.d0,
        }
    }

    /// The coefficient of the neighbour effect, for an event kind.
    pub open spec fn coefficient(&self, kind: Event) -> i64 {
        match kind {
            Event::Birth => self.b1,
            Event::Death => self.d1,
        }
    }

    /// A kernel is usable when its constant is undefined where the standard
    /// deviation is zero and positive wherever it is defined, and, where the
    /// kernel is switched on, its derived data were derived for the radius
    /// and the deviation that the species has now and its profile has at
    /// least the two knots of one slice, the first of them one, as the
    /// kernel is at distance zero, and none above one.
    pub open spec fn kernel_valid(&self, kind: Event) -> bool {
        &&& (self.norm(kind) matches Some(n) ==> n > 0)
        &&& (self.spread(kind) == 0 ==> self.norm(kind) is None)
        &&& (self.spread(kind) != 0 ==> self.derived(kind) == (
            self.radius(kind),
            self.spread(kind),
        ))
        &&& (self.spread(kind) != 0 ==> self.profile(kind).len() >= 2 && self.profile(kind)[0]
            == UNIT)
        &&& forall|k: int|
            0 <= k < self.profile(kind).len() ==> #[trigger] self.profile(kind)[k] <= UNIT
    }

    /// The species is acceptable: no count, radius, deviation or rate is
    /// negative or beyond `LIMIT`, and both kernels are usable.
    pub open spec fn valid(&self) -> bool {
        &&& 0 <= self.c1
        &&& in_bounds(self.b0)
        &&& in_bounds(self.b1)
        &&& in_bounds(self.d0)
        &&& in_bounds(self.d1)
        &&& in_bounds(self.mbrmax)
        &&& in_bounds(self.mbsd)
        &&& in_bounds(self.mintegral)
        &&& in_bounds(self.move_radius_max)
        &&& in_bounds(self.move_std)
        &&& in_bounds(self.birth_radius_max)
        &&& in_bounds(self.birth_std)
        &&& in_bounds(self.death_radius_max)
        &&& in_bounds(self.death_std)
        &&& self.kernel_valid(Event::Birth)
        &&& self.kernel_valid(Event::Death)
    }

    /// An individual at squared distance `d2` lies inside the kernel: the
    /// kernel is switched on and the distance is below its radius.
    pub open spec fn spec_reaches(&self, kind: Event, d2: int) -> bool {
        self.spread(kind) != 0 && d2 < self.radius(kind) * self.radius(kind)
    }

    /// The kernel weight at squared distance `d2`: the value between the
    /// two knots of the profile that enclose `d2`, in proportion to where
    /// `d2` lies in their slice.
    pub open spec fn spec_weight(&self, kind: Event, d2: int) -> u64 {
        let profile = self.profile(kind);
        let slices = profile.len() - 1;
        let whole = self.radius(kind) * self.radius(kind);
        let slot = spec_bucket(d2, self.radius(kind) as int, slices);
        spec_between(profile[slot], profile[slot + 1], (d2 * slices) % whole, whole) as u64
    }

    /// The test by squared distance is the test by distance: an individual
    /// lies inside the kernel exactly when the kernel is switched on and the
    /// distance, rounded down to a whole millionth, is below the radius.
    pub proof fn lemma_reaches_by_distance(&self, kind: Event, d2: int, root: int)
        requires
            self.valid(),
            crate::geometry::is_floor_sqrt(d2, root),
        ensures
            self.spec_reaches(kind, d2) <==> (self.spread(kind) != 0 && root < self.radius(kind)),
    {
        crate::geometry::lemma_floor_sqrt_compare(d2, root, self.radius(kind) as int);
    }

    /// At distance zero a usable kernel weighs one.
    pub proof fn lemma_weight_at_zero(&self, kind: Event)
        requires
            self.valid(),
            self.spec_reaches(kind, 0),
        ensures
            self.spec_weight(kind, 0) == UNIT,
    {
        let profile = self.profile(kind);
        let slices = profile.len() - 1;
        let whole = self.radius(kind) * self.radius(kind);
        assert(self.kernel_valid(kind));
        assert(0int * slices == 0) by (nonlinear_arith);
        vstd::arithmetic::div_mod::lemma_div_basics(whole);
        vstd::arithmetic::div_mod::lemma_small_mod(0, whole as nat);
        assert(spec_bucket(0, self.radius(kind) as int, slices) == 0);
        assert(profile[0] * (whole - 0) + profile[1] * 0 == whole * UNIT) by (nonlinear_arith)
            requires
                profile[0] == UNIT,
        ;
        vstd::arithmetic::div_mod::lemma_div_multiples_vanish(UNIT as int, whole);
    }

    /// Inside a usable kernel the weight never exceeds one.
    pub proof fn lemma_weight_bounded(&self, kind: Event, d2: int)
        requires
            self.valid(),
            0 <= d2,
            self.spec_reaches(kind, d2),
        ensures
            self.spec_weight(kind, d2) <= UNIT,
            0 <= spec_bucket(d2, self.radius(kind) as int, self.profile(kind).len() - 1)
                < self.profile(kind).len() - 1,
    {
        let profile = self.profile(kind);
        let slices = profile.len() - 1;
        let whole = self.radius(kind) * self.radius(kind);
        let slot = spec_bucket(d2, self.radius(kind) as int, slices);
        assert(self.kernel_valid(kind));
        lemma_bucket_in_profile(d2, self.radius(kind) as int, slices);
        assert(0 <= d2 * slices) by (nonlinear_arith)
            requires
                0 <= d2,
                0 < slices,
        ;
        vstd::arithmetic::div_mod::lemma_mod_bound(d2 * slices, whole);
        assert(profile[slot] <= UNIT);
        assert(profile[slot + 1] <= UNIT);
        lemma_between_bounded(profile[slot], profile[slot + 1], (d2 * slices) % whole, whole);
    }

    /// Creates a species from its parameters; the norms are undefined and
    /// the profiles empty until `derive_norms` supplies them.
    pub fn new(
        id: usize,
        b0: i64,
        b1: i64,
        c1: i64,
        d0: i64,
        d1: i64,
        mbrmax: i64,
        mbsd: i64,
        mintegral: i64,
        move_radius_max: i64,
        move_std: i64,
        birth_radius_max: i64,
        birth_std: i64,
        death_radius_max: i64,
        death_std: i64,
    ) -> (s: Species)
        ensures
            s.id == id,
            s.b0 == b0,
            s.b1 == b1,
            s.c1 == c1,
            s.d0 == d0,
            s.d1 == d1,
            s.mbrmax == mbrmax,
            s.mbsd == mbsd,
            s.mintegral == mintegral,
            s.move_radius_max == move_radius_max,
            s.move_std == move_std,
            s.birth_radius_max == birth_radius_max,
            s.birth_std == birth_std,
            s.death_radius_max == death_radius_max,
            s.death_std == death_std,
            s.birth_norm is None,
            s.death_norm is None,
            s.birth_profile@.len() == 0,
            s.death_profile@.len() == 0,
            s.derived(Event::Birth) == (birth_radius_max, birth_std),
            s.derived(Event::Death) == (death_radius_max, death_std),
    {
        Species {
            id,
            b0,
            b1,
            c1,
            d0,
            d1,
            mbrmax,
            mbsd,
            mintegral,
            move_radius_max,
            move_std,
            birth_radius_max,
            birth_std,
            birth_norm: None,
            birth_profile: Vec::new(),
            birth_derived_radius: birth_radius_max,
            birth_derived_std: birth_std,
            death_radius_max,
            death_std,
            death_norm: None,
            death_profile: Vec::new(),
            death_derived_radius: death_radius_max,
            death_derived_std: death_std,
        }
    }

    /// Installs the derived constants of both kernels. A kernel whose
    /// standard deviation is zero has no norm and no profile, whatever it
    /// held before; for any other the norm becomes the table's constant,
    /// undefined where that constant is zero, and the profile becomes the
    /// table's. Either way the kernel is marked as derived for the radius
    /// and the deviation that the species has at the call.
    pub fn derive_norms(&mut self, birth: KernelTable, death: KernelTable)
        ensures
            old(self).birth_std != 0 ==> final(self).birth_profile@ == birth.profile@
                && final(self).birth_norm == (if birth.norm > 0 {
                Some(birth.norm)
            } else {
                None
            }),
            old(self).birth_std == 0 ==> final(self).birth_norm is None
                && final(self).birth_profile@.len() == 0,
            old(self).death_std != 0 ==> final(self).death_profile@ == death.profile@
                && final(self).death_norm == (if death.norm > 0 {
                Some(death.norm)
            } else {
                None
            }),
            old(self).death_std == 0 ==> final(self).death_norm is None
                && final(self).death_profile@.len() == 0,
            final(self).derived(Event::Birth) == (old(self).birth_radius_max, old(self).birth_std),
            final(self).derived(Event::Death) == (old(self).death_radius_max, old(self).death_std),
            final(self).id == old(self).id,
            final(self).b0 == old(self).b0,
            final(self).b1 == old(self).b1,
            final(self).c1 == old(self).c1,
            final(self).d0 == old(self).d0,
            final(self).d1 == old(self).d1,
            final(self).mbrmax == old(self).mbrmax,
            final(self).mbsd == old(self).mbsd,
            final(self).mintegral == old(self).mintegral,
            final(self).move_radius_max == old(self).move_radius_max,
            final(self).move_std == old(self).move_std,
            final(self).birth_radius_max == old(self).birth_radius_max,
            final(self).birth_std == old(self).birth_std,
            final(self).death_radius_max == old(self).death_radius_max,
            final(self).death_std == old(self).death_std,
    {
        self.birth_derived_radius = self.birth_radius_max;
        self.birth_derived_std = self.birth_std;
        self.death_derived_radius = self.death_radius_max;
        self.death_derived_std = self.death_std;
        if self.birth_std != 0 {
            self.birth_norm = if birth.norm > 0 {
                Some(birth.norm)
            } else {
                None
            };
            self.birth_profile = birth.profile;
        } else {
            self.birth_norm = None;
            self.birth_profile = Vec::new();
        }
        if self.death_std != 0 {
            self.death_norm = if death.norm > 0 {
                Some(death.norm)
            } else {
                None
            };
            self.death_profile = death.profile;
        } else {
            self.death_norm = None;
            self.death_profile = Vec::new();
        }
    }

    /// Tells whether the species is acceptable.
    pub fn is_valid(&self) -> (ok: bool)
        ensures
            ok == self.valid(),
    {
        let scalars: bool = self.c1 >= 0 && within(self.b0) && within(self.b1) && within(self.d0)
            && within(self.d1) && within(self.mbrmax) && within(self.mbsd) && within(
            self.mintegral,
        ) && within(self.move_radius_max) && within(self.move_std) && within(
            self.birth_radius_max,
        ) && within(self.birth_std) && within(self.death_radius_max) && within(self.death_std);
        if !scalars {
            return false;
        }
        let birth_fresh: bool = self.birth_std == 0 || (self.birth_derived_radius
            == self.birth_radius_max && self.birth_derived_std == self.birth_std);
        let death_fresh: bool = self.death_std == 0 || (self.death_derived_radius
            == self.death_radius_max && self.death_derived_std == self.death_std);
        if !birth_fresh || !death_fresh {
            return false;
        }
        let birth_ok: bool = kernel_usable(self.birth_std, &self.birth_norm, &self.birth_profile);
        let death_ok: bool = kernel_usable(self.death_std, &self.death_norm, &self.death_profile);
        proof {
            assert(self.profile(Event::Birth) == self.birth_profile@);
            assert(self.profile(Event::Death) == self.death_profile@);
            assert(birth_ok == self.kernel_valid(Event::Birth));
            assert(death_ok == self.kernel_valid(Event::Death));
        }
        birth_ok && death_ok
    }

    /// Tells whether an individual at squared distance `d2` lies inside the
    /// kernel of the given kind.
    pub fn reaches(&self, kind: Event, d2: u64) -> (inside: bool)
        requires
            self.valid(),
        ensures
            inside == self.spec_reaches(kind, d2 as int),
    {
        let (radius, spread): (i64, i64) = match kind {
            Event::Birth => (self.birth_radius_max, self.birth_std),
            Event::Death => (self.death_radius_max, self.death_std),
        };
        assert(radius * radius <= 1_000_000_000_000 * 1_000_000_000_000) by (nonlinear_arith)
            requires
                0 <= radius <= 1_000_000_000_000,
        ;
        let r: u128 = radius as u128;
        spread != 0 && (d2 as u128) < r * r
    }

    /// Reads the kernel weight at squared distance `d2` off the profile,
    /// between the two knots that enclose it.
    pub fn weight(&self, kind: Event, d2: u64) -> (w: u64)
        requires
            self.valid(),
            self.spec_reaches(kind, d2 as int),
        ensures
            w == self.spec_weight(kind, d2 as int),
            w <= UNIT,
    {
        let radius: i64 = match kind {
            Event::Birth => self.birth_radius_max,
            Event::Death => self.death_radius_max,
        };
        let profile: &Vec<u64> = match kind {
            Event::Birth => &self.birth_profile,
            Event::Death => &self.death_profile,
        };
        assert(profile@ == self.profile(kind));
        let slices: usize = profile.len() - 1;
        assert(radius * radius <= 1_000_000_000_000 * 1_000_000_000_000) by (nonlinear_arith)
            requires
                0 <= radius <= 1_000_000_000_000,
        ;
        assert(0 <= d2 * slices < 0x1_0000_0000_0000_0000_0000_0000_0000_0000) by (nonlinear_arith)
            requires
                0 <= d2 < 0x1_0000_0000_0000_0000,
                0 <= slices < 0x1_0000_0000_0000_0000,
        ;
        let r: u128 = radius as u128;
        let whole: u128 = r * r;
        let place: u128 = (d2 as u128) * (slices as u128);
        proof {
            self.lemma_weight_bounded(kind, d2 as int);
            vstd::arithmetic::div_mod::lemma_mod_bound(place as int, whole as int);
        }
        let slot: usize = (place / whole) as usize;
        let part: u128 = place % whole;
        let lower: u64 = profile[slot];
        let upper: u64 = profile[slot + 1];
        proof {
            lemma_between_bounded(lower, upper, part as int, whole as int);
            assert(UNIT * whole <= 1_000_000 * (1_000_000_000_000 * 1_000_000_000_000))
                by (nonlinear_arith)
                requires
                    0 <= whole <= 1_000_000_000_000 * 1_000_000_000_000,
                    UNIT == 1_000_000,
            ;
            assert(0 <= lower * (whole - part) <= UNIT * whole) by (nonlinear_arith)
                requires
                    0 <= lower <= UNIT,
                    0 <= part < whole,
            ;
            assert(0 <= upper * part <= UNIT * whole) by (nonlinear_arith)
                requires
                    0 <= upper <= UNIT,
                    0 <= part < whole,
            ;
        }
        (((lower as u128) * (whole - part) + (upper as u128) * part) / whole) as u64
    }
}

/// Tells whether a parameter is neither negative nor beyond `LIMIT`.
pub fn within(v: i64) -> (ok: bool)
    ensures
        ok == in_bounds(v),
{
    0 <= v && v <= LIMIT
}

/// Tells whether a kernel's derived data can be used with its standard
/// deviation: no constant where the deviation is zero and a positive one
/// wherever one is defined, at least two knots where the kernel is switched
/// on, the first of them one, and no knot above one.
fn kernel_usable(spread: i64, norm: &Option<u64>, profile: &Vec<u64>) -> (ok: bool)
    ensures
        ok == ({
            &&& (*norm matches Some(n) ==> n > 0)
            &&& (spread == 0 ==> *norm is None)
            &&& (spread != 0 ==> profile@.len() >= 2 && profile@[0] == UNIT)
            &&& forall|k: int| 0 <= k < profile@.len() ==> #[trigger] profile@[k] <= UNIT
        }),
{
    match norm {
        Some(n) => {
            if *n == 0 || spread == 0 {
                return false;
            }
        },
        None => {},
    }
    if spread != 0 && (profile.len() < 2 || profile[0] != UNIT) {
        return false;
    }
    let mut k: usize = 0;
    while k < profile.len()
        invariant
            k <= profile@.len(),
            forall|j: int| 0 <= j < k ==> #[trigger] profile@[j] <= UNIT,
        decreases profile@.len() - k,
    {
        if profile[k] > UNIT {
            return false;
        }
        k += 1;
    }
    true
}

} // verus!
