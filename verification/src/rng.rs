//! The sampling handle: a seedable pseudorandom source, single uniform
//! draws, and draw-without-replacement over an order-statistics set.
use vstd::prelude::*;
use crate::fenwick::{self, FenwickSet};
use rand::Rng;
use rand::SeedableRng;
use rand_xorshift::XorShiftRng;

verus! {

#[verifier::external_type_specification]
#[verifier::external_body]
pub struct ExXorShiftRng(XorShiftRng);

/// Relies on rand_xorshift's XorShiftRng::from_seed: builds generator
/// state from the 16 seed bytes; the state itself is opaque here.
#[verifier::external_body]
fn xorshift_from_seed(seed: u128) -> XorShiftRng {
    XorShiftRng::from_seed(seed.to_le_bytes())
}

/// Relies on rand::random: one draw from the process-entropy-seeded
/// thread-local generator; nothing can be promised of its value.
#[verifier::external_body]
pub fn gen_seed() -> u128 {
    rand::random()
}

/// Relies on rand's Rng::gen_range, whose documentation promises a
/// value inside the given nonempty range.
#[verifier::external_body]
fn rand_range(rng: &mut XorShiftRng, lo: usize, hi: usize) -> (r: usize)
    requires
        lo < hi,
    ensures
        lo <= r < hi,
{
    rng.gen_range(lo..hi)
}

/// A percentage in `[0, 100]`. Values beyond 100 can be constructed but
/// are rejected as a hard precondition wherever they are used.
#[derive(Clone, Copy, Debug)]
pub struct Parcent(u32);

impl Parcent {
    /// The raw percentage value.
    pub closed spec fn value_spec(&self) -> u32 {
        self.0
    }

    pub fn new(u: u32) -> (r: Self)
        ensures
            r.value_spec() == u,
    {
        Parcent(u)
    }

    /// Percentages beyond 100 are a programmer error, excluded up
    /// front.
    pub fn valid_check(self)
        requires
            self.value_spec() <= 100,
    {
    }
}

/// Owns a seedable pseudorandom generator: seeded from process entropy
/// for production, or from a fixed seed for reproducible runs.
pub struct RngHandle(XorShiftRng);

impl RngHandle {
    /// A generator with the given fixed seed.
    pub fn from_seed(seed: u128) -> Self {
        RngHandle(xorshift_from_seed(seed))
    }

    /// A generator seeded from process entropy.
    pub fn new() -> Self {
        Self::from_seed(gen_seed())
    }

    /// One uniform draw with replacement from `[lo, hi)`.
    pub fn range(&mut self, lo: usize, hi: usize) -> (r: usize)
        requires
            lo < hi,
        ensures
            lo <= r < hi,
    {
        rand_range(&mut self.0, lo, hi)
    }

    /// True with probability `1 / p_inv`.
    pub fn does_happen(&mut self, p_inv: u32) -> (r: bool)
        requires
            p_inv >= 1,
        ensures
            p_inv == 1 ==> r,
    {
        let v = self.range(0, p_inv as usize);
        v == 0
    }

    /// True with probability `p` percent.
    pub fn parcent(&mut self, p: Parcent) -> (r: bool)
        requires
            p.value_spec() <= 100,
        ensures
            p.value_spec() == 0 ==> !r,
            p.value_spec() == 100 ==> r,
    {
        p.valid_check();
        let v = self.range(1, 101);
        v <= p.0 as usize
    }

    /// Draw-without-replacement over the range `[lo, hi)`: each pull
    /// yields one of the remaining values, so the first `k` pulls form
    /// a uniformly random k-subset and a full run a random permutation.
    pub fn select(&mut self, lo: usize, hi: usize) -> (r: RandomSelecter)
        requires
            lo <= hi,
            hi - lo <= 10_000_000,
        ensures
            r.inv(),
            r.offset_spec() == lo,
            r.remaining() == hi - lo,
            forall|z: int| r.sel().has(z) == (0 <= z < hi - lo),
    {
        RandomSelecter { offset: lo, selected: FenwickSet::from_range(0, hi - lo) }
    }

    /// Draw-without-replacement over a caller-supplied set.
    pub fn select_with(&mut self, set: FenwickSet) -> (r: RandomSelecter)
        requires
            set.inv(),
        ensures
            r.inv(),
            r.offset_spec() == 0,
            r.sel() == set,
    {
        proof {
            fenwick::lemma_set_wf(&set);
        }
        RandomSelecter { offset: 0, selected: set }
    }
}

impl FenwickSet {
    /// One uniformly weighted member among those currently present,
    /// absent exactly when the set is empty.
    pub fn select(&self, rng: &mut RngHandle) -> (r: Option<usize>)
        requires
            self.inv(),
        ensures
            r is Some <==> self.card() > 0,
            match r {
                Some(x) => self.has(x as int),
                None => true,
            },
    {
        let num = self.len();
        if num == 0 {
            return None;
        }
        let k = rng.range(0, num);
        proof {
            fenwick::lemma_elems_characterize(self.flags_spec());
            fenwick::lemma_set_wf(self);
        }
        self.nth(k)
    }
}

impl Default for RngHandle {
    /// A generator seeded from process entropy.
    fn default() -> Self {
        Self::new()
    }
}

/// Draws the elements of an order-statistics set one by one, in
/// uniformly random order, removing each drawn element.
pub struct RandomSelecter {
    offset: usize,
    selected: FenwickSet,
}

impl RandomSelecter {
    /// The value added back onto each drawn element, mapping the
    /// zero-based window into the caller's coordinate space.
    pub closed spec fn offset_spec(&self) -> int {
        self.offset as int
    }

    /// The set of elements not yet drawn, in window coordinates.
    pub closed spec fn sel(&self) -> FenwickSet {
        self.selected
    }

    /// How many elements remain to be drawn.
    pub open spec fn remaining(&self) -> int {
        self.sel().card()
    }

    pub closed spec fn inv(&self) -> bool {
        &&& self.selected.inv()
        &&& self.offset + self.selected.capacity_spec() <= usize::MAX
    }

    /// Draw one of the remaining elements, remove it, and return it
    /// offset back into the caller's coordinate space; absent exactly
    /// when every element has been drawn. A drawn element never comes
    /// back, so no value repeats within one draw sequence.
    pub fn next(&mut self, rng: &mut RngHandle) -> (r: Option<usize>)
        requires
            old(self).inv(),
        ensures
            final(self).inv(),
            final(self).offset_spec() == old(self).offset_spec(),
            r is Some <==> old(self).remaining() > 0,
            match r {
                Some(x) => {
                    let e = x - old(self).offset_spec();
                    &&& old(self).sel().has(e)
                    &&& !final(self).sel().has(e)
                    &&& forall|z: int|
                        final(self).sel().has(z) == (old(self).sel().has(z) && z != e)
                    &&& final(self).remaining() == old(self).remaining() - 1
                },
                None => final(self).sel() == old(self).sel(),
            },
    {
        let num_rests = self.selected.len();
        if num_rests == 0 {
            return None;
        }
        let n = rng.range(0, num_rests);
        proof {
            fenwick::lemma_elems_characterize(self.selected.flags_spec());
            fenwick::lemma_set_wf(&self.selected);
        }
        let res = match self.selected.nth(n) {
            Some(res) => res,
            None => vstd::pervasive::unreached(),
        };
        self.selected.remove(res);
        Some(res + self.offset)
    }
}

/// Within one draw sequence nothing repeats: an element still drawable
/// after one pull is not the element that pull returned.
pub proof fn lemma_draws_distinct(before: FenwickSet, after: FenwickSet, e: int, z: int)
    requires
        forall|y: int| after.has(y) == (before.has(y) && y != e),
        after.has(z),
    ensures
        z != e,
        before.has(z),
{
}

} // verus!
