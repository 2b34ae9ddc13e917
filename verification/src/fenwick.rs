//! A Fenwick (binary indexed) tree over 0/1 membership flags, and the
//! order-statistics set built on it: a dynamic subset of `[0, n)` with
//! logarithmic insert, remove, membership, rank and select-by-rank, and
//! a linear full scan.
use vstd::prelude::*;

verus! {

/// Largest capacity a set may be constructed with.
pub const MAX_CAPACITY: usize = 50000000;

/// Number of set positions among `s[lo..hi)`.
pub open spec fn count(s: Seq<bool>, lo: int, hi: int) -> int
    decreases hi - lo,
{
    if lo >= hi {
        0
    } else {
        count(s, lo, hi - 1) + if s[hi - 1] {
            1int
        } else {
            0int
        }
    }
}

/// A count never exceeds the width of its range.
pub proof fn lemma_count_bounds(s: Seq<bool>, lo: int, hi: int)
    ensures
        0 <= count(s, lo, hi),
        count(s, lo, hi) <= (if hi >= lo {
            hi - lo
        } else {
            0int
        }),
    decreases hi - lo,
{
    if lo < hi {
        lemma_count_bounds(s, lo, hi - 1);
    }
}

/// Counting a range piecewise agrees with counting it at once.
pub proof fn lemma_count_split(s: Seq<bool>, lo: int, mid: int, hi: int)
    requires
        lo <= mid <= hi,
    ensures
        count(s, lo, hi) == count(s, lo, mid) + count(s, mid, hi),
    decreases hi - mid,
{
    if mid < hi {
        lemma_count_split(s, lo, mid, hi - 1);
    } else {
        lemma_count_bounds(s, lo, hi);
    }
}

/// Changing one flag changes exactly the counts of ranges around it.
pub proof fn lemma_count_update(s: Seq<bool>, x: int, v: bool, lo: int, hi: int)
    requires
        0 <= x < s.len(),
        0 <= lo,
        hi <= s.len(),
    ensures
        count(s.update(x, v), lo, hi) == count(s, lo, hi) + (if lo <= x < hi {
            (if v {
                1int
            } else {
                0int
            }) - (if s[x] {
                1int
            } else {
                0int
            })
        } else {
            0int
        }),
    decreases hi - lo,
{
    if lo < hi {
        lemma_count_update(s, x, v, lo, hi - 1);
    }
}

/// Counts of prefixes grow with the prefix, by at most one per step.
pub proof fn lemma_count_mono(s: Seq<bool>, lo: int, j1: int, j2: int)
    requires
        lo <= j1 <= j2,
    ensures
        count(s, lo, j1) <= count(s, lo, j2),
        count(s, lo, j2) - count(s, lo, j1) <= j2 - j1,
    decreases j2 - j1,
{
    if j1 < j2 {
        lemma_count_mono(s, lo, j1, j2 - 1);
    }
}

/// A range of clear flags counts zero.
pub proof fn lemma_count_zero(s: Seq<bool>, lo: int, hi: int)
    requires
        forall|i: int| lo <= i < hi && 0 <= i < s.len() ==> !s[i],
        lo >= 0,
        hi <= s.len(),
    ensures
        count(s, lo, hi) == 0,
    decreases hi - lo,
{
    if lo < hi {
        lemma_count_zero(s, lo, hi - 1);
    }
}

/// The lowest set bit of `i`; zero only for zero.
pub open spec fn lsb(i: usize) -> int {
    if i == 0 {
        0
    } else {
        i - (i & ((i - 1) as usize))
    }
}

/// Tree node `j` is responsible for flag position `x`.
pub open spec fn covers(j: int, x: int) -> bool {
    0 < j && j - lsb(j as usize) <= x < j
}

/// `k` is a power of two.
pub open spec fn is_pow2(k: usize) -> bool {
    k >= 1 && k & ((k - 1) as usize) == 0
}

proof fn lemma_lsb_range(i: usize)
    by (bit_vector)
    requires
        1 <= i,
    ensures
        1 <= lsb(i) <= i,
{
}

/// Stepping from a covering node to the next node up keeps covering:
/// the next node's range starts no later.
proof fn lemma_next_covers(i: usize)
    by (bit_vector)
    requires
        1 <= i <= 0x1000_0000,
    ensures
        ({
            let j = (i + lsb(i)) as usize;
            j - lsb(j) <= i - lsb(i) && i < j
        }),
{
}

/// No node strictly between a covering node and its successor covers
/// the same position.
proof fn lemma_chain_complete(i: usize, j: usize, x: usize)
    by (bit_vector)
    requires
        1 <= i <= 0x1000_0000,
        i - lsb(i) <= x < i,
        j - lsb(j) <= x < j,
        i < j,
    ensures
        i + lsb(i) <= j,
{
}

/// A node one aligned power-of-two step above `cur` has that step as
/// its lowest set bit.
proof fn lemma_pow2_align(cur: usize, k: usize)
    by (bit_vector)
    requires
        is_pow2(k),
        k <= 0x1000_0000,
        cur <= 0x1000_0000,
        cur % ((2 * k) as usize) == 0,
    ensures
        lsb((cur + k) as usize) == k,
{
}

proof fn lemma_pow2_doubles(k: usize)
    by (bit_vector)
    requires
        is_pow2(k),
        k <= 0x1000_0000,
    ensures
        is_pow2((2 * k) as usize),
{
}

proof fn lemma_pow2_halves(k: usize)
    by (bit_vector)
    requires
        is_pow2(k),
        k >= 2,
    ensures
        is_pow2((k / 2) as usize),
        2 * ((k / 2) as usize) == k,
{
}

proof fn lemma_pow2_one()
    by (bit_vector)
    ensures
        is_pow2(1usize),
{
}

proof fn lemma_mod_half(cur: usize, k: usize)
    requires
        k >= 1,
        k <= 0x1000_0000,
        cur <= 0x1000_0000,
        cur % ((2 * k) as usize) == 0,
    ensures
        cur % k == 0,
{
    let d: int = 2 * (k as int);
    let q: int = cur as int / d;
    vstd::arithmetic::div_mod::lemma_fundamental_div_mod(cur as int, d);
    assert(cur as int == d * q);
    assert(d * q == (2 * q) * (k as int)) by (nonlinear_arith)
        requires
            d == 2 * (k as int),
    ;
    vstd::arithmetic::div_mod::lemma_mod_multiples_basic(2 * q, k as int);
}

/// Counting only reads the flags inside the range.
pub proof fn lemma_count_congruent(s: Seq<bool>, t: Seq<bool>, lo: int, hi: int)
    requires
        forall|i: int| lo <= i < hi ==> s[i] == t[i],
    ensures
        count(s, lo, hi) == count(t, lo, hi),
    decreases hi - lo,
{
    if lo < hi {
        lemma_count_congruent(s, t, lo, hi - 1);
    }
}

/// The ascending listing of the set positions of `s`.
pub open spec fn elems(s: Seq<bool>) -> Seq<int>
    decreases s.len(),
{
    if s.len() == 0 {
        Seq::empty()
    } else {
        let rest = elems(s.drop_last());
        if s.last() {
            rest.push(s.len() - 1)
        } else {
            rest
        }
    }
}

/// The ascending listing is exact: it has one entry per set flag, every
/// entry is a set position with exactly its index's worth of set
/// positions below it, it is strictly increasing, and it lists every
/// set position.
pub proof fn lemma_elems_characterize(s: Seq<bool>)
    ensures
        elems(s).len() == count(s, 0, s.len() as int),
        forall|i: int|
            0 <= i < elems(s).len() ==> 0 <= #[trigger] elems(s)[i] < s.len() && s[elems(s)[i]]
                && count(s, 0, elems(s)[i]) == i,
        forall|i: int, j: int| 0 <= i < j < elems(s).len() ==> elems(s)[i] < elems(s)[j],
        forall|x: int| 0 <= x < s.len() && s[x] ==> elems(s).contains(x),
    decreases s.len(),
{
    if s.len() > 0 {
        let s0 = s.drop_last();
        let e = s.len() - 1;
        lemma_elems_characterize(s0);
        assert forall|m: int| 0 <= m <= s0.len() implies count(s0, 0, m) == count(s, 0, m) by {
            lemma_count_congruent(s0, s, 0, m);
        }
        if s.last() {
            assert(elems(s) == elems(s0).push(e));
            assert(count(s, 0, s.len() as int) == count(s, 0, e) + 1);
            assert forall|x: int| 0 <= x < s.len() && s[x] implies elems(s).contains(x) by {
                if x < e {
                    assert(s0[x] == s[x]);
                    assert(elems(s0).contains(x));
                    let i = choose|i: int| 0 <= i < elems(s0).len() && elems(s0)[i] == x;
                    assert(elems(s)[i] == x);
                } else {
                    assert(elems(s)[elems(s).len() - 1] == x);
                }
            }
        } else {
            assert(elems(s) == elems(s0));
            assert(count(s, 0, s.len() as int) == count(s, 0, e));
            assert forall|x: int| 0 <= x < s.len() && s[x] implies elems(s).contains(x) by {
                assert(x < e);
                assert(s0[x] == s[x]);
                assert(elems(s0).contains(x));
                let i = choose|i: int| 0 <= i < elems(s0).len() && elems(s0)[i] == x;
                assert(elems(s)[i] == x);
            }
        }
    }
}

/// A set position is listed exactly at the index given by its rank.
pub proof fn lemma_rank_unique(s: Seq<bool>, x: int)
    requires
        0 <= x < s.len(),
        s[x],
    ensures
        0 <= count(s, 0, x) < elems(s).len(),
        elems(s)[count(s, 0, x)] == x,
{
    lemma_elems_characterize(s);
    let i = choose|i: int| 0 <= i < elems(s).len() && elems(s)[i] == x;
    lemma_count_bounds(s, 0, x);
}

/// Extending a scanned prefix by one position appends that position to
/// its listing exactly when its flag is set.
pub proof fn lemma_elems_take_step(s: Seq<bool>, m: int)
    requires
        0 <= m < s.len(),
    ensures
        s[m] ==> elems(s.take(m + 1)) == elems(s.take(m)).push(m),
        !s[m] ==> elems(s.take(m + 1)) == elems(s.take(m)),
{
    assert(s.take(m + 1).drop_last() =~= s.take(m));
    assert(s.take(m + 1).last() == s[m]);
}

/// A 0-indexed Fenwick tree over membership flags. Node `j` of the
/// internal 1-indexed array holds the count of the flag range
/// `[j - lsb(j), j)`.
#[derive(Clone)]
pub(crate) struct FenwickTree {
    inner: Vec<i32>,
    flags: Ghost<Seq<bool>>,
}

impl FenwickTree {
    /// The membership flags this tree summarizes.
    pub(crate) closed spec fn flags_spec(&self) -> Seq<bool> {
        self.flags@
    }

    /// Width of the flag domain.
    pub(crate) closed spec fn n_spec(&self) -> int {
        self.flags@.len() as int
    }

    pub(crate) closed spec fn inv(&self) -> bool {
        &&& self.flags@.len() + 1 == self.inner@.len()
        &&& self.flags@.len() <= MAX_CAPACITY
        &&& forall|j: int|
            1 <= j < self.inner@.len() ==> #[trigger] self.inner@[j] == count(
                self.flags@,
                j - lsb(j as usize),
                j,
            )
    }

    /// A tree over `length` clear flags.
    pub(crate) fn new(length: usize) -> (r: Self)
        requires
            length <= MAX_CAPACITY,
        ensures
            r.inv(),
            r.n_spec() == length,
            r.flags_spec() == Seq::new(length as nat, |i: int| false),
    {
        let mut inner: Vec<i32> = Vec::new();
        let ghost flags = Seq::new(length as nat, |i: int| false);
        let mut i: usize = 0;
        while i < length + 1
            invariant
                i <= length + 1,
                length <= MAX_CAPACITY,
                inner@.len() == i,
                forall|j: int| 0 <= j < i ==> #[trigger] inner@[j] == 0,
            decreases length + 1 - i,
        {
            inner.push(0);
            i = i + 1;
        }
        proof {
            assert forall|j: int| 1 <= j < inner@.len() implies #[trigger] inner@[j] == count(
                flags,
                j - lsb(j as usize),
                j,
            ) by {
                lemma_lsb_range(j as usize);
                lemma_count_zero(flags, j - lsb(j as usize), j);
            }
        }
        FenwickTree { inner, flags: Ghost(flags) }
    }

    /// Flip the flag at `idx` to match `plus`: adds `plus` to every node
    /// whose range covers `idx`.
    pub(crate) fn add(&mut self, idx: usize, plus: i32)
        requires
            old(self).inv(),
            idx < old(self).n_spec(),
            plus == 1 || plus == -1,
            plus == 1 ==> !old(self).flags_spec()[idx as int],
            plus == -1 ==> old(self).flags_spec()[idx as int],
        ensures
            final(self).inv(),
            final(self).flags_spec() == old(self).flags_spec().update(idx as int, plus == 1),
            final(self).n_spec() == old(self).n_spec(),
    {
        let ghost old_flags = self.flags@;
        let ghost new_flags = old_flags.update(idx as int, plus == 1);
        let n = self.inner.len() - 1;
        proof {
            self.flags@ = new_flags;
        }
        let mut i: usize = idx + 1;
        proof {
            lemma_lsb_range(i);
        }
        while i <= n
            invariant
                self.flags@ == new_flags,
                new_flags == old_flags.update(idx as int, plus == 1),
                new_flags.len() == old_flags.len(),
                self.inner@.len() == n + 1,
                old_flags.len() == n,
                n <= MAX_CAPACITY,
                idx < n,
                plus == 1 || plus == -1,
                plus == 1 ==> !old_flags[idx as int],
                plus == -1 ==> old_flags[idx as int],
                covers(i as int, idx as int),
                forall|j: int|
                    1 <= j <= n && covers(j, idx as int) && j < i
                        ==> #[trigger] self.inner@[j] == count(new_flags, j - lsb(j as usize), j),
                forall|j: int|
                    1 <= j <= n && covers(j, idx as int) && j >= i
                        ==> #[trigger] self.inner@[j] == count(old_flags, j - lsb(j as usize), j),
                forall|j: int|
                    1 <= j <= n && !covers(j, idx as int)
                        ==> #[trigger] self.inner@[j] == count(old_flags, j - lsb(j as usize), j),
            decreases (if i <= n {
                n + 1 - i
            } else {
                0int
            }),
        {
            proof {
                lemma_lsb_range(i);
                lemma_count_bounds(old_flags, i - lsb(i), i as int);
                lemma_count_update(old_flags, idx as int, plus == 1, i - lsb(i), i as int);
            }
            let l = i & (i - 1);
            let node = self.inner[i];
            self.inner.set(i, node + plus);
            proof {
                let ghost iprev = i;
                lemma_next_covers(i);
                assert forall|j: int|
                    1 <= j <= n && covers(j, idx as int) && j < iprev + lsb(iprev) implies j
                    <= iprev as int by {
                    if iprev < j {
                        lemma_chain_complete(iprev, j as usize, idx);
                    }
                }
            }
            i = i + (i - l);
        }
        proof {
            assert forall|j: int| 1 <= j < self.inner@.len() implies #[trigger] self.inner@[j]
                == count(new_flags, j - lsb(j as usize), j) by {
                lemma_lsb_range(j as usize);
                if !covers(j, idx as int) {
                    lemma_count_update(old_flags, idx as int, plus == 1, j - lsb(j as usize), j);
                }
            }
        }
    }

    /// The number of set flags among the first `range_max` positions.
    pub(crate) fn sum(&self, range_max: usize) -> (r: i32)
        requires
            self.inv(),
            range_max <= self.n_spec(),
        ensures
            r == count(self.flags_spec(), 0, range_max as int),
    {
        let mut sum: i32 = 0;
        let mut idx: usize = range_max;
        proof {
            lemma_count_bounds(self.flags@, 0, range_max as int);
        }
        while idx > 0
            invariant
                self.inv(),
                idx <= range_max <= self.n_spec(),
                sum == count(self.flags@, idx as int, range_max as int),
                0 <= sum <= self.n_spec(),
            decreases idx,
        {
            proof {
                lemma_lsb_range(idx);
                lemma_count_bounds(self.flags@, idx - lsb(idx), idx as int);
                lemma_count_split(self.flags@, idx - lsb(idx), idx as int, range_max as int);
                lemma_count_bounds(self.flags@, idx - lsb(idx), range_max as int);
            }
            sum = sum + self.inner[idx];
            idx = idx & (idx - 1);
        }
        sum
    }

    /// The number of set flags in `[lo, hi)`.
    pub(crate) fn sum_range(&self, lo: usize, hi: usize) -> (r: i32)
        requires
            self.inv(),
            lo <= hi <= self.n_spec(),
        ensures
            r == count(self.flags_spec(), lo as int, hi as int),
    {
        let sum1 = self.sum(hi);
        proof {
            lemma_count_split(self.flags@, 0, lo as int, hi as int);
            lemma_count_bounds(self.flags@, 0, lo as int);
            lemma_count_bounds(self.flags@, lo as int, hi as int);
        }
        if lo == 0 {
            sum1
        } else {
            let sum2 = self.sum(lo);
            sum1 - sum2
        }
    }

    /// The smallest prefix width whose count reaches `query`: returns
    /// the largest `cur` whose prefix count stays below `query`, which
    /// is `n` when the whole domain falls short.
    pub(crate) fn lower_bound(&self, query: i32) -> (r: usize)
        requires
            self.inv(),
        ensures
            query <= 0 ==> r == 0,
            query >= 1 ==> {
                &&& r <= self.n_spec()
                &&& count(self.flags_spec(), 0, r as int) < query
                &&& (r == self.n_spec() || count(self.flags_spec(), 0, r as int + 1) >= query)
            },
    {
        if query <= 0 {
            return 0;
        }
        let n = self.inner.len() - 1;
        let mut k: usize = 1;
        proof {
            lemma_pow2_one();
        }
        while k <= n
            invariant
                is_pow2(k),
                k <= 2 * n + 1,
                n <= MAX_CAPACITY,
            decreases 2 * n + 1 - k,
        {
            proof {
                lemma_pow2_doubles(k);
            }
            k = k * 2;
        }
        let mut cur: usize = 0;
        let mut q: i32 = query;
        while k > 0
            invariant
                self.inv(),
                n == self.n_spec(),
                n <= MAX_CAPACITY,
                k == 0 || is_pow2(k),
                k <= 0x0fff_ffff,
                cur <= n,
                cur <= 0x1000_0000,
                count(self.flags@, 0, cur as int) < query,
                q == query - count(self.flags@, 0, cur as int),
                k > 0 ==> cur % ((2 * k) as usize) == 0,
                k > 0 ==> (cur + 2 * k > n || count(self.flags@, 0, cur as int + 2 * k) >= query),
                k == 0 ==> (cur + 1 > n || count(self.flags@, 0, cur as int + 1) >= query),
            decreases k,
        {
            let ghost cur0 = cur;
            let nxt = cur + k;
            if nxt <= n {
                proof {
                    lemma_pow2_align(cur, k);
                    lemma_count_split(self.flags@, 0, cur as int, nxt as int);
                    lemma_count_bounds(self.flags@, 0, cur as int);
                    lemma_count_bounds(self.flags@, cur as int, nxt as int);
                }
                let val = self.inner[nxt];
                if val < q {
                    q = q - val;
                    cur = nxt;
                }
            }
            proof {
                if k >= 2 {
                    lemma_pow2_halves(k);
                    lemma_mod_half(cur0, k);
                    assert(cur0 % k == 0);
                    if cur != cur0 {
                        vstd::arithmetic::div_mod::lemma_mod_add_multiples_vanish(
                            cur0 as int,
                            k as int,
                        );
                        assert((k as int + cur0 as int) % (k as int) == cur0 as int % (k as int));
                        assert(cur % k == 0);
                    }
                    assert(cur % ((2 * ((k / 2) as usize)) as usize) == cur % k == 0);
                }
            }
            k = k / 2;
        }
        cur
    }
}

/// A dynamic subset of `[0, capacity)` backed by a Fenwick tree, with a
/// maintained count of live elements.
#[derive(Clone)]
pub struct FenwickSet {
    inner: FenwickTree,
    num_elements: usize,
    max_val_excluded: usize,
}

impl FenwickSet {
    /// The membership flags of the set.
    pub closed spec fn flags_spec(&self) -> Seq<bool> {
        self.inner.flags@
    }

    /// The fixed capacity chosen at construction.
    pub closed spec fn capacity_spec(&self) -> int {
        self.max_val_excluded as int
    }

    /// `x` is currently a member.
    pub open spec fn has(&self, x: int) -> bool {
        0 <= x < self.capacity_spec() && self.flags_spec()[x]
    }

    /// How many elements are currently members.
    pub open spec fn card(&self) -> int {
        count(self.flags_spec(), 0, self.capacity_spec())
    }

    pub closed spec fn inv(&self) -> bool {
        &&& self.inner.inv()
        &&& self.max_val_excluded == self.inner.n_spec()
        &&& self.num_elements == count(self.inner.flags@, 0, self.inner.n_spec())
    }

    /// An empty set over the domain `[0, n)`. A capacity far beyond
    /// reasonable bounds is a programmer error, excluded up front.
    pub fn with_capacity(n: usize) -> (r: Self)
        requires
            n <= MAX_CAPACITY,
        ensures
            r.inv(),
            r.capacity_spec() == n,
            r.card() == 0,
            forall|x: int| !r.has(x),
    {
        let inner = FenwickTree::new(n);
        proof {
            lemma_count_zero(inner.flags_spec(), 0, n as int);
        }
        FenwickSet { inner, num_elements: 0, max_val_excluded: n }
    }

    /// Put `elem` in the set: refused (returning false) when it is out
    /// of range or already present.
    pub fn insert(&mut self, elem: usize) -> (r: bool)
        requires
            old(self).inv(),
        ensures
            final(self).inv(),
            r == (elem < old(self).capacity_spec() && !old(self).has(elem as int)),
            final(self).capacity_spec() == old(self).capacity_spec(),
            forall|x: int|
                final(self).has(x) == (old(self).has(x) || (r && x == elem as int)),
            final(self).card() == old(self).card() + (if r {
                1int
            } else {
                0int
            }),
    {
        if elem >= self.max_val_excluded || self.contains(elem) {
            proof {
                assert(self.flags_spec() =~= old(self).flags_spec());
            }
            false
        } else {
            proof {
                lemma_count_update(
                    self.inner.flags@,
                    elem as int,
                    true,
                    0,
                    self.inner.n_spec(),
                );
                lemma_count_bounds(self.inner.flags@, 0, self.inner.n_spec());
            }
            self.inner.add(elem, 1);
            self.num_elements = self.num_elements + 1;
            true
        }
    }

    /// Take `elem` out of the set: refused (returning false) when it is
    /// out of range or absent.
    pub fn remove(&mut self, elem: usize) -> (r: bool)
        requires
            old(self).inv(),
        ensures
            final(self).inv(),
            r == (elem < old(self).capacity_spec() && old(self).has(elem as int)),
            final(self).capacity_spec() == old(self).capacity_spec(),
            forall|x: int| final(self).has(x) == (old(self).has(x) && !(r && x == elem as int)),
            final(self).card() == old(self).card() - (if r {
                1int
            } else {
                0int
            }),
    {
        if elem >= self.max_val_excluded || !self.contains(elem) || self.num_elements == 0 {
            proof {
                if elem < self.max_val_excluded && self.has(elem as int) {
                    let fl = self.inner.flags@;
                    assert(count(fl, elem as int, elem as int) == 0);
                    assert(count(fl, elem as int, elem + 1) == 1);
                    lemma_count_split(fl, 0, elem as int, elem + 1);
                    lemma_count_split(fl, 0, elem + 1, self.inner.n_spec());
                    lemma_count_bounds(fl, 0, elem as int);
                    lemma_count_bounds(fl, elem + 1, self.inner.n_spec());
                }
                assert(self.flags_spec() =~= old(self).flags_spec());
            }
            false
        } else {
            proof {
                lemma_count_update(
                    self.inner.flags@,
                    elem as int,
                    false,
                    0,
                    self.inner.n_spec(),
                );
            }
            self.inner.add(elem, -1);
            self.num_elements = self.num_elements - 1;
            true
        }
    }

    /// Membership, via a single-element range count.
    pub fn contains(&self, elem: usize) -> (r: bool)
        requires
            self.inv(),
        ensures
            r == self.has(elem as int),
    {
        if elem >= self.max_val_excluded {
            return false;
        }
        proof {
            assert(count(self.flags_spec(), elem as int, elem as int) == 0);
        }
        self.inner.sum_range(elem, elem + 1) == 1
    }

    /// The `n`-th smallest member (0-indexed): the entry at index `n`
    /// of the ascending listing, absent when fewer than `n + 1`
    /// elements are present.
    pub fn nth(&self, n: usize) -> (r: Option<usize>)
        requires
            self.inv(),
        ensures
            r is Some <==> n < self.card(),
            n < self.card() ==> r == Some(elems(self.flags_spec())[n as int] as usize),
    {
        proof {
            lemma_elems_characterize(self.flags_spec());
            lemma_count_bounds(self.flags_spec(), 0, self.capacity_spec());
        }
        if n >= self.num_elements {
            return None;
        }
        let res = self.inner.lower_bound((n as i32) + 1);
        proof {
            let fl = self.flags_spec();
            let cap = self.capacity_spec();
            lemma_count_mono(fl, 0, res as int, cap);
            assert(res < cap);
            lemma_count_mono(fl, 0, res as int, res + 1);
            assert(count(fl, 0, res + 1) == count(fl, 0, res as int) + (if fl[res as int] {
                1int
            } else {
                0int
            }));
            assert(fl[res as int] && count(fl, 0, res as int) == n);
            lemma_rank_unique(fl, res as int);
        }
        Some(res)
    }

    /// How many elements the set holds.
    pub fn len(&self) -> (r: usize)
        requires
            self.inv(),
        ensures
            r == self.card(),
    {
        self.num_elements
    }

    /// The members in ascending order.
    pub fn iter(&self) -> (r: Vec<usize>)
        requires
            self.inv(),
        ensures
            r@.len() == self.card(),
            forall|i: int| 0 <= i < r@.len() ==> #[trigger] r@[i] == elems(self.flags_spec())[i],
    {
        let mut out: Vec<usize> = Vec::new();
        let n = self.max_val_excluded;
        let ghost fl = self.flags_spec();
        let mut before: i32 = 0;
        let mut current: usize = 0;
        proof {
            assert(fl.take(0) =~= Seq::<bool>::empty());
        }
        while current < n
            invariant
                self.inv(),
                n == self.capacity_spec(),
                fl == self.flags_spec(),
                0 <= current <= n,
                before == count(fl, 0, current as int),
                out@.len() == elems(fl.take(current as int)).len(),
                forall|i: int|
                    0 <= i < out@.len() ==> #[trigger] out@[i] == elems(
                        fl.take(current as int),
                    )[i],
            decreases n - current,
        {
            let sum = self.inner.sum(current + 1);
            let d = sum - before;
            proof {
                lemma_count_bounds(fl, 0, current as int);
                lemma_count_bounds(fl, 0, current + 1);
                lemma_elems_take_step(fl, current as int);
                lemma_elems_characterize(fl.take(current as int));
                lemma_count_congruent(fl.take(current as int), fl, 0, current as int);
            }
            if d == 1 {
                out.push(current);
            }
            before = sum;
            current = current + 1;
        }
        proof {
            assert(fl.take(n as int) =~= fl);
            lemma_elems_characterize(fl);
        }
        out
    }

    /// A set holding every integer in `[start, end)`, over the domain
    /// `[0, end)`.
    pub fn from_range(start: usize, end: usize) -> (r: Self)
        requires
            end <= MAX_CAPACITY,
        ensures
            r.inv(),
            r.capacity_spec() == end,
            forall|x: int| r.has(x) == (start <= x < end),
            r.card() == (if start <= end {
                end - start
            } else {
                0int
            }),
    {
        let mut set = FenwickSet::with_capacity(end);
        let mut i: usize = start;
        while i < end
            invariant
                set.inv(),
                set.capacity_spec() == end,
                start <= i,
                i <= end || i == start,
                forall|x: int| set.has(x) == (start <= x < i),
                set.card() == i - start,
            decreases end - i,
        {
            set.insert(i);
            i = i + 1;
        }
        set
    }
}

/// Basic facts every well-formed set provides its callers: its flags
/// span exactly its capacity, which is bounded, and its cardinality
/// fits inside it.
pub proof fn lemma_set_wf(s: &FenwickSet)
    requires
        s.inv(),
    ensures
        s.flags_spec().len() == s.capacity_spec(),
        0 <= s.capacity_spec() <= MAX_CAPACITY,
        0 <= s.card() <= s.capacity_spec(),
{
    lemma_count_bounds(s.flags_spec(), 0, s.capacity_spec());
}

impl Default for FenwickSet {
    /// A small empty set, over the domain `[0, 10)`.
    fn default() -> (r: Self)
        ensures
            r.inv(),
            r.capacity_spec() == 10,
            r.card() == 0,
    {
        FenwickSet::with_capacity(10)
    }
}

/// The live count is the cardinality of the member set, and the
/// ascending listing is its duplicate-free sorted enumeration.
pub proof fn lemma_card_is_membership_count(s: FenwickSet)
    requires
        s.inv(),
    ensures
        s.card() == elems(s.flags_spec()).len(),
        Set::new(|x: int| s.has(x)).finite(),
        Set::new(|x: int| s.has(x)).len() == s.card(),
        elems(s.flags_spec()).no_duplicates(),
{
    broadcast use vstd::set::group_set_axioms;

    let fl = s.flags_spec();
    let es = elems(fl);
    let members = Set::new(|x: int| s.has(x));
    lemma_elems_characterize(fl);
    assert(es.no_duplicates());
    es.unique_seq_to_set();
    assert forall|x: int| #[trigger] members.contains(x) implies es.to_set().contains(x) by {
        assert(fl[x]);
    }
    assert forall|x: int| #[trigger] es.to_set().contains(x) implies members.contains(x) by {
        let i = choose|i: int| 0 <= i < es.len() && es[i] == x;
    }
    assert(members =~= es.to_set());
}

} // verus!
