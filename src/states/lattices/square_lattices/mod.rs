//! Square lattices

use crate::states::repeated;
use vstd::prelude::*;
use vstd::seq_lib::{to_multiset_contains, to_multiset_update};

verus! {

/// Index before `k` on a ring of `n` positions.
pub open spec fn ring_prev(n: nat, k: nat) -> nat {
    if k == 0 {
        (n - 1) as nat
    } else {
        (k - 1) as nat
    }
}

/// Index after `k` on a ring of `n` positions.
pub open spec fn ring_next(n: nat, k: nat) -> nat {
    if k + 1 == n {
        0
    } else {
        k + 1
    }
}

/// Going back then forth (or forth then back) on a ring returns to the start.
pub proof fn lemma_ring_round_trip(n: nat, k: nat)
    requires
        k < n,
    ensures
        ring_prev(n, k) < n,
        ring_next(n, k) < n,
        ring_next(n, ring_prev(n, k)) == k,
        ring_prev(n, ring_next(n, k)) == k,
{
}

/// Periodicity
///
/// prev = [n-1, 0, ..., n-3, n-2]
/// next = [1, 2, ..., n-1, 0]
#[derive(Debug, Clone)]
pub struct Periodicity {
    prev: Vec<usize>,
    next: Vec<usize>,
}

impl Periodicity {
    /// Number of positions on the ring.
    pub closed spec fn ring_len(&self) -> nat {
        self.next@.len()
    }

    /// Both tables have the ring's length and hold its wrap-around neighbours.
    pub closed spec fn wf(&self) -> bool {
        let n = self.next@.len();
        &&& n >= 1
        &&& self.prev@.len() == n
        &&& forall|k: int| 0 <= k < n ==> #[trigger] self.prev@[k] == ring_prev(n, k as nat)
        &&& forall|k: int| 0 <= k < n ==> #[trigger] self.next@[k] == ring_next(n, k as nat)
    }

    /// Create new periodicity with a given length
    pub fn new(length: usize) -> (r: Self)
        requires
            length >= 1,
        ensures
            r.wf(),
            r.ring_len() == length,
    {
        let mut prev: Vec<usize> = Vec::with_capacity(length);
        let mut next: Vec<usize> = Vec::with_capacity(length);
        let mut k: usize = 0;
        while k < length
            invariant
                k <= length,
                prev@.len() == k,
                next@.len() == k,
                forall|m: int|
                    0 <= m < k ==> #[trigger] prev@[m] == ring_prev(length as nat, m as nat),
                forall|m: int|
                    0 <= m < k ==> #[trigger] next@[m] == ring_next(length as nat, m as nat),
            decreases length - k,
        {
            if k == 0 {
                prev.push(length - 1);
            } else {
                prev.push(k - 1);
            }
            if k + 1 == length {
                next.push(0);
            } else {
                next.push(k + 1);
            }
            k = k + 1;
        }
        Self { prev, next }
    }

    /// Get previous index
    pub fn prev(&self, k: usize) -> (r: usize)
        requires
            self.wf(),
            k < self.ring_len(),
        ensures
            r == ring_prev(self.ring_len(), k as nat),
    {
        self.prev[k]
    }

    /// Get next index
    pub fn next(&self, k: usize) -> (r: usize)
        requires
            self.wf(),
            k < self.ring_len(),
        ensures
            r == ring_next(self.ring_len(), k as nat),
    {
        self.next[k]
    }
}

/// Number of sites of a square lattice of side `n` in `dim` dimensions: `n^dim`
pub open spec fn lattice_size(n: nat, dim: nat) -> nat
    decreases dim,
{
    if dim == 0 {
        1
    } else {
        n * lattice_size(n, (dim - 1) as nat)
    }
}

/// `s` with the values at `a` and `b` exchanged
pub open spec fn swapped<T>(s: Seq<T>, a: int, b: int) -> Seq<T> {
    s.update(a, s[b]).update(b, s[a])
}

/// Exchanging two values keeps the multiset of values.
pub proof fn lemma_swap_keeps_multiset<T>(s: Seq<T>, a: int, b: int)
    requires
        0 <= a < s.len(),
        0 <= b < s.len(),
    ensures
        swapped(s, a, b).to_multiset() == s.to_multiset(),
{
    broadcast use vstd::multiset::group_multiset_axioms;
    let s1 = s.update(a, s[b]);
    to_multiset_update(s, a, s[b]);
    to_multiset_update(s1, b, s[a]);
    to_multiset_contains(s, s[a]);
    assert(swapped(s, a, b).to_multiset() =~= s.to_multiset());
}

/// Square Lattice
///
/// Sites are stored densely in row-major order: the last coordinate varies
/// fastest.
#[derive(Debug)]
pub struct SquareLattice<T, const D: usize> {
    /// Lattice sites, row-major
    pub(crate) state: Vec<T>,
    /// Periodicity
    pub(crate) period: Periodicity,
    /// Side length, shared by all axes
    side: usize,
}

impl<T: Copy, const D: usize> SquareLattice<T, D> {
    /// Side length of the lattice, as stored
    pub closed spec fn side(&self) -> usize {
        self.side
    }

    /// Side length of the lattice
    pub open spec fn side_length(&self) -> nat {
        self.side() as nat
    }

    /// All sites, row-major
    pub closed spec fn values(&self) -> Seq<T> {
        self.state@
    }

    /// Shape invariant: `side^D` sites and a periodicity of the side length
    pub closed spec fn wf(&self) -> bool {
        &&& self.side >= 1
        &&& self.period.wf()
        &&& self.period.ring_len() == self.side
        &&& self.state@.len() == lattice_size(self.side as nat, D as nat)
    }

    /// A lattice of side `side` holding `state`
    pub(crate) fn from_state(side: usize, state: Vec<T>) -> (r: Self)
        requires
            side >= 1,
            state@.len() == lattice_size(side as nat, D as nat),
        ensures
            r.wf(),
            r.side_length() == side,
            r.values() == state@,
    {
        Self { state, period: Periodicity::new(side), side }
    }

    /// A lattice of side `side` with all `count` sites equal to `site`
    pub(crate) fn filled(side: usize, count: usize, site: T) -> (r: Self)
        requires
            side >= 1,
            count == lattice_size(side as nat, D as nat),
        ensures
            r.wf(),
            r.side_length() == side,
            r.values() == repeated(count as nat, site),
    {
        let mut state: Vec<T> = Vec::with_capacity(count);
        let mut k: usize = 0;
        while k < count
            invariant
                k <= count,
                state@ == repeated(k as nat, site),
            decreases count - k,
        {
            state.push(site);
            k = k + 1;
            assert(state@ =~= repeated(k as nat, site));
        }
        Self::from_state(side, state)
    }

    /// Exchange the sites at flat positions `a` and `b`
    pub(crate) fn swap_sites(&mut self, a: usize, b: usize)
        requires
            old(self).wf(),
            a < old(self).values().len(),
            b < old(self).values().len(),
        ensures
            final(self).wf(),
            final(self).side_length() == old(self).side_length(),
            final(self).values() == swapped(old(self).values(), a as int, b as int),
            final(self).values().to_multiset() == old(self).values().to_multiset(),
    {
        proof {
            lemma_swap_keeps_multiset(self.state@, a as int, b as int);
        }
        let x = self.state[a];
        let y = self.state[b];
        self.state.set(a, y);
        self.state.set(b, x);
    }

    /// Replace all sites by `draws`, taken in row-major order
    pub fn fill_from(&mut self, draws: Vec<T>)
        requires
            old(self).wf(),
            draws@.len() == old(self).values().len(),
        ensures
            final(self).wf(),
            final(self).side_length() == old(self).side_length(),
            final(self).values() == draws@,
    {
        self.state = draws;
    }

    /// Side length of the square lattice
    pub fn length(&self) -> (r: usize)
        requires
            self.wf(),
        ensures
            r == self.side_length(),
    {
        self.side
    }

    /// Total number of sites in the lattice
    pub fn site_count(&self) -> (r: usize)
        requires
            self.wf(),
        ensures
            r == self.values().len(),
            r == lattice_size(self.side_length(), D as nat),
    {
        self.state.len()
    }

    /// All sites of the lattice, row-major
    pub fn sites(&self) -> (r: &[T])
        requires
            self.wf(),
        ensures
            r@ == self.values(),
    {
        self.state.as_slice()
    }

    /// All sites of the lattice, row-major, for writing
    pub fn sites_mut(&mut self) -> (r: &mut [T])
        requires
            old(self).wf(),
        ensures
            r@ == old(self).values(),
            final(self).values() == final(r)@,
            final(self).side_length() == old(self).side_length(),
            final(r)@.len() == r@.len() ==> final(self).wf(),
    {
        self.state.as_mut_slice()
    }

    /// Set all sites to same state
    pub fn fill(&mut self, site: T)
        requires
            old(self).wf(),
        ensures
            final(self).wf(),
            final(self).side_length() == old(self).side_length(),
            final(self).values() == repeated(old(self).values().len(), site),
    {
        let count = self.state.len();
        let mut k: usize = 0;
        while k < count
            invariant
                old(self).wf(),
                k <= count,
                count == self.state@.len(),
                count == old(self).state@.len(),
                self.side == old(self).side,
                self.period == old(self).period,
                forall|m: int| 0 <= m < k ==> #[trigger] self.state@[m] == site,
            decreases count - k,
        {
            self.state.set(k, site);
            k = k + 1;
        }
        assert(self.state@ =~= repeated(count as nat, site));
    }
}

/// One-dimensional Lattice
pub type SquareLattice1D<T> = SquareLattice<T, 1>;

/// Two-dimensional square lattice
pub type SquareLattice2D<T> = SquareLattice<T, 2>;

/// Three-dimensional square lattice
pub type SquareLattice3D<T> = SquareLattice<T, 3>;

} // verus!

pub mod impl_1d;
pub mod impl_2d;
pub mod impl_3d;
