//! Three-dimensional square lattice

use super::{
    lattice_size, lemma_ring_round_trip, lemma_swap_keeps_multiset, ring_next, ring_prev, swapped,
    SquareLattice3D,
};
use crate::sampling::{draw_below, draw_sites, flip};
use crate::states::lattices::Lattice;
use crate::states::{SimpleSwapDiffusion, SiteState, SiteStateNN};
use rand::Rng;
use rand_distr::{Bernoulli, Distribution};
use vstd::arithmetic::div_mod::{
    lemma_div_pos_is_pos, lemma_fundamental_div_mod, lemma_fundamental_div_mod_converse,
    lemma_mod_pos_bound,
};
use vstd::prelude::*;

verus! {

/// Row-major position of `idx` on a lattice of side `n`
pub open spec fn flat_3d(n: nat, idx: [usize; 3]) -> int {
    (idx[0] * n + idx[1]) * n + idx[2]
}

/// Index of the site at row-major position `s` on a lattice of side `n`
pub open spec fn site_3d(n: nat, s: int) -> [usize; 3] {
    let t = s / n as int;
    [(t / n as int) as usize, (t % n as int) as usize, (s % n as int) as usize]
}

/// Forward neighbour of `idx` along `axis`: 0 is the last coordinate, 1 the
/// middle one, 2 the first.
pub open spec fn forward_3d(n: nat, idx: [usize; 3], axis: nat) -> [usize; 3] {
    if axis == 0 {
        [idx[0], idx[1], ring_next(n, idx[2] as nat) as usize]
    } else if axis == 1 {
        [idx[0], ring_next(n, idx[1] as nat) as usize, idx[2]]
    } else {
        [ring_next(n, idx[0] as nat) as usize, idx[1], idx[2]]
    }
}

/// Entry `m` of the forward-edge list: site `m / 3`, axis `m % 3`
pub open spec fn edge_3d(n: nat, m: int) -> ([usize; 3], [usize; 3]) {
    (site_3d(n, m / 3), forward_3d(n, site_3d(n, m / 3), (m % 3) as nat))
}

/// A lattice of side `n` in three dimensions has `n * n * n` sites.
pub proof fn lemma_size_3d(n: nat)
    ensures
        lattice_size(n, 3) == n * n * n,
        n >= 1 ==> n * n <= n * n * n,
{
    reveal_with_fuel(lattice_size, 4);
    assert(n * (n * n) == n * n * n) by (nonlinear_arith);
    assert(n >= 1 ==> n * n <= n * n * n) by (nonlinear_arith);
}

/// Row-major positions of in-range indices are in range, and decode back.
pub proof fn lemma_flat_3d(n: nat, i: nat, j: nat, k: nat)
    requires
        i < n,
        j < n,
        k < n,
    ensures
        0 <= i * n + j < n * n,
        0 <= (i * n + j) * n + k < n * n * n,
        site_3d(n, ((i * n + j) * n + k) as int) == [i as usize, j as usize, k as usize],
{
    assert(i * n + j < n * n) by (nonlinear_arith)
        requires
            i < n,
            j < n,
    ;
    let t = i * n + j;
    assert(t * n + k < n * n * n) by (nonlinear_arith)
        requires
            t < n * n,
            k < n,
    ;
    lemma_fundamental_div_mod_converse((t * n + k) as int, n as int, t as int, k as int);
    lemma_fundamental_div_mod_converse(t as int, n as int, i as int, j as int);
}

/// Every row-major position of the lattice decodes to an in-range index.
pub proof fn lemma_site_3d(n: nat, s: int)
    requires
        1 <= n <= usize::MAX,
        0 <= s < n * n * n,
    ensures
        site_3d(n, s)[0] < n,
        site_3d(n, s)[1] < n,
        site_3d(n, s)[2] < n,
        flat_3d(n, site_3d(n, s)) == s,
{
    let t = s / n as int;
    let k = s % n as int;
    lemma_fundamental_div_mod(s, n as int);
    lemma_mod_pos_bound(s, n as int);
    lemma_div_pos_is_pos(s, n as int);
    assert(t < n * n) by (nonlinear_arith)
        requires
            s == n * t + k,
            0 <= k,
            s < n * n * n,
            n >= 1,
            t >= 0,
    ;
    let i = t / n as int;
    let j = t % n as int;
    lemma_fundamental_div_mod(t, n as int);
    lemma_mod_pos_bound(t, n as int);
    lemma_div_pos_is_pos(t, n as int);
    assert(i < n) by (nonlinear_arith)
        requires
            t == n * i + j,
            0 <= j,
            t < n * n,
            n >= 1,
            i >= 0,
    ;
    assert(flat_3d(n, site_3d(n, s)) == (i * n + j) * n + k) by (nonlinear_arith)
        requires
            site_3d(n, s)[0] == i,
            site_3d(n, s)[1] == j,
            site_3d(n, s)[2] == k,
    ;
    assert((i * n + j) * n + k == s) by (nonlinear_arith)
        requires
            t == n * i + j,
            s == n * t + k,
    ;
}

impl<T: Copy> Lattice for SquareLattice3D<T> {
}

impl<T: Copy> SiteState for SquareLattice3D<T> {
    /// Side length of the lattice
    type Shape = usize;

    type Index = [usize; 3];

    type Site = T;

    open spec fn wf(&self) -> bool {
        SquareLattice3D::<T>::wf(self)
    }

    open spec fn shape(&self) -> usize {
        self.side_length() as usize
    }

    open spec fn site_seq(&self) -> Seq<T> {
        self.values()
    }

    open spec fn valid_shape(side_length: usize) -> bool {
        side_length >= 1 && side_length * side_length * side_length <= usize::MAX
    }

    open spec fn shape_size(side_length: usize) -> nat {
        side_length as nat * side_length as nat * side_length as nat
    }

    open spec fn valid_index(&self, idx: [usize; 3]) -> bool {
        idx[0] < self.side_length() && idx[1] < self.side_length() && idx[2] < self.side_length()
    }

    open spec fn offset(&self, idx: [usize; 3]) -> int {
        flat_3d(self.side_length(), idx)
    }

    fn is_valid_shape(side_length: usize) -> (r: bool) {
        if side_length == 0 {
            return false;
        }
        match side_length.checked_mul(side_length) {
            Some(square) => square.checked_mul(side_length).is_some(),
            None => {
                assert(side_length * side_length <= side_length * side_length * side_length)
                    by (nonlinear_arith)
                    requires
                        side_length >= 1,
                ;
                false
            },
        }
    }

    fn site_count(&self) -> (r: usize) {
        proof {
            lemma_size_3d(self.side_length());
        }
        SquareLattice3D::<T>::site_count(self)
    }

    fn sites(&self) -> (r: &[T]) {
        SquareLattice3D::<T>::sites(self)
    }

    fn sites_mut(&mut self) -> (r: &mut [T]) {
        SquareLattice3D::<T>::sites_mut(self)
    }

    fn get(&self, idx: [usize; 3]) -> (r: T) {
        let p = self.position(idx);
        self.state[p]
    }

    fn set(&mut self, idx: [usize; 3], site: T) {
        let p = self.position(idx);
        self.state.set(p, site);
    }

    fn sample<R: Rng + ?Sized>(&self, rng: &mut R) -> (r: [usize; 3]) {
        [draw_below(self.side, rng), draw_below(self.side, rng), draw_below(self.side, rng)]
    }

    fn uniform(side_length: usize, site: T) -> (r: Self) {
        proof {
            lemma_size_3d(side_length as nat);
        }
        Self::filled(side_length, side_length * side_length * side_length, site)
    }

    fn random<D: Distribution<T>, R: Rng + ?Sized>(
        side_length: usize,
        dist: &D,
        rng: &mut R,
    ) -> (r: Self) {
        proof {
            lemma_size_3d(side_length as nat);
        }
        let count = side_length * side_length * side_length;
        Self::from_state(side_length, draw_sites(count, dist, rng))
    }

    fn set_uniform(&mut self, site: T) {
        proof {
            lemma_size_3d(self.side_length());
        }
        self.fill(site);
    }

    fn set_random<D: Distribution<T>, R: Rng + ?Sized>(&mut self, dist: &D, rng: &mut R) {
        proof {
            lemma_size_3d(self.side_length());
        }
        let count = self.state.len();
        let draws = draw_sites(count, dist, rng);
        self.fill_from(draws);
    }
}

impl<T: Copy> SquareLattice3D<T> {
    /// Row-major position of `idx`
    fn position(&self, idx: [usize; 3]) -> (r: usize)
        requires
            self.wf(),
            idx[0] < self.side_length(),
            idx[1] < self.side_length(),
            idx[2] < self.side_length(),
        ensures
            r == flat_3d(self.side_length(), idx),
            r < self.values().len(),
    {
        let total = self.state.len();
        let n = self.side;
        proof {
            lemma_size_3d(n as nat);
            lemma_flat_3d(n as nat, idx[0] as nat, idx[1] as nat, idx[2] as nat);
            assert(idx[0] * n <= idx[0] * n + idx[1] < n * n);
            let t = idx[0] * n + idx[1];
            assert(t * n <= t * n + idx[2] < total);
        }
        (idx[0] * n + idx[1]) * n + idx[2]
    }
}

impl<T: Copy> SiteStateNN for SquareLattice3D<T> {
    open spec fn neighbor_indices(&self, idx: [usize; 3]) -> Seq<[usize; 3]> {
        let n = self.side_length();
        let i = idx[0];
        let j = idx[1];
        let k = idx[2];
        seq![
            [i, j, ring_prev(n, k as nat) as usize],
            [i, j, ring_next(n, k as nat) as usize],
            [i, ring_prev(n, j as nat) as usize, k],
            [i, ring_next(n, j as nat) as usize, k],
            [ring_prev(n, i as nat) as usize, j, k],
            [ring_next(n, i as nat) as usize, j, k],
        ]
    }

    open spec fn neighbor_pairs(&self) -> Seq<([usize; 3], [usize; 3])> {
        let n = self.side_length();
        Seq::new(3 * (n * n * n), |m: int| edge_3d(n, m))
    }

    fn nearest_neighbors_index_pairs(&self) -> (r: Vec<([usize; 3], [usize; 3])>) {
        let n = self.side;
        let ghost np = self.neighbor_pairs();
        let mut pairs: Vec<([usize; 3], [usize; 3])> = Vec::new();
        let mut i: usize = 0;
        while i < n
            invariant
                self.wf(),
                n == self.side_length(),
                np == self.neighbor_pairs(),
                i <= n,
                3 * ((i * n) * n) <= np.len(),
                pairs@ == np.take(3 * ((i * n) * n)),
            decreases n - i,
        {
            let mut j: usize = 0;
            while j < n
                invariant
                    self.wf(),
                    n == self.side_length(),
                    np == self.neighbor_pairs(),
                    i < n,
                    j <= n,
                    3 * ((i * n + j) * n) <= np.len(),
                    pairs@ == np.take(3 * ((i * n + j) * n)),
                decreases n - j,
            {
                let mut k: usize = 0;
                while k < n
                    invariant
                        self.wf(),
                        n == self.side_length(),
                        np == self.neighbor_pairs(),
                        i < n,
                        j < n,
                        k <= n,
                        3 * ((i * n + j) * n + k) <= np.len(),
                        pairs@ == np.take(3 * ((i * n + j) * n + k)),
                    decreases n - k,
                {
                    proof {
                        lemma_flat_3d(n as nat, i as nat, j as nat, k as nat);
                    }
                    let ghost s = (i * n + j) * n + k;
                    let idx = [i, j, k];
                    pairs.push((idx, [i, j, self.period.next(k)]));
                    pairs.push((idx, [i, self.period.next(j), k]));
                    pairs.push((idx, [self.period.next(i), j, k]));
                    assert((3 * s) / 3 == s && (3 * s) % 3 == 0);
                    assert((3 * s + 1) / 3 == s && (3 * s + 1) % 3 == 1);
                    assert((3 * s + 2) / 3 == s && (3 * s + 2) % 3 == 2);
                    assert(pairs@ =~= np.take(3 * (s + 1)));
                    k = k + 1;
                }
                assert(3 * ((i * n + j) * n + n) == 3 * ((i * n + (j + 1)) * n))
                    by (nonlinear_arith);
                j = j + 1;
            }
            assert(3 * ((i * n + n) * n) == 3 * (((i + 1) * n) * n)) by (nonlinear_arith);
            i = i + 1;
        }
        assert(pairs@ =~= np);
        pairs
    }

    fn nearest_neighbors_index(&self, idx: [usize; 3]) -> (r: Vec<[usize; 3]>) {
        let i = idx[0];
        let j = idx[1];
        let k = idx[2];
        let r = vec![
            [i, j, self.period.prev(k)],
            [i, j, self.period.next(k)],
            [i, self.period.prev(j), k],
            [i, self.period.next(j), k],
            [self.period.prev(i), j, k],
            [self.period.next(i), j, k],
        ];
        assert(r@ =~= self.neighbor_indices(idx));
        r
    }

    fn nearest_neighbors_pairs(&self) -> (r: Vec<(T, T)>) {
        let n = self.side;
        let ghost np = self.neighbor_pairs();
        let mut pairs: Vec<(T, T)> = Vec::new();
        let mut i: usize = 0;
        while i < n
            invariant
                self.wf(),
                n == self.side_length(),
                np == self.neighbor_pairs(),
                i <= n,
                pairs@.len() == 3 * ((i * n) * n),
                3 * ((i * n) * n) <= np.len(),
                forall|m: int|
                    0 <= m < pairs@.len() ==> #[trigger] pairs@[m] == (
                        self.values()[self.offset(np[m].0)],
                        self.values()[self.offset(np[m].1)],
                    ),
            decreases n - i,
        {
            let mut j: usize = 0;
            while j < n
                invariant
                    self.wf(),
                    n == self.side_length(),
                    np == self.neighbor_pairs(),
                    i < n,
                    j <= n,
                    pairs@.len() == 3 * ((i * n + j) * n),
                    3 * ((i * n + j) * n) <= np.len(),
                    forall|m: int|
                        0 <= m < pairs@.len() ==> #[trigger] pairs@[m] == (
                            self.values()[self.offset(np[m].0)],
                            self.values()[self.offset(np[m].1)],
                        ),
                decreases n - j,
            {
                let mut k: usize = 0;
                while k < n
                    invariant
                        self.wf(),
                        n == self.side_length(),
                        np == self.neighbor_pairs(),
                        i < n,
                        j < n,
                        k <= n,
                        pairs@.len() == 3 * ((i * n + j) * n + k),
                        3 * ((i * n + j) * n + k) <= np.len(),
                        forall|m: int|
                            0 <= m < pairs@.len() ==> #[trigger] pairs@[m] == (
                                self.values()[self.offset(np[m].0)],
                                self.values()[self.offset(np[m].1)],
                            ),
                    decreases n - k,
                {
                    proof {
                        lemma_flat_3d(n as nat, i as nat, j as nat, k as nat);
                    }
                    let ghost s = (i * n + j) * n + k;
                    assert((3 * s) / 3 == s && (3 * s) % 3 == 0);
                    assert((3 * s + 1) / 3 == s && (3 * s + 1) % 3 == 1);
                    assert((3 * s + 2) / 3 == s && (3 * s + 2) % 3 == 2);
                    let here = self.state[self.position([i, j, k])];
                    let a = self.state[self.position([i, j, self.period.next(k)])];
                    let b = self.state[self.position([i, self.period.next(j), k])];
                    let c = self.state[self.position([self.period.next(i), j, k])];
                    pairs.push((here, a));
                    pairs.push((here, b));
                    pairs.push((here, c));
                    k = k + 1;
                }
                assert(3 * ((i * n + j) * n + n) == 3 * ((i * n + (j + 1)) * n))
                    by (nonlinear_arith);
                j = j + 1;
            }
            assert(3 * ((i * n + n) * n) == 3 * (((i + 1) * n) * n)) by (nonlinear_arith);
            i = i + 1;
        }
        pairs
    }

    fn nearest_neighbors(&self, idx: [usize; 3]) -> (r: Vec<T>) {
        let i = idx[0];
        let j = idx[1];
        let k = idx[2];
        vec![
            self.state[self.position([i, j, self.period.prev(k)])],
            self.state[self.position([i, j, self.period.next(k)])],
            self.state[self.position([i, self.period.prev(j), k])],
            self.state[self.position([i, self.period.next(j), k])],
            self.state[self.position([self.period.prev(i), j, k])],
            self.state[self.position([self.period.next(i), j, k])],
        ]
    }
}

/// Each site has six neighbours, all sites of the lattice. On a torus of
/// side longer than two none is the site itself; of side one all are.
pub proof fn lemma_neighbors_3d<T: Copy>(l: &SquareLattice3D<T>, idx: [usize; 3])
    requires
        l.wf(),
        l.valid_index(idx),
    ensures
        l.neighbor_indices(idx).len() == 6,
        forall|k: int| 0 <= k < 6 ==> l.valid_index(#[trigger] l.neighbor_indices(idx)[k]),
        l.side_length() > 2 ==> forall|k: int|
            0 <= k < 6 ==> #[trigger] l.neighbor_indices(idx)[k] != idx,
        l.side_length() == 1 ==> forall|k: int|
            0 <= k < 6 ==> #[trigger] l.neighbor_indices(idx)[k] == idx,
{
    lemma_ring_round_trip(l.side_length(), idx[0] as nat);
    lemma_ring_round_trip(l.side_length(), idx[1] as nat);
    lemma_ring_round_trip(l.side_length(), idx[2] as nat);
}

/// The forward edges are three per site, and join sites that are each
/// other's neighbours. On a torus of side one, each edge joins the site to
/// itself.
pub proof fn lemma_neighbor_pairs_3d<T: Copy>(l: &SquareLattice3D<T>)
    requires
        l.wf(),
    ensures
        l.neighbor_pairs().len() == 3 * l.values().len(),
        forall|m: int|
            0 <= m < l.neighbor_pairs().len() ==> {
                let e = #[trigger] l.neighbor_pairs()[m];
                &&& l.valid_index(e.0)
                &&& l.valid_index(e.1)
                &&& l.neighbor_indices(e.0).contains(e.1)
                &&& l.neighbor_indices(e.1).contains(e.0)
            },
        l.side_length() == 1 ==> forall|m: int|
            0 <= m < l.neighbor_pairs().len() ==> (#[trigger] l.neighbor_pairs()[m]).0
                == l.neighbor_pairs()[m].1,
{
    let n = l.side_length();
    lemma_size_3d(n);
    assert forall|m: int| 0 <= m < l.neighbor_pairs().len() implies {
        let e = #[trigger] l.neighbor_pairs()[m];
        &&& l.valid_index(e.0)
        &&& l.valid_index(e.1)
        &&& l.neighbor_indices(e.0).contains(e.1)
        &&& l.neighbor_indices(e.1).contains(e.0)
        &&& n == 1 ==> e.0 == e.1
    } by {
        let e = l.neighbor_pairs()[m];
        lemma_site_3d(n, m / 3);
        let a = e.0;
        lemma_ring_round_trip(n, a[0] as nat);
        lemma_ring_round_trip(n, a[1] as nat);
        lemma_ring_round_trip(n, a[2] as nat);
        if m % 3 == 0 {
            assert(l.neighbor_indices(a)[1] == e.1);
            assert(l.neighbor_indices(e.1)[0] == a);
        } else if m % 3 == 1 {
            assert(l.neighbor_indices(a)[3] == e.1);
            assert(l.neighbor_indices(e.1)[2] == a);
        } else {
            assert(l.neighbor_indices(a)[5] == e.1);
            assert(l.neighbor_indices(e.1)[4] == a);
        }
    }
}

impl<T: Copy> SquareLattice3D<T> {
    /// Exchange site `idx` with its forward neighbour along `axis` (0: the
    /// last coordinate, 1: the middle one, 2: the first)
    pub fn swap_forward(&mut self, idx: [usize; 3], axis: usize)
        requires
            old(self).wf(),
            idx[0] < old(self).side_length(),
            idx[1] < old(self).side_length(),
            idx[2] < old(self).side_length(),
            axis < 3,
        ensures
            final(self).wf(),
            final(self).side_length() == old(self).side_length(),
            final(self).values() == swapped(
                old(self).values(),
                flat_3d(old(self).side_length(), idx),
                flat_3d(
                    old(self).side_length(),
                    forward_3d(old(self).side_length(), idx, axis as nat),
                ),
            ),
    {
        let i = idx[0];
        let j = idx[1];
        let k = idx[2];
        let nn_idx = if axis == 0 {
            [i, j, self.period.next(k)]
        } else if axis == 1 {
            [i, self.period.next(j), k]
        } else {
            [self.period.next(i), j, k]
        };
        let a = self.position(idx);
        let b = self.position(nn_idx);
        self.swap_sites(a, b);
    }
}

/// Sites `s` after one proposal at `idx` along `axis`: when `accept`, the
/// site and its forward neighbour along that axis trade values; otherwise
/// nothing changes.
pub open spec fn proposal_3d<T>(
    n: nat,
    s: Seq<T>,
    idx: [usize; 3],
    axis: usize,
    accept: bool,
) -> Seq<T> {
    if accept {
        swapped(s, flat_3d(n, idx), flat_3d(n, forward_3d(n, idx, axis as nat)))
    } else {
        s
    }
}

/// Sites `s` after the proposals `props` (site, axis, accepted), applied in order
pub open spec fn sweep_3d<T>(n: nat, s: Seq<T>, props: Seq<([usize; 3], usize, bool)>) -> Seq<T>
    decreases props.len(),
{
    if props.len() == 0 {
        s
    } else {
        let p = props.last();
        proposal_3d(n, sweep_3d(n, s, props.drop_last()), p.0, p.1, p.2)
    }
}

/// The proposal names an in-range site and axis.
pub open spec fn valid_proposal_3d(n: nat, p: ([usize; 3], usize, bool)) -> bool {
    p.0[0] < n && p.0[1] < n && p.0[2] < n && p.1 < 3
}

impl<T: Copy> SquareLattice3D<T> {
    /// One diffusion proposal at `idx` along `axis`: exchange the site with
    /// its forward neighbour along that axis when `accept`, else leave the
    /// lattice as it is
    pub fn propose(&mut self, idx: [usize; 3], axis: usize, accept: bool)
        requires
            old(self).wf(),
            idx[0] < old(self).side_length(),
            idx[1] < old(self).side_length(),
            idx[2] < old(self).side_length(),
            axis < 3,
        ensures
            final(self).wf(),
            final(self).side_length() == old(self).side_length(),
            final(self).values() == proposal_3d(
                old(self).side_length(),
                old(self).values(),
                idx,
                axis,
                accept,
            ),
            final(self).values().to_multiset() == old(self).values().to_multiset(),
    {
        if accept {
            proof {
                let n = self.side_length();
                let nn = forward_3d(n, idx, axis as nat);
                lemma_flat_3d(n, idx[0] as nat, idx[1] as nat, idx[2] as nat);
                lemma_flat_3d(n, nn[0] as nat, nn[1] as nat, nn[2] as nat);
                lemma_size_3d(n);
                lemma_swap_keeps_multiset(self.values(), flat_3d(n, idx), flat_3d(n, nn));
            }
            self.swap_forward(idx, axis);
        }
    }
}

/// A sweep in which no proposal is accepted leaves the sites unchanged.
pub proof fn lemma_sweep_3d_unaccepted<T>(n: nat, s: Seq<T>, props: Seq<([usize; 3], usize, bool)>)
    requires
        forall|t: int| 0 <= t < props.len() ==> !(#[trigger] props[t]).2,
    ensures
        sweep_3d(n, s, props) == s,
    decreases props.len(),
{
    if props.len() > 0 {
        let rest = props.drop_last();
        assert(forall|t: int| 0 <= t < rest.len() ==> #[trigger] rest[t] == props[t]);
        lemma_sweep_3d_unaccepted(n, s, rest);
    }
}

impl<T: Copy> SimpleSwapDiffusion for SquareLattice3D<T> {
    open spec fn sweep_outcome(&self, after: Seq<T>) -> bool {
        exists|props: Seq<([usize; 3], usize, bool)>|
            #![trigger sweep_3d(self.side_length(), self.values(), props)]
            props.len() == self.values().len() && (forall|t: int|
                0 <= t < props.len() ==> valid_proposal_3d(self.side_length(), #[trigger] props[t]))
                && sweep_3d(self.side_length(), self.values(), props) == after
    }

    fn diffuse<R: Rng + ?Sized>(&mut self, diffusion_coin: Bernoulli, rng: &mut R) {
        let count = self.site_count();
        let ghost n = self.side_length();
        let ghost start = self.values();
        let ghost mut props: Seq<([usize; 3], usize, bool)> = Seq::empty();
        let mut step: usize = 0;
        while step < count
            invariant
                self.wf(),
                self.side_length() == n,
                n == old(self).side_length(),
                start == old(self).values(),
                count == start.len(),
                self.values().to_multiset() == start.to_multiset(),
                step <= count,
                props.len() == step,
                forall|t: int| 0 <= t < props.len() ==> valid_proposal_3d(n, #[trigger] props[t]),
                self.values() == sweep_3d(n, start, props),
            decreases count - step,
        {
            // Select random site
            let idx = self.sample(rng);
            // Select random forward neighbour
            let axis = draw_below(3, rng);
            // Diffuse with coin flip
            let accept = flip(&diffusion_coin, rng);
            self.propose(idx, axis, accept);
            proof {
                let before = props;
                props = props.push((idx, axis, accept));
                assert(props.drop_last() =~= before);
            }
            step = step + 1;
        }
        assert(sweep_3d(n, start, props) == self.values());
    }
}

} // verus!
