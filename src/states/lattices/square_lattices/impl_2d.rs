//! Two-dimensional square lattice

use super::{
    lattice_size, lemma_ring_round_trip, lemma_swap_keeps_multiset, ring_next, ring_prev, swapped,
    SquareLattice2D,
};
use crate::sampling::{draw_below, draw_bool, draw_sites, flip};
use crate::states::lattices::Lattice;
use crate::states::{SimpleSwapDiffusion, SiteCharRepr, SiteState, SiteStateNN};
use rand::Rng;
use rand_distr::{Bernoulli, Distribution};
use vstd::arithmetic::div_mod::{
    lemma_div_pos_is_pos, lemma_fundamental_div_mod, lemma_fundamental_div_mod_converse,
    lemma_mod_pos_bound,
};
use vstd::prelude::*;

verus! {

/// Row-major position of `idx` on a lattice of side `n`
pub open spec fn flat_2d(n: nat, idx: [usize; 2]) -> int {
    idx[0] * n + idx[1]
}

/// Index of the site at row-major position `s` on a lattice of side `n`
pub open spec fn site_2d(n: nat, s: int) -> [usize; 2] {
    [(s / n as int) as usize, (s % n as int) as usize]
}

/// Forward neighbour of `idx` along `axis`: 0 is the last coordinate, 1 the first.
pub open spec fn forward_2d(n: nat, idx: [usize; 2], axis: nat) -> [usize; 2] {
    if axis == 0 {
        [idx[0], ring_next(n, idx[1] as nat) as usize]
    } else {
        [ring_next(n, idx[0] as nat) as usize, idx[1]]
    }
}

/// Entry `m` of the forward-edge list: site `m / 2`, axis `m % 2`
pub open spec fn edge_2d(n: nat, m: int) -> ([usize; 2], [usize; 2]) {
    (site_2d(n, m / 2), forward_2d(n, site_2d(n, m / 2), (m % 2) as nat))
}

/// A lattice of side `n` in two dimensions has `n * n` sites.
pub proof fn lemma_size_2d(n: nat)
    ensures
        lattice_size(n, 2) == n * n,
{
    reveal_with_fuel(lattice_size, 3);
    assert(n * (n * 1) == n * n) by (nonlinear_arith);
}

/// Row-major positions of in-range indices are in range, and decode back.
pub proof fn lemma_flat_2d(n: nat, i: nat, j: nat)
    requires
        i < n,
        j < n,
    ensures
        0 <= i * n + j < n * n,
        site_2d(n, (i * n + j) as int) == [i as usize, j as usize],
{
    assert(i * n + j < n * n) by (nonlinear_arith)
        requires
            i < n,
            j < n,
    ;
    lemma_fundamental_div_mod_converse((i * n + j) as int, n as int, i as int, j as int);
}

/// Every row-major position of the lattice decodes to an in-range index.
pub proof fn lemma_site_2d(n: nat, s: int)
    requires
        1 <= n <= usize::MAX,
        0 <= s < n * n,
    ensures
        site_2d(n, s)[0] < n,
        site_2d(n, s)[1] < n,
        flat_2d(n, site_2d(n, s)) == s,
{
    let i = s / n as int;
    let j = s % n as int;
    lemma_fundamental_div_mod(s, n as int);
    lemma_mod_pos_bound(s, n as int);
    lemma_div_pos_is_pos(s, n as int);
    assert(i < n) by (nonlinear_arith)
        requires
            s == n * i + j,
            0 <= j,
            s < n * n,
            n >= 1,
            i >= 0,
    ;
    assert(flat_2d(n, site_2d(n, s)) == i * n + j) by (nonlinear_arith)
        requires
            site_2d(n, s)[0] == i,
            site_2d(n, s)[1] == j,
    ;
}

impl<T: Copy> Lattice for SquareLattice2D<T> {
}

impl<T: Copy> SiteState for SquareLattice2D<T> {
    /// Side length of the lattice
    type Shape = usize;

    type Index = [usize; 2];

    type Site = T;

    open spec fn wf(&self) -> bool {
        SquareLattice2D::<T>::wf(self)
    }

    open spec fn shape(&self) -> usize {
        self.side_length() as usize
    }

    open spec fn site_seq(&self) -> Seq<T> {
        self.values()
    }

    open spec fn valid_shape(side_length: usize) -> bool {
        side_length >= 1 && side_length * side_length <= usize::MAX
    }

    open spec fn shape_size(side_length: usize) -> nat {
        side_length as nat * side_length as nat
    }

    open spec fn valid_index(&self, idx: [usize; 2]) -> bool {
        idx[0] < self.side_length() && idx[1] < self.side_length()
    }

    open spec fn offset(&self, idx: [usize; 2]) -> int {
        flat_2d(self.side_length(), idx)
    }

    fn is_valid_shape(side_length: usize) -> (r: bool) {
        side_length >= 1 && side_length.checked_mul(side_length).is_some()
    }

    fn site_count(&self) -> (r: usize) {
        proof {
            lemma_size_2d(self.side_length());
        }
        SquareLattice2D::<T>::site_count(self)
    }

    fn sites(&self) -> (r: &[T]) {
        SquareLattice2D::<T>::sites(self)
    }

    fn sites_mut(&mut self) -> (r: &mut [T]) {
        SquareLattice2D::<T>::sites_mut(self)
    }

    fn get(&self, idx: [usize; 2]) -> (r: T) {
        let p = self.position(idx);
        self.state[p]
    }

    fn set(&mut self, idx: [usize; 2], site: T) {
        let p = self.position(idx);
        self.state.set(p, site);
    }

    fn sample<R: Rng + ?Sized>(&self, rng: &mut R) -> (r: [usize; 2]) {
        [draw_below(self.side, rng), draw_below(self.side, rng)]
    }

    fn uniform(side_length: usize, site: T) -> (r: Self) {
        proof {
            lemma_size_2d(side_length as nat);
        }
        Self::filled(side_length, side_length * side_length, site)
    }

    fn random<D: Distribution<T>, R: Rng + ?Sized>(
        side_length: usize,
        dist: &D,
        rng: &mut R,
    ) -> (r: Self) {
        proof {
            lemma_size_2d(side_length as nat);
        }
        Self::from_state(side_length, draw_sites(side_length * side_length, dist, rng))
    }

    fn set_uniform(&mut self, site: T) {
        proof {
            lemma_size_2d(self.side_length());
        }
        self.fill(site);
    }

    fn set_random<D: Distribution<T>, R: Rng + ?Sized>(&mut self, dist: &D, rng: &mut R) {
        proof {
            lemma_size_2d(self.side_length());
        }
        let count = self.state.len();
        let draws = draw_sites(count, dist, rng);
        self.fill_from(draws);
    }
}

impl<T: Copy> SquareLattice2D<T> {
    /// Row-major position of `idx`
    fn position(&self, idx: [usize; 2]) -> (r: usize)
        requires
            self.wf(),
            idx[0] < self.side_length(),
            idx[1] < self.side_length(),
        ensures
            r == flat_2d(self.side_length(), idx),
            r < self.values().len(),
    {
        let total = self.state.len();
        proof {
            lemma_size_2d(self.side as nat);
            lemma_flat_2d(self.side as nat, idx[0] as nat, idx[1] as nat);
            assert(idx[0] * self.side <= idx[0] * self.side + idx[1] < total);
        }
        idx[0] * self.side + idx[1]
    }
}

impl<T: Copy> SiteStateNN for SquareLattice2D<T> {
    open spec fn neighbor_indices(&self, idx: [usize; 2]) -> Seq<[usize; 2]> {
        let n = self.side_length();
        let i = idx[0];
        let j = idx[1];
        seq![
            [i, ring_prev(n, j as nat) as usize],
            [i, ring_next(n, j as nat) as usize],
            [ring_prev(n, i as nat) as usize, j],
            [ring_next(n, i as nat) as usize, j],
        ]
    }

    open spec fn neighbor_pairs(&self) -> Seq<([usize; 2], [usize; 2])> {
        let n = self.side_length();
        Seq::new(2 * (n * n), |m: int| edge_2d(n, m))
    }

    fn nearest_neighbors_index_pairs(&self) -> (r: Vec<([usize; 2], [usize; 2])>) {
        let n = self.side;
        let ghost np = self.neighbor_pairs();
        let mut pairs: Vec<([usize; 2], [usize; 2])> = Vec::new();
        let mut i: usize = 0;
        while i < n
            invariant
                self.wf(),
                n == self.side_length(),
                np == self.neighbor_pairs(),
                i <= n,
                2 * (i * n) <= np.len(),
                pairs@ == np.take(2 * (i * n)),
            decreases n - i,
        {
            let mut j: usize = 0;
            while j < n
                invariant
                    self.wf(),
                    n == self.side_length(),
                    np == self.neighbor_pairs(),
                    i < n,
                    j <= n,
                    2 * (i * n + j) <= np.len(),
                    pairs@ == np.take(2 * (i * n + j)),
                decreases n - j,
            {
                proof {
                    lemma_flat_2d(n as nat, i as nat, j as nat);
                }
                let ghost s = i * n + j;
                pairs.push(([i, j], [i, self.period.next(j)]));
                pairs.push(([i, j], [self.period.next(i), j]));
                assert((2 * s) / 2 == s && (2 * s) % 2 == 0);
                assert((2 * s + 1) / 2 == s && (2 * s + 1) % 2 == 1);
                assert(pairs@ =~= np.take(2 * (s + 1)));
                j = j + 1;
            }
            assert(2 * (i * n + n) == 2 * ((i + 1) * n)) by (nonlinear_arith);
            i = i + 1;
        }
        assert(pairs@ =~= np);
        pairs
    }

    fn nearest_neighbors_index(&self, idx: [usize; 2]) -> (r: Vec<[usize; 2]>) {
        let i = idx[0];
        let j = idx[1];
        let r = vec![
            [i, self.period.prev(j)],
            [i, self.period.next(j)],
            [self.period.prev(i), j],
            [self.period.next(i), j],
        ];
        assert(r@ =~= self.neighbor_indices(idx));
        r
    }

    fn nearest_neighbors_pairs(&self) -> (r: Vec<(T, T)>) {
        let n = self.side;
        let ghost np = self.neighbor_pairs();
        let mut pairs: Vec<(T, T)> = Vec::new();
        let mut i: usize = 0;
        while i < n
            invariant
                self.wf(),
                n == self.side_length(),
                np == self.neighbor_pairs(),
                i <= n,
                pairs@.len() == 2 * (i * n),
                2 * (i * n) <= np.len(),
                forall|k: int|
                    0 <= k < pairs@.len() ==> #[trigger] pairs@[k] == (
                        self.values()[self.offset(np[k].0)],
                        self.values()[self.offset(np[k].1)],
                    ),
            decreases n - i,
        {
            let mut j: usize = 0;
            while j < n
                invariant
                    self.wf(),
                    n == self.side_length(),
                    np == self.neighbor_pairs(),
                    i < n,
                    j <= n,
                    pairs@.len() == 2 * (i * n + j),
                    2 * (i * n + j) <= np.len(),
                    forall|k: int|
                        0 <= k < pairs@.len() ==> #[trigger] pairs@[k] == (
                            self.values()[self.offset(np[k].0)],
                            self.values()[self.offset(np[k].1)],
                        ),
                decreases n - j,
            {
                proof {
                    lemma_flat_2d(n as nat, i as nat, j as nat);
                }
                let ghost s = i * n + j;
                assert((2 * s) / 2 == s && (2 * s) % 2 == 0);
                assert((2 * s + 1) / 2 == s && (2 * s + 1) % 2 == 1);
                let here = self.state[self.position([i, j])];
                let right = self.state[self.position([i, self.period.next(j)])];
                let below = self.state[self.position([self.period.next(i), j])];
                pairs.push((here, right));
                pairs.push((here, below));
                j = j + 1;
            }
            assert(2 * (i * n + n) == 2 * ((i + 1) * n)) by (nonlinear_arith);
            i = i + 1;
        }
        pairs
    }

    fn nearest_neighbors(&self, idx: [usize; 2]) -> (r: Vec<T>) {
        let i = idx[0];
        let j = idx[1];
        let r = vec![
            self.state[self.position([i, self.period.prev(j)])],
            self.state[self.position([i, self.period.next(j)])],
            self.state[self.position([self.period.prev(i), j])],
            self.state[self.position([self.period.next(i), j])],
        ];
        r
    }
}

/// Each site has four neighbours, all sites of the lattice. On a torus of
/// side longer than two none is the site itself; of side one all are.
pub proof fn lemma_neighbors_2d<T: Copy>(l: &SquareLattice2D<T>, idx: [usize; 2])
    requires
        l.wf(),
        l.valid_index(idx),
    ensures
        l.neighbor_indices(idx).len() == 4,
        forall|k: int| 0 <= k < 4 ==> l.valid_index(#[trigger] l.neighbor_indices(idx)[k]),
        l.side_length() > 2 ==> forall|k: int|
            0 <= k < 4 ==> #[trigger] l.neighbor_indices(idx)[k] != idx,
        l.side_length() == 1 ==> forall|k: int|
            0 <= k < 4 ==> #[trigger] l.neighbor_indices(idx)[k] == idx,
{
    lemma_ring_round_trip(l.side_length(), idx[0] as nat);
    lemma_ring_round_trip(l.side_length(), idx[1] as nat);
}

/// The forward edges are two per site, and join sites that are each other's
/// neighbours. On a torus of side one, each edge joins the site to itself.
pub proof fn lemma_neighbor_pairs_2d<T: Copy>(l: &SquareLattice2D<T>)
    requires
        l.wf(),
    ensures
        l.neighbor_pairs().len() == 2 * l.values().len(),
        forall|m: int|
            0 <= m < l.neighbor_pairs().len() ==> {
                let e = #[trigger] l.neighbor_pairs()[m];
                &&& l.valid_index(e.0)
                &&& l.valid_index(e.1)
                &&& l.neighbor_indices(e.0).contains(e.1)
                &&& l.neighbor_indices(e.1).contains(e.0)
            },
        l.side_length() == 1 ==> forall|m: int|
            0 <= m < l.neighbor_pairs().len() ==> (#[trigger] l.neighbor_pairs()[m]).0
                == l.neighbor_pairs()[m].1,
{
    let n = l.side_length();
    lemma_size_2d(n);
    assert forall|m: int| 0 <= m < l.neighbor_pairs().len() implies {
        let e = #[trigger] l.neighbor_pairs()[m];
        &&& l.valid_index(e.0)
        &&& l.valid_index(e.1)
        &&& l.neighbor_indices(e.0).contains(e.1)
        &&& l.neighbor_indices(e.1).contains(e.0)
        &&& n == 1 ==> e.0 == e.1
    } by {
        let e = l.neighbor_pairs()[m];
        lemma_site_2d(n, m / 2);
        let a = e.0;
        lemma_ring_round_trip(n, a[0] as nat);
        lemma_ring_round_trip(n, a[1] as nat);
        if m % 2 == 0 {
            assert(l.neighbor_indices(a)[1] == e.1);
            assert(l.neighbor_indices(e.1)[0] == a);
        } else {
            assert(l.neighbor_indices(a)[3] == e.1);
            assert(l.neighbor_indices(e.1)[2] == a);
        }
    }
}

impl<T: Copy> SquareLattice2D<T> {
    /// Exchange site `idx` with its forward neighbour along `axis` (0: the
    /// last coordinate, 1: the first)
    pub fn swap_forward(&mut self, idx: [usize; 2], axis: usize)
        requires
            old(self).wf(),
            idx[0] < old(self).side_length(),
            idx[1] < old(self).side_length(),
            axis < 2,
        ensures
            final(self).wf(),
            final(self).side_length() == old(self).side_length(),
            final(self).values() == swapped(
                old(self).values(),
                flat_2d(old(self).side_length(), idx),
                flat_2d(
                    old(self).side_length(),
                    forward_2d(old(self).side_length(), idx, axis as nat),
                ),
            ),
    {
        let i = idx[0];
        let j = idx[1];
        let nn_idx = if axis == 0 {
            [i, self.period.next(j)]
        } else {
            [self.period.next(i), j]
        };
        let a = self.position(idx);
        let b = self.position(nn_idx);
        self.swap_sites(a, b);
    }
}

/// Character shown at row `i`, column `j` of the centered picture of a
/// lattice of side `n`: both coordinates are shifted by half the side
pub open spec fn centered_cell<T: SiteCharRepr>(sites: Seq<T>, n: nat, i: int, j: int) -> char {
    let h = n as int / 2;
    sites[flat_2d(n, [((i + h) % n as int) as usize, ((j + h) % n as int) as usize])].char_of()
}

impl<T: Copy + SiteCharRepr> SquareLattice2D<T> {
    /// Rows of characters of the sites, both axes shifted by half the side so
    /// the lattice wraps around its midpoint when shown
    pub fn centered_rows(&self) -> (r: Vec<Vec<char>>)
        requires
            self.wf(),
        ensures
            r@.len() == self.side_length(),
            forall|i: int|
                0 <= i < r@.len() ==> (#[trigger] r@[i])@ == Seq::new(
                    self.side_length(),
                    |j: int| centered_cell(self.values(), self.side_length(), i, j),
                ),
    {
        let n = self.side;
        let h = n / 2;
        proof {
            lemma_size_2d(n as nat);
            assert(n + n <= n * n || n == 1) by (nonlinear_arith)
                requires
                    n >= 1,
            ;
        }
        let total = self.state.len();
        let mut rows: Vec<Vec<char>> = Vec::with_capacity(n);
        let mut i: usize = 0;
        while i < n
            invariant
                self.wf(),
                n == self.side_length(),
                h == n / 2,
                total == self.values().len(),
                total == n * n,
                n + n <= n * n || n == 1,
                i <= n,
                rows@.len() == i,
                forall|a: int|
                    0 <= a < i ==> (#[trigger] rows@[a])@ == Seq::new(
                        n as nat,
                        |j: int| centered_cell(self.values(), n as nat, a, j),
                    ),
            decreases n - i,
        {
            let i_off = (i + h) % n;
            let mut row: Vec<char> = Vec::with_capacity(n);
            let mut j: usize = 0;
            while j < n
                invariant
                    self.wf(),
                    n == self.side_length(),
                    h == n / 2,
                    total == self.values().len(),
                    total == n * n,
                    n + n <= n * n || n == 1,
                    i < n,
                    i_off == (i + h) % (n as int),
                    j <= n,
                    row@ == Seq::new(
                        n as nat,
                        |c: int| centered_cell(self.values(), n as nat, i as int, c),
                    ).take(j as int),
                decreases n - j,
            {
                let j_off = (j + h) % n;
                let p = self.position([i_off, j_off]);
                row.push(self.state[p].char());
                j = j + 1;
                assert(row@ =~= Seq::new(
                    n as nat,
                    |c: int| centered_cell(self.values(), n as nat, i as int, c),
                ).take(j as int));
            }
            assert(row@ =~= Seq::new(
                n as nat,
                |c: int| centered_cell(self.values(), n as nat, i as int, c),
            ));
            rows.push(row);
            i = i + 1;
        }
        rows
    }
}

/// Sites `s` after one proposal at `idx` along `axis`: when `accept`, the
/// site and its forward neighbour along that axis trade values; otherwise
/// nothing changes.
pub open spec fn proposal_2d<T>(
    n: nat,
    s: Seq<T>,
    idx: [usize; 2],
    axis: usize,
    accept: bool,
) -> Seq<T> {
    if accept {
        swapped(s, flat_2d(n, idx), flat_2d(n, forward_2d(n, idx, axis as nat)))
    } else {
        s
    }
}

/// Sites `s` after the proposals `props` (site, axis, accepted), applied in order
pub open spec fn sweep_2d<T>(n: nat, s: Seq<T>, props: Seq<([usize; 2], usize, bool)>) -> Seq<T>
    decreases props.len(),
{
    if props.len() == 0 {
        s
    } else {
        let p = props.last();
        proposal_2d(n, sweep_2d(n, s, props.drop_last()), p.0, p.1, p.2)
    }
}

/// The proposal names an in-range site and axis.
pub open spec fn valid_proposal_2d(n: nat, p: ([usize; 2], usize, bool)) -> bool {
    p.0[0] < n && p.0[1] < n && p.1 < 2
}

impl<T: Copy> SquareLattice2D<T> {
    /// One diffusion proposal at `idx` along `axis`: exchange the site with
    /// its forward neighbour along that axis when `accept`, else leave the
    /// lattice as it is
    pub fn propose(&mut self, idx: [usize; 2], axis: usize, accept: bool)
        requires
            old(self).wf(),
            idx[0] < old(self).side_length(),
            idx[1] < old(self).side_length(),
            axis < 2,
        ensures
            final(self).wf(),
            final(self).side_length() == old(self).side_length(),
            final(self).values() == proposal_2d(
                old(self).side_length(),
                old(self).values(),
                idx,
                axis,
                accept,
            ),
            final(self).values().to_multiset() == old(self).values().to_multiset(),
    {
        if accept {
            proof {
                let n = self.side_length();
                let nn = forward_2d(n, idx, axis as nat);
                lemma_flat_2d(n, idx[0] as nat, idx[1] as nat);
                lemma_flat_2d(n, nn[0] as nat, nn[1] as nat);
                lemma_size_2d(n);
                lemma_swap_keeps_multiset(self.values(), flat_2d(n, idx), flat_2d(n, nn));
            }
            self.swap_forward(idx, axis);
        }
    }
}

/// A sweep in which no proposal is accepted leaves the sites unchanged.
pub proof fn lemma_sweep_2d_unaccepted<T>(n: nat, s: Seq<T>, props: Seq<([usize; 2], usize, bool)>)
    requires
        forall|t: int| 0 <= t < props.len() ==> !(#[trigger] props[t]).2,
    ensures
        sweep_2d(n, s, props) == s,
    decreases props.len(),
{
    if props.len() > 0 {
        let rest = props.drop_last();
        assert(forall|t: int| 0 <= t < rest.len() ==> #[trigger] rest[t] == props[t]);
        lemma_sweep_2d_unaccepted(n, s, rest);
    }
}

impl<T: Copy> SimpleSwapDiffusion for SquareLattice2D<T> {
    open spec fn sweep_outcome(&self, after: Seq<T>) -> bool {
        exists|props: Seq<([usize; 2], usize, bool)>|
            #![trigger sweep_2d(self.side_length(), self.values(), props)]
            props.len() == self.values().len() && (forall|t: int|
                0 <= t < props.len() ==> valid_proposal_2d(self.side_length(), #[trigger] props[t]))
                && sweep_2d(self.side_length(), self.values(), props) == after
    }

    fn diffuse<R: Rng + ?Sized>(&mut self, diffusion_coin: Bernoulli, rng: &mut R) {
        let count = self.site_count();
        let ghost n = self.side_length();
        let ghost start = self.values();
        let ghost mut props: Seq<([usize; 2], usize, bool)> = Seq::empty();
        let mut step: usize = 0;
        while step < count
            invariant
                self.wf(),
                self.side_length() == n,
                n == old(self).side_length(),
                start == old(self).values(),
                count == start.len(),
                self.values().to_multiset() == start.to_multiset(),
                step <= count,
                props.len() == step,
                forall|t: int| 0 <= t < props.len() ==> valid_proposal_2d(n, #[trigger] props[t]),
                self.values() == sweep_2d(n, start, props),
            decreases count - step,
        {
            // Select random site
            let idx = self.sample(rng);
            // Select random forward neighbour
            let axis: usize = if draw_bool(rng) {
                0
            } else {
                1
            };
            // Diffuse with coin flip
            let accept = flip(&diffusion_coin, rng);
            self.propose(idx, axis, accept);
            proof {
                let before = props;
                props = props.push((idx, axis, accept));
                assert(props.drop_last() =~= before);
            }
            step = step + 1;
        }
        assert(sweep_2d(n, start, props) == self.values());
    }
}

} // verus!
