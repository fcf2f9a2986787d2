//! One-dimensional square lattice

use super::{
    lattice_size, lemma_ring_round_trip, lemma_swap_keeps_multiset, ring_next, ring_prev, swapped,
    SquareLattice1D,
};
use crate::sampling::{draw_below, draw_sites, flip};
use crate::states::lattices::Lattice;
use crate::states::{SimpleSwapDiffusion, SiteCharRepr, SiteState, SiteStateNN};
use rand::Rng;
use rand_distr::{Bernoulli, Distribution};
use vstd::arithmetic::div_mod::lemma_fundamental_div_mod_converse;
use vstd::prelude::*;

verus! {

/// A lattice of side `n` in one dimension has `n` sites.
pub proof fn lemma_size_1d(n: nat)
    ensures
        lattice_size(n, 1) == n,
{
    reveal_with_fuel(lattice_size, 2);
    assert(n * 1 == n);
}

impl<T: Copy> Lattice for SquareLattice1D<T> {
}

impl<T: Copy> SiteState for SquareLattice1D<T> {
    type Shape = usize;

    type Index = usize;

    type Site = T;

    open spec fn wf(&self) -> bool {
        SquareLattice1D::<T>::wf(self)
    }

    open spec fn shape(&self) -> usize {
        self.side_length() as usize
    }

    open spec fn site_seq(&self) -> Seq<T> {
        self.values()
    }

    open spec fn valid_shape(length: usize) -> bool {
        length >= 1
    }

    open spec fn shape_size(length: usize) -> nat {
        length as nat
    }

    open spec fn valid_index(&self, i: usize) -> bool {
        i < self.side_length()
    }

    open spec fn offset(&self, i: usize) -> int {
        i as int
    }

    fn is_valid_shape(length: usize) -> (r: bool) {
        length >= 1
    }

    fn site_count(&self) -> (r: usize) {
        proof {
            lemma_size_1d(self.side_length());
        }
        SquareLattice1D::<T>::site_count(self)
    }

    fn sites(&self) -> (r: &[T]) {
        SquareLattice1D::<T>::sites(self)
    }

    fn sites_mut(&mut self) -> (r: &mut [T]) {
        SquareLattice1D::<T>::sites_mut(self)
    }

    fn get(&self, i: usize) -> (r: T) {
        proof {
            lemma_size_1d(self.side_length());
        }
        self.state[i]
    }

    fn set(&mut self, i: usize, site: T) {
        proof {
            lemma_size_1d(self.side_length());
        }
        self.state.set(i, site);
    }

    fn sample<R: Rng + ?Sized>(&self, rng: &mut R) -> (r: usize) {
        draw_below(self.side, rng)
    }

    fn uniform(length: usize, site: T) -> (r: Self) {
        proof {
            lemma_size_1d(length as nat);
        }
        Self::filled(length, length, site)
    }

    fn random<D: Distribution<T>, R: Rng + ?Sized>(
        length: usize,
        dist: &D,
        rng: &mut R,
    ) -> (r: Self) {
        proof {
            lemma_size_1d(length as nat);
        }
        Self::from_state(length, draw_sites(length, dist, rng))
    }

    fn set_uniform(&mut self, site: T) {
        proof {
            lemma_size_1d(self.side_length());
        }
        self.fill(site);
    }

    fn set_random<D: Distribution<T>, R: Rng + ?Sized>(&mut self, dist: &D, rng: &mut R) {
        proof {
            lemma_size_1d(self.side_length());
        }
        let count = self.state.len();
        let draws = draw_sites(count, dist, rng);
        self.fill_from(draws);
    }
}

impl<T: Copy> SiteStateNN for SquareLattice1D<T> {
    open spec fn neighbor_indices(&self, i: usize) -> Seq<usize> {
        let n = self.side_length();
        seq![ring_prev(n, i as nat) as usize, ring_next(n, i as nat) as usize]
    }

    open spec fn neighbor_pairs(&self) -> Seq<(usize, usize)> {
        let n = self.side_length();
        Seq::new(n, |k: int| (k as usize, ring_next(n, k as nat) as usize))
    }

    fn nearest_neighbors_index_pairs(&self) -> (r: Vec<(usize, usize)>) {
        let n = self.side;
        let mut pairs: Vec<(usize, usize)> = Vec::with_capacity(n);
        let mut i: usize = 0;
        while i < n
            invariant
                self.wf(),
                n == self.side_length(),
                i <= n,
                pairs@ == self.neighbor_pairs().take(i as int),
            decreases n - i,
        {
            pairs.push((i, self.period.next(i)));
            i = i + 1;
            assert(pairs@ =~= self.neighbor_pairs().take(i as int));
        }
        assert(pairs@ =~= self.neighbor_pairs());
        pairs
    }

    fn nearest_neighbors_index(&self, i: usize) -> (r: Vec<usize>) {
        let r = vec![self.period.prev(i), self.period.next(i)];
        assert(r@ =~= self.neighbor_indices(i));
        r
    }

    fn nearest_neighbors_pairs(&self) -> (r: Vec<(T, T)>) {
        proof {
            lemma_size_1d(self.side_length());
        }
        let n = self.side;
        let mut pairs: Vec<(T, T)> = Vec::with_capacity(n);
        let mut i: usize = 0;
        while i < n
            invariant
                self.wf(),
                n == self.side_length(),
                n == self.values().len(),
                i <= n,
                pairs@.len() == i,
                forall|k: int|
                    0 <= k < i ==> #[trigger] pairs@[k] == (
                        self.values()[k],
                        self.values()[ring_next(n as nat, k as nat) as int],
                    ),
            decreases n - i,
        {
            let i_next = self.period.next(i);
            pairs.push((self.state[i], self.state[i_next]));
            i = i + 1;
        }
        pairs
    }

    fn nearest_neighbors(&self, i: usize) -> (r: Vec<T>) {
        proof {
            lemma_size_1d(self.side_length());
        }
        let i_prev = self.period.prev(i);
        let i_next = self.period.next(i);
        vec![self.state[i_prev], self.state[i_next]]
    }
}

/// Each site has two neighbours, both sites of the lattice. On a ring longer
/// than two neither is the site itself; on a ring of one both are.
pub proof fn lemma_neighbors_1d<T: Copy>(l: &SquareLattice1D<T>, i: usize)
    requires
        l.wf(),
        l.valid_index(i),
    ensures
        l.neighbor_indices(i).len() == 2,
        forall|k: int| 0 <= k < 2 ==> l.valid_index(#[trigger] l.neighbor_indices(i)[k]),
        l.side_length() > 2 ==> forall|k: int|
            0 <= k < 2 ==> #[trigger] l.neighbor_indices(i)[k] != i,
        l.side_length() == 1 ==> forall|k: int|
            0 <= k < 2 ==> #[trigger] l.neighbor_indices(i)[k] == i,
{
    lemma_ring_round_trip(l.side_length(), i as nat);
}

/// The forward edges are one per site, and join sites that are each other's
/// neighbours. On a ring of one, each edge joins the site to itself.
pub proof fn lemma_neighbor_pairs_1d<T: Copy>(l: &SquareLattice1D<T>)
    requires
        l.wf(),
    ensures
        l.neighbor_pairs().len() == 1 * l.values().len(),
        forall|m: int|
            0 <= m < l.neighbor_pairs().len() ==> {
                let e = #[trigger] l.neighbor_pairs()[m];
                &&& l.valid_index(e.0)
                &&& l.valid_index(e.1)
                &&& l.neighbor_indices(e.0).contains(e.1)
                &&& l.neighbor_indices(e.1).contains(e.0)
            },
        l.side_length() == 1 ==> forall|m: int|
            0 <= m < l.neighbor_pairs().len() ==> (#[trigger] l.neighbor_pairs()[m]).0
                == l.neighbor_pairs()[m].1,
{
    let n = l.side_length();
    lemma_size_1d(n);
    assert forall|m: int| 0 <= m < l.neighbor_pairs().len() implies {
        let e = #[trigger] l.neighbor_pairs()[m];
        &&& l.valid_index(e.0)
        &&& l.valid_index(e.1)
        &&& l.neighbor_indices(e.0).contains(e.1)
        &&& l.neighbor_indices(e.1).contains(e.0)
    } by {
        let e = l.neighbor_pairs()[m];
        lemma_ring_round_trip(n, m as nat);
        assert(l.neighbor_indices(e.0)[1] == e.1);
        assert(l.neighbor_indices(e.1)[0] == e.0);
    }
}

impl<T: Copy> SquareLattice1D<T> {
    /// Exchange site `i` with its forward neighbour
    pub fn swap_forward(&mut self, i: usize)
        requires
            old(self).wf(),
            i < old(self).side_length(),
        ensures
            final(self).wf(),
            final(self).side_length() == old(self).side_length(),
            final(self).values() == swapped(
                old(self).values(),
                i as int,
                ring_next(old(self).side_length(), i as nat) as int,
            ),
    {
        proof {
            lemma_size_1d(self.side_length());
        }
        let i_next = self.period.next(i);
        self.swap_sites(i, i_next);
    }
}

/// Characters of `sites` turned right by half their number, so that the
/// middle of the ring is shown at the edges
pub open spec fn centered_strip<T: SiteCharRepr>(sites: Seq<T>) -> Seq<char> {
    let n = sites.len() as int;
    Seq::new(sites.len(), |k: int| sites[(k + n - n / 2) % n].char_of())
}

impl<T: Copy + SiteCharRepr> SquareLattice1D<T> {
    /// Characters of the sites, turned right by half the length so the ring
    /// wraps around its midpoint when shown
    pub fn centered_chars(&self) -> (r: Vec<char>)
        requires
            self.wf(),
        ensures
            r@ == centered_strip(self.values()),
    {
        let n = self.state.len();
        let h = n / 2;
        let mut chars: Vec<char> = Vec::with_capacity(n);
        let mut k: usize = 0;
        while k < n
            invariant
                n == self.values().len(),
                h == n / 2,
                k <= n,
                chars@ == centered_strip(self.values()).take(k as int),
            decreases n - k,
        {
            let src = if k >= h {
                k - h
            } else {
                k + (n - h)
            };
            proof {
                if k >= h {
                    lemma_fundamental_div_mod_converse(k + n - h, n as int, 1, k - h);
                } else {
                    lemma_fundamental_div_mod_converse(k + n - h, n as int, 0, k + n - h);
                }
            }
            chars.push(self.state[src].char());
            k = k + 1;
            assert(chars@ =~= centered_strip(self.values()).take(k as int));
        }
        assert(chars@ =~= centered_strip(self.values()));
        chars
    }
}

/// Sites `s` after one proposal at site `i`: when `accept`, the site and its
/// next neighbour trade values; otherwise nothing changes.
pub open spec fn proposal_1d<T>(n: nat, s: Seq<T>, i: usize, accept: bool) -> Seq<T> {
    if accept {
        swapped(s, i as int, ring_next(n, i as nat) as int)
    } else {
        s
    }
}

/// Sites `s` after the proposals `props` (site, accepted), applied in order
pub open spec fn sweep_1d<T>(n: nat, s: Seq<T>, props: Seq<(usize, bool)>) -> Seq<T>
    decreases props.len(),
{
    if props.len() == 0 {
        s
    } else {
        let p = props.last();
        proposal_1d(n, sweep_1d(n, s, props.drop_last()), p.0, p.1)
    }
}

impl<T: Copy> SquareLattice1D<T> {
    /// One diffusion proposal at site `i`: exchange it with its next
    /// neighbour when `accept`, else leave the lattice as it is
    pub fn propose(&mut self, i: usize, accept: bool)
        requires
            old(self).wf(),
            i < old(self).side_length(),
        ensures
            final(self).wf(),
            final(self).side_length() == old(self).side_length(),
            final(self).values() == proposal_1d(
                old(self).side_length(),
                old(self).values(),
                i,
                accept,
            ),
            final(self).values().to_multiset() == old(self).values().to_multiset(),
    {
        if accept {
            proof {
                lemma_size_1d(self.side_length());
                lemma_swap_keeps_multiset(
                    self.values(),
                    i as int,
                    ring_next(self.side_length(), i as nat) as int,
                );
            }
            self.swap_forward(i);
        }
    }
}

/// A sweep in which no proposal is accepted leaves the sites unchanged.
pub proof fn lemma_sweep_1d_unaccepted<T>(n: nat, s: Seq<T>, props: Seq<(usize, bool)>)
    requires
        forall|t: int| 0 <= t < props.len() ==> !(#[trigger] props[t]).1,
    ensures
        sweep_1d(n, s, props) == s,
    decreases props.len(),
{
    if props.len() > 0 {
        let rest = props.drop_last();
        assert(forall|t: int| 0 <= t < rest.len() ==> #[trigger] rest[t] == props[t]);
        lemma_sweep_1d_unaccepted(n, s, rest);
    }
}

impl<T: Copy> SimpleSwapDiffusion for SquareLattice1D<T> {
    open spec fn sweep_outcome(&self, after: Seq<T>) -> bool {
        exists|props: Seq<(usize, bool)>|
            #![trigger sweep_1d(self.side_length(), self.values(), props)]
            props.len() == self.values().len() && (forall|t: int|
                0 <= t < props.len() ==> (#[trigger] props[t]).0 < self.side_length())
                && sweep_1d(self.side_length(), self.values(), props) == after
    }

    fn diffuse<R: Rng + ?Sized>(&mut self, diffusion_coin: Bernoulli, rng: &mut R) {
        let count = self.site_count();
        let ghost n = self.side_length();
        let ghost start = self.values();
        let ghost mut props: Seq<(usize, bool)> = Seq::empty();
        let mut step: usize = 0;
        while step < count
            invariant
                self.wf(),
                self.side_length() == n,
                n == old(self).side_length(),
                start == old(self).values(),
                count == start.len(),
                self.values().to_multiset() == start.to_multiset(),
                step <= count,
                props.len() == step,
                forall|t: int| 0 <= t < props.len() ==> (#[trigger] props[t]).0 < n,
                self.values() == sweep_1d(n, start, props),
            decreases count - step,
        {
            // Select random site
            let i = self.sample(rng);
            // Diffuse to the next site with coin flip
            let accept = flip(&diffusion_coin, rng);
            self.propose(i, accept);
            proof {
                let before = props;
                props = props.push((i, accept));
                assert(props.drop_last() =~= before);
            }
            step = step + 1;
        }
        assert(sweep_1d(n, start, props) == self.values());
    }
}

} // verus!
