//! System states

use rand::Rng;
use rand_distr::{Bernoulli, Distribution};
use vstd::prelude::*;

verus! {

/// The sequence of `count` copies of `site`.
pub open spec fn repeated<T>(count: nat, site: T) -> Seq<T> {
    Seq::new(count, |k: int| site)
}

/// State composed of sites
///
/// A state with a shape of type `Shape`, made of a finite number of sites of
/// type `Site`, providing:
/// - indexed access to sites, for reading and writing
/// - a uniform draw over site indices, for selecting a random site
/// - iteration over all sites, in one fixed order
/// - construction and reset, with one value everywhere or with drawn values
pub trait SiteState: Sized {
    /// Shape of the state
    type Shape: Copy;

    /// Index for sites
    type Index: Copy;

    /// Type for each site
    type Site: Copy;

    /// The state is internally consistent.
    spec fn wf(&self) -> bool;

    /// Shape of the state
    spec fn shape(&self) -> Self::Shape;

    /// All sites, in traversal order
    spec fn site_seq(&self) -> Seq<Self::Site>;

    /// A state of this shape can be built.
    spec fn valid_shape(shape: Self::Shape) -> bool;

    /// Number of sites of a state of this shape
    spec fn shape_size(shape: Self::Shape) -> nat;

    /// The index names a site of this state.
    spec fn valid_index(&self, idx: Self::Index) -> bool;

    /// Place of the site named by `idx` in the traversal order
    spec fn offset(&self, idx: Self::Index) -> int;

    /// Whether a state of this shape can be built
    fn is_valid_shape(shape: Self::Shape) -> (r: bool)
        ensures
            r == Self::valid_shape(shape),
    ;

    /// Total number of sites
    fn site_count(&self) -> (r: usize)
        requires
            self.wf(),
        ensures
            r == self.site_seq().len(),
            r == Self::shape_size(self.shape()),
    ;

    /// All sites, in traversal order
    fn sites(&self) -> (r: &[Self::Site])
        requires
            self.wf(),
        ensures
            r@ == self.site_seq(),
    ;

    /// All sites, in traversal order, for writing
    fn sites_mut(&mut self) -> (r: &mut [Self::Site])
        requires
            old(self).wf(),
        ensures
            r@ == old(self).site_seq(),
            final(r)@.len() == r@.len() ==> final(self).wf(),
            final(self).site_seq() == final(r)@,
            final(self).shape() == old(self).shape(),
    ;

    /// Value of the site at `idx`
    fn get(&self, idx: Self::Index) -> (r: Self::Site)
        requires
            self.wf(),
            self.valid_index(idx),
        ensures
            0 <= self.offset(idx) < self.site_seq().len(),
            r == self.site_seq()[self.offset(idx)],
    ;

    /// Write `site` at `idx`
    fn set(&mut self, idx: Self::Index, site: Self::Site)
        requires
            old(self).wf(),
            old(self).valid_index(idx),
        ensures
            final(self).wf(),
            final(self).shape() == old(self).shape(),
            0 <= old(self).offset(idx) < old(self).site_seq().len(),
            final(self).site_seq() == old(self).site_seq().update(old(self).offset(idx), site),
    ;

    /// A site index drawn uniformly with `rng`
    fn sample<R: Rng + ?Sized>(&self, rng: &mut R) -> (r: Self::Index)
        requires
            self.wf(),
        ensures
            self.valid_index(r),
    ;

    /// Create new state with sites in the same state
    fn uniform(shape: Self::Shape, site: Self::Site) -> (r: Self)
        requires
            Self::valid_shape(shape),
        ensures
            r.wf(),
            r.shape() == shape,
            r.site_seq() == repeated(Self::shape_size(shape), site),
    ;

    /// Create new state with sites states drawn from a random distribution
    fn random<D: Distribution<Self::Site>, R: Rng + ?Sized>(
        shape: Self::Shape,
        dist: &D,
        rng: &mut R,
    ) -> (r: Self)
        requires
            Self::valid_shape(shape),
        ensures
            r.wf(),
            r.shape() == shape,
            r.site_seq().len() == Self::shape_size(shape),
    ;

    /// Set all sites to the same state
    fn set_uniform(&mut self, site: Self::Site)
        requires
            old(self).wf(),
        ensures
            final(self).wf(),
            final(self).shape() == old(self).shape(),
            final(self).site_seq() == repeated(Self::shape_size(old(self).shape()), site),
    ;

    /// Set all sites with values drawn from a given distribution
    fn set_random<D: Distribution<Self::Site>, R: Rng + ?Sized>(&mut self, dist: &D, rng: &mut R)
        requires
            old(self).wf(),
        ensures
            final(self).wf(),
            final(self).shape() == old(self).shape(),
            final(self).site_seq().len() == Self::shape_size(old(self).shape()),
    ;
}

/// Character representation of a site
pub trait SiteCharRepr {
    /// The character that stands for this site
    spec fn char_of(&self) -> char;

    fn char(&self) -> (r: char)
        ensures
            r == self.char_of(),
    ;
}

/// A character site shows itself.
impl SiteCharRepr for char {
    open spec fn char_of(&self) -> char {
        *self
    }

    fn char(&self) -> (r: char) {
        *self
    }
}

/// Trait for types representing site states reset specifications
pub trait InitialStateSpec<S: SiteState>: Sized {
    /// The sites of `state` are among those this specification may give.
    spec fn fills(&self, state: S) -> bool;

    /// Constructs a new state with given shape with this specification
    fn construct(&mut self, shape: S::Shape) -> (r: S)
        requires
            S::valid_shape(shape),
        ensures
            r.wf(),
            r.shape() == shape,
            old(self).fills(r),
    ;

    /// Resets a given state with this specification
    fn reset(&mut self, state: &mut S)
        requires
            old(state).wf(),
        ensures
            final(state).wf(),
            final(state).shape() == old(state).shape(),
            old(self).fills(*final(state)),
    ;
}

/// Construction and reset of a state through an initial-state specification,
/// so that callers can swap the fill strategy without changing the state type
pub trait SiteStateInit: SiteState {
    /// Create a new state of the given shape, filled as `spec` says
    fn new<I: InitialStateSpec<Self>>(shape: Self::Shape, spec: &mut I) -> (r: Self)
        requires
            Self::valid_shape(shape),
        ensures
            r.wf(),
            r.shape() == shape,
            old(spec).fills(r),
    {
        spec.construct(shape)
    }

    /// Refill this state as `spec` says
    fn reset<I: InitialStateSpec<Self>>(&mut self, spec: &mut I)
        requires
            old(self).wf(),
        ensures
            final(self).wf(),
            final(self).shape() == old(self).shape(),
            old(spec).fills(*final(self)),
    {
        spec.reset(self);
    }
}

impl<S: SiteState> SiteStateInit for S {
}

/// Set all sites uniformly
#[derive(Debug)]
pub struct UniformSites<T: Copy>(pub T);

impl<S: SiteState<Site = T>, T: Copy> InitialStateSpec<S> for UniformSites<T> {
    open spec fn fills(&self, state: S) -> bool {
        state.site_seq() == repeated(S::shape_size(state.shape()), self.0)
    }

    fn construct(&mut self, shape: S::Shape) -> (r: S) {
        S::uniform(shape, self.0)
    }

    fn reset(&mut self, state: &mut S) {
        state.set_uniform(self.0);
    }
}

/// Defines default site reset specification
pub trait DefaultSiteStateReset: SiteState {
    type Spec: InitialStateSpec<Self>;

    /// Refill this state with its default specification
    fn reset(&mut self, spec: &mut Self::Spec)
        requires
            old(self).wf(),
        ensures
            final(self).wf(),
            final(self).shape() == old(self).shape(),
            old(spec).fills(*final(self)),
    {
        spec.reset(self);
    }
}

/// Measurement over a state
pub trait StateMeasurement<S: SiteState> {
    /// Resulting type of the measurement
    type Type;

    /// Perform measurement on a given state
    fn measure(&self, state: &S) -> Self::Type
        requires
            state.wf(),
    ;
}

/// State swap diffusion
pub trait SimpleSwapDiffusion: SiteState {
    /// `after` is what one sweep from this state can leave: the sites after
    /// `site_count()` proposals, each at an in-range site along an in-range
    /// axis, applied in order, each swapping the site with its forward
    /// neighbour when accepted and changing nothing otherwise.
    spec fn sweep_outcome(&self, after: Seq<Self::Site>) -> bool;

    /// One sweep: `site_count()` proposals, each a swap of a drawn site with
    /// one of its forward neighbours, accepted on a success of `diffusion_coin`.
    /// Swaps move values between sites, so the composition is kept.
    fn diffuse<R: Rng + ?Sized>(&mut self, diffusion_coin: Bernoulli, rng: &mut R)
        requires
            old(self).wf(),
        ensures
            final(self).wf(),
            final(self).shape() == old(self).shape(),
            final(self).site_seq().to_multiset() == old(self).site_seq().to_multiset(),
            old(self).sweep_outcome(final(self).site_seq()),
    ;
}

/// Resetting any state with `UniformSites(site)` gives the same sites as a
/// state freshly built with `UniformSites(site)` (or `uniform`) for that shape.
pub proof fn lemma_uniform_reset_matches_fresh<S: SiteState>(reset: S, fresh: S, site: S::Site)
    requires
        reset.wf(),
        fresh.wf(),
        reset.shape() == fresh.shape(),
        <UniformSites<S::Site> as InitialStateSpec<S>>::fills(&UniformSites(site), reset),
        <UniformSites<S::Site> as InitialStateSpec<S>>::fills(&UniformSites(site), fresh),
    ensures
        reset.site_seq() == fresh.site_seq(),
        forall|k: int| 0 <= k < reset.site_seq().len() ==> #[trigger] reset.site_seq()[k] == site,
{
}

/// Any number of diffusion sweeps keeps the count of each site value: in a
/// run of states where each one has the composition of the one before (as
/// `diffuse` ensures), the last has the composition of the first.
pub proof fn lemma_diffusion_conserves_composition<S: SimpleSwapDiffusion>(run: Seq<S>)
    requires
        run.len() >= 1,
        forall|k: int|
            0 <= k < run.len() - 1 ==> (#[trigger] run[k + 1]).site_seq().to_multiset()
                == run[k].site_seq().to_multiset(),
    ensures
        run.last().site_seq().to_multiset() == run[0].site_seq().to_multiset(),
    decreases run.len(),
{
    if run.len() > 1 {
        let shorter = run.drop_last();
        assert(forall|k: int|
            0 <= k < shorter.len() - 1 ==> #[trigger] shorter[k + 1] == run[k + 1]);
        lemma_diffusion_conserves_composition(shorter);
        assert(run[run.len() - 1] == run[(run.len() - 2) + 1]);
    }
}

/// Value of the site of `state` at `idx`
pub open spec fn site_at<S: SiteState>(state: &S, idx: S::Index) -> S::Site {
    state.site_seq()[state.offset(idx)]
}

/// States composed of sites with a notion of "nearest neighborhood"
/// - all nearest-neighbour pairs, each undirected edge once
/// - the nearest neighbours of a given site
pub trait SiteStateNN: SiteState {
    /// Indices of the neighbours of `idx`, in the order they are listed
    spec fn neighbor_indices(&self, idx: Self::Index) -> Seq<Self::Index>;

    /// All neighbour pairs, each edge once, in the order they are listed
    spec fn neighbor_pairs(&self) -> Seq<(Self::Index, Self::Index)>;

    /// All indices of nearest neighbors pairs
    fn nearest_neighbors_index_pairs(&self) -> (r: Vec<(Self::Index, Self::Index)>)
        requires
            self.wf(),
        ensures
            r@ == self.neighbor_pairs(),
    ;

    /// The indices of nearest neighbors of a given site
    fn nearest_neighbors_index(&self, idx: Self::Index) -> (r: Vec<Self::Index>)
        requires
            self.wf(),
            self.valid_index(idx),
        ensures
            r@ == self.neighbor_indices(idx),
    ;

    /// All nearest neighbors pairs, as values
    fn nearest_neighbors_pairs(&self) -> (r: Vec<(Self::Site, Self::Site)>)
        requires
            self.wf(),
        ensures
            r@.len() == self.neighbor_pairs().len(),
            forall|k: int|
                0 <= k < r@.len() ==> #[trigger] r@[k] == (
                    site_at(self, self.neighbor_pairs()[k].0),
                    site_at(self, self.neighbor_pairs()[k].1),
                ),
    ;

    /// The nearest neighbors of a given site, as values
    fn nearest_neighbors(&self, idx: Self::Index) -> (r: Vec<Self::Site>)
        requires
            self.wf(),
            self.valid_index(idx),
        ensures
            r@.len() == self.neighbor_indices(idx).len(),
            forall|k: int|
                0 <= k < r@.len() ==> #[trigger] r@[k] == site_at(
                    self,
                    self.neighbor_indices(idx)[k],
                ),
    ;
}

} // verus!

/// Lattices
pub mod lattices;
