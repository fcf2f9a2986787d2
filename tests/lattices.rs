use lattice_states::states::lattices::square_lattices::{
    SquareLattice1D, SquareLattice2D, SquareLattice3D,
};
use lattice_states::states::{
    InitialStateSpec, SimpleSwapDiffusion, SiteState, SiteStateInit, SiteStateNN, UniformSites,
};
use lattice_states::utils::Timer;
use rand::rngs::StdRng;
use rand::SeedableRng;
use rand_distr::{Bernoulli, Uniform};

fn count_of<T: PartialEq>(sites: &[T], value: T) -> usize {
    sites.iter().filter(|s| **s == value).count()
}

#[test]
fn site_count_is_length_to_the_dimension() {
    let l1 = SquareLattice1D::uniform(5, 'A');
    let l2 = SquareLattice2D::uniform(5, 'A');
    let l3 = SquareLattice3D::uniform(5, 'A');
    assert_eq!(l1.site_count(), 5);
    assert_eq!(l2.site_count(), 25);
    assert_eq!(l3.site_count(), 125);
    assert_eq!(l1.sites().len(), l1.site_count());
    assert_eq!(l2.sites().len(), l2.site_count());
    assert_eq!(l3.sites().len(), l3.site_count());
    assert_eq!(l2.length(), 5);
}

#[test]
fn uniform_sets_every_site() {
    let l = SquareLattice2D::uniform(3, 'B');
    assert!(l.sites().iter().all(|s| *s == 'B'));
    let l = SquareLattice3D::uniform(2, 7u8);
    assert!(l.sites().iter().all(|s| *s == 7));
}

#[test]
fn set_uniform_after_random_sets_every_site() {
    let mut rng = StdRng::seed_from_u64(11);
    let dist = Uniform::new(0u8, 4);
    let mut l = SquareLattice2D::random(4, &dist, &mut rng);
    assert_eq!(l.site_count(), 16);
    assert!(l.sites().iter().all(|s| *s < 4));
    l.set_uniform(9);
    assert!(l.sites().iter().all(|s| *s == 9));
    let mut l1 = SquareLattice1D::random(6, &dist, &mut rng);
    l1.set_random(&Uniform::new(10u8, 12), &mut rng);
    assert!(l1.sites().iter().all(|s| *s == 10 || *s == 11));
}

#[test]
fn random_then_uniform_reset_equals_fresh_uniform() {
    let mut rng = StdRng::seed_from_u64(3);
    let dist = Uniform::new(0u8, 3);
    let mut l = SquareLattice3D::random(3, &dist, &mut rng);
    let mut spec = UniformSites(1u8);
    SiteStateInit::reset(&mut l, &mut spec);
    let fresh: SquareLattice3D<u8> = SiteStateInit::new(3, &mut UniformSites(1u8));
    assert_eq!(l.sites(), fresh.sites());
    assert_eq!(l.length(), fresh.length());
    let built: SquareLattice3D<u8> = spec.construct(3);
    assert_eq!(built.sites(), fresh.sites());
}

#[test]
fn get_and_set_use_row_major_positions() {
    let mut l = SquareLattice2D::uniform(3, 0u8);
    l.set([1, 2], 5);
    assert_eq!(l.get([1, 2]), 5);
    assert_eq!(l.sites()[5], 5);
    let mut l3 = SquareLattice3D::uniform(3, 0u8);
    l3.set([2, 0, 1], 4);
    assert_eq!(l3.sites()[19], 4);
    let mut l1 = SquareLattice1D::uniform(3, 0u8);
    l1.set(2, 8);
    assert_eq!(l1.get(2), 8);
}

#[test]
fn sampled_indices_are_in_range() {
    let mut rng = StdRng::seed_from_u64(5);
    let l = SquareLattice3D::uniform(4, 0u8);
    for _ in 0..200 {
        let idx = l.sample(&mut rng);
        assert!(idx.iter().all(|c| *c < 4));
    }
    let l1 = SquareLattice1D::uniform(7, 0u8);
    for _ in 0..200 {
        assert!(l1.sample(&mut rng) < 7);
    }
}

#[test]
fn neighbor_indices_in_axis_order() {
    let l1 = SquareLattice1D::uniform(4, 0u8);
    assert_eq!(l1.nearest_neighbors_index(0), vec![3, 1]);
    let l2 = SquareLattice2D::uniform(4, 0u8);
    assert_eq!(
        l2.nearest_neighbors_index([0, 0]),
        vec![[0, 3], [0, 1], [3, 0], [1, 0]]
    );
    let l3 = SquareLattice3D::uniform(4, 0u8);
    assert_eq!(
        l3.nearest_neighbors_index([1, 2, 3]),
        vec![[1, 2, 2], [1, 2, 0], [1, 1, 3], [1, 3, 3], [0, 2, 3], [2, 2, 3]]
    );
}

#[test]
fn neighbor_indices_count_distinct_and_repeatable() {
    let l3 = SquareLattice3D::uniform(5, 0u8);
    for idx in [[0, 0, 0], [4, 4, 4], [2, 0, 3]] {
        let first = l3.nearest_neighbors_index(idx);
        assert_eq!(first.len(), 6);
        assert!(first.iter().all(|n| *n != idx));
        assert_eq!(first, l3.nearest_neighbors_index(idx));
    }
    let l2 = SquareLattice2D::uniform(3, 0u8);
    let first = l2.nearest_neighbors_index([2, 1]);
    assert_eq!(first.len(), 4);
    assert!(first.iter().all(|n| *n != [2, 1]));
}

#[test]
fn neighbor_pairs_are_forward_edges() {
    let l2 = SquareLattice2D::uniform(3, 0u8);
    let pairs = l2.nearest_neighbors_index_pairs();
    assert_eq!(pairs.len(), 2 * l2.site_count());
    assert_eq!(pairs[0], ([0, 0], [0, 1]));
    assert_eq!(pairs[1], ([0, 0], [1, 0]));
    assert_eq!(pairs[5], ([0, 2], [1, 2]));
    for (a, b) in &pairs {
        assert!(l2.nearest_neighbors_index(*a).contains(b));
        assert!(l2.nearest_neighbors_index(*b).contains(a));
    }
    let l3 = SquareLattice3D::uniform(3, 0u8);
    let pairs = l3.nearest_neighbors_index_pairs();
    assert_eq!(pairs.len(), 3 * 27);
    assert_eq!(pairs[2], ([0, 0, 0], [1, 0, 0]));
    for (a, b) in &pairs {
        assert!(l3.nearest_neighbors_index(*a).contains(b));
        assert!(l3.nearest_neighbors_index(*b).contains(a));
    }
    let l1 = SquareLattice1D::uniform(4, 0u8);
    assert_eq!(
        l1.nearest_neighbors_index_pairs(),
        vec![(0, 1), (1, 2), (2, 3), (3, 0)]
    );
}

#[test]
fn length_two_gives_each_edge_twice() {
    let l1 = SquareLattice1D::uniform(2, 0u8);
    assert_eq!(l1.nearest_neighbors_index_pairs(), vec![(0, 1), (1, 0)]);
    assert_eq!(l1.nearest_neighbors_index(0), vec![1, 1]);
}

#[test]
fn length_one_is_self_adjacent() {
    let l1 = SquareLattice1D::uniform(1, 'x');
    assert_eq!(l1.nearest_neighbors_index(0), vec![0, 0]);
    assert_eq!(l1.nearest_neighbors_index_pairs(), vec![(0, 0)]);
    let l2 = SquareLattice2D::uniform(1, 'x');
    assert_eq!(l2.nearest_neighbors_index([0, 0]), vec![[0, 0]; 4]);
    assert_eq!(l2.nearest_neighbors_index_pairs(), vec![([0, 0], [0, 0]); 2]);
    let l3 = SquareLattice3D::uniform(1, 'x');
    assert_eq!(l3.nearest_neighbors_index([0, 0, 0]), vec![[0, 0, 0]; 6]);
    assert_eq!(
        l3.nearest_neighbors_index_pairs(),
        vec![([0, 0, 0], [0, 0, 0]); 3]
    );
    assert_eq!(l3.nearest_neighbors([0, 0, 0]), vec!['x'; 6]);
}

#[test]
fn neighbor_values_follow_indices() {
    let mut l2 = SquareLattice2D::uniform(3, 0u8);
    l2.set([0, 1], 1);
    l2.set([1, 0], 2);
    l2.set([0, 2], 3);
    l2.set([2, 0], 4);
    assert_eq!(l2.nearest_neighbors([0, 0]), vec![3, 1, 4, 2]);
    let pairs = l2.nearest_neighbors_pairs();
    assert_eq!(pairs.len(), 18);
    assert_eq!(pairs[0], (0, 1));
    assert_eq!(pairs[1], (0, 2));
    let mut l1 = SquareLattice1D::uniform(3, 0u8);
    l1.set(1, 6);
    assert_eq!(l1.nearest_neighbors(0), vec![0, 6]);
    assert_eq!(l1.nearest_neighbors_pairs(), vec![(0, 6), (6, 0), (0, 0)]);
    let mut l3 = SquareLattice3D::uniform(2, 0u8);
    l3.set([0, 0, 1], 1);
    l3.set([0, 1, 0], 2);
    l3.set([1, 0, 0], 3);
    assert_eq!(&l3.nearest_neighbors_pairs()[0..3], &[(0, 1), (0, 2), (0, 3)]);
}

#[test]
fn swap_forward_exchanges_neighbours() {
    let mut l1 = SquareLattice1D::uniform(3, 'B');
    l1.set(2, 'A');
    l1.swap_forward(2);
    assert_eq!(l1.sites(), &['A', 'B', 'B']);
    let mut l2 = SquareLattice2D::uniform(4, 'B');
    l2.set([3, 1], 'A');
    l2.swap_forward([3, 1], 1);
    assert_eq!(l2.get([0, 1]), 'A');
    assert_eq!(l2.get([3, 1]), 'B');
    l2.swap_forward([0, 1], 0);
    assert_eq!(l2.get([0, 2]), 'A');
    let mut l3 = SquareLattice3D::uniform(2, 'B');
    l3.set([0, 0, 0], 'A');
    l3.swap_forward([0, 0, 0], 1);
    assert_eq!(l3.get([0, 1, 0]), 'A');
    assert_eq!(count_of(l3.sites(), 'A'), 1);
}

#[test]
fn diffusion_conserves_composition() {
    let mut rng = StdRng::seed_from_u64(42);
    let dist = Bernoulli::new(0.3).unwrap();
    let coin = Bernoulli::new(0.5).unwrap();
    let mut l2 = SquareLattice2D::random(6, &dist, &mut rng);
    let trues = count_of(l2.sites(), true);
    for _ in 0..20 {
        l2.diffuse(coin, &mut rng);
        assert_eq!(count_of(l2.sites(), true), trues);
    }
    let mut l1 = SquareLattice1D::random(9, &dist, &mut rng);
    let trues = count_of(l1.sites(), true);
    let mut l3 = SquareLattice3D::random(3, &dist, &mut rng);
    let trues3 = count_of(l3.sites(), true);
    for _ in 0..10 {
        l1.diffuse(coin, &mut rng);
        l3.diffuse(coin, &mut rng);
    }
    assert_eq!(count_of(l1.sites(), true), trues);
    assert_eq!(count_of(l3.sites(), true), trues3);
    assert_eq!(l3.site_count(), 27);
}

#[test]
fn diffusion_sweep_with_certain_coin_moves_sites() {
    let mut rng = StdRng::seed_from_u64(2024);
    let coin = Bernoulli::new(1.0).unwrap();
    let mut l = SquareLattice2D::uniform(4, 'B');
    for i in 0..4 {
        l.set([i, 0], 'A');
        l.set([i, 1], 'A');
    }
    let before: Vec<char> = l.sites().to_vec();
    l.diffuse(coin, &mut rng);
    assert_eq!(count_of(l.sites(), 'A'), 8);
    assert_eq!(count_of(l.sites(), 'B'), 8);
    assert_ne!(l.sites(), before.as_slice());
}

#[test]
fn diffusion_with_impossible_coin_changes_nothing() {
    let mut rng = StdRng::seed_from_u64(8);
    let coin = Bernoulli::new(0.0).unwrap();
    let mut l = SquareLattice3D::uniform(3, 'B');
    l.set([1, 1, 1], 'A');
    let before: Vec<char> = l.sites().to_vec();
    l.diffuse(coin, &mut rng);
    assert_eq!(l.sites(), before.as_slice());
}

#[test]
fn sites_mut_writes_through() {
    let mut l = SquareLattice1D::uniform(3, 0u8);
    l.sites_mut()[1] = 4;
    assert_eq!(l.get(1), 4);
    l.fill(2);
    assert!(l.sites().iter().all(|s| *s == 2));
}

#[test]
fn timer_keeps_its_description() {
    let mut t = Timer::new("sweep");
    assert_eq!(t.description(), "sweep");
    t.start();
    let d = t.read();
    assert!(d.as_secs() < 60);
}

#[test]
fn strip_is_centered_on_its_midpoint() {
    let mut l = SquareLattice1D::uniform(5, '.');
    l.set(0, 'a');
    l.set(4, 'e');
    assert_eq!(l.centered_chars(), vec!['.', 'e', 'a', '.', '.']);
    let mut l4 = SquareLattice1D::uniform(4, '.');
    l4.set(0, 'a');
    assert_eq!(l4.centered_chars(), vec!['.', '.', 'a', '.']);
}

#[test]
fn grid_rows_are_centered_on_the_midpoint() {
    let mut l = SquareLattice2D::uniform(3, '.');
    l.set([0, 0], 'a');
    l.set([2, 2], 'z');
    let rows = l.centered_rows();
    assert_eq!(rows.len(), 3);
    assert_eq!(rows[0], vec!['.', '.', '.']);
    assert_eq!(rows[1], vec!['.', 'z', '.']);
    assert_eq!(rows[2], vec!['.', '.', 'a']);
}

#[test]
fn set_random_matches_random_with_same_seed() {
    let dist = Uniform::new(0u8, 50);
    let mut r1 = StdRng::seed_from_u64(99);
    let mut r2 = StdRng::seed_from_u64(99);
    let fresh = SquareLattice2D::random(4, &dist, &mut r1);
    let mut l = SquareLattice2D::uniform(4, 0u8);
    l.set_random(&dist, &mut r2);
    assert_eq!(l.sites(), fresh.sites());
    let mut r3 = StdRng::seed_from_u64(5);
    let mut r4 = StdRng::seed_from_u64(5);
    let fresh1 = SquareLattice1D::random(7, &dist, &mut r3);
    let mut l1 = SquareLattice1D::uniform(7, 0u8);
    l1.set_random(&dist, &mut r4);
    assert_eq!(l1.sites(), fresh1.sites());
}

#[test]
fn fill_from_writes_draws_in_order() {
    let mut l = SquareLattice2D::uniform(2, 0u8);
    l.fill_from(vec![1, 2, 3, 4]);
    assert_eq!(l.get([0, 1]), 2);
    assert_eq!(l.get([1, 0]), 3);
}

#[test]
fn propose_swaps_only_when_accepted() {
    let mut l = SquareLattice2D::uniform(3, 'B');
    l.set([0, 2], 'A');
    l.propose([0, 2], 0, false);
    assert_eq!(l.get([0, 2]), 'A');
    l.propose([0, 2], 0, true);
    assert_eq!(l.get([0, 0]), 'A');
    assert_eq!(l.get([0, 2]), 'B');
    let mut l1 = SquareLattice1D::uniform(4, 'B');
    l1.set(3, 'A');
    l1.propose(3, true);
    assert_eq!(l1.sites(), &['A', 'B', 'B', 'B']);
    let mut l3 = SquareLattice3D::uniform(2, 'B');
    l3.set([1, 0, 0], 'A');
    l3.propose([1, 0, 0], 2, true);
    assert_eq!(l3.get([0, 0, 0]), 'A');
    l3.propose([0, 0, 0], 0, false);
    assert_eq!(l3.get([0, 0, 0]), 'A');
}

#[test]
fn shape_check_rejects_empty_and_oversized_lattices() {
    assert!(!SquareLattice1D::<u8>::is_valid_shape(0));
    assert!(SquareLattice1D::<u8>::is_valid_shape(1));
    assert!(SquareLattice2D::<u8>::is_valid_shape(4));
    assert!(!SquareLattice2D::<u8>::is_valid_shape(usize::MAX));
    assert!(!SquareLattice3D::<u8>::is_valid_shape(0));
    assert!(SquareLattice3D::<u8>::is_valid_shape(1000));
    assert!(!SquareLattice3D::<u8>::is_valid_shape(1 << 22));
}
