use evo_sculptor::evolution::{evolve_system, parent_pool};
use evo_sculptor::genome::Genome;
use evo_sculptor::state::{EvoState, StitchingType};

fn make_genomes(n: usize) -> Vec<Genome> {
    let mut rng = neat::rand::thread_rng();
    let mut genomes = Vec::new();
    for _ in 0..n {
        genomes.push(neat::NeuralNetworkTopology::new(0.2, 3, &mut rng));
    }
    genomes
}

fn fresh_state(grid: usize) -> EvoState {
    EvoState::new(grid, make_genomes(grid * grid))
}

#[test]
fn population_invariant_holds_after_every_operation() {
    let mut state = fresh_state(4);
    assert_eq!(state.genomes.len(), state.fitness.len());
    assert_eq!(state.genomes.len(), 16);

    state.resize_grid(5, make_genomes(25 - 16));
    assert_eq!(state.genomes.len(), state.fitness.len());
    assert_eq!(state.genomes.len(), 25);

    state.evolution_requested = true;
    evolve_system(&mut state);
    assert_eq!(state.genomes.len(), state.fitness.len());
    assert_eq!(state.genomes.len(), 25);

    state.resize_grid(2, Vec::new());
    assert_eq!(state.genomes.len(), state.fitness.len());
    assert_eq!(state.genomes.len(), 4);

    state.reset(make_genomes(4));
    assert_eq!(state.genomes.len(), state.fitness.len());
    assert_eq!(state.genomes.len(), 4);
}

#[test]
fn evolve_without_champions() {
    let mut state = fresh_state(3);
    assert_eq!(state.genomes.len(), 9);
    assert!(state.fitness.iter().all(|&f| f == 0));
    state.evolution_requested = true;
    evolve_system(&mut state);
    assert_eq!(state.generation, 1);
    assert_eq!(state.genomes.len(), 9);
    assert_eq!(state.fitness.len(), 9);
    assert!(state.fitness.iter().all(|&f| f == 0));
    assert!(!state.evolution_requested);
    assert!(state.redraw_requested);
}

#[test]
fn evolve_with_champions() {
    let mut state = fresh_state(2);
    state.set_fitness(1, 1);
    state.set_fitness(3, 1);
    assert_eq!(state.fitness, vec![0, 1, 0, 1]);
    let pool = parent_pool(&state.fitness);
    assert_eq!(pool, vec![1, 3]);
    state.evolution_requested = true;
    evolve_system(&mut state);
    assert_eq!(state.generation, 1);
    assert_eq!(state.genomes.len(), 4);
    assert!(state.fitness.iter().all(|&f| f == 0));
    assert!(!state.evolution_requested);
}

#[test]
fn evolve_does_nothing_without_a_request() {
    let mut state = fresh_state(2);
    state.set_fitness(0, 1);
    evolve_system(&mut state);
    assert_eq!(state.generation, 0);
    assert_eq!(state.fitness, vec![1, 0, 0, 0]);
}

#[test]
fn parent_pool_falls_back_to_whole_population() {
    assert_eq!(parent_pool(&vec![0, 0, 0]), vec![0, 1, 2]);
    assert_eq!(parent_pool(&vec![0, 2, 0, 1, 0]), vec![1, 3]);
    assert_eq!(parent_pool(&vec![7]), vec![0]);
}

#[test]
fn resize_up_preserves_prefix_and_zeroes_new_slots() {
    let mut state = fresh_state(4);
    for i in 0..16 {
        state.set_fitness(i, (i + 1) as u32);
    }
    state.resize_grid(5, make_genomes(9));
    assert_eq!(state.grid_size, 5);
    assert_eq!(state.genomes.len(), 25);
    assert_eq!(state.fitness.len(), 25);
    for i in 0..16 {
        assert_eq!(state.fitness[i], (i + 1) as u32);
    }
    for i in 16..25 {
        assert_eq!(state.fitness[i], 0);
    }
    assert!(state.grid_spawn_requested);
}

#[test]
fn resize_down_truncates_and_preserves_the_head() {
    let mut state = fresh_state(5);
    for i in 0..25 {
        state.set_fitness(i, (i + 1) as u32);
    }
    state.resize_grid(3, Vec::new());
    assert_eq!(state.grid_size, 3);
    assert_eq!(state.genomes.len(), 9);
    assert_eq!(state.fitness.len(), 9);
    for i in 0..9 {
        assert_eq!(state.fitness[i], (i + 1) as u32);
    }
}

#[test]
fn resize_to_same_size_is_a_no_op() {
    let mut state = fresh_state(3);
    state.grid_spawn_requested = false;
    state.set_fitness(2, 9);
    state.resize_grid(3, Vec::new());
    assert_eq!(state.grid_size, 3);
    assert_eq!(state.genomes.len(), 9);
    assert_eq!(state.fitness[2], 9);
    assert!(!state.grid_spawn_requested);
}

#[test]
fn set_fitness_out_of_bounds_is_a_silent_no_op() {
    let mut state = fresh_state(4);
    state.set_fitness(100, 1);
    assert_eq!(state.fitness.len(), 16);
    assert!(state.fitness.iter().all(|&f| f == 0));
}

#[test]
fn reset_reinitializes_at_the_current_grid_size() {
    let mut state = fresh_state(3);
    state.set_fitness(0, 1);
    state.evolution_requested = true;
    evolve_system(&mut state);
    state.stitching_type = StitchingType::Torus;
    assert_eq!(state.generation, 1);

    state.reset(make_genomes(9));
    assert_eq!(state.grid_size, 3);
    assert_eq!(state.generation, 0);
    assert_eq!(state.genomes.len(), 9);
    assert!(state.fitness.iter().all(|&f| f == 0));
    assert_eq!(state.stitching_type, StitchingType::Plane);
    assert!(state.redraw_requested);
    assert!(state.grid_spawn_requested);
}

#[test]
fn population_size_is_the_grid_squared() {
    let state = fresh_state(4);
    assert_eq!(state.get_population_size(), 16);
}

#[test]
fn generation_counts_one_per_serviced_request() {
    let mut state = fresh_state(2);
    for expected in 1..=3u64 {
        state.evolution_requested = true;
        evolve_system(&mut state);
        assert_eq!(state.generation, expected);
    }
}
