//! The evolution step: selection of champion parents, crossover
//! orchestration, and the wholesale replacement of one generation by the
//! next.

use vstd::prelude::*;

verus! {

use crate::genome::{crossover_genomes, rand_below, Genome};
use crate::state::{all_zero, zero_fitness, EvoState};

/// Some genome of the population carries a strictly positive score.
pub open spec fn has_champion(fitness: Seq<u32>) -> bool {
    exists|i: int| 0 <= i < fitness.len() && fitness[i] > 0
}

/// `pool` lists exactly the champion indices of `fitness`, in increasing
/// order: every listed index is a champion, every champion is listed, and
/// the listing is strictly sorted (so no index repeats).
pub open spec fn is_champion_list(fitness: Seq<u32>, pool: Seq<usize>) -> bool {
    &&& forall|j: int|
        0 <= j < pool.len() ==> (#[trigger] pool[j]) < fitness.len() && fitness[pool[j] as int] > 0
    &&& forall|i: int|
        0 <= i < fitness.len() && #[trigger] fitness[i] > 0 ==> pool.contains(i as usize)
    &&& forall|j: int|
        0 <= j && j + 1 < pool.len() ==> #[trigger] pool[j] < #[trigger] pool[j + 1]
}

/// `pool` lists every index of `fitness` in order: the fallback parent
/// pool when no genome was selected, preserving the whole population's
/// diversity rather than reseeding.
pub open spec fn is_full_list(fitness: Seq<u32>, pool: Seq<usize>) -> bool {
    &&& pool.len() == fitness.len()
    &&& forall|j: int| 0 <= j < pool.len() ==> pool[j] == j
}

/// Selects the reproduction pool for the next generation: the champions
/// (strictly positive fitness) when there are any, the entire population
/// otherwise.
pub fn parent_pool(fitness: &Vec<u32>) -> (pool: Vec<usize>)
    ensures
        has_champion(fitness@) ==> is_champion_list(fitness@, pool@),
        !has_champion(fitness@) ==> is_full_list(fitness@, pool@),
        fitness@.len() >= 1 ==> pool@.len() >= 1,
        forall|j: int| 0 <= j < pool@.len() ==> (#[trigger] pool@[j]) < fitness@.len(),
{
    let mut pool: Vec<usize> = Vec::new();
    let mut i: usize = 0;
    while i < fitness.len()
        invariant
            i <= fitness.len(),
            forall|j: int|
                0 <= j < pool@.len() ==> (#[trigger] pool@[j]) < i && fitness@[pool@[j] as int]
                    > 0,
            forall|k: int|
                0 <= k < i && #[trigger] fitness@[k] > 0 ==> pool@.contains(k as usize),
            forall|j: int|
                0 <= j && j + 1 < pool@.len() ==> #[trigger] pool@[j] < #[trigger] pool@[j + 1],
        decreases fitness.len() - i,
    {
        if fitness[i] > 0 {
            let ghost prev = pool@;
            pool.push(i);
            proof {
                assert(pool@[prev.len() as int] == i);
                assert forall|j: int| 0 <= j && j + 1 < pool@.len() implies #[trigger] pool@[j]
                    < #[trigger] pool@[j + 1] by {
                    if j + 1 < prev.len() {
                        assert(pool@[j] == prev[j] && pool@[j + 1] == prev[j + 1]);
                    } else {
                        assert(pool@[j] == prev[j] && pool@[j + 1] == i);
                    }
                }
                assert forall|k: int|
                    0 <= k < i + 1 && #[trigger] fitness@[k] > 0 implies pool@.contains(
                    k as usize,
                ) by {
                    if k < i {
                        let j = choose|j: int| 0 <= j < prev.len() && prev[j] == k as usize;
                        assert(pool@[j] == k as usize);
                    } else {
                        assert(pool@[prev.len() as int] == k as usize);
                    }
                }
            }
        }
        i += 1;
    }
    if pool.len() == 0 {
        assert(!has_champion(fitness@));
        let mut k: usize = 0;
        while k < fitness.len()
            invariant
                k <= fitness.len(),
                pool@.len() == k,
                forall|j: int| 0 <= j < pool@.len() ==> pool@[j] == j,
            decreases fitness.len() - k,
        {
            pool.push(k);
            k += 1;
        }
    } else {
        assert(has_champion(fitness@)) by {
            assert(fitness@[pool@[0] as int] > 0);
        }
    }
    pool
}

/// Services a pending evolution request. When `evolution_requested` is
/// set, the entire population is replaced by crossover children of parents
/// drawn (independently, uniformly, with replacement) from the parent
/// pool, fitness returns to all-zero, the generation counter rises by
/// exactly one, the request flag clears, and a redraw is signalled. When
/// no request is pending the state is left untouched.
pub fn evolve_system(state: &mut EvoState)
    requires
        old(state).wf(),
        old(state).generation < u64::MAX,
    ensures
        final(state).wf(),
        !old(state).evolution_requested ==> *final(state) == *old(state),
        old(state).evolution_requested ==> {
            &&& final(state).genomes@.len() == old(state).genomes@.len()
            &&& final(state).fitness@.len() == old(state).fitness@.len()
            &&& all_zero(final(state).fitness@)
            &&& final(state).generation == old(state).generation + 1
            &&& !final(state).evolution_requested
            &&& final(state).redraw_requested
            &&& final(state).debug_requested == old(state).debug_requested
            &&& final(state).stitching_type == old(state).stitching_type
            &&& final(state).grid_size == old(state).grid_size
            &&& final(state).grid_spawn_requested == old(state).grid_spawn_requested
        },
{
    if !state.evolution_requested {
        return ;
    }
    proof {
        let g = old(state).grid_size as int;
        assert(g * g >= 1) by (nonlinear_arith)
            requires
                g >= 1,
        ;
    }
    let pool = parent_pool(&state.fitness);
    let n = state.genomes.len();
    let mut next_generation: Vec<Genome> = Vec::new();
    while next_generation.len() < n
        invariant
            state == old(state),
            state.wf(),
            next_generation@.len() <= n,
            n == state.genomes@.len(),
            pool@.len() >= 1,
            forall|j: int|
                0 <= j < pool@.len() ==> (#[trigger] pool@[j]) < state.fitness@.len(),
        decreases n - next_generation@.len(),
    {
        let p1 = pool[rand_below(pool.len())];
        let p2 = pool[rand_below(pool.len())];
        let child = crossover_genomes(&state.genomes[p1], &state.genomes[p2]);
        next_generation.push(child);
    }
    state.genomes = next_generation;
    state.fitness = zero_fitness(n);
    state.generation = state.generation + 1;
    state.evolution_requested = false;
    state.redraw_requested = true;
}

} // verus!
