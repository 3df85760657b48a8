//! Population state: the genome and fitness vectors, the generation
//! counter, the grid dimension, and the edge-triggered request flags that
//! the UI collaborator sets and the engine clears.

use vstd::prelude::*;

verus! {

use crate::genome::Genome;

/// The topological rule that turns the 2D sample grid into a triangle mesh:
/// whether quad emission wraps around in x, in y, and whether the open rims
/// are capped with degenerate fans.
#[derive(Clone, Copy, Debug, PartialEq, Eq, Structural)]
pub enum StitchingType {
    Plane,
    Sphere,
    Cylinder,
    Torus,
}

impl Default for StitchingType {
    fn default() -> (mode: Self)
        ensures
            mode == StitchingType::Plane,
    {
        StitchingType::Plane
    }
}

/// Every slot of a fitness vector is zero.
pub open spec fn all_zero(fitness: Seq<u32>) -> bool {
    forall|i: int| 0 <= i < fitness.len() ==> fitness[i] == 0
}

/// How many fresh genomes a resize from `current` individuals to `target`
/// individuals must append: none when it shrinks or stands still.
pub open spec fn grow_amount(current: int, target: int) -> int {
    if target > current {
        target - current
    } else {
        0
    }
}

pub(crate) fn zero_fitness(n: usize) -> (fitness: Vec<u32>)
    ensures
        fitness@.len() == n,
        all_zero(fitness@),
{
    let mut fitness: Vec<u32> = Vec::new();
    let mut i: usize = 0;
    while i < n
        invariant
            i <= n,
            fitness@.len() == i,
            all_zero(fitness@),
        decreases n - i,
    {
        fitness.push(0);
        i += 1;
    }
    fitness
}

/// The population and the per-frame control state of the evolution engine.
///
/// The well-formedness invariant [`EvoState::wf`] ties the three together:
/// the population always holds exactly `grid_size * grid_size` genomes and
/// one fitness slot per genome. A fitness value is an integer selection
/// score; a strictly positive score marks the genome as a champion.
pub struct EvoState {
    pub genomes: Vec<Genome>,
    pub fitness: Vec<u32>,
    pub generation: u64,
    pub evolution_requested: bool,
    pub debug_requested: bool,
    pub stitching_type: StitchingType,
    pub redraw_requested: bool,
    pub grid_size: usize,
    pub grid_spawn_requested: bool,
}

impl EvoState {
    /// Population invariant: a square grid of genomes, one fitness slot per
    /// genome.
    pub open spec fn wf(self) -> bool {
        &&& 1 <= self.grid_size
        &&& self.genomes@.len() == self.grid_size * self.grid_size
        &&& self.fitness@.len() == self.genomes@.len()
    }

    /// Builds the startup state around an externally created population:
    /// fitness all zero, generation zero, no pending requests, and both
    /// redraw and grid-spawn signalled so the collaborator renders the new
    /// population.
    pub fn new(grid_size: usize, genomes: Vec<Genome>) -> (state: Self)
        requires
            1 <= grid_size,
            genomes@.len() == grid_size * grid_size,
        ensures
            state.wf(),
            state.grid_size == grid_size,
            state.genomes@ == genomes@,
            state.fitness@.len() == genomes@.len(),
            all_zero(state.fitness@),
            state.generation == 0,
            !state.evolution_requested,
            !state.debug_requested,
            state.stitching_type == StitchingType::Plane,
            state.redraw_requested,
            state.grid_spawn_requested,
    {
        let n = genomes.len();
        EvoState {
            genomes,
            fitness: zero_fitness(n),
            generation: 0,
            evolution_requested: false,
            debug_requested: false,
            stitching_type: StitchingType::Plane,
            redraw_requested: true,
            grid_size,
            grid_spawn_requested: true,
        }
    }

    /// The population size is the square of the grid dimension.
    pub fn get_population_size(&self) -> (n: usize)
        requires
            self.wf(),
        ensures
            n == self.grid_size * self.grid_size,
    {
        let n = self.genomes.len();
        assert(self.grid_size * self.grid_size == n);
        self.grid_size * self.grid_size
    }

    /// Sets the selection score of one genome. A stale index (at or beyond
    /// the current population) is a silent no-op: a click may race with a
    /// shrink, and must never fail.
    pub fn set_fitness(&mut self, index: usize, value: u32)
        ensures
            index < old(self).fitness@.len() ==> final(self).fitness@ == old(
                self,
            ).fitness@.update(index as int, value),
            index >= old(self).fitness@.len() ==> *final(self) == *old(self),
            final(self).genomes == old(self).genomes,
            final(self).generation == old(self).generation,
            final(self).evolution_requested == old(self).evolution_requested,
            final(self).debug_requested == old(self).debug_requested,
            final(self).stitching_type == old(self).stitching_type,
            final(self).redraw_requested == old(self).redraw_requested,
            final(self).grid_size == old(self).grid_size,
            final(self).grid_spawn_requested == old(self).grid_spawn_requested,
    {
        if index < self.fitness.len() {
            self.fitness.set(index, value);
        }
    }

    /// Changes the grid dimension. Growing appends the supplied fresh
    /// genomes (each slot starting at fitness zero) after the untouched
    /// existing population; shrinking truncates both vectors, discarding
    /// the tail for good. A resize to the current dimension does nothing.
    /// The generation counter is never affected.
    pub fn resize_grid(&mut self, new_size: usize, fresh: Vec<Genome>)
        requires
            old(self).wf(),
            1 <= new_size,
            new_size * new_size <= usize::MAX,
            fresh@.len() == grow_amount(
                old(self).genomes@.len() as int,
                (new_size * new_size) as int,
            ),
        ensures
            final(self).wf(),
            new_size == old(self).grid_size ==> *final(self) == *old(self),
            new_size != old(self).grid_size ==> {
                let target = new_size * new_size;
                &&& final(self).grid_size == new_size
                &&& final(self).grid_spawn_requested
                &&& target >= old(self).genomes@.len() ==> {
                    &&& final(self).genomes@ == old(self).genomes@ + fresh@
                    &&& final(self).fitness@.len() == target
                    &&& final(self).fitness@.take(old(self).fitness@.len() as int) == old(
                        self,
                    ).fitness@
                    &&& forall|i: int|
                        old(self).fitness@.len() <= i < target ==> final(self).fitness@[i] == 0
                }
                &&& target < old(self).genomes@.len() ==> {
                    &&& final(self).genomes@ == old(self).genomes@.take(target as int)
                    &&& final(self).fitness@ == old(self).fitness@.take(target as int)
                }
            },
            final(self).generation == old(self).generation,
            final(self).evolution_requested == old(self).evolution_requested,
            final(self).debug_requested == old(self).debug_requested,
            final(self).stitching_type == old(self).stitching_type,
            final(self).redraw_requested == old(self).redraw_requested,
    {
        if self.grid_size == new_size {
            return ;
        }
        self.grid_size = new_size;
        let target = new_size * new_size;
        if self.genomes.len() < target {
            let mut fresh = fresh;
            self.genomes.append(&mut fresh);
            let mut zeros = zero_fitness(target - self.fitness.len());
            self.fitness.append(&mut zeros);
            proof {
                assert(self.fitness@.take(old(self).fitness@.len() as int) =~= old(self).fitness@);
            }
        } else {
            self.genomes.truncate(target);
            self.fitness.truncate(target);
            proof {
                if target >= old(self).genomes@.len() {
                    assert(self.genomes@ =~= old(self).genomes@ + fresh@);
                    assert(self.fitness@.take(old(self).fitness@.len() as int) =~= old(
                        self,
                    ).fitness@);
                }
            }
        }
        self.grid_spawn_requested = true;
    }

    /// Reinitializes the population at the current grid dimension, exactly
    /// as at startup: the supplied fresh genomes replace every slot,
    /// fitness and the generation counter return to zero, and the
    /// stitching mode returns to its default.
    pub fn reset(&mut self, fresh: Vec<Genome>)
        requires
            old(self).wf(),
            fresh@.len() == old(self).grid_size * old(self).grid_size,
        ensures
            final(self).wf(),
            final(self).grid_size == old(self).grid_size,
            final(self).genomes@ == fresh@,
            final(self).fitness@.len() == fresh@.len(),
            all_zero(final(self).fitness@),
            final(self).generation == 0,
            !final(self).evolution_requested,
            !final(self).debug_requested,
            final(self).stitching_type == StitchingType::Plane,
            final(self).redraw_requested,
            final(self).grid_spawn_requested,
    {
        let size = self.grid_size;
        *self = EvoState::new(size, fresh);
    }
}

} // verus!
