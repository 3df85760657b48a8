//! The genome type and the trusted boundary to the `neat` crate.
//!
//! A genome is an opaque `neat::NeuralNetworkTopology<3, 3>`: a small
//! feed-forward network with three inputs and three outputs. The library
//! never looks inside one; it owns them, hands references to the crossover
//! capability, and moves them between generations. Evaluating a genome over
//! a coordinate grid is floating-point work and happens outside the library;
//! the renderer takes the resulting raw samples as plain values.

use vstd::prelude::*;

verus! {

#[verifier::external_type_specification]
#[verifier::external_body]
pub struct ExNeuralNetworkTopology<const I: usize, const O: usize>(
    neat::NeuralNetworkTopology<I, O>,
);

/// An individual of the population: a 3-input / 3-output network topology.
pub type Genome = neat::NeuralNetworkTopology<3, 3>;

/// Relies on `neat::topology::NeuralNetworkTopology::crossover`
/// (the `CrossoverReproduction` impl): it recombines the two parents into a
/// child network, drawing from thread-local randomness. Nothing is promised
/// of the child's value; callers treat it as an arbitrary genome.
#[verifier::external_body]
pub(crate) fn crossover_genomes(a: &Genome, b: &Genome) -> Genome {
    neat::CrossoverReproduction::crossover(a, b, &mut neat::rand::thread_rng())
}

/// Relies on `rand::Rng::gen_range` (reached through `neat::rand`): it
/// returns a value drawn from the half-open range `0..n`, which is non-empty
/// because `n >= 1`; on an empty range it would panic.
#[verifier::external_body]
pub(crate) fn rand_below(n: usize) -> (r: usize)
    requires
        n >= 1,
    ensures
        r < n,
{
    neat::rand::Rng::gen_range(&mut neat::rand::thread_rng(), 0..n)
}

} // verus!
