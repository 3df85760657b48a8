//! Core of an interactive generative-art tool: a population of small
//! feed-forward function networks ("genomes") is rendered as colour grids,
//! each grid is reassembled into a 3D triangle mesh under one of four
//! stitching topologies, and a human-guided evolutionary step recombines
//! selected genomes into the next generation.
//!
//! The three verified components are the phenotype renderer (per-channel
//! two-pass normalization over fixed-point raw samples), the mesh synthesizer
//! (index-buffer generation with modular wraparound), and the population
//! evolution engine (selection, crossover orchestration, resize semantics).
//! Genome evaluation, crossover and creation are opaque capabilities of the
//! `neat` crate; randomness and crossover are reached through a small trusted
//! boundary in [`genome`].

pub mod evolution;
pub mod generator;
pub mod genome;
pub mod sculpt;
pub mod state;
