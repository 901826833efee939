//! A ready-made configuration for the classic all-ones problem: the
//! fitness of a fixed-length binary chromosome is its number of set bits.

use vstd::prelude::*;

use crate::binary::{weight, BinaryBitMutation, BinaryChromosome, BinaryNPointBitCrossover};
use crate::{ChromosomeFactory, EvolutionConfig, Mutation, Recombination};

verus! {

/// An evolution configuration producing random binary chromosomes of one
/// fixed length and rewarding set bits.
pub struct MaxOnesConfig {
    size: usize,
    mutation: BinaryBitMutation,
    recombination: BinaryNPointBitCrossover,
}

impl MaxOnesConfig {
    /// The fitness (a bit count) must fit its integer type, and drawing a
    /// crossover point needs strictly interior positions to pick from.
    #[verifier::type_invariant]
    spec fn inv(self) -> bool {
        &&& self.size <= i64::MAX
        &&& self.recombination.spec_n() > 0 ==> self.size >= 2
    }

    /// The chromosome length this configuration works with.
    pub closed spec fn spec_size(&self) -> usize {
        self.size
    }

    /// The mutation operator this configuration applies.
    pub closed spec fn spec_mutation(&self) -> BinaryBitMutation {
        self.mutation
    }

    /// The recombination operator this configuration applies.
    pub closed spec fn spec_recombination(&self) -> BinaryNPointBitCrossover {
        self.recombination
    }

    pub fn new(
        size: usize,
        mutation: BinaryBitMutation,
        recombination: BinaryNPointBitCrossover,
    ) -> (config: Self)
        requires
            size <= i64::MAX,
            recombination.spec_n() > 0 ==> size >= 2,
        ensures
            config.spec_size() == size,
            config.spec_mutation() == mutation,
            config.spec_recombination() == recombination,
    {
        MaxOnesConfig { size, mutation, recombination }
    }
}

impl ChromosomeFactory<BinaryChromosome> for MaxOnesConfig {
    /// Exactly the chromosomes of the configured length.
    open spec fn valid(&self, c: Seq<bool>) -> bool {
        c.len() == self.spec_size()
    }

    fn create(&self) -> (c: BinaryChromosome) {
        BinaryChromosome::new(self.size)
    }
}

impl EvolutionConfig<BinaryChromosome> for MaxOnesConfig {
    /// The number of set bits, saturated at the greatest representable
    /// fitness (a chromosome of the configured length never reaches it).
    open spec fn fitness_spec(&self, c: Seq<bool>) -> i64 {
        if weight(c) > i64::MAX {
            i64::MAX
        } else {
            weight(c) as i64
        }
    }

    fn mutate(&self, target: &mut BinaryChromosome) {
        self.mutation.mutate(target);
    }

    fn recombine(&self, parent1: &BinaryChromosome, parent2: &BinaryChromosome) -> (child:
        BinaryChromosome) {
        proof {
            use_type_invariant(self);
        }
        self.recombination.recombine(parent1, parent2)
    }

    fn evaluate(&self, subject: &BinaryChromosome) -> (fitness: i64) {
        proof {
            crate::binary::lemma_weight_bounds(subject@);
        }
        let n = subject.count_ones();
        let wide = n as u64;
        if wide <= i64::MAX as u64 {
            wide as i64
        } else {
            i64::MAX
        }
    }
}

} // verus!
