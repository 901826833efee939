//! Tournament selection: uniform random sampling plus best-of-group.

use vstd::prelude::*;

use crate::rng::rand_below;
use crate::{Chromosome, Individual, IndividualModel, Population, SelectionFactory, Selector};

verus! {

/// Whether fitness `a` strictly improves on fitness `b`.  An unknown
/// fitness never improves on anything, and any known fitness improves on
/// an unknown one.
pub open spec fn spec_fitness_improves(a: Option<i64>, b: Option<i64>) -> bool {
    match (a, b) {
        (Some(x), Some(y)) => x > y,
        (Some(_), None) => true,
        _ => false,
    }
}

fn fitness_improves(a: Option<i64>, b: Option<i64>) -> (r: bool)
    ensures
        r == spec_fitness_improves(a, b),
{
    match (a, b) {
        (Some(x), Some(y)) => x > y,
        (Some(_), None) => true,
        _ => false,
    }
}

/// Whether `samples` is a list of `group` positions into `pool`.
pub open spec fn valid_samples<V>(
    pool: Seq<IndividualModel<V>>,
    samples: Seq<int>,
    group: int,
) -> bool {
    &&& samples.len() == group
    &&& forall|j: int| 0 <= j < samples.len() ==> 0 <= #[trigger] samples[j] < pool.len()
}

/// The position a tournament over the sampled positions chooses: the
/// first sample, replaced by a later one only when that one's fitness
/// strictly improves on the current best's.
pub open spec fn tournament_winner<V>(pool: Seq<IndividualModel<V>>, samples: Seq<int>) -> int
    decreases samples.len(),
{
    if samples.len() <= 1 {
        samples[0]
    } else {
        let w = tournament_winner(pool, samples.drop_last());
        if spec_fitness_improves(pool[samples.last()].fitness, pool[w].fitness) {
            samples.last()
        } else {
            w
        }
    }
}

/// The tournament winner is one of the samples, and no sampled
/// individual's fitness strictly improves on the winner's: the winner is
/// a best of its group.
pub proof fn lemma_winner_is_best<V>(pool: Seq<IndividualModel<V>>, samples: Seq<int>)
    requires
        samples.len() >= 1,
        forall|j: int| 0 <= j < samples.len() ==> 0 <= #[trigger] samples[j] < pool.len(),
    ensures
        samples.contains(tournament_winner(pool, samples)),
        forall|j: int|
            0 <= j < samples.len() ==> !spec_fitness_improves(
                pool[#[trigger] samples[j]].fitness,
                pool[tournament_winner(pool, samples)].fitness,
            ),
    decreases samples.len(),
{
    if samples.len() == 1 {
        assert(samples[0] == samples.last());
    } else {
        let shorter = samples.drop_last();
        lemma_winner_is_best(pool, shorter);
        let w = tournament_winner(pool, shorter);
        let k = choose|k: int| 0 <= k < shorter.len() && shorter[k] == w;
        assert(samples[k] == w);
        let winner = tournament_winner(pool, samples);
        assert forall|j: int| 0 <= j < samples.len() implies !spec_fitness_improves(
            pool[#[trigger] samples[j]].fitness,
            pool[winner].fitness,
        ) by {
            if j < samples.len() - 1 {
                assert(samples[j] == shorter[j]);
                assert(!spec_fitness_improves(pool[shorter[j]].fitness, pool[w].fitness));
            }
        }
    }
}

/// With every fitness in the pool unknown, no later sample ever improves
/// on the first: the tournament returns the first sampled individual,
/// whatever the later draws.
pub proof fn lemma_all_unknown_first_sample_wins<V>(
    pool: Seq<IndividualModel<V>>,
    samples: Seq<int>,
)
    requires
        samples.len() >= 1,
        forall|j: int| 0 <= j < samples.len() ==> 0 <= #[trigger] samples[j] < pool.len(),
        forall|i: int| 0 <= i < pool.len() ==> #[trigger] pool[i].fitness is None,
    ensures
        tournament_winner(pool, samples) == samples[0],
    decreases samples.len(),
{
    if samples.len() > 1 {
        lemma_all_unknown_first_sample_wins(pool, samples.drop_last());
    }
}

/// Tournament selection: each choice samples a fixed-size group uniformly
/// at random with replacement and keeps the fittest of the group.
#[derive(Clone, Copy)]
pub struct RankBasedSelection {
    group_size: usize,
}

impl RankBasedSelection {
    /// A tournament always samples at least one individual.
    #[verifier::type_invariant]
    spec fn inv(self) -> bool {
        self.group_size >= 1
    }

    /// The number of individuals sampled per tournament.
    pub closed spec fn spec_group_size(&self) -> usize {
        self.group_size
    }

    /// A tournament over groups of `group_size` samples; an empty group
    /// could choose nothing, so the size must be at least one.
    pub fn new(group_size: usize) -> (r: Self)
        requires
            group_size >= 1,
        ensures
            r.spec_group_size() == group_size,
    {
        RankBasedSelection { group_size }
    }
}

/// A tournament selector bound to one population snapshot, which it owns.
pub struct RankBasedSelector<T: Chromosome> {
    selection: RankBasedSelection,
    population: Population<T>,
}

impl<T: Chromosome> SelectionFactory<T> for RankBasedSelection {
    type Selector = RankBasedSelector<T>;

    /// The selector owns the population snapshot and carries this
    /// strategy's group size.
    fn select_from(&self, population: Population<T>) -> (sel: Self::Selector)
        ensures
            sel.spec_group_size() == self.spec_group_size(),
    {
        RankBasedSelector { selection: *self, population }
    }
}

impl<T: Chromosome> RankBasedSelector<T> {
    /// One sample, uniform over the bound population.
    fn select_one(&self) -> (ind: &Individual<T>)
        requires
            self.population.model().len() > 0,
        ensures
            exists|i: int|
                0 <= i < self.population.model().len() && ind.model() == self.population.model()[i],
    {
        let n = self.population.size();
        let idx = rand_below(n);
        self.population.get(idx)
    }

    /// The number of individuals this selector samples per tournament.
    pub closed spec fn spec_group_size(&self) -> usize {
        self.selection.spec_group_size()
    }
}

impl<T: Chromosome> Selector<T> for RankBasedSelector<T> {
    closed spec fn pool(&self) -> Seq<IndividualModel<T::V>> {
        self.population.model()
    }

    /// Keep the fittest of the sampled group: there is a list of
    /// `group_size` sampled positions whose tournament winner is the
    /// choice.  A later sample replaces the current best only on strict
    /// improvement, so with all fitness unknown the first sample wins
    /// regardless of later draws.
    fn select(&self) -> (ind: &Individual<T>)
        ensures
            exists|samples: Seq<int>|
                #[trigger] valid_samples(self.pool(), samples, self.spec_group_size() as int)
                    && samples.len() >= 1 && ind.model() == self.pool()[tournament_winner(
                    self.pool(),
                    samples,
                )],
    {
        proof {
            use_type_invariant(&self.selection);
        }
        let mut best = self.select_one();
        let ghost mut samples: Seq<int> = seq![
            choose|i: int|
                0 <= i < self.pool().len() && best.model() == self.pool()[i],
        ];
        let mut k: usize = 1;
        while k < self.selection.group_size
            invariant
                1 <= k,
                k <= self.selection.spec_group_size(),
                self.spec_group_size() == self.selection.spec_group_size(),
                self.population.model().len() > 0,
                self.pool() == self.population.model(),
                valid_samples(self.pool(), samples, k as int),
                best.model() == self.pool()[tournament_winner(self.pool(), samples)],
                exists|i: int|
                    0 <= i < self.population.model().len() && best.model()
                        == self.population.model()[i],
            decreases self.selection.group_size - k,
        {
            let other = self.select_one();
            let ghost prev = samples;
            let ghost oi = choose|i: int|
                0 <= i < self.pool().len() && other.model() == self.pool()[i];
            proof {
                samples = samples.push(oi);
                assert(samples.drop_last() =~= prev);
            }
            if fitness_improves(other.fitness(), best.fitness()) {
                best = other;
            }
            k += 1;
        }
        best
    }
}

} // verus!
