//! A generic evolutionary-optimization engine.
//!
//! A population of candidate solutions (chromosomes) is repeatedly
//! evaluated, and parents are selected, recombined and mutated to produce
//! the next generation.  The chromosome representation, the mutation and
//! recombination operators, the fitness function and the selection strategy
//! are all pluggable through traits.

use vstd::prelude::*;

use crate::rng::rand_ratio;

pub mod binary;
pub mod bits;
pub mod linked_list;
pub mod max_ones;
pub mod rng;
pub mod selection;
pub mod text;

verus! {

/// A probability, represented exactly as the ratio `num / denom`.
#[derive(Clone, Copy)]
pub struct Prob {
    pub num: u32,
    pub denom: u32,
}

impl Prob {
    /// A probability is well formed when its ratio lies in `[0, 1]`
    /// with a positive denominator.
    pub open spec fn wf(&self) -> bool {
        0 < self.denom && self.num <= self.denom
    }

    pub fn new(num: u32, denom: u32) -> (p: Self)
        requires
            0 < denom,
            num <= denom,
        ensures
            p.wf(),
            p.num == num,
            p.denom == denom,
    {
        Prob { num, denom }
    }
}

/// A candidate solution: a value with a mathematical view, a deep copy,
/// and a text rendering determined by that view.
pub trait Chromosome: View + Sized {
    /// The text a chromosome with view `v` renders to.
    spec fn text_spec(v: Self::V) -> Seq<char>;

    /// A deep copy, so that breeding can leave parents untouched while
    /// producing independent children.
    fn duplicate(&self) -> (c: Self)
        ensures
            c@ == self@,
    ;

    /// Render the chromosome as text.
    fn text(&self) -> (s: String)
        ensures
            s@ == Self::text_spec(self@),
    ;
}

/// An in-place stochastic perturbation of a chromosome.
pub trait Mutation {
    type Chromosome;

    fn mutate(&self, target: &mut Self::Chromosome);
}

/// Produces one child chromosome from two parents.
pub trait Recombination {
    type Chromosome;

    /// The parent pairs this operator is defined on.
    spec fn compatible(&self, parent1: &Self::Chromosome, parent2: &Self::Chromosome) -> bool;

    fn recombine(&self, parent1: &Self::Chromosome, parent2: &Self::Chromosome) -> Self::Chromosome
        requires
            self.compatible(parent1, parent2),
    ;
}

/// Produces freshly initialized chromosomes.
pub trait ChromosomeFactory<T: Chromosome> {
    /// The chromosomes this factory produces and its operators accept:
    /// for bit strings, typically those of one configured length.
    spec fn valid(&self, c: T::V) -> bool;

    fn create(&self) -> (c: T)
        ensures
            self.valid(c@),
    ;
}

/// The capability bundle a problem-specific caller supplies: a chromosome
/// factory together with the mutation, recombination and fitness-evaluation
/// operations for one chromosome type.
pub trait EvolutionConfig<T: Chromosome>: ChromosomeFactory<T> {
    /// The fitness of a chromosome with view `c`.  Fitness is a pure
    /// function of the chromosome value: the engine memoizes it.
    spec fn fitness_spec(&self, c: T::V) -> i64;

    fn mutate(&self, target: &mut T)
        requires
            self.valid(old(target)@),
        ensures
            self.valid(final(target)@),
    ;

    fn recombine(&self, parent1: &T, parent2: &T) -> (child: T)
        requires
            self.valid(parent1@),
            self.valid(parent2@),
        ensures
            self.valid(child@),
    ;

    fn evaluate(&self, subject: &T) -> (fitness: i64)
        ensures
            fitness == self.fitness_spec(subject@),
    ;
}

/// Repeatedly produces a chosen parent from a bound population snapshot.
pub trait Selector<T: Chromosome> {
    /// The pool of individuals the selector draws from.
    spec fn pool(&self) -> Seq<IndividualModel<T::V>>;

    /// Choose one parent; the choice is always a member of the pool.
    fn select(&self) -> (ind: &Individual<T>)
        requires
            self.pool().len() > 0,
        ensures
            exists|i: int| 0 <= i < self.pool().len() && ind.model() == self.pool()[i],
    ;
}

/// Builds a selector bound to a population snapshot, which the selector
/// consumes: nothing can mutate the old generation while it is sampled.
pub trait SelectionFactory<T: Chromosome> {
    type Selector: Selector<T>;

    fn select_from(&self, population: Population<T>) -> (sel: Self::Selector)
        ensures
            sel.pool() == population.model(),
    ;
}

/// The mathematical model of one individual: the view of its chromosome
/// and its cached fitness, `None` while unknown.
pub ghost struct IndividualModel<V> {
    pub chromosome: V,
    pub fitness: Option<i64>,
}

/// One chromosome together with its cached fitness.
pub struct Individual<T: Chromosome> {
    chromosome: Box<T>,
    fitness: Option<i64>,
}

impl<T: Chromosome> Individual<T> {
    pub closed spec fn model(&self) -> IndividualModel<T::V> {
        IndividualModel { chromosome: self.chromosome@, fitness: self.fitness }
    }

    /// Wrap a chromosome in a fresh individual; its fitness is unknown.
    pub fn new(chromosome: Box<T>) -> (ind: Self)
        ensures
            ind.model() == (IndividualModel { chromosome: chromosome@, fitness: None::<i64> }),
    {
        Individual { chromosome, fitness: None }
    }

    /// The cached fitness, `None` while unknown.
    pub fn fitness(&self) -> (f: Option<i64>)
        ensures
            f == self.model().fitness,
    {
        self.fitness
    }

    /// The owned chromosome.
    pub fn chromosome(&self) -> (c: &T)
        ensures
            c@ == self.model().chromosome,
    {
        &self.chromosome
    }
}

/// The text suffix an individual's fitness renders to: nothing while the
/// fitness is unknown.
pub open spec fn fitness_suffix(f: Option<i64>) -> Seq<char> {
    match f {
        None => Seq::<char>::empty(),
        Some(v) => fitness_label() + crate::text::dec_int(v as int),
    }
}

/// The literal text `" fitness = "`.
pub open spec fn fitness_label() -> Seq<char> {
    seq![' ', 'f', 'i', 't', 'n', 'e', 's', 's', ' ', '=', ' ']
}

impl<T: Chromosome> Individual<T> {
    /// The text of one individual: its chromosome's text, then its
    /// fitness if that is known.
    pub open spec fn render_spec(m: IndividualModel<T::V>) -> Seq<char> {
        T::text_spec(m.chromosome) + fitness_suffix(m.fitness)
    }

    /// Render the individual as one line of text (without the newline).
    pub fn render(&self) -> (out: String)
        ensures
            out@ == Self::render_spec(self.model()),
    {
        let mut out = self.chromosome.text();
        match &self.fitness {
            Some(f) => {
                proof {
                    reveal_strlit(" fitness = ");
                }
                out.append(" fitness = ");
                proof {
                    assert(" fitness = "@ =~= fitness_label());
                }
                let rendered = crate::text::i64_to_string(*f);
                out.append(rendered.as_str());
                proof {
                    assert(out@ =~= Self::render_spec(self.model()));
                }
            },
            None => {
                proof {
                    assert(out@ =~= Self::render_spec(self.model()));
                }
            },
        }
        out
    }
}

/// How many individuals of `s` have a known fitness.
pub open spec fn known_count<V>(s: Seq<IndividualModel<V>>) -> int
    decreases s.len(),
{
    if s.len() == 0 {
        0
    } else {
        known_count(s.drop_last()) + if s.last().fitness is Some {
            1int
        } else {
            0int
        }
    }
}

/// The sum of the known fitness values of `s`.
pub open spec fn known_sum<V>(s: Seq<IndividualModel<V>>) -> int
    decreases s.len(),
{
    if s.len() == 0 {
        0
    } else {
        known_sum(s.drop_last()) + match s.last().fitness {
            Some(f) => f as int,
            None => 0int,
        }
    }
}

/// The greatest known fitness value of `s`, `None` while no fitness is
/// known.
pub open spec fn known_best<V>(s: Seq<IndividualModel<V>>) -> Option<i64>
    decreases s.len(),
{
    if s.len() == 0 {
        None
    } else {
        match (known_best(s.drop_last()), s.last().fitness) {
            (None, f) => f,
            (Some(b), None) => Some(b),
            (Some(b), Some(f)) => Some(
                if f > b {
                    f
                } else {
                    b
                },
            ),
        }
    }
}

/// The quotient `sum / n` truncated toward zero.
pub open spec fn avg_trunc(sum: int, n: int) -> int {
    if sum >= 0 {
        sum / n
    } else {
        -((-sum) / n)
    }
}

/// Basic facts about the fitness statistics of a population model: the
/// count of known values never exceeds the length, a best exists exactly
/// when some value is known, and the sum is bounded by the count times
/// the extreme fitness values.
pub proof fn lemma_known_stats<V>(s: Seq<IndividualModel<V>>)
    ensures
        0 <= known_count(s) <= s.len(),
        known_best(s) is Some <==> known_count(s) > 0,
        known_count(s) * (i64::MIN as int) <= known_sum(s) <= known_count(s) * (i64::MAX as int),
    decreases s.len(),
{
    if s.len() == 0 {
    } else {
        lemma_known_stats(s.drop_last());
        let c = known_count(s.drop_last());
        assert((c + 1) * (i64::MIN as int) == c * (i64::MIN as int) + (i64::MIN as int))
            by (nonlinear_arith);
        assert((c + 1) * (i64::MAX as int) == c * (i64::MAX as int) + (i64::MAX as int))
            by (nonlinear_arith);
    }
}

/// The literal text `"best = "`.
pub open spec fn best_label() -> Seq<char> {
    seq!['b', 'e', 's', 't', ' ', '=', ' ']
}

/// The literal text `", avg. = "`.
pub open spec fn avg_label() -> Seq<char> {
    seq![',', ' ', 'a', 'v', 'g', '.', ' ', '=', ' ']
}

/// The summary line of a population: omitted entirely while no fitness is
/// known, otherwise the best and the truncated mean of the known values.
pub open spec fn summary_text<V>(s: Seq<IndividualModel<V>>) -> Seq<char> {
    match known_best(s) {
        None => Seq::<char>::empty(),
        Some(b) => best_label() + crate::text::dec_int(b as int) + avg_label()
            + crate::text::dec_int(avg_trunc(known_sum(s), known_count(s))),
    }
}

/// One line per individual, in order, each closed by a newline.
pub open spec fn lines_text<T: Chromosome>(s: Seq<IndividualModel<T::V>>) -> Seq<char>
    decreases s.len(),
{
    if s.len() == 0 {
        Seq::<char>::empty()
    } else {
        lines_text::<T>(s.drop_last()) + Individual::<T>::render_spec(s.last()) + seq!['\n']
    }
}

/// An ordered, growable collection of individuals.  Selection treats it as
/// an unordered pool; the order is kept only for iteration and printing.
pub struct Population<T: Chromosome> {
    individuals: Vec<Individual<T>>,
}

impl<T: Chromosome> Population<T> {
    pub closed spec fn model(&self) -> Seq<IndividualModel<T::V>> {
        self.individuals@.map_values(|ind: Individual<T>| ind.model())
    }

    pub fn with_capacity(capacity: usize) -> (p: Self)
        ensures
            p.model() == Seq::<IndividualModel<T::V>>::empty(),
    {
        let p = Population { individuals: Vec::with_capacity(capacity) };
        proof {
            assert(p.model() =~= Seq::<IndividualModel<T::V>>::empty());
        }
        p
    }

    /// Append one individual.
    pub fn add(&mut self, individual: Individual<T>)
        requires
            old(self).model().len() < usize::MAX,
        ensures
            final(self).model() == old(self).model().push(individual.model()),
    {
        let ghost prev = self.model();
        self.individuals.push(individual);
        proof {
            assert(self.model() =~= prev.push(individual.model()));
        }
    }

    pub fn size(&self) -> (n: usize)
        ensures
            n == self.model().len(),
    {
        self.individuals.len()
    }

    /// The individual at position `i`.
    pub fn get(&self, i: usize) -> (ind: &Individual<T>)
        requires
            i < self.model().len(),
        ensures
            ind.model() == self.model()[i as int],
    {
        &self.individuals[i]
    }

    /// Iterate over the individuals in insertion order.
    pub fn iter<'a>(&'a self) -> (it: PopulationIter<'a, T>)
        ensures
            it.remaining() == self.model(),
    {
        let it = PopulationIter { population: self, pos: 0 };
        proof {
            assert(it.remaining() =~= self.model());
        }
        it
    }

    /// Iterate over the individuals in insertion order, yielding mutable
    /// references.
    pub fn iter_mut<'a>(&'a mut self) -> (it: PopulationIterMut<'a, T>)
        ensures
            it.remaining() == old(self).model(),
    {
        let it = PopulationIterMut { rest: self.individuals.as_mut_slice() };
        proof {
            assert(it.remaining() =~= old(self).model());
        }
        it
    }

    /// Grow the population to `size` individuals by wrapping fresh
    /// chromosomes from `config` in individuals with unknown fitness.
    /// Never shrinks: a population already at or above `size` is untouched.
    pub fn populate<C: EvolutionConfig<T>>(&mut self, size: usize, config: &C)
        ensures
            final(self).model().len() == if old(self).model().len() >= size {
                old(self).model().len() as int
            } else {
                size as int
            },
            forall|i: int|
                0 <= i < old(self).model().len() ==> final(self).model()[i] == old(self).model()[i],
            forall|i: int|
                old(self).model().len() <= i < final(self).model().len()
                    ==> final(self).model()[i].fitness == None::<i64>
                        && config.valid(final(self).model()[i].chromosome),
            old(self).model().len() >= size ==> final(self).model() == old(self).model(),
    {
        let ghost prev = self.model();
        while self.individuals.len() < size
            invariant
                prev.len() >= size ==> self.model() == prev,
                self.model().len() >= prev.len(),
                self.model().len() <= if prev.len() >= size {
                    prev.len() as int
                } else {
                    size as int
                },
                forall|i: int| 0 <= i < prev.len() ==> self.model()[i] == prev[i],
                forall|i: int|
                    prev.len() <= i < self.model().len()
                        ==> self.model()[i].fitness == None::<i64>
                            && config.valid(self.model()[i].chromosome),
            decreases size - self.individuals.len(),
        {
            let ghost before = self.model();
            self.individuals.push(Individual::new(Box::new(config.create())));
            proof {
                assert(self.model() =~= before.push(self.model().last()));
            }
        }
    }
}

/// A read-only iterator over a population's individuals in insertion
/// order.
pub struct PopulationIter<'a, T: Chromosome> {
    population: &'a Population<T>,
    pos: usize,
}

impl<'a, T: Chromosome> PopulationIter<'a, T> {
    /// The cursor never passes the end of the population.
    #[verifier::type_invariant]
    spec fn inv(self) -> bool {
        self.pos <= self.population.model().len()
    }

    /// The models of the individuals not yet yielded.
    pub closed spec fn remaining(&self) -> Seq<IndividualModel<T::V>> {
        self.population.model().skip(self.pos as int)
    }

    /// Yield a reference to the next individual, in insertion order.
    pub fn next(&mut self) -> (item: Option<&'a Individual<T>>)
        ensures
            old(self).remaining().len() == 0 ==> item is None && final(self).remaining() == old(
                self,
            ).remaining(),
            old(self).remaining().len() > 0 ==> item is Some && item.unwrap().model() == old(
                self,
            ).remaining()[0] && final(self).remaining() == old(self).remaining().drop_first(),
    {
        proof {
            use_type_invariant(&*self);
        }
        if self.pos < self.population.size() {
            let ind = self.population.get(self.pos);
            self.pos = self.pos + 1;
            proof {
                assert(old(self).remaining()[0] == self.population.model()[old(self).pos as int]);
                assert(self.remaining() =~= old(self).remaining().drop_first());
            }
            Some(ind)
        } else {
            None
        }
    }
}

/// An in-place mutating iterator over a population's individuals in
/// insertion order.
pub struct PopulationIterMut<'a, T: Chromosome> {
    rest: &'a mut [Individual<T>],
}

impl<'a, T: Chromosome> PopulationIterMut<'a, T> {
    /// The models of the individuals not yet yielded, at their values as
    /// of now.
    pub closed spec fn remaining(&self) -> Seq<IndividualModel<T::V>> {
        self.rest@.map_values(|ind: Individual<T>| ind.model())
    }

    /// Yield a mutable reference to the next individual, in insertion
    /// order.
    pub fn next(&mut self) -> (item: Option<&'a mut Individual<T>>)
        ensures
            old(self).remaining().len() == 0 ==> item is None && final(self).remaining() == old(
                self,
            ).remaining(),
            old(self).remaining().len() > 0 ==> item is Some && item.unwrap().model() == old(
                self,
            ).remaining()[0] && final(self).remaining() == old(self).remaining().drop_first(),
    {
        let mut taken: &'a mut [Individual<T>] = &mut [];
        core::mem::swap(&mut taken, &mut self.rest);
        if taken.len() >= 1 {
            let (first, rest) = <[Individual<T>]>::split_at_mut(taken, 1);
            self.rest = rest;
            proof {
                assert(self.remaining() =~= old(self).remaining().drop_first());
            }
            match <[Individual<T>]>::first_mut(first) {
                Some(individual) => Some(individual),
                None => None,
            }
        } else {
            proof {
                assert(self.remaining() =~= old(self).remaining());
            }
            None
        }
    }
}

impl<T: Chromosome> Population<T> {
    /// The full text of a population: the individuals line by line,
    /// then the summary once any fitness is known.
    pub open spec fn render_spec(s: Seq<IndividualModel<T::V>>) -> Seq<char> {
        lines_text::<T>(s) + summary_text(s)
    }

    /// Render the population: one line per individual, then, if any
    /// fitness is known, a summary with the best and the truncated mean
    /// of the known fitness values.
    pub fn render(&self) -> (out: String)
        ensures
            out@ == Self::render_spec(self.model()),
    {
        let ghost m = self.model();
        let mut out = String::new();
        let mut best: Option<i64> = None;
        let mut sum: i128 = 0;
        let mut num: usize = 0;
        let n = self.individuals.len();
        let mut i: usize = 0;
        while i < n
            invariant
                i <= n,
                n == self.individuals@.len(),
                m == self.model(),
                m.len() == n,
                out@ == lines_text::<T>(m.take(i as int)),
                best == known_best(m.take(i as int)),
                sum == known_sum(m.take(i as int)),
                num == known_count(m.take(i as int)),
                num <= i,
            decreases n - i,
        {
            let individual = &self.individuals[i];
            let line = individual.render();
            out.append(line.as_str());
            proof {
                reveal_strlit("\n");
            }
            out.append("\n");
            proof {
                assert(individual.model() == m[i as int]);
                assert(m.take(i + 1).drop_last() =~= m.take(i as int));
                assert(m.take(i + 1).last() == m[i as int]);
                assert("\n"@ =~= seq!['\n']);
                assert(out@ =~= lines_text::<T>(m.take(i + 1)));
                lemma_known_stats(m.take(i as int));
            }
            if let Some(f) = individual.fitness {
                proof {
                    let c = num as int;
                    assert(c * (i64::MIN as int) + (i64::MIN as int) >= i128::MIN as int
                        && c * (i64::MAX as int) + (i64::MAX as int) <= i128::MAX as int)
                        by (nonlinear_arith)
                        requires
                            0 <= c <= 0xffff_ffff_ffff_ffffu64 as int,
                    ;
                }
                sum = sum + (f as i128);
                num = num + 1;
                best = match best {
                    None => Some(f),
                    Some(b) => if f > b {
                        Some(f)
                    } else {
                        Some(b)
                    },
                };
            }
            i += 1;
        }
        proof {
            assert(m.take(n as int) =~= m);
        }
        match best {
            Some(b) => {
                proof {
                    reveal_strlit("best = ");
                    reveal_strlit(", avg. = ");
                    lemma_known_stats(m);
                }
                out.append("best = ");
                let rendered_best = crate::text::i64_to_string(b);
                out.append(rendered_best.as_str());
                out.append(", avg. = ");
                let divisor = num as i128;
                proof {
                    let c = known_count(m);
                    assert(divisor > 0);
                    if sum >= 0 {
                        assert(c * (i64::MAX as int) == (i64::MAX as int) * c)
                            by (nonlinear_arith);
                        vstd::arithmetic::div_mod::lemma_div_by_multiple(i64::MAX as int, c);
                        vstd::arithmetic::div_mod::lemma_div_is_ordered(
                            sum as int,
                            (i64::MAX as int) * c,
                            c,
                        );
                        vstd::arithmetic::div_mod::lemma_div_pos_is_pos(sum as int, c);
                        assert(0 <= sum as int / (divisor as int) <= i64::MAX as int);
                    } else {
                        assert(c * (i64::MIN as int) == -((-(i64::MIN as int)) * c))
                            by (nonlinear_arith);
                        assert(-(sum as int) <= (-(i64::MIN as int)) * c);
                        vstd::arithmetic::div_mod::lemma_div_by_multiple(-(i64::MIN as int), c);
                        vstd::arithmetic::div_mod::lemma_div_is_ordered(
                            -(sum as int),
                            (-(i64::MIN as int)) * c,
                            c,
                        );
                        vstd::arithmetic::div_mod::lemma_div_pos_is_pos(-(sum as int), c);
                        assert(0 <= (-(sum as int)) / (divisor as int) <= -(i64::MIN as int));
                    }
                }
                let magnitude_ok: i128 = if sum >= 0 {
                    sum / divisor
                } else {
                    -((-sum) / divisor)
                };
                let avg = magnitude_ok as i64;
                proof {
                    assert(avg as int == avg_trunc(known_sum(m), known_count(m)));
                }
                let rendered_avg = crate::text::i64_to_string(avg);
                out.append(rendered_avg.as_str());
                proof {
                    assert("best = "@ =~= best_label());
                    assert(", avg. = "@ =~= avg_label());
                    assert(out@ =~= Self::render_spec(m));
                }
            },
            None => {
                proof {
                    assert(out@ =~= Self::render_spec(m));
                }
            },
        }
        out
    }
}

/// The literal text `"Population:\n"`.
pub open spec fn population_header() -> Seq<char> {
    seq!['P', 'o', 'p', 'u', 'l', 'a', 't', 'i', 'o', 'n', ':', '\n']
}

/// The model of a population after one evaluation pass with `config`:
/// every unknown fitness is filled in from the configuration's fitness
/// function; an already known fitness is left untouched.
pub open spec fn evaluated_model<T: Chromosome, C: EvolutionConfig<T>>(
    config: C,
    s: Seq<IndividualModel<T::V>>,
) -> Seq<IndividualModel<T::V>> {
    s.map_values(
        |m: IndividualModel<T::V>|
            IndividualModel {
                chromosome: m.chromosome,
                fitness: match m.fitness {
                    Some(f) => Some(f),
                    None => Some(config.fitness_spec(m.chromosome)),
                },
            },
    )
}

/// Evaluation is idempotent: a second pass over an already evaluated
/// population changes nothing, because a known fitness is never
/// recomputed.
pub proof fn lemma_evaluate_idempotent<T: Chromosome, C: EvolutionConfig<T>>(
    config: C,
    s: Seq<IndividualModel<T::V>>,
)
    ensures
        evaluated_model(config, evaluated_model(config, s)) == evaluated_model(config, s),
{
    assert(evaluated_model(config, evaluated_model(config, s)) =~= evaluated_model(config, s));
}

/// Whether `c` is the chromosome of some member of `pool`.
pub open spec fn chromosome_from_pool<V>(pool: Seq<IndividualModel<V>>, c: V) -> bool {
    exists|j: int| 0 <= j < pool.len() && c == #[trigger] pool[j].chromosome
}

/// The orchestrator: owns the configuration, the selection strategy and
/// the current population, and drives the start / evaluate / breed cycle.
pub struct GeneticAlgorithm<T: Chromosome, C: EvolutionConfig<T>, S: SelectionFactory<T>> {
    pop_size: usize,
    recombination_prob: Prob,
    mutation_prob: Prob,
    selection: S,
    config: C,
    population: Option<Population<T>>,
}

impl<T: Chromosome, C: EvolutionConfig<T>, S: SelectionFactory<T>> GeneticAlgorithm<T, C, S> {
    /// The probabilities are well formed and every chromosome in the
    /// current population is one the configuration operates on.
    #[verifier::type_invariant]
    spec fn inv(self) -> bool {
        &&& self.recombination_prob.wf()
        &&& self.mutation_prob.wf()
        &&& match self.population {
            Some(p) => forall|i: int|
                0 <= i < p.model().len() ==> self.config.valid(
                    #[trigger] p.model()[i].chromosome,
                ),
            None => true,
        }
    }

    /// The configured number of individuals per generation.
    pub closed spec fn spec_pop_size(&self) -> usize {
        self.pop_size
    }

    /// The configuration bundle the engine runs with.
    pub closed spec fn spec_config(&self) -> C {
        self.config
    }

    /// The probability with which a child is bred from two recombined
    /// parents rather than cloned from one.
    pub closed spec fn spec_recombination_prob(&self) -> Prob {
        self.recombination_prob
    }

    /// The probability with which a fresh child is mutated in place.
    pub closed spec fn spec_mutation_prob(&self) -> Prob {
        self.mutation_prob
    }

    /// The selection strategy the engine builds each generation's
    /// selector from.
    pub closed spec fn spec_selection(&self) -> S {
        self.selection
    }

    /// The model of the current population, `None` before `start`.
    pub closed spec fn population_model(&self) -> Option<Seq<IndividualModel<T::V>>> {
        match self.population {
            Some(p) => Some(p.model()),
            None => None,
        }
    }

    /// A fresh, uninitialized engine: no population yet.  Recombination
    /// and mutation are each applied with the default probability `4/5`.
    pub fn new(pop_size: usize, config: C, selection: S) -> (ga: Self)
        ensures
            ga.spec_pop_size() == pop_size,
            ga.spec_config() == config,
            ga.spec_selection() == selection,
            ga.spec_recombination_prob() == (Prob { num: 4, denom: 5 }),
            ga.spec_mutation_prob() == (Prob { num: 4, denom: 5 }),
            ga.population_model() is None,
    {
        GeneticAlgorithm {
            pop_size,
            config,
            recombination_prob: Prob::new(4, 5),
            mutation_prob: Prob::new(4, 5),
            selection,
            population: None,
        }
    }

    /// Discard any existing population and grow a fresh one of
    /// `pop_size` individuals from the configuration's factory; every
    /// fitness is unknown.
    pub fn start(&mut self)
        ensures
            final(self).spec_pop_size() == old(self).spec_pop_size(),
            final(self).spec_config() == old(self).spec_config(),
            final(self).spec_selection() == old(self).spec_selection(),
            final(self).spec_recombination_prob() == old(self).spec_recombination_prob(),
            final(self).spec_mutation_prob() == old(self).spec_mutation_prob(),
            final(self).population_model() is Some,
            final(self).population_model().unwrap().len() == old(self).spec_pop_size(),
            forall|i: int|
                0 <= i < old(self).spec_pop_size()
                    ==> final(self).population_model().unwrap()[i].fitness is None
                        && old(self).spec_config().valid(
                        #[trigger] final(self).population_model().unwrap()[i].chromosome,
                    ),
    {
        proof {
            use_type_invariant(&*self);
        }
        let mut population = Population::with_capacity(self.pop_size);
        population.populate(self.pop_size, &self.config);
        self.population = Some(population);
    }

    /// Fill in every unknown fitness from the configuration's fitness
    /// function; a known fitness is never recomputed, so the call is
    /// idempotent.  Before `start` there is no population and nothing
    /// happens.
    pub fn evaluate(&mut self)
        ensures
            final(self).spec_pop_size() == old(self).spec_pop_size(),
            final(self).spec_config() == old(self).spec_config(),
            final(self).spec_selection() == old(self).spec_selection(),
            final(self).spec_recombination_prob() == old(self).spec_recombination_prob(),
            final(self).spec_mutation_prob() == old(self).spec_mutation_prob(),
            match old(self).population_model() {
                Some(s) => final(self).population_model() == Some(
                    evaluated_model(old(self).spec_config(), s),
                ),
                None => final(self).population_model() is None,
            },
    {
        proof {
            use_type_invariant(&*self);
        }
        let mut taken: Option<Population<T>> = None;
        core::mem::swap(&mut taken, &mut self.population);
        match taken {
            Some(mut population) => {
                let ghost orig = population.model();
                let ghost cfg = self.config;
                let n = population.individuals.len();
                let mut i: usize = 0;
                while i < n
                    invariant
                        i <= n,
                        self.config == cfg,
                        n == population.individuals@.len(),
                        population.model().len() == n,
                        orig.len() == n,
                        forall|j: int|
                            0 <= j < i ==> population.model()[j] == evaluated_model(cfg, orig)[j],
                        forall|j: int| i <= j < n ==> population.model()[j] == orig[j],
                    decreases n - i,
                {
                    let ghost before = population.model();
                    if population.individuals[i].fitness.is_none() {
                        let f = self.config.evaluate(&*population.individuals[i].chromosome);
                        population.individuals[i].fitness = Some(f);
                    }
                    proof {
                        assert(population.model()[i as int] == evaluated_model(cfg, orig)[i as int]);
                        assert(forall|j: int|
                            0 <= j < n && j != i
                                ==> population.model()[j] == #[trigger] before[j]);
                        assert forall|j: int| 0 <= j < i + 1 implies population.model()[j]
                            == evaluated_model(cfg, orig)[j] by {
                            if j < i {
                                assert(before[j] == evaluated_model(cfg, orig)[j]);
                            }
                        }
                    }
                    i += 1;
                }
                proof {
                    assert(population.model() =~= evaluated_model(cfg, orig));
                }
                self.population = Some(population);
            },
            None => {},
        }
    }

    /// Consume the current population through a selector built by the
    /// selection strategy and replace it with a brand-new generation of
    /// `pop_size` individuals, every fitness unknown.  Each child is
    /// recombined from two selected parents with the recombination
    /// probability and otherwise cloned from one, then mutated with the
    /// mutation probability.  Breeding needs a population: `start` must
    /// have run, and a positive `pop_size` needs a nonempty pool to
    /// select parents from.
    pub fn breed(&mut self)
        requires
            old(self).population_model() is Some,
            old(self).spec_pop_size() > 0 ==> old(self).population_model().unwrap().len() > 0,
        ensures
            final(self).spec_pop_size() == old(self).spec_pop_size(),
            final(self).spec_config() == old(self).spec_config(),
            final(self).spec_selection() == old(self).spec_selection(),
            final(self).spec_recombination_prob() == old(self).spec_recombination_prob(),
            final(self).spec_mutation_prob() == old(self).spec_mutation_prob(),
            final(self).population_model() is Some,
            final(self).population_model().unwrap().len() == old(self).spec_pop_size(),
            forall|i: int|
                0 <= i < old(self).spec_pop_size()
                    ==> final(self).population_model().unwrap()[i].fitness is None
                        && old(self).spec_config().valid(
                        #[trigger] final(self).population_model().unwrap()[i].chromosome,
                    ),
            old(self).spec_recombination_prob().num == 0 && old(self).spec_mutation_prob().num == 0
                ==> forall|i: int|
                    0 <= i < old(self).spec_pop_size() ==> chromosome_from_pool(
                        old(self).population_model().unwrap(),
                        #[trigger] final(self).population_model().unwrap()[i].chromosome,
                    ),
    {
        proof {
            use_type_invariant(&*self);
        }
        let ghost cfg = self.config;
        let mut taken: Option<Population<T>> = None;
        core::mem::swap(&mut taken, &mut self.population);
        let old_population = taken.unwrap();
        let selector = self.selection.select_from(old_population);
        let mut population = Population::with_capacity(self.pop_size);
        while population.size() < self.pop_size
            invariant
                self.pop_size == old(self).spec_pop_size(),
                self.config == cfg,
                self.selection == old(self).spec_selection(),
                self.recombination_prob == old(self).spec_recombination_prob(),
                self.mutation_prob == old(self).spec_mutation_prob(),
                self.population is None,
                self.recombination_prob.wf(),
                self.mutation_prob.wf(),
                selector.pool() == old(self).population_model().unwrap(),
                self.pop_size > 0 ==> selector.pool().len() > 0,
                forall|i: int|
                    0 <= i < selector.pool().len() ==> cfg.valid(
                        #[trigger] selector.pool()[i].chromosome,
                    ),
                population.model().len() <= self.pop_size,
                forall|i: int|
                    0 <= i < population.model().len()
                        ==> population.model()[i].fitness is None && cfg.valid(
                            #[trigger] population.model()[i].chromosome,
                        ),
                self.recombination_prob.num == 0 && self.mutation_prob.num == 0
                    ==> forall|i: int|
                        0 <= i < population.model().len() ==> chromosome_from_pool(
                            selector.pool(),
                            #[trigger] population.model()[i].chromosome,
                        ),
            decreases self.pop_size - population.model().len(),
        {
            let mut chromosome = if rand_ratio(
                self.recombination_prob.num,
                self.recombination_prob.denom,
            ) {
                proof {
                    // A zero recombination probability never takes this
                    // branch.
                    assert(self.recombination_prob.num != 0);
                }
                let parent1 = selector.select();
                let parent2 = selector.select();
                proof {
                    let i1 = choose|i: int|
                        0 <= i < selector.pool().len() && parent1.model() == selector.pool()[i];
                    assert(cfg.valid(selector.pool()[i1].chromosome));
                    let i2 = choose|i: int|
                        0 <= i < selector.pool().len() && parent2.model() == selector.pool()[i];
                    assert(cfg.valid(selector.pool()[i2].chromosome));
                }
                self.config.recombine(parent1.chromosome(), parent2.chromosome())
            } else {
                let parent = selector.select();
                proof {
                    let i1 = choose|i: int|
                        0 <= i < selector.pool().len() && parent.model() == selector.pool()[i];
                    assert(cfg.valid(selector.pool()[i1].chromosome));
                }
                let child = parent.chromosome().duplicate();
                proof {
                    let i1 = choose|i: int|
                        0 <= i < selector.pool().len() && parent.model() == selector.pool()[i];
                    assert(child@ == selector.pool()[i1].chromosome);
                    assert(chromosome_from_pool(selector.pool(), child@));
                }
                child
            };
            if rand_ratio(self.mutation_prob.num, self.mutation_prob.denom) {
                proof {
                    // A zero mutation probability never takes this branch.
                    assert(self.mutation_prob.num != 0);
                }
                self.config.mutate(&mut chromosome);
            }
            let ghost before_add = population.model();
            let individual = Individual::new(Box::new(chromosome));
            population.add(individual);
            proof {
                assert(individual.model().fitness is None);
                assert(cfg.valid(individual.model().chromosome));
                assert forall|i: int| 0 <= i < population.model().len() implies (population.model()[i].fitness is None
                    && cfg.valid(population.model()[i].chromosome)) by {
                    if i < before_add.len() {
                        assert(population.model()[i] == before_add[i]);
                        assert(cfg.valid(before_add[i].chromosome));
                        assert(before_add[i].fitness is None);
                    } else {
                        assert(population.model()[i] == individual.model());
                    }
                }
                if self.recombination_prob.num == 0 && self.mutation_prob.num == 0 {
                    assert(chromosome_from_pool(selector.pool(), individual.model().chromosome));
                    assert forall|i: int| 0 <= i < population.model().len() implies chromosome_from_pool(
                        selector.pool(),
                        #[trigger] population.model()[i].chromosome,
                    ) by {
                        if i < before_add.len() {
                            assert(population.model()[i] == before_add[i]);
                            assert(chromosome_from_pool(selector.pool(), before_add[i].chromosome));
                        } else {
                            assert(population.model()[i] == individual.model());
                        }
                    }
                }
            }
        }
        proof {
            assert forall|i: int| 0 <= i < population.model().len() implies population.model()[i].fitness is None by {
                assert(cfg.valid(population.model()[i].chromosome));
            }
        }
        self.population = Some(population);
    }

    /// The current population, `None` before `start`.
    pub fn population(&self) -> (p: Option<&Population<T>>)
        ensures
            match p {
                Some(pop) => self.population_model() == Some(pop.model()),
                None => self.population_model() is None,
            },
    {
        match &self.population {
            Some(pop) => Some(pop),
            None => None,
        }
    }

    /// The engine's text: the population under a header once `start` has
    /// run, nothing before.
    pub open spec fn render_spec(&self) -> Seq<char> {
        match self.population_model() {
            Some(s) => population_header() + Population::<T>::render_spec(s),
            None => Seq::<char>::empty(),
        }
    }

    /// Render the engine's current population.
    pub fn render(&self) -> (out: String)
        ensures
            out@ == self.render_spec(),
    {
        match &self.population {
            Some(p) => {
                let mut out = String::new();
                proof {
                    reveal_strlit("Population:\n");
                }
                out.append("Population:\n");
                let rendered = p.render();
                out.append(rendered.as_str());
                proof {
                    assert("Population:\n"@ =~= population_header());
                    assert(out@ =~= self.render_spec());
                }
                out
            },
            None => {
                let out = String::new();
                proof {
                    assert(out@ =~= self.render_spec());
                }
                out
            },
        }
    }
}

} // verus!
