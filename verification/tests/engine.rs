use evolutionary_alg::binary::{BinaryBitMutation, BinaryChromosome, BinaryNPointBitCrossover};
use evolutionary_alg::max_ones::MaxOnesConfig;
use evolutionary_alg::selection::RankBasedSelection;
use evolutionary_alg::{Chromosome, GeneticAlgorithm, Population};

fn max_ones_config(size: usize) -> MaxOnesConfig {
    MaxOnesConfig::new(
        size,
        BinaryBitMutation::new(1, 50),
        BinaryNPointBitCrossover::new(2),
    )
}

fn fitness_values(
    ga: &GeneticAlgorithm<BinaryChromosome, MaxOnesConfig, RankBasedSelection>,
) -> Vec<Option<i64>> {
    let population = ga.population().expect("population expected");
    let mut values = Vec::new();
    for i in 0..population.size() {
        values.push(population.get(i).fitness());
    }
    values
}

#[test]
fn populate_grows_to_size_and_never_shrinks() {
    let config = max_ones_config(16);
    let mut population: Population<BinaryChromosome> = Population::with_capacity(5);
    assert_eq!(population.size(), 0);

    population.populate(5, &config);
    assert_eq!(population.size(), 5);

    // A second call on an already-full population is a no-op.
    population.populate(5, &config);
    assert_eq!(population.size(), 5);

    // A smaller target never shrinks it.
    population.populate(3, &config);
    assert_eq!(population.size(), 5);

    let mut it = population.iter();
    let mut seen = 0;
    while let Some(individual) = it.next() {
        assert_eq!(individual.fitness(), None);
        assert_eq!(individual.chromosome().text().len(), 16);
        seen += 1;
    }
    assert_eq!(seen, 5);

    let mut it = population.iter_mut();
    let mut seen = 0;
    while let Some(individual) = it.next() {
        assert_eq!(individual.fitness(), None);
        seen += 1;
    }
    assert_eq!(seen, 5);
}

#[test]
fn start_fills_population_with_unknown_fitness() {
    let mut ga = GeneticAlgorithm::new(10, max_ones_config(16), RankBasedSelection::new(2));
    assert!(ga.population().is_none());

    ga.start();
    let values = fitness_values(&ga);
    assert_eq!(values.len(), 10);
    assert!(values.iter().all(|f| f.is_none()));

    // A second start discards the old population and fills a fresh one.
    ga.evaluate();
    ga.start();
    let values = fitness_values(&ga);
    assert_eq!(values.len(), 10);
    assert!(values.iter().all(|f| f.is_none()));
}

#[test]
fn evaluate_is_idempotent_and_counts_set_bits() {
    let mut ga = GeneticAlgorithm::new(10, max_ones_config(16), RankBasedSelection::new(2));
    ga.start();
    ga.evaluate();

    let first = fitness_values(&ga);
    assert!(first.iter().all(|f| f.is_some()));
    {
        let population = ga.population().unwrap();
        for i in 0..population.size() {
            let individual = population.get(i);
            let expected = individual.chromosome().count_ones() as i64;
            assert_eq!(individual.fitness(), Some(expected));
        }
    }

    // A second pass never changes any cached fitness.
    ga.evaluate();
    assert_eq!(fitness_values(&ga), first);
}

#[test]
fn breed_replaces_population_with_fresh_individuals() {
    let mut ga = GeneticAlgorithm::new(12, max_ones_config(16), RankBasedSelection::new(2));
    ga.start();
    ga.evaluate();
    ga.breed();

    let values = fitness_values(&ga);
    assert_eq!(values.len(), 12);
    assert!(values.iter().all(|f| f.is_none()));

    let population = ga.population().unwrap();
    for i in 0..population.size() {
        assert_eq!(population.get(i).chromosome().text().len(), 16);
    }
}

// An end-to-end run on the all-ones problem: the best fitness reaches the
// maximum well before one hundred generations with high probability.
#[test]
fn evolution_reaches_all_ones() {
    // The run is stochastic; a fresh attempt guards against the rare
    // unlucky seed.
    let mut reached = false;
    let mut last_best: i64 = -1;
    for _attempt in 0..3 {
        let mut ga = GeneticAlgorithm::new(
            20,
            MaxOnesConfig::new(
                32,
                BinaryBitMutation::new(1, 50),
                BinaryNPointBitCrossover::new(2),
            ),
            RankBasedSelection::new(2),
        );
        ga.start();

        let mut best_seen: i64 = -1;
        for _ in 0..100 {
            ga.evaluate();
            let best = fitness_values(&ga)
                .into_iter()
                .flatten()
                .max()
                .expect("evaluated population");
            if best > best_seen {
                best_seen = best;
            }
            if best_seen == 32 {
                break;
            }
            ga.breed();
        }
        last_best = best_seen;
        if best_seen == 32 {
            reached = true;
            break;
        }
    }
    assert!(reached, "best fitness seen was {}", last_best);
}
