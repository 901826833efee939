use evolutionary_alg::binary::{BinaryBitMutation, BinaryChromosome, BinaryNPointBitCrossover};
use evolutionary_alg::max_ones::MaxOnesConfig;
use evolutionary_alg::selection::RankBasedSelection;
use evolutionary_alg::text::i64_to_string;
use evolutionary_alg::{
    Chromosome, GeneticAlgorithm, Individual, Population, SelectionFactory, Selector,
};

fn population_of_lengths(lengths: &[usize]) -> Population<BinaryChromosome> {
    let mut population = Population::with_capacity(lengths.len());
    for &len in lengths {
        population.add(Individual::new(Box::new(BinaryChromosome::zeroes(len))));
    }
    population
}

// With a group of one the tournament degenerates to a uniform random
// choice: over many draws each individual is selected about equally often.
#[test]
fn tournament_of_one_selects_uniformly() {
    let population = population_of_lengths(&[1, 2, 3, 4]);
    let selector = RankBasedSelection::new(1).select_from(population);

    let mut counts = [0usize; 4];
    let draws = 4000;
    for _ in 0..draws {
        let chosen = selector.select();
        let len = chosen.chromosome().text().len();
        counts[len - 1] += 1;
    }
    for (i, &count) in counts.iter().enumerate() {
        assert!(
            count > 850 && count < 1150,
            "individual {} chosen {} times",
            i,
            count
        );
    }
}

// With every fitness unknown a later sample never improves on the first,
// so even a large group degenerates to a uniform choice of the first
// sample: the documented tie-break caveat.
#[test]
fn tournament_with_unknown_fitness_stays_uniform() {
    let population = population_of_lengths(&[1, 2, 3]);
    let selector = RankBasedSelection::new(16).select_from(population);

    let mut counts = [0usize; 3];
    let draws = 3000;
    for _ in 0..draws {
        let chosen = selector.select();
        let len = chosen.chromosome().text().len();
        counts[len - 1] += 1;
    }
    for (i, &count) in counts.iter().enumerate() {
        assert!(
            count > 800 && count < 1200,
            "individual {} chosen {} times",
            i,
            count
        );
    }
}

#[test]
fn individual_render_without_fitness_is_bare_text() {
    let individual = Individual::new(Box::new(BinaryChromosome::zeroes(4)));
    assert_eq!(individual.render(), "0000");
}

#[test]
fn population_render_without_fitness_has_no_summary() {
    let mut population = Population::with_capacity(2);
    population.add(Individual::new(Box::new(BinaryChromosome::zeroes(3))));
    population.add(Individual::new(Box::new(BinaryChromosome::ones(2))));
    assert_eq!(population.render(), "000\n11\n");
}

#[test]
fn engine_render_shows_fitness_and_summary() {
    let mut ga = GeneticAlgorithm::new(
        3,
        MaxOnesConfig::new(
            4,
            BinaryBitMutation::new(1, 50),
            BinaryNPointBitCrossover::new(2),
        ),
        RankBasedSelection::new(2),
    );
    assert_eq!(ga.render(), "");

    ga.start();
    ga.evaluate();

    // Rebuild the expected text from the observed individuals.
    let mut expected = String::from("Population:\n");
    let mut best: Option<i64> = None;
    let mut sum: i64 = 0;
    let mut num: i64 = 0;
    {
        let population = ga.population().unwrap();
        for i in 0..population.size() {
            let individual = population.get(i);
            let fitness = individual.fitness().unwrap();
            expected.push_str(&individual.chromosome().text());
            expected.push_str(" fitness = ");
            expected.push_str(&fitness.to_string());
            expected.push('\n');
            sum += fitness;
            num += 1;
            best = Some(best.map_or(fitness, |b| b.max(fitness)));
        }
    }
    expected.push_str(&format!("best = {}, avg. = {}", best.unwrap(), sum / num));
    assert_eq!(ga.render(), expected);
}

#[test]
fn decimal_rendering_is_exact() {
    assert_eq!(i64_to_string(0), "0");
    assert_eq!(i64_to_string(7), "7");
    assert_eq!(i64_to_string(-1), "-1");
    assert_eq!(i64_to_string(1234567890), "1234567890");
    assert_eq!(i64_to_string(-987654), "-987654");
    assert_eq!(i64_to_string(i64::MAX), "9223372036854775807");
    assert_eq!(i64_to_string(i64::MIN), "-9223372036854775808");
}
