use evolutionary_alg::binary::{BinaryBitMutation, BinaryChromosome, BinaryNPointBitCrossover};
use evolutionary_alg::{Chromosome, Mutation, Recombination};

#[test]
fn creation_has_requested_length() {
    for _ in 0..10 {
        let chromosome = BinaryChromosome::new(20);
        let text = chromosome.text();
        assert_eq!(text.len(), 20);
        assert!(text.chars().all(|c| c == '0' || c == '1'));
        assert!(chromosome.count_ones() <= 20);
    }
}

// Each freshly drawn bit is a fair coin: over many bits about half are
// set, far within any reasonable tolerance.
#[test]
fn creation_draws_fair_bits() {
    let mut total_ones = 0;
    for _ in 0..10 {
        total_ones += BinaryChromosome::new(128).count_ones();
    }
    // Expected 640 out of 1280.
    assert!(total_ones > 480, "{} ones", total_ones);
    assert!(total_ones < 800, "{} ones", total_ones);
}

#[test]
fn zeroes_and_ones_render_exactly() {
    let z = BinaryChromosome::zeroes(8);
    assert_eq!(z.text(), "00000000");
    assert_eq!(z.count_ones(), 0);

    let o = BinaryChromosome::ones(5);
    assert_eq!(o.text(), "11111");
    assert_eq!(o.count_ones(), 5);

    let empty = BinaryChromosome::zeroes(0);
    assert_eq!(empty.text(), "");
    assert_eq!(empty.count_ones(), 0);
}

#[test]
fn duplicate_is_deep_and_equal() {
    let c = BinaryChromosome::new(40);
    let mut d = c.duplicate();
    assert_eq!(c.text(), d.text());

    // Mutating the copy must leave the original untouched.
    let before = c.text();
    let mutation = BinaryBitMutation::new(1, 2);
    mutation.mutate(&mut d);
    assert_eq!(c.text(), before);
}

// Over many trials, the total number of flipped bits converges to
// trials * length * probability.
#[test]
fn mutation_flip_count_matches_probability() {
    let len = 256;
    let chromosome = BinaryChromosome::zeroes(len);

    // Flip probability 1/10.
    let mutation = BinaryBitMutation::new(1, 10);
    let trials = 1000;
    let mut total_flipped = 0usize;
    for _ in 0..trials {
        let mut mutated = chromosome.duplicate();
        mutation.mutate(&mut mutated);
        assert_eq!(mutated.text().len(), len);
        total_flipped += mutated.count_ones();
    }
    // Expected 25600; the bound is far beyond ten standard deviations.
    assert!(total_flipped > 23600, "flipped {}", total_flipped);
    assert!(total_flipped < 27600, "flipped {}", total_flipped);
}

#[test]
fn crossover_child_length_and_weight_bounds() {
    let len = 100;
    let parent1 = BinaryChromosome::zeroes(len);
    let parent2 = BinaryChromosome::ones(len);

    for n in 1..=10 {
        let recombination = BinaryNPointBitCrossover::new(n);
        let child = recombination.recombine(&parent1, &parent2);
        let text = child.text();
        assert_eq!(text.len(), len);
        assert!(text.chars().all(|c| c == '0' || c == '1'));
        assert!(child.count_ones() <= len);
    }
}

// With one crossover point the child is parent 1's bits up to the point
// and parent 2's bits from there to the end: zeros, then ones.
#[test]
fn one_point_crossover_makes_one_boundary() {
    let len = 100;
    let parent1 = BinaryChromosome::zeroes(len);
    let parent2 = BinaryChromosome::ones(len);
    let recombination = BinaryNPointBitCrossover::new(1);

    for _ in 0..20 {
        let child = recombination.recombine(&parent1, &parent2);
        let text = child.text();
        let weight = child.count_ones();
        assert!(weight >= 1 && weight <= len - 1, "weight {}", weight);
        // No '1' may precede a '0'.
        let boundary = text.find('1').unwrap();
        assert!(text[..boundary].chars().all(|c| c == '0'));
        assert!(text[boundary..].chars().all(|c| c == '1'));
    }
}

// With two points the bits taken from parent 2 form one contiguous block
// strictly inside the child.
#[test]
fn two_point_crossover_makes_one_block() {
    let len = 100;
    let parent1 = BinaryChromosome::zeroes(len);
    let parent2 = BinaryChromosome::ones(len);
    let recombination = BinaryNPointBitCrossover::new(2);

    for _ in 0..20 {
        let child = recombination.recombine(&parent1, &parent2);
        let text = child.text();
        match text.find('1') {
            None => {
                // Both points coincided: the child is all parent 1.
                assert_eq!(child.count_ones(), 0);
            }
            Some(start) => {
                let block_len = text[start..].chars().take_while(|&c| c == '1').count();
                assert_eq!(child.count_ones(), block_len);
                assert!(text[start + block_len..].chars().all(|c| c == '0'));
            }
        }
    }
}

#[test]
fn text_parse_round_trip() {
    let c = BinaryChromosome::new(32);
    let text = c.text();
    let parsed = BinaryChromosome::parse(&text).expect("rendered text must parse");
    assert_eq!(parsed.text(), text);

    let parsed = BinaryChromosome::parse("0110").unwrap();
    assert_eq!(parsed.text(), "0110");
    assert_eq!(parsed.count_ones(), 2);

    let empty = BinaryChromosome::parse("").unwrap();
    assert_eq!(empty.text(), "");
}

#[test]
fn parse_rejects_other_characters() {
    assert!(BinaryChromosome::parse("01x0").is_none());
    assert!(BinaryChromosome::parse(" 01").is_none());
    assert!(BinaryChromosome::parse("2").is_none());
}
