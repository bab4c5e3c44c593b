use evolution::ga::{
    Chromosome, CrossoverMethod, GaError, GeneticAlgorithm, MutationMethod,
    RouletteWheelSelection, SelectionMethod, Statistics, UniformCrossover,
};
use rand::SeedableRng;
use rand_chacha::ChaCha8Rng;

fn rng() -> ChaCha8Rng {
    ChaCha8Rng::from_seed(Default::default())
}

fn chromosome(genes: &[f32]) -> Chromosome<f32> {
    Chromosome::new(genes.to_vec())
}

/// Leaves every gene as it is.
struct KeepGenes;

impl MutationMethod<f32> for KeepGenes {
    fn mutate(&self, _rng: &mut ChaCha8Rng, _child: &mut Chromosome<f32>) {}
}

/// Adds one to every gene.
struct AddOne;

impl MutationMethod<f32> for AddOne {
    fn mutate(&self, _rng: &mut ChaCha8Rng, child: &mut Chromosome<f32>) {
        for i in 0..child.len() {
            let g = child.get(i);
            child.set(i, g + 1.0);
        }
    }
}

#[test]
fn chromosome_indexing() {
    let mut c = chromosome(&[3.0, 1.0, 2.0]);
    assert_eq!(c.len(), 3);
    assert!(!c.is_empty());
    assert_eq!(c.get(0), 3.0);
    c.set(1, 5.0);
    assert_eq!(c.genes(), &vec![3.0, 5.0, 2.0]);
    assert_eq!(c.into_genes(), vec![3.0, 5.0, 2.0]);
    assert!(chromosome(&[]).is_empty());
}

#[test]
fn selection_frequency_follows_fitness() {
    let mut rng = rng();
    let fitness: Vec<u64> = vec![2, 1, 4, 3];
    let draws = 20_000;
    let mut counts = [0usize; 4];
    for _ in 0..draws {
        let i = RouletteWheelSelection.select(&mut rng, &fitness).unwrap();
        counts[i] += 1;
    }
    let total: u64 = fitness.iter().sum();
    for i in 0..4 {
        let expected = fitness[i] as f64 / total as f64;
        let actual = counts[i] as f64 / draws as f64;
        assert!((expected - actual).abs() < 0.02, "index {i}: {actual} vs {expected}");
    }
}

#[test]
fn selection_never_picks_zero_fitness() {
    let mut rng = rng();
    let fitness: Vec<u64> = vec![0, 0, 5, 0];
    for _ in 0..200 {
        assert_eq!(RouletteWheelSelection.select(&mut rng, &fitness), Ok(2));
    }
}

#[test]
fn selection_with_all_zero_fitness_is_uniform() {
    let mut rng = rng();
    let fitness: Vec<u64> = vec![0, 0, 0];
    let mut counts = [0usize; 3];
    for _ in 0..3000 {
        counts[RouletteWheelSelection.select(&mut rng, &fitness).unwrap()] += 1;
    }
    for c in counts {
        assert!(c > 800 && c < 1200, "{counts:?}");
    }
}

#[test]
fn selection_of_empty_population_fails() {
    let mut rng = rng();
    let fitness: Vec<u64> = vec![];
    assert_eq!(
        RouletteWheelSelection.select(&mut rng, &fitness),
        Err(GaError::EmptyPopulation)
    );
}

#[test]
fn crossover_takes_each_gene_from_a_parent() {
    let mut rng = rng();
    let a = chromosome(&[1.0; 100]);
    let b = chromosome(&[0.0; 100]);
    let child = UniformCrossover.crossover(&mut rng, &a, &b).unwrap();
    assert_eq!(child.len(), 100);
    let genes = child.into_genes();
    assert!(genes.iter().all(|&g| g == 0.0 || g == 1.0));
    let ones = genes.iter().filter(|&&g| g == 1.0).count();
    assert!(ones > 25 && ones < 75, "{ones}");
}

#[test]
fn crossover_of_four_genes() {
    let mut rng = rng();
    let a = chromosome(&[1.0, 1.0, 1.0, 1.0]);
    let b = chromosome(&[0.0, 0.0, 0.0, 0.0]);
    for _ in 0..20 {
        let child = UniformCrossover.crossover(&mut rng, &a, &b).unwrap();
        assert_eq!(child.len(), 4);
        assert!(child.genes().iter().all(|&g| g == 0.0 || g == 1.0));
    }
}

#[test]
fn crossover_rejects_parents_of_different_lengths() {
    let mut rng = rng();
    let a = chromosome(&[1.0, 1.0, 1.0]);
    let b = chromosome(&[0.0, 0.0]);
    assert_eq!(
        UniformCrossover.crossover(&mut rng, &a, &b),
        Err(GaError::ChromosomeLengthMismatch)
    );
}

#[test]
fn statistics_of_a_population() {
    let stats = Statistics::new(&vec![3, 9, 1, 4]);
    assert_eq!(stats.min_fitness, 1);
    assert_eq!(stats.max_fitness, 9);
    assert_eq!(stats.total_fitness, 17);
    assert_eq!(stats.population_size, 4);
    assert_eq!(stats.avg_fitness(), 4);
    assert!(stats.min_fitness <= stats.avg_fitness() && stats.avg_fitness() <= stats.max_fitness);
}

#[test]
fn statistics_of_one_individual() {
    let stats = Statistics::new(&vec![7]);
    assert_eq!((stats.min_fitness, stats.max_fitness, stats.avg_fitness()), (7, 7, 7));
}

#[test]
fn evolve_keeps_population_size() {
    let mut rng = rng();
    let ga = GeneticAlgorithm::new(RouletteWheelSelection, UniformCrossover, KeepGenes);
    let population = vec![
        chromosome(&[0.0, 0.0, 0.0]),
        chromosome(&[1.0, 1.0, 1.0]),
        chromosome(&[1.0, 2.0, 1.0]),
        chromosome(&[1.0, 2.0, 4.0]),
    ];
    let fitness = vec![0, 1, 2, 3];
    let (next, stats) = ga.evolve(&mut rng, &population, &fitness).unwrap();
    assert_eq!(next.len(), 4);
    assert!(next.iter().all(|c| c.len() == 3));
    // the first individual has no fitness: no gene of a child can be its 0.0
    // unless another parent holds it at that index, and none does
    assert!(next.iter().all(|c| c.get(0) == 1.0));
    assert_eq!(stats, Statistics::new(&fitness));
    assert_eq!(stats.avg_fitness(), 1);
}

#[test]
fn evolve_applies_the_mutation() {
    let mut rng = rng();
    let ga = GeneticAlgorithm::new(RouletteWheelSelection, UniformCrossover, AddOne);
    let population = vec![chromosome(&[1.0, 1.0]), chromosome(&[1.0, 1.0])];
    let (next, _) = ga.evolve(&mut rng, &population, &vec![1, 1]).unwrap();
    assert!(next.iter().all(|c| c.genes() == &vec![2.0, 2.0]));
}

#[test]
fn evolve_of_empty_population_fails() {
    let mut rng = rng();
    let ga = GeneticAlgorithm::new(RouletteWheelSelection, UniformCrossover, KeepGenes);
    let population: Vec<Chromosome<f32>> = vec![];
    assert_eq!(
        ga.evolve(&mut rng, &population, &vec![]).unwrap_err(),
        GaError::EmptyPopulation
    );
}

#[test]
fn evolve_is_reproducible_from_a_seed() {
    let ga = GeneticAlgorithm::new(RouletteWheelSelection, UniformCrossover, KeepGenes);
    let population: Vec<Chromosome<f32>> = (0..6)
        .map(|i| chromosome(&[i as f32, 10.0 + i as f32, 20.0 + i as f32]))
        .collect();
    let fitness = vec![5, 0, 3, 8, 1, 2];
    let run = |seed: u64| {
        let mut rng = ChaCha8Rng::seed_from_u64(seed);
        let mut pop = population.clone();
        let mut all_stats = vec![];
        for _ in 0..5 {
            let (next, stats) = ga.evolve(&mut rng, &pop, &fitness).unwrap();
            pop = next;
            all_stats.push(stats);
        }
        (pop, all_stats)
    };
    assert_eq!(run(42), run(42));
}

#[test]
fn crossing_by_given_coins() {
    let a = chromosome(&[1.0, 2.0, 3.0, 4.0]);
    let b = chromosome(&[-1.0, -2.0, -3.0, -4.0]);
    let child = UniformCrossover.cross_by_coins(&a, &b, &vec![true, false, false, true]);
    assert_eq!(child.into_genes(), vec![1.0, -2.0, -3.0, 4.0]);
}

#[test]
fn roulette_wheel_selection() {
    let mut rng = ChaCha8Rng::from_seed(Default::default());
    let population: Vec<u64> = vec![2, 1, 4, 3];
    let mut actual_histogram = std::collections::BTreeMap::new();
    for _ in 0..1000 {
        let i = RouletteWheelSelection.select(&mut rng, &population).unwrap();
        *actual_histogram.entry(population[i] as i32).or_insert(0) += 1;
    }
    let expected_histogram = std::collections::BTreeMap::from_iter([(1, 98), (2, 191), (3, 280), (4, 431)]);
    assert_eq!(actual_histogram, expected_histogram);
}

#[test]
fn evolving_nothing_draws_nothing() {
    let mut rng = rng();
    let before = rng.clone();
    let ga = GeneticAlgorithm::new(RouletteWheelSelection, UniformCrossover, KeepGenes);
    let population: Vec<Chromosome<f32>> = vec![];
    assert!(ga.evolve(&mut rng, &population, &vec![]).is_err());
    assert_eq!(rng, before);
}
