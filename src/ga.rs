//! Genetic algorithm: chromosomes, fitness-proportionate selection, uniform
//! crossover, and the engine that turns one population into the next.
use crate::rng::{choose_weighted_key, flip_coin, index_below, total};
use rand_chacha::ChaCha8Rng;
use vstd::prelude::*;

verus! {

/// Why a genetic operation was refused.
#[derive(Clone, Copy, Debug, PartialEq, Eq)]
pub enum GaError {
    /// Selection or evolution was asked of an empty population.
    EmptyPopulation,
    /// Two parents of different lengths were to be crossed.
    ChromosomeLengthMismatch,
    /// A strategy was built with parameters outside their range.
    InvalidParameters,
}

/// A genome: an ordered sequence of genes whose length is fixed once built.
#[derive(Clone, Debug, PartialEq)]
pub struct Chromosome<G> {
    genes: Vec<G>,
}

impl<G> View for Chromosome<G> {
    type V = Seq<G>;

    closed spec fn view(&self) -> Seq<G> {
        self.genes@
    }
}

impl<G: Copy> Chromosome<G> {
    pub fn new(genes: Vec<G>) -> (r: Chromosome<G>)
        ensures
            r@ == genes@,
    {
        Chromosome { genes }
    }

    pub fn len(&self) -> (r: usize)
        ensures
            r == self@.len(),
    {
        self.genes.len()
    }

    pub fn is_empty(&self) -> (r: bool)
        ensures
            r <==> self@.len() == 0,
    {
        self.genes.len() == 0
    }

    pub fn get(&self, index: usize) -> (r: G)
        requires
            index < self@.len(),
        ensures
            r == self@[index as int],
    {
        self.genes[index]
    }

    /// Replaces one gene; the length stays as it was.
    pub fn set(&mut self, index: usize, gene: G)
        requires
            index < old(self)@.len(),
        ensures
            final(self)@ == old(self)@.update(index as int, gene),
    {
        self.genes.set(index, gene);
    }

    pub fn genes(&self) -> (r: &Vec<G>)
        ensures
            r@ == self@,
    {
        &self.genes
    }

    pub fn into_genes(self) -> (r: Vec<G>)
        ensures
            r@ == self@,
    {
        self.genes
    }
}

/// Fitness-proportionate selection: an individual is picked with probability
/// proportional to its share of the population's total fitness.
#[derive(Clone, Copy, Debug)]
pub struct RouletteWheelSelection;

/// A way of picking one member of a population by its fitness.
pub trait SelectionMethod {
    /// `i` is an index this method may pick among the fitness values
    /// `fitness`. Unless an implementation states more, any index in range.
    open spec fn selectable(&self, fitness: Seq<u64>, i: int) -> bool {
        0 <= i < fitness.len()
    }

    /// Picks the index of one member; fails only on an empty population.
    fn select(&self, rng: &mut ChaCha8Rng, fitness: &Vec<u64>) -> (r: Result<usize, GaError>)
        requires
            total(fitness@) <= u64::MAX,
        ensures
            r is Err <==> fitness@.len() == 0,
            r is Err ==> r->Err_0 == GaError::EmptyPopulation,
            r is Ok ==> r->Ok_0 < fitness@.len() && self.selectable(fitness@, r->Ok_0 as int),
    ;
}

impl SelectionMethod for RouletteWheelSelection {
    /// An index in range, of nonzero fitness unless every fitness is zero.
    open spec fn selectable(&self, fitness: Seq<u64>, i: int) -> bool {
        &&& 0 <= i < fitness.len()
        &&& total(fitness) > 0 ==> fitness[i] > 0
    }

    /// Picks by fitness; where every fitness is zero, each index is equally
    /// likely instead.
    fn select(&self, rng: &mut ChaCha8Rng, fitness: &Vec<u64>) -> (r: Result<usize, GaError>) {
        let n = fitness.len();
        if n == 0 {
            return Err(GaError::EmptyPopulation);
        }
        let mut entries: Vec<(usize, u64)> = Vec::new();
        let mut k: usize = 0;
        while k < n
            invariant
                k <= n,
                n == fitness@.len(),
                entries@.len() == k,
                forall|q: int| 0 <= q < k ==> #[trigger] entries@[q] == (q as usize, fitness@[q]),
            decreases n - k,
        {
            entries.push((k, fitness[k]));
            k = k + 1;
        }
        assert(entries@.map_values(|e: (usize, u64)| e.1) =~= fitness@);
        match choose_weighted_key(rng, &entries) {
            Some(i) => Ok(i),
            None => Ok(index_below(rng, n)),
        }
    }
}


/// The child of `a` and `b` under the coin flips `coins`: gene `i` from `a`
/// where `coins[i]` is true, from `b` otherwise.
pub open spec fn crossed<G>(a: Seq<G>, b: Seq<G>, coins: Seq<bool>) -> Seq<G> {
    Seq::new(coins.len(), |i: int| if coins[i] { a[i] } else { b[i] })
}

/// Uniform crossover: each gene of the child comes from one parent or the
/// other, one fair coin flip per gene.
#[derive(Clone, Copy, Debug)]
pub struct UniformCrossover;

/// A way of combining two parents into a child.
pub trait CrossoverMethod<G> {
    /// `child` is a possible outcome of crossing `a` with `b`. Unless an
    /// implementation states more, any sequence of their length.
    open spec fn crossed_from(&self, a: Seq<G>, b: Seq<G>, child: Seq<G>) -> bool {
        child.len() == a.len()
    }

    /// Crosses two parents; fails exactly when their lengths differ.
    fn crossover(
        &self,
        rng: &mut ChaCha8Rng,
        parent_a: &Chromosome<G>,
        parent_b: &Chromosome<G>,
    ) -> (r: Result<Chromosome<G>, GaError>)
        ensures
            r is Err <==> parent_a@.len() != parent_b@.len(),
            r is Err ==> r->Err_0 == GaError::ChromosomeLengthMismatch,
            r is Ok ==> r->Ok_0@.len() == parent_a@.len() && self.crossed_from(
                parent_a@,
                parent_b@,
                r->Ok_0@,
            ),
    ;
}

impl<G: Copy> CrossoverMethod<G> for UniformCrossover {
    /// `child` takes each gene from `a` or `b` as some coin flips say.
    open spec fn crossed_from(&self, a: Seq<G>, b: Seq<G>, child: Seq<G>) -> bool {
        exists|coins: Seq<bool>| coins.len() == a.len() && #[trigger] crossed(a, b, coins) == child
    }

    /// One coin flip per gene, in gene order.
    fn crossover(
        &self,
        rng: &mut ChaCha8Rng,
        parent_a: &Chromosome<G>,
        parent_b: &Chromosome<G>,
    ) -> (r: Result<Chromosome<G>, GaError>) {
        let n = parent_a.len();
        if n != parent_b.len() {
            return Err(GaError::ChromosomeLengthMismatch);
        }
        let mut coins: Vec<bool> = Vec::new();
        let mut i: usize = 0;
        while i < n
            invariant
                i <= n,
                coins@.len() == i,
            decreases n - i,
        {
            coins.push(flip_coin(rng));
            i = i + 1;
        }
        let child = self.cross_by_coins(parent_a, parent_b, &coins);
        assert(coins@.len() == parent_a@.len() && crossed(parent_a@, parent_b@, coins@) == child@);
        Ok(child)
    }
}

impl UniformCrossover {
    /// The child that a given run of coin flips makes: gene `i` comes from
    /// `parent_a` where `coins[i]` is true, from `parent_b` otherwise.
    pub fn cross_by_coins<G: Copy>(
        &self,
        parent_a: &Chromosome<G>,
        parent_b: &Chromosome<G>,
        coins: &Vec<bool>,
    ) -> (r: Chromosome<G>)
        requires
            parent_a@.len() == parent_b@.len(),
            coins@.len() == parent_a@.len(),
        ensures
            r@.len() == parent_a@.len(),
            forall|i: int|
                0 <= i < parent_a@.len() ==> #[trigger] r@[i] == if coins@[i] {
                    parent_a@[i]
                } else {
                    parent_b@[i]
                },
            r@ == crossed(parent_a@, parent_b@, coins@),
    {
        let n = parent_a.len();
        let mut genes: Vec<G> = Vec::new();
        let mut i: usize = 0;
        while i < n
            invariant
                i <= n,
                n == parent_a@.len(),
                n == parent_b@.len(),
                n == coins@.len(),
                genes@.len() == i,
                forall|q: int|
                    0 <= q < i ==> #[trigger] genes@[q] == if coins@[q] {
                        parent_a@[q]
                    } else {
                        parent_b@[q]
                    },
            decreases n - i,
        {
            if coins[i] {
                genes.push(parent_a.get(i));
            } else {
                genes.push(parent_b.get(i));
            }
            i = i + 1;
        }
        let r = Chromosome::new(genes);
        assert(r@ =~= crossed(parent_a@, parent_b@, coins@));
        r
    }
}

/// A way of perturbing a child's genes after crossover.
pub trait MutationMethod<G> {
    /// What this mutation may make of the genes `before`: `after` is one of
    /// its possible outcomes. Unless an implementation states more, any
    /// sequence of the same length.
    open spec fn mutated(&self, before: Seq<G>, after: Seq<G>) -> bool {
        before.len() == after.len()
    }

    /// Changes genes of `child` in place; the number of genes stays.
    fn mutate(&self, rng: &mut ChaCha8Rng, child: &mut Chromosome<G>)
        ensures
            final(child)@.len() == old(child)@.len(),
            self.mutated(old(child)@, final(child)@),
    ;
}

/// `child` is what an engine with these strategies can make from members `a`
/// and `b` of a population whose genomes are `genomes` and whose fitness
/// values are `fitness`: the selection may pick both, they have one length,
/// `pre` is a possible crossing of the two, and `child` a possible mutation of
/// `pre`.
pub open spec fn made_from<G, S: SelectionMethod, C: CrossoverMethod<G>, M: MutationMethod<G>>(
    selection: S,
    crossover: C,
    mutation: M,
    genomes: Seq<Seq<G>>,
    fitness: Seq<u64>,
    a: int,
    b: int,
    pre: Seq<G>,
    child: Seq<G>,
) -> bool {
    &&& 0 <= a < genomes.len()
    &&& 0 <= b < genomes.len()
    &&& selection.selectable(fitness, a)
    &&& selection.selectable(fitness, b)
    &&& genomes[a].len() == genomes[b].len()
    &&& pre.len() == genomes[a].len()
    &&& crossover.crossed_from(genomes[a], genomes[b], pre)
    &&& child.len() == pre.len()
    &&& mutation.mutated(pre, child)
}

/// `child` is what an engine with these strategies can make from some two
/// members of the population.
pub open spec fn engine_child<G, S: SelectionMethod, C: CrossoverMethod<G>, M: MutationMethod<G>>(
    selection: S,
    crossover: C,
    mutation: M,
    genomes: Seq<Seq<G>>,
    fitness: Seq<u64>,
    child: Seq<G>,
) -> bool {
    exists|a: int, b: int, pre: Seq<G>|
        #[trigger] made_from(selection, crossover, mutation, genomes, fitness, a, b, pre, child)
}

/// The genes of each chromosome.
pub open spec fn genomes<G>(population: Seq<Chromosome<G>>) -> Seq<Seq<G>> {
    population.map_values(|c: Chromosome<G>| c@)
}

/// `m` is the smallest of `s`, and occurs in it.
pub open spec fn is_min_of(m: u64, s: Seq<u64>) -> bool {
    &&& exists|k: int| 0 <= k < s.len() && s[k] == m
    &&& forall|k: int| 0 <= k < s.len() ==> m <= #[trigger] s[k]
}

/// `m` is the largest of `s`, and occurs in it.
pub open spec fn is_max_of(m: u64, s: Seq<u64>) -> bool {
    &&& exists|k: int| 0 <= k < s.len() && s[k] == m
    &&& forall|k: int| 0 <= k < s.len() ==> #[trigger] s[k] <= m
}

/// Fitness summary of a population, taken before it is replaced.
#[derive(Clone, Copy, Debug, PartialEq, Eq)]
pub struct Statistics {
    pub min_fitness: u64,
    pub max_fitness: u64,
    pub total_fitness: u64,
    pub population_size: usize,
}

impl Statistics {
    /// These statistics are those of the fitness values `s`.
    pub open spec fn describes(self, s: Seq<u64>) -> bool {
        &&& self.population_size == s.len()
        &&& self.total_fitness == total(s)
        &&& is_min_of(self.min_fitness, s)
        &&& is_max_of(self.max_fitness, s)
    }

    pub fn new(fitness: &Vec<u64>) -> (r: Statistics)
        requires
            fitness@.len() > 0,
            total(fitness@) <= u64::MAX,
        ensures
            r.describes(fitness@),
    {
        let n = fitness.len();
        let mut min_fitness = fitness[0];
        let mut max_fitness = fitness[0];
        let mut sum: u64 = 0;
        let mut k: usize = 0;
        proof {
            assert(fitness@.take(0) =~= Seq::<u64>::empty());
        }
        while k < n
            invariant
                n == fitness@.len(),
                0 < n,
                k <= n,
                total(fitness@) <= u64::MAX,
                sum == total(fitness@.take(k as int)),
                k > 0 ==> is_min_of(min_fitness, fitness@.take(k as int)),
                k > 0 ==> is_max_of(max_fitness, fitness@.take(k as int)),
                k == 0 ==> min_fitness == fitness@[0] && max_fitness == fitness@[0],
            decreases n - k,
        {
            let f = fitness[k];
            proof {
                assert(fitness@.take(k + 1).drop_last() =~= fitness@.take(k as int));
                lemma_total_prefix(fitness@, k + 1);
            }
            if f < min_fitness {
                min_fitness = f;
            }
            if f > max_fitness {
                max_fitness = f;
            }
            sum = sum + f;
            k = k + 1;
            proof {
                let s = fitness@.take(k as int);
                let prev = fitness@.take(k - 1);
                assert(s[k - 1] == f);
                assert forall|q: int| 0 <= q < k implies min_fitness <= #[trigger] s[q] && s[q]
                    <= max_fitness by {
                    if q < k - 1 {
                        assert(s[q] == prev[q]);
                    }
                }
                if min_fitness == f {
                    assert(s[k - 1] == min_fitness);
                } else {
                    let w = choose|w: int| 0 <= w < prev.len() && #[trigger] prev[w] == min_fitness;
                    assert(s[w] == min_fitness);
                }
                if max_fitness == f {
                    assert(s[k - 1] == max_fitness);
                } else {
                    let w = choose|w: int| 0 <= w < prev.len() && #[trigger] prev[w] == max_fitness;
                    assert(s[w] == max_fitness);
                }
            }
        }
        assert(fitness@.take(n as int) =~= fitness@);
        Statistics { min_fitness, max_fitness, total_fitness: sum, population_size: n }
    }

    /// The average fitness, rounded down.
    pub fn avg_fitness(&self) -> (r: u64)
        requires
            self.population_size > 0,
        ensures
            r == (self.total_fitness as int) / (self.population_size as int),
    {
        self.total_fitness / (self.population_size as u64)
    }
}

proof fn lemma_total_prefix(s: Seq<u64>, k: int)
    requires
        0 <= k <= s.len(),
    ensures
        total(s.take(k)) <= total(s),
        total(s.take(k)) >= 0,
    decreases s.len() - k,
{
    if k == s.len() {
        assert(s.take(k) =~= s);
        lemma_total_nonneg(s);
    } else {
        lemma_total_prefix(s, k + 1);
        assert(s.take(k + 1).drop_last() =~= s.take(k));
        lemma_total_nonneg(s.take(k));
    }
}

proof fn lemma_total_nonneg(s: Seq<u64>)
    ensures
        total(s) >= 0,
    decreases s.len(),
{
    if s.len() > 0 {
        lemma_total_nonneg(s.drop_last());
    }
}


/// Every chromosome of the population has `len` genes.
pub open spec fn all_of_length<G>(population: Seq<Chromosome<G>>, len: nat) -> bool {
    forall|i: int| 0 <= i < population.len() ==> (#[trigger] population[i])@.len() == len
}

/// The engine of one generational step: selection, crossover and mutation,
/// fixed at construction.
pub struct GeneticAlgorithm<S, C, M> {
    selection_method: S,
    crossover_method: C,
    mutation_method: M,
}

impl<S, C, M> GeneticAlgorithm<S, C, M> {
    /// The selection strategy the engine picks parents with.
    pub closed spec fn selection(&self) -> S {
        self.selection_method
    }

    /// The crossover strategy the engine combines parents with.
    pub closed spec fn crossover(&self) -> C {
        self.crossover_method
    }

    /// The mutation strategy the engine applies to every child.
    pub closed spec fn mutation(&self) -> M {
        self.mutation_method
    }

    pub fn new(
        selection_method: S,
        crossover_method: C,
        mutation_method: M,
    ) -> (r: GeneticAlgorithm<S, C, M>)
        ensures
            r.selection() == selection_method,
            r.crossover() == crossover_method,
            r.mutation() == mutation_method,
    {
        GeneticAlgorithm { selection_method, crossover_method, mutation_method }
    }

    /// Builds the next population from `population`, whose members have the
    /// fitness values `fitness`, and summarises the fitness of the input. Each
    /// child is made, in this order of draws, by selecting two parents,
    /// crossing them and mutating the result.
    pub fn evolve<G: Copy>(
        &self,
        rng: &mut ChaCha8Rng,
        population: &Vec<Chromosome<G>>,
        fitness: &Vec<u64>,
    ) -> (r: Result<(Vec<Chromosome<G>>, Statistics), GaError>) where
        S: SelectionMethod,
        C: CrossoverMethod<G>,
        M: MutationMethod<G>,

        requires
            population@.len() == fitness@.len(),
            total(fitness@) <= u64::MAX,
        ensures
            r == Err::<(Vec<Chromosome<G>>, Statistics), GaError>(GaError::EmptyPopulation)
                <==> population@.len() == 0,
            forall|len: nat|
                population@.len() > 0 && #[trigger] all_of_length(population@, len) ==> r is Ok
                    && all_of_length(r->Ok_0.0@, len),
            r is Err ==> r->Err_0 == GaError::EmptyPopulation || r->Err_0
                == GaError::ChromosomeLengthMismatch,
            r == Err::<(Vec<Chromosome<G>>, Statistics), GaError>(
                GaError::ChromosomeLengthMismatch,
            ) ==> exists|a: int, b: int|
                0 <= a < population@.len() && 0 <= b < population@.len() && (
                #[trigger] population@[a])@.len() != (#[trigger] population@[b])@.len(),
            population@.len() == 0 ==> *final(rng) == *old(rng),
            r is Ok ==> r->Ok_0.0@.len() == population@.len() && r->Ok_0.1.describes(fitness@),
            r is Ok ==> forall|k: int|
                0 <= k < population@.len() ==> engine_child(
                    self.selection(),
                    self.crossover(),
                    self.mutation(),
                    genomes(population@),
                    fitness@,
                    #[trigger] r->Ok_0.0@[k]@,
                ),
    {
        let n = population.len();
        if n == 0 {
            return Err(GaError::EmptyPopulation);
        }
        let stats = Statistics::new(fitness);
        let mut next: Vec<Chromosome<G>> = Vec::new();
        let mut i: usize = 0;
        while i < n
            invariant
                i <= n,
                n == population@.len(),
                n == fitness@.len(),
                total(fitness@) <= u64::MAX,
                next@.len() == i,
                forall|len: nat|
                    all_of_length(population@, len) ==> #[trigger] all_of_length(next@, len),
                forall|q: int|
                    0 <= q < i ==> engine_child(
                        self.selection(),
                        self.crossover(),
                        self.mutation(),
                        genomes(population@),
                        fitness@,
                        #[trigger] next@[q]@,
                    ),
            decreases n - i,
        {
            let a = match self.selection_method.select(rng, fitness) {
                Ok(a) => a,
                Err(e) => {
                    return Err(e);
                },
            };
            let b = match self.selection_method.select(rng, fitness) {
                Ok(b) => b,
                Err(e) => {
                    return Err(e);
                },
            };
            let mut child = match self.crossover_method.crossover(
                rng,
                &population[a],
                &population[b],
            ) {
                Ok(c) => c,
                Err(e) => {
                    assert(forall|len: nat| !all_of_length(population@, len));
                    assert(population@[a as int]@.len() != population@[b as int]@.len());
                    return Err(e);
                },
            };
            let ghost pre = child@;
            self.mutation_method.mutate(rng, &mut child);
            let ghost before = next@;
            next.push(child);
            proof {
                let gs = genomes(population@);
                assert(gs[a as int] == population@[a as int]@);
                assert(gs[b as int] == population@[b as int]@);
                assert forall|q: int| 0 <= q < i + 1 implies engine_child(
                    self.selection(),
                    self.crossover(),
                    self.mutation(),
                    genomes(population@),
                    fitness@,
                    #[trigger] next@[q]@,
                ) by {
                    if q < i {
                        assert(next@[q] == before[q]);
                    } else {
                        assert(made_from(
                            self.selection(),
                            self.crossover(),
                            self.mutation(),
                            genomes(population@),
                            fitness@,
                            a as int,
                            b as int,
                            pre,
                            next@[q]@,
                        ));
                    }
                }
            }
            proof {
                assert forall|len: nat| all_of_length(population@, len) implies #[trigger] all_of_length(
                    next@,
                    len,
                ) by {
                    assert(population@[a as int]@.len() == len);
                    assert(all_of_length(before, len));
                    assert forall|q: int| 0 <= q < next@.len() implies (#[trigger] next@[q])@.len()
                        == len by {
                        if q < before.len() {
                            assert(next@[q] == before[q]);
                        }
                    }
                }
            }
            i = i + 1;
        }
        Ok((next, stats))
    }
}

/// The average fitness lies between the smallest and the largest:
/// `min * size <= total <= max * size`, so the rounded-down average is within
/// the same bounds.
pub proof fn lemma_average_within_bounds(stats: Statistics, fitness: Seq<u64>)
    requires
        fitness.len() > 0,
        stats.describes(fitness),
    ensures
        stats.min_fitness * fitness.len() <= stats.total_fitness,
        stats.total_fitness <= stats.max_fitness * fitness.len(),
        stats.min_fitness <= (stats.total_fitness as int) / (stats.population_size as int),
        (stats.total_fitness as int) / (stats.population_size as int) <= stats.max_fitness,
{
    lemma_total_bounds(fitness, stats.min_fitness, stats.max_fitness);
    let n = fitness.len() as int;
    let t = stats.total_fitness as int;
    let lo = stats.min_fitness as int;
    let hi = stats.max_fitness as int;
    assert(lo <= t / n) by (nonlinear_arith)
        requires
            lo * n <= t,
            n > 0,
    ;
    assert(t / n <= hi) by (nonlinear_arith)
        requires
            t <= hi * n,
            n > 0,
            t >= 0,
    ;
}

proof fn lemma_total_bounds(s: Seq<u64>, lo: u64, hi: u64)
    requires
        forall|k: int| 0 <= k < s.len() ==> lo <= #[trigger] s[k] <= hi,
    ensures
        lo * s.len() <= total(s) <= hi * s.len(),
    decreases s.len(),
{
    if s.len() > 0 {
        let d = s.drop_last();
        assert forall|k: int| 0 <= k < d.len() implies lo <= #[trigger] d[k] <= hi by {
            assert(d[k] == s[k]);
        }
        lemma_total_bounds(d, lo, hi);
        assert(lo * s.len() == lo * d.len() + lo) by (nonlinear_arith)
            requires
                s.len() == d.len() + 1,
        ;
        assert(hi * s.len() == hi * d.len() + hi) by (nonlinear_arith)
            requires
                s.len() == d.len() + 1,
        ;
    }
}

} // verus!
