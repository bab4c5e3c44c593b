//! The parts of the simulation loop that do not depend on geometry: when a
//! generation ends, and how one generation's brains become the next.
use crate::brain::{brain_topology, Brain};
use crate::ga::{
    all_of_length, engine_child, genomes, Chromosome, CrossoverMethod, GaError, GeneticAlgorithm,
    MutationMethod, SelectionMethod, Statistics,
};
use crate::network::{lemma_flat_len, network_flat, network_shaped, param_count};
use crate::rng::total;
use rand_chacha::ChaCha8Rng;
use vstd::prelude::*;

verus! {

/// Steps a generation lasts before the population is evolved.
pub const GENERATION_LIMIT: usize = 2500;

/// Counts the steps of the current generation.
#[derive(Clone, Copy, Debug)]
pub struct GenerationClock {
    age: usize,
}

impl GenerationClock {
    /// Steps taken since the last evolution.
    pub closed spec fn age_spec(&self) -> nat {
        self.age as nat
    }

    pub open spec fn wf(&self) -> bool {
        self.age_spec() <= GENERATION_LIMIT
    }

    pub fn new() -> (r: GenerationClock)
        ensures
            r.age_spec() == 0,
            r.wf(),
    {
        GenerationClock { age: 0 }
    }

    pub fn age(&self) -> (r: usize)
        ensures
            r == self.age_spec(),
    {
        self.age
    }

    /// Counts one step. Returns true when the step ends the generation: the age
    /// then passed the limit and starts again from zero.
    pub fn tick(&mut self) -> (evolve: bool)
        requires
            old(self).wf(),
        ensures
            final(self).wf(),
            evolve <==> old(self).age_spec() + 1 > GENERATION_LIMIT,
            evolve ==> final(self).age_spec() == 0,
            !evolve ==> final(self).age_spec() == old(self).age_spec() + 1,
    {
        self.age = self.age + 1;
        if self.age > GENERATION_LIMIT {
            self.age = 0;
            true
        } else {
            false
        }
    }
}


/// Every brain is shaped for an eye of `cells` cells.
pub open spec fn brains_shaped<W>(brains: Seq<Brain<W>>, cells: nat) -> bool {
    forall|i: int| 0 <= i < brains.len() ==> network_shaped(#[trigger] brains[i].nn, brain_topology(cells))
}

/// The genome of each brain: its network's weights in flat order.
pub open spec fn brain_genomes<W>(brains: Seq<Brain<W>>) -> Seq<Seq<W>> {
    brains.map_values(|b: Brain<W>| network_flat(b.nn))
}

/// One evolution of the agents' brains: each brain's genome, with its agent's
/// fitness, goes through the engine, and each evolved genome is read back into
/// a brain of the same shape: the `k`-th new brain's weights are the engine's
/// `k`-th child. Also returns the statistics of `fitness`.
pub fn evolve_brains<W: Copy, S: SelectionMethod, C: CrossoverMethod<W>, M: MutationMethod<W>>(
    ga: &GeneticAlgorithm<S, C, M>,
    rng: &mut ChaCha8Rng,
    brains: &Vec<Brain<W>>,
    fitness: &Vec<u64>,
    cells: usize,
) -> (r: Result<(Vec<Brain<W>>, Statistics), GaError>)
    requires
        cells <= usize::MAX / 2,
        brains@.len() == fitness@.len(),
        total(fitness@) <= u64::MAX,
        brains_shaped(brains@, cells as nat),
    ensures
        r is Err <==> brains@.len() == 0,
        r is Err ==> r->Err_0 == GaError::EmptyPopulation,
        brains@.len() == 0 ==> *final(rng) == *old(rng),
        r is Ok ==> r->Ok_0.0@.len() == brains@.len() && brains_shaped(r->Ok_0.0@, cells as nat)
            && r->Ok_0.1.describes(fitness@),
        r is Ok ==> forall|k: int|
            0 <= k < brains@.len() ==> engine_child(
                ga.selection(),
                ga.crossover(),
                ga.mutation(),
                brain_genomes(brains@),
                fitness@,
                network_flat(#[trigger] r->Ok_0.0@[k].nn),
            ),
{
    let ghost t = brain_topology(cells as nat);
    let ghost len = param_count(t);
    let n = brains.len();
    let mut population: Vec<Chromosome<W>> = Vec::new();
    let mut i: usize = 0;
    while i < n
        invariant
            i <= n,
            n == brains@.len(),
            t == brain_topology(cells as nat),
            len == param_count(t),
            brains_shaped(brains@, cells as nat),
            population@.len() == i,
            forall|q: int| 0 <= q < i ==> (#[trigger] population@[q])@.len() == len,
            forall|q: int| 0 <= q < i ==> (#[trigger] population@[q])@ == network_flat(brains@[q].nn),
        decreases n - i,
    {
        proof {
            lemma_flat_len(brains@[i as int].nn, t);
        }
        population.push(brains[i].as_chromosome());
        i = i + 1;
    }
    assert(all_of_length(population@, len));
    assert(genomes(population@) =~= brain_genomes(brains@));
    let (children, stats) = match ga.evolve(rng, &population, fitness) {
        Ok(p) => p,
        Err(e) => {
            return Err(e);
        },
    };
    let ghost all = children@;
    let mut next: Vec<Brain<W>> = Vec::new();
    let mut rest = children;
    while rest.len() > 0
        invariant
            next@.len() + rest@.len() == n,
            t == brain_topology(cells as nat),
            len == param_count(t),
            cells <= usize::MAX / 2,
            forall|q: int| 0 <= q < rest@.len() ==> (#[trigger] rest@[q])@.len() == len,
            brains_shaped(next@, cells as nat),
            all.len() == n,
            rest@ == all.subrange(next@.len() as int, n as int),
            forall|q: int| 0 <= q < next@.len() ==> network_flat(#[trigger] next@[q].nn) == all[q]@,
        decreases rest@.len(),
    {
        let ghost before = rest@;
        let child = rest.remove(0);
        assert(child == before[0]);
        assert forall|q: int| 0 <= q < rest@.len() implies (#[trigger] rest@[q])@.len() == len by {
            assert(rest@[q] == before[q + 1]);
        }
        match Brain::from_chromosome(child, cells) {
            Ok(brain) => {
                let ghost prev = next@;
                next.push(brain);
                assert(rest@ =~= all.subrange(next@.len() as int, n as int));
                assert forall|q: int| 0 <= q < next@.len() implies network_flat(
                    #[trigger] next@[q].nn,
                ) == all[q]@ by {
                    if q < prev.len() {
                        assert(next@[q] == prev[q]);
                    }
                }
                assert forall|q: int| 0 <= q < next@.len() implies network_shaped(
                    #[trigger] next@[q].nn,
                    t,
                ) by {
                    if q < prev.len() {
                        assert(next@[q] == prev[q]);
                    }
                }
            },
            Err(_) => {
                // every evolved genome has the topology's length
                assert(false);
            },
        }
    }
    assert forall|k: int| 0 <= k < n implies engine_child(
        ga.selection(),
        ga.crossover(),
        ga.mutation(),
        brain_genomes(brains@),
        fitness@,
        network_flat(#[trigger] next@[k].nn),
    ) by {
        assert(network_flat(next@[k].nn) == all[k]@);
    }
    Ok((next, stats))
}

} // verus!
