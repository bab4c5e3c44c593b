//! An agent's brain: a network whose shape follows from how many cells its eye
//! has, and whose weights are the agent's genome.
use crate::ga::Chromosome;
use crate::network::{
    network_flat, network_shaped, param_count, LayerTopology, Network, NetworkError,
};
use vstd::prelude::*;

verus! {

/// Input width `cells`, one hidden layer twice as wide, two outputs (speed
/// change and rotation change).
pub open spec fn brain_topology(cells: nat) -> Seq<LayerTopology> {
    seq![
        LayerTopology { neurons: cells as usize },
        LayerTopology { neurons: (2 * cells) as usize },
        LayerTopology { neurons: 2 },
    ]
}

/// Decides how an agent turns and speeds up from what its eye sees.
#[derive(Clone, Debug)]
pub struct Brain<W> {
    pub nn: Network<W>,
}

impl<W: Copy> Brain<W> {
    /// The layer widths of a brain fed by an eye of `cells` cells.
    pub fn topology(cells: usize) -> (r: Vec<LayerTopology>)
        requires
            cells <= usize::MAX / 2,
        ensures
            r@ == brain_topology(cells as nat),
    {
        let r = vec![
            LayerTopology { neurons: cells },
            LayerTopology { neurons: 2 * cells },
            LayerTopology { neurons: 2 },
        ];
        assert(r@ =~= brain_topology(cells as nat));
        r
    }

    /// Rebuilds a brain from a genome, read in the network's flat order.
    pub fn from_chromosome(chromosome: Chromosome<W>, cells: usize) -> (r: Result<
        Brain<W>,
        NetworkError,
    >)
        requires
            cells <= usize::MAX / 2,
        ensures
            r is Ok <==> chromosome@.len() == param_count(brain_topology(cells as nat)),
            r == Err::<Brain<W>, NetworkError>(NetworkError::InsufficientWeights)
                <==> chromosome@.len() < param_count(brain_topology(cells as nat)),
            r == Err::<Brain<W>, NetworkError>(NetworkError::ExcessWeights) <==> chromosome@.len()
                > param_count(brain_topology(cells as nat)),
            r is Ok ==> network_shaped(r->Ok_0.nn, brain_topology(cells as nat)) && network_flat(
                r->Ok_0.nn,
            ) == chromosome@,
    {
        let topology = Self::topology(cells);
        match Network::from_weights(topology.as_slice(), chromosome.into_genes()) {
            Ok(nn) => Ok(Brain { nn }),
            Err(e) => Err(e),
        }
    }

    /// The brain's genome: its network's weights in flat order.
    pub fn as_chromosome(&self) -> (r: Chromosome<W>)
        ensures
            r@ == network_flat(self.nn),
    {
        Chromosome::new(self.nn.weights())
    }
}

} // verus!
