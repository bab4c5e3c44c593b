use evolution::network::{Layer, LayerTopology, Network, NetworkError, Neuron};

fn topology(widths: &[usize]) -> Vec<LayerTopology> {
    widths.iter().map(|&neurons| LayerTopology { neurons }).collect()
}

#[test]
fn from_weights() {
    let layers = &[LayerTopology { neurons: 3 }, LayerTopology { neurons: 2 }];
    let weights = vec![0.1, 0.2, 0.3, 0.4, 0.5, 0.6, 0.7, 0.8];
    let network = Network::from_weights(layers, weights.clone()).unwrap();
    let actual: Vec<_> = network.weights();
    assert_eq!(actual.as_slice(), weights.as_slice());
}

#[test]
fn weights() {
    let network = Network {
        layers: vec![
            Layer {
                neurons: vec![Neuron {
                    bias: 0.1,
                    weights: vec![0.2, 0.3, 0.4],
                }],
            },
            Layer {
                neurons: vec![Neuron {
                    bias: 0.5,
                    weights: vec![0.6, 0.7, 0.8],
                }],
            },
        ],
    };
    let actual: Vec<_> = network.weights();
    let expected = vec![0.1, 0.2, 0.3, 0.4, 0.5, 0.6, 0.7, 0.8];
    assert_eq!(actual.as_slice(), expected.as_slice());
}

#[test]
fn from_weights_builds_neurons_bias_first() {
    let layers = topology(&[3, 2]);
    let weights: Vec<f32> = vec![0.1, 0.2, 0.3, 0.4, 0.5, 0.6, 0.7, 0.8];
    let network = Network::from_weights(&layers, weights).unwrap();
    assert_eq!(network.layers.len(), 1);
    assert_eq!(network.layers[0].neurons.len(), 2);
    assert_eq!(network.layers[0].neurons[0].bias, 0.1);
    assert_eq!(network.layers[0].neurons[0].weights, vec![0.2, 0.3, 0.4]);
    assert_eq!(network.layers[0].neurons[1].bias, 0.5);
    assert_eq!(network.layers[0].neurons[1].weights, vec![0.6, 0.7, 0.8]);
}

#[test]
fn from_weights_reports_too_few_weights() {
    let layers = topology(&[3, 2]);
    let weights: Vec<f32> = vec![0.1, 0.2, 0.3, 0.4, 0.5, 0.6, 0.7];
    let r = Network::from_weights(&layers, weights);
    assert_eq!(r.unwrap_err(), NetworkError::InsufficientWeights);
    let empty: Vec<f32> = vec![];
    assert_eq!(
        Network::from_weights(&layers, empty).unwrap_err(),
        NetworkError::InsufficientWeights
    );
}

#[test]
fn from_weights_reports_too_many_weights() {
    let layers = topology(&[3, 2]);
    let weights: Vec<f32> = vec![0.1, 0.2, 0.3, 0.4, 0.5, 0.6, 0.7, 0.8, 0.9];
    let r = Network::from_weights(&layers, weights);
    assert_eq!(r.unwrap_err(), NetworkError::ExcessWeights);
}

#[test]
fn round_trip_through_three_layers() {
    let layers = topology(&[4, 3, 2]);
    // 3 * (4 + 1) + 2 * (3 + 1)
    let weights: Vec<f32> = (0..23).map(|i| i as f32 * 0.25 - 2.0).collect();
    let network = Network::from_weights(&layers, weights.clone()).unwrap();
    assert_eq!(network.weights(), weights);
    let again = Network::from_weights(&layers, network.weights()).unwrap();
    assert_eq!(again.weights(), weights);
    assert_eq!(again.layers[1].neurons[1].bias, weights[19]);
    assert_eq!(again.layers[1].neurons[1].weights, weights[20..23].to_vec());
}

#[test]
fn zero_width_output_layer_takes_no_weights() {
    let layers = topology(&[5, 0]);
    let network = Network::<f32>::from_weights(&layers, vec![]).unwrap();
    assert_eq!(network.layers.len(), 1);
    assert!(network.layers[0].neurons.is_empty());
    assert!(network.weights().is_empty());
}

#[test]
fn neuron_and_layer_read_from_a_position() {
    let weights: Vec<i32> = vec![9, 1, 2, 3, 4, 5, 6];
    let neuron = Neuron::from_weights(2, &weights, 1).unwrap();
    assert_eq!(neuron.bias, 1);
    assert_eq!(neuron.weights, vec![2, 3]);
    assert_eq!(
        Neuron::from_weights(6, &weights, 1).unwrap_err(),
        NetworkError::InsufficientWeights
    );
    let mut at = 1;
    let layer = Layer::from_weights(1, 3, &weights, &mut at).unwrap();
    assert_eq!(at, 7);
    assert_eq!(layer.neurons.len(), 3);
    assert_eq!(layer.neurons[2].bias, 5);
    assert_eq!(layer.neurons[2].weights, vec![6]);
    let mut at = 2;
    assert_eq!(
        Layer::from_weights(1, 3, &weights, &mut at).unwrap_err(),
        NetworkError::InsufficientWeights
    );
}

fn relu_neuron(neuron: &Neuron<i64>, inputs: &Vec<i64>) -> i64 {
    assert_eq!(neuron.weights.len(), inputs.len());
    let sum: i64 = neuron.weights.iter().zip(inputs).map(|(w, x)| w * x).sum();
    (sum + neuron.bias).max(0)
}

#[test]
fn layer_propagates_each_neuron() {
    let layer = Layer {
        neurons: vec![
            Neuron { bias: 1, weights: vec![2, 3] },
            Neuron { bias: -100, weights: vec![1, 1] },
        ],
    };
    assert_eq!(layer.propogate(&vec![4, 5], &relu_neuron), vec![24, 0]);
}

#[test]
fn network_output_has_last_layer_width() {
    let layers = topology(&[3, 2]);
    let network = Network::from_weights(&layers, vec![1, 2, 3, 4, 5, 6, 7, 8]).unwrap();
    // 1 + 2 + 3 + 4 = 10, 5 + 6 + 7 + 8 = 26
    assert_eq!(network.propogate(vec![1, 1, 1], &relu_neuron), vec![10, 26]);

    let layers = topology(&[2, 3, 1]);
    let weights: Vec<i64> = vec![0, 1, 0, 0, 0, 1, -5, 1, 1, 1, 1, 1, 1];
    let network = Network::from_weights(&layers, weights).unwrap();
    // hidden: [2, 3, 0]; output: 1 + 2 + 3 + 0 = 6
    assert_eq!(network.propogate(vec![2, 3], &relu_neuron), vec![6]);
}

#[test]
fn network_without_layers_returns_its_input() {
    let network: Network<i64> = Network { layers: vec![] };
    assert_eq!(network.propogate(vec![7, 8], &relu_neuron), vec![7, 8]);
}
