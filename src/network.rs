//! Feed-forward network structure and its flat genome encoding.
//!
//! A network is a list of layers, a layer a list of neurons, a neuron a bias and
//! one weight per input. The flat encoding walks layers in order, neurons in
//! order, and writes each neuron as its bias followed by its weights.
use vstd::prelude::*;

verus! {

/// The width of one layer of a network.
#[derive(Clone, Copy, Debug, PartialEq, Eq)]
pub struct LayerTopology {
    pub neurons: usize,
}

/// Why a flat weight sequence could not be read into a network.
#[derive(Clone, Copy, Debug, PartialEq, Eq)]
pub enum NetworkError {
    /// The sequence ended before the last neuron was built.
    InsufficientWeights,
    /// Elements remained after the last neuron was built.
    ExcessWeights,
}

/// One unit of a layer: a bias and one weight per input.
#[derive(Clone, Debug)]
pub struct Neuron<W> {
    pub bias: W,
    pub weights: Vec<W>,
}

/// The neurons that read the same inputs.
#[derive(Clone, Debug)]
pub struct Layer<W> {
    pub neurons: Vec<Neuron<W>>,
}

/// A feed-forward network: each layer reads what the one before produced.
#[derive(Clone, Debug)]
pub struct Network<W> {
    pub layers: Vec<Layer<W>>,
}

/// A neuron written as its bias followed by its weights.
pub open spec fn neuron_flat<W>(n: Neuron<W>) -> Seq<W> {
    seq![n.bias] + n.weights@
}

/// A layer written as its neurons' encodings one after another.
pub open spec fn layer_flat<W>(l: Layer<W>) -> Seq<W> {
    l.neurons@.map_values(|n: Neuron<W>| neuron_flat(n)).flatten()
}

/// A network written as its layers' encodings one after another.
pub open spec fn network_flat<W>(net: Network<W>) -> Seq<W> {
    net.layers@.map_values(|l: Layer<W>| layer_flat(l)).flatten()
}

/// The layer has `outputs` neurons, each reading `inputs` values.
pub open spec fn layer_shaped<W>(l: Layer<W>, inputs: nat, outputs: nat) -> bool {
    &&& l.neurons@.len() == outputs
    &&& forall|j: int| 0 <= j < outputs ==> (#[trigger] l.neurons@[j]).weights@.len() == inputs
}

/// The network's layers follow the widths of `t`, one layer per adjacent pair.
pub open spec fn network_shaped<W>(net: Network<W>, t: Seq<LayerTopology>) -> bool {
    &&& t.len() >= 2
    &&& net.layers@.len() == t.len() - 1
    &&& forall|i: int|
        0 <= i < t.len() - 1 ==> layer_shaped(
            #[trigger] net.layers@[i],
            t[i].neurons as nat,
            t[i + 1].neurons as nat,
        )
}

/// Number of scalars in a layer from `inputs` to `outputs` neurons.
pub open spec fn layer_param_count(inputs: nat, outputs: nat) -> nat {
    outputs * (inputs + 1)
}

/// Number of scalars in the first `k` layers of topology `t`.
pub open spec fn params_upto(t: Seq<LayerTopology>, k: nat) -> nat
    decreases k,
{
    if k == 0 {
        0
    } else {
        params_upto(t, (k - 1) as nat) + layer_param_count(
            t[k - 1].neurons as nat,
            t[k as int].neurons as nat,
        )
    }
}

/// Number of scalars in a whole network of topology `t`.
pub open spec fn param_count(t: Seq<LayerTopology>) -> nat {
    params_upto(t, (t.len() - 1) as nat)
}


proof fn lemma_neurons_flat_push<W>(s: Seq<Neuron<W>>, n: Neuron<W>)
    ensures
        s.push(n).map_values(|m: Neuron<W>| neuron_flat(m)).flatten() == s.map_values(
            |m: Neuron<W>| neuron_flat(m),
        ).flatten() + neuron_flat(n),
{
    let f = |m: Neuron<W>| neuron_flat(m);
    assert(s.push(n).map_values(f) =~= s.map_values(f).push(neuron_flat(n)));
    s.map_values(f).lemma_flatten_push(neuron_flat(n));
}

proof fn lemma_layers_flat_push<W>(s: Seq<Layer<W>>, l: Layer<W>)
    ensures
        s.push(l).map_values(|m: Layer<W>| layer_flat(m)).flatten() == s.map_values(
            |m: Layer<W>| layer_flat(m),
        ).flatten() + layer_flat(l),
{
    let f = |m: Layer<W>| layer_flat(m);
    assert(s.push(l).map_values(f) =~= s.map_values(f).push(layer_flat(l)));
    s.map_values(f).lemma_flatten_push(layer_flat(l));
}

proof fn lemma_flatten_empty<A>(s: Seq<Seq<A>>)
    requires
        s.len() == 0,
    ensures
        s.flatten() == Seq::<A>::empty(),
{
    reveal_with_fuel(Seq::flatten, 1);
}

impl<W: Copy> Neuron<W> {
    /// Reads a neuron of `input_size` inputs from `weights`, starting at `at`:
    /// the bias first, then one weight per input.
    pub fn from_weights(input_size: usize, weights: &Vec<W>, at: usize) -> (r: Result<
        Neuron<W>,
        NetworkError,
    >)
        requires
            at <= weights@.len(),
        ensures
            r is Ok <==> at + input_size + 1 <= weights@.len(),
            r is Err ==> r->Err_0 == NetworkError::InsufficientWeights,
            r is Ok ==> r->Ok_0.weights@.len() == input_size && neuron_flat(r->Ok_0)
                == weights@.subrange(at as int, at + input_size + 1),
    {
        let len = weights.len();
        if input_size >= len - at {
            return Err(NetworkError::InsufficientWeights);
        }
        let bias = weights[at];
        let mut ws: Vec<W> = Vec::new();
        let mut k: usize = 0;
        while k < input_size
            invariant
                k <= input_size,
                at + input_size + 1 <= len,
                len == weights@.len(),
                ws@ == weights@.subrange(at + 1, at + 1 + k),
            decreases input_size - k,
        {
            ws.push(weights[at + 1 + k]);
            k = k + 1;
            assert(ws@ =~= weights@.subrange(at + 1, at + 1 + k));
        }
        let n = Neuron { bias, weights: ws };
        assert(neuron_flat(n) =~= weights@.subrange(at as int, at + input_size + 1));
        Ok(n)
    }

    /// Appends this neuron's encoding, bias first, to `out`.
    fn append_to(&self, out: &mut Vec<W>)
        ensures
            final(out)@ == old(out)@ + neuron_flat(*self),
    {
        let ghost start = out@;
        out.push(self.bias);
        let mut k: usize = 0;
        while k < self.weights.len()
            invariant
                k <= self.weights@.len(),
                out@ == start + seq![self.bias] + self.weights@.take(k as int),
            decreases self.weights@.len() - k,
        {
            out.push(self.weights[k]);
            k = k + 1;
            assert(out@ =~= start + seq![self.bias] + self.weights@.take(k as int));
        }
        assert(self.weights@.take(k as int) =~= self.weights@);
        assert(out@ =~= start + neuron_flat(*self));
    }
}


impl<W: Copy> Layer<W> {
    /// Reads a layer of `output_size` neurons, each of `input_size` inputs, from
    /// `weights`, starting at `*at`; on success `*at` moves past what was read.
    pub fn from_weights(input_size: usize, output_size: usize, weights: &Vec<W>, at: &mut usize) -> (r:
        Result<Layer<W>, NetworkError>)
        requires
            *old(at) <= weights@.len(),
        ensures
            r is Ok <==> *old(at) + layer_param_count(input_size as nat, output_size as nat)
                <= weights@.len(),
            r is Err ==> r->Err_0 == NetworkError::InsufficientWeights,
            r is Ok ==> layer_shaped(r->Ok_0, input_size as nat, output_size as nat)
                && layer_flat(r->Ok_0) == weights@.subrange(
                *old(at) as int,
                *final(at) as int,
            ) && *final(at) == *old(at) + layer_param_count(input_size as nat, output_size as nat),
    {
        let len = weights.len();
        let mut neurons: Vec<Neuron<W>> = Vec::new();
        let start: usize = *at;
        let mut pos: usize = *at;
        let mut j: usize = 0;
        proof {
            lemma_flatten_empty(neurons@.map_values(|m: Neuron<W>| neuron_flat(m)));
            assert(weights@.subrange(start as int, start as int) =~= Seq::<W>::empty());
        }
        while j < output_size
            invariant
                j <= output_size,
                start <= pos <= weights@.len(),
                start == *old(at),
                *at == start,
                len == weights@.len(),
                pos == start + j * (input_size + 1),
                neurons@.len() == j,
                forall|q: int| 0 <= q < j ==> (#[trigger] neurons@[q]).weights@.len() == input_size,
                layer_flat(Layer { neurons }) == weights@.subrange(start as int, pos as int),
            decreases output_size - j,
        {
            proof {
                assert((j + 1) * (input_size + 1) == j * (input_size + 1) + input_size + 1)
                    by (nonlinear_arith);
                assert((j + 1) * (input_size + 1) <= output_size * (input_size + 1))
                    by (nonlinear_arith)
                    requires
                        j < output_size,
                ;
            }
            match Neuron::from_weights(input_size, weights, pos) {
                Err(e) => {
                    return Err(e);
                },
                Ok(n) => {
                    proof {
                        lemma_neurons_flat_push(neurons@, n);
                        assert(weights@.subrange(start as int, pos as int) + weights@.subrange(
                            pos as int,
                            pos + input_size + 1,
                        ) =~= weights@.subrange(start as int, pos + input_size + 1));
                    }
                    neurons.push(n);
                    pos = pos + input_size + 1;
                    j = j + 1;
                },
            }
        }
        *at = pos;
        Ok(Layer { neurons })
    }

    /// Appends this layer's encoding to `out`.
    fn append_to(&self, out: &mut Vec<W>)
        ensures
            final(out)@ == old(out)@ + layer_flat(*self),
    {
        let ghost start = out@;
        let mut j: usize = 0;
        proof {
            lemma_flatten_empty(self.neurons@.take(0).map_values(|m: Neuron<W>| neuron_flat(m)));
        }
        while j < self.neurons.len()
            invariant
                j <= self.neurons@.len(),
                out@ == start + self.neurons@.take(j as int).map_values(
                    |m: Neuron<W>| neuron_flat(m),
                ).flatten(),
            decreases self.neurons@.len() - j,
        {
            proof {
                lemma_neurons_flat_push(self.neurons@.take(j as int), self.neurons@[j as int]);
                assert(self.neurons@.take(j + 1) =~= self.neurons@.take(j as int).push(
                    self.neurons@[j as int],
                ));
            }
            self.neurons[j].append_to(out);
            j = j + 1;
            assert(out@ =~= start + self.neurons@.take(j as int).map_values(
                |m: Neuron<W>| neuron_flat(m),
            ).flatten());
        }
        assert(self.neurons@.take(j as int) =~= self.neurons@);
    }
}


proof fn lemma_params_monotone(t: Seq<LayerTopology>, k: nat, m: nat)
    requires
        k <= m,
    ensures
        params_upto(t, k) <= params_upto(t, m),
    decreases m - k,
{
    if k < m {
        lemma_params_monotone(t, k, (m - 1) as nat);
    }
}

impl<W: Copy> Network<W> {
    /// Reads a network of topology `layers` from a flat weight sequence, in the
    /// order that `weights` writes it.
    pub fn from_weights(layers: &[LayerTopology], weights: Vec<W>) -> (r: Result<
        Network<W>,
        NetworkError,
    >)
        requires
            layers@.len() >= 2,
        ensures
            r is Ok <==> weights@.len() == param_count(layers@),
            r == Err::<Network<W>, NetworkError>(NetworkError::InsufficientWeights)
                <==> weights@.len() < param_count(layers@),
            r == Err::<Network<W>, NetworkError>(NetworkError::ExcessWeights) <==> weights@.len()
                > param_count(layers@),
            r is Ok ==> network_shaped(r->Ok_0, layers@) && network_flat(r->Ok_0) == weights@,
    {
        let ghost t = layers@;
        let mut built: Vec<Layer<W>> = Vec::new();
        let mut at: usize = 0;
        let mut i: usize = 1;
        proof {
            lemma_flatten_empty(built@.map_values(|m: Layer<W>| layer_flat(m)));
            assert(weights@.subrange(0, 0) =~= Seq::<W>::empty());
        }
        while i < layers.len()
            invariant
                t == layers@,
                t.len() >= 2,
                1 <= i <= t.len(),
                at <= weights@.len(),
                at == params_upto(t, (i - 1) as nat),
                built@.len() == i - 1,
                forall|q: int|
                    0 <= q < i - 1 ==> layer_shaped(
                        #[trigger] built@[q],
                        t[q].neurons as nat,
                        t[q + 1].neurons as nat,
                    ),
                network_flat(Network { layers: built }) == weights@.subrange(0, at as int),
            decreases t.len() - i,
        {
            let inputs = layers[i - 1].neurons;
            let outputs = layers[i].neurons;
            let ghost before = at;
            match Layer::from_weights(inputs, outputs, &weights, &mut at) {
                Err(e) => {
                    proof {
                        lemma_params_monotone(t, i as nat, (t.len() - 1) as nat);
                    }
                    return Err(e);
                },
                Ok(l) => {
                    proof {
                        lemma_layers_flat_push(built@, l);
                        assert(weights@.subrange(0, before as int) + weights@.subrange(
                            before as int,
                            at as int,
                        ) =~= weights@.subrange(0, at as int));
                    }
                    built.push(l);
                    i = i + 1;
                },
            }
        }
        if at < weights.len() {
            return Err(NetworkError::ExcessWeights);
        }
        assert(weights@.subrange(0, at as int) =~= weights@);
        Ok(Network { layers: built })
    }

    /// The network's flat encoding: per layer, per neuron, the bias and then the
    /// weights.
    pub fn weights(&self) -> (r: Vec<W>)
        ensures
            r@ == network_flat(*self),
    {
        let mut out: Vec<W> = Vec::new();
        let mut i: usize = 0;
        proof {
            lemma_flatten_empty(self.layers@.take(0).map_values(|m: Layer<W>| layer_flat(m)));
        }
        while i < self.layers.len()
            invariant
                i <= self.layers@.len(),
                out@ == self.layers@.take(i as int).map_values(|m: Layer<W>| layer_flat(m)).flatten(),
            decreases self.layers@.len() - i,
        {
            proof {
                lemma_layers_flat_push(self.layers@.take(i as int), self.layers@[i as int]);
                assert(self.layers@.take(i + 1) =~= self.layers@.take(i as int).push(
                    self.layers@[i as int],
                ));
            }
            self.layers[i].append_to(&mut out);
            i = i + 1;
        }
        assert(self.layers@.take(i as int) =~= self.layers@);
        out
    }
}


/// The two networks hold the same biases and weights, neuron for neuron.
pub open spec fn same_parameters<W>(x: Network<W>, y: Network<W>) -> bool {
    &&& x.layers@.len() == y.layers@.len()
    &&& forall|i: int|
        0 <= i < x.layers@.len() ==> {
            &&& (#[trigger] x.layers@[i]).neurons@.len() == y.layers@[i].neurons@.len()
            &&& forall|j: int|
                0 <= j < x.layers@[i].neurons@.len() ==> {
                    &&& (#[trigger] x.layers@[i].neurons@[j]).bias == y.layers@[i].neurons@[j].bias
                    &&& x.layers@[i].neurons@[j].weights@ == y.layers@[i].neurons@[j].weights@
                }
        }
}

proof fn lemma_flatten_uniform_len<A>(s: Seq<Seq<A>>, m: nat)
    requires
        forall|i: int| 0 <= i < s.len() ==> (#[trigger] s[i]).len() == m,
    ensures
        s.flatten().len() == s.len() * m,
    decreases s.len(),
{
    if s.len() == 0 {
        lemma_flatten_empty(s);
    } else {
        let d = s.drop_last();
        assert(d.push(s.last()) =~= s);
        d.lemma_flatten_push(s.last());
        assert forall|i: int| 0 <= i < d.len() implies (#[trigger] d[i]).len() == m by {
            assert(d[i] == s[i]);
        }
        lemma_flatten_uniform_len(d, m);
        assert(s.len() * m == d.len() * m + m) by (nonlinear_arith)
            requires
                s.len() == d.len() + 1,
        ;
    }
}

proof fn lemma_flatten_injective<A>(a: Seq<Seq<A>>, b: Seq<Seq<A>>)
    requires
        a.len() == b.len(),
        forall|i: int| 0 <= i < a.len() ==> (#[trigger] a[i]).len() == b[i].len(),
        a.flatten() == b.flatten(),
    ensures
        a == b,
    decreases a.len(),
{
    if a.len() == 0 {
        assert(a =~= b);
    } else {
        let da = a.drop_last();
        let db = b.drop_last();
        assert(da.push(a.last()) =~= a);
        assert(db.push(b.last()) =~= b);
        da.lemma_flatten_push(a.last());
        db.lemma_flatten_push(b.last());
        let fa = da.flatten();
        let fb = db.flatten();
        assert(a.last().len() == b.last().len());
        assert(fa.len() == fb.len());
        assert(fa =~= a.flatten().subrange(0, fa.len() as int));
        assert(fb =~= b.flatten().subrange(0, fb.len() as int));
        assert(a.last() =~= a.flatten().subrange(fa.len() as int, a.flatten().len() as int));
        assert(b.last() =~= b.flatten().subrange(fb.len() as int, b.flatten().len() as int));
        assert forall|i: int| 0 <= i < da.len() implies (#[trigger] da[i]).len() == db[i].len() by {
            assert(da[i] == a[i]);
            assert(db[i] == b[i]);
        }
        lemma_flatten_injective(da, db);
    }
}

proof fn lemma_layer_flat_len<W>(l: Layer<W>, inputs: nat, outputs: nat)
    requires
        layer_shaped(l, inputs, outputs),
    ensures
        layer_flat(l).len() == layer_param_count(inputs, outputs),
{
    let f = l.neurons@.map_values(|m: Neuron<W>| neuron_flat(m));
    assert forall|j: int| 0 <= j < f.len() implies (#[trigger] f[j]).len() == inputs + 1 by {
        assert(l.neurons@[j].weights@.len() == inputs);
    }
    lemma_flatten_uniform_len(f, inputs + 1);
}

/// Two networks of one topology whose flat encodings agree hold the same
/// parameters: the encoding loses nothing, so reading back what `weights`
/// wrote rebuilds the network it came from.
pub proof fn lemma_encoding_injective<W>(x: Network<W>, y: Network<W>, t: Seq<LayerTopology>)
    requires
        network_shaped(x, t),
        network_shaped(y, t),
        network_flat(x) == network_flat(y),
    ensures
        same_parameters(x, y),
{
    let fx = x.layers@.map_values(|m: Layer<W>| layer_flat(m));
    let fy = y.layers@.map_values(|m: Layer<W>| layer_flat(m));
    assert forall|i: int| 0 <= i < fx.len() implies (#[trigger] fx[i]).len() == fy[i].len() by {
        lemma_layer_flat_len(x.layers@[i], t[i].neurons as nat, t[i + 1].neurons as nat);
        lemma_layer_flat_len(y.layers@[i], t[i].neurons as nat, t[i + 1].neurons as nat);
    }
    lemma_flatten_injective(fx, fy);
    assert forall|i: int| 0 <= i < x.layers@.len() implies {
        &&& (#[trigger] x.layers@[i]).neurons@.len() == y.layers@[i].neurons@.len()
        &&& forall|j: int|
            0 <= j < x.layers@[i].neurons@.len() ==> {
                &&& (#[trigger] x.layers@[i].neurons@[j]).bias == y.layers@[i].neurons@[j].bias
                &&& x.layers@[i].neurons@[j].weights@ == y.layers@[i].neurons@[j].weights@
            }
    } by {
        let lx = x.layers@[i];
        let ly = y.layers@[i];
        let inputs = t[i].neurons as nat;
        lemma_layer_flat_len(lx, inputs, t[i + 1].neurons as nat);
        lemma_layer_flat_len(ly, inputs, t[i + 1].neurons as nat);
        assert(fx[i] == layer_flat(lx));
        assert(fy[i] == layer_flat(ly));
        let nx = lx.neurons@.map_values(|m: Neuron<W>| neuron_flat(m));
        let ny = ly.neurons@.map_values(|m: Neuron<W>| neuron_flat(m));
        assert forall|j: int| 0 <= j < nx.len() implies (#[trigger] nx[j]).len() == ny[j].len() by {
            assert(lx.neurons@[j].weights@.len() == inputs);
            assert(ly.neurons@[j].weights@.len() == inputs);
            assert(nx[j].len() == inputs + 1);
            assert(ny[j].len() == inputs + 1);
        }
        lemma_flatten_injective(nx, ny);
        assert forall|j: int| 0 <= j < lx.neurons@.len() implies {
            &&& (#[trigger] lx.neurons@[j]).bias == ly.neurons@[j].bias
            &&& lx.neurons@[j].weights@ == ly.neurons@[j].weights@
        } by {
            assert(nx[j] == neuron_flat(lx.neurons@[j]));
            assert(ny[j] == neuron_flat(ly.neurons@[j]));
            assert(nx[j][0] == lx.neurons@[j].bias);
            assert(ny[j][0] == ly.neurons@[j].bias);
            assert(lx.neurons@[j].weights@ =~= nx[j].subrange(1, nx[j].len() as int));
            assert(ly.neurons@[j].weights@ =~= ny[j].subrange(1, ny[j].len() as int));
        }
    }
}


/// A network shaped by `t` encodes to exactly `param_count(t)` scalars.
pub proof fn lemma_flat_len<W>(net: Network<W>, t: Seq<LayerTopology>)
    requires
        network_shaped(net, t),
    ensures
        network_flat(net).len() == param_count(t),
{
    lemma_flat_prefix_len(net, t, net.layers@.len());
    assert(net.layers@.take(net.layers@.len() as int) =~= net.layers@);
}

proof fn lemma_flat_prefix_len<W>(net: Network<W>, t: Seq<LayerTopology>, k: nat)
    requires
        network_shaped(net, t),
        k <= net.layers@.len(),
    ensures
        net.layers@.take(k as int).map_values(|m: Layer<W>| layer_flat(m)).flatten().len()
            == params_upto(t, k),
    decreases k,
{
    if k == 0 {
        lemma_flatten_empty(net.layers@.take(0).map_values(|m: Layer<W>| layer_flat(m)));
    } else {
        let prev = net.layers@.take(k - 1);
        lemma_flat_prefix_len(net, t, (k - 1) as nat);
        assert(net.layers@.take(k as int) =~= prev.push(net.layers@[k - 1]));
        lemma_layers_flat_push(prev, net.layers@[k - 1]);
        lemma_layer_flat_len(net.layers@[k - 1], t[k - 1].neurons as nat, t[k as int].neurons as nat);
    }
}


/// How many values the neurons of layer `i` read: `width` for the first layer,
/// the previous layer's neuron count after that.
pub open spec fn layer_input_width<W>(net: Network<W>, width: nat, i: int) -> nat {
    if i == 0 {
        width
    } else {
        net.layers@[i - 1].neurons@.len()
    }
}

/// Every neuron reads as many values as the layer before it produces, the
/// first layer reading `width` inputs.
pub open spec fn accepts_width<W>(net: Network<W>, width: nat) -> bool {
    forall|i: int, j: int|
        0 <= i < net.layers@.len() && 0 <= j < net.layers@[i].neurons@.len()
            ==> #[trigger] net.layers@[i].neurons@[j].weights@.len() == layer_input_width(
            net,
            width,
            i,
        )
}

/// `out` holds, for each neuron of `l`, what `neuron_output` gives for that
/// neuron on `inputs`.
pub open spec fn layer_outputs<W, F: Fn(&Neuron<W>, &Vec<W>) -> W>(
    l: Layer<W>,
    inputs: Vec<W>,
    neuron_output: F,
    out: Vec<W>,
) -> bool {
    &&& out@.len() == l.neurons@.len()
    &&& forall|j: int|
        0 <= j < l.neurons@.len() ==> neuron_output.ensures(
            (&l.neurons@[j], &inputs),
            #[trigger] out@[j],
        )
}

/// `trace` lists the values between the layers: `trace[0]` feeds the first
/// layer, and `trace[i + 1]` is what layer `i` makes of `trace[i]`.
pub open spec fn valid_trace<W, F: Fn(&Neuron<W>, &Vec<W>) -> W>(
    net: Network<W>,
    neuron_output: F,
    trace: Seq<Vec<W>>,
) -> bool {
    &&& trace.len() == net.layers@.len() + 1
    &&& forall|i: int|
        0 <= i < net.layers@.len() ==> layer_outputs(
            net.layers@[i],
            #[trigger] trace[i],
            neuron_output,
            trace[i + 1],
        )
}

/// `out` is what the network makes of `inputs`, layer after layer.
pub open spec fn propagates<W, F: Fn(&Neuron<W>, &Vec<W>) -> W>(
    net: Network<W>,
    inputs: Vec<W>,
    neuron_output: F,
    out: Vec<W>,
) -> bool {
    exists|trace: Seq<Vec<W>>|
        #[trigger] valid_trace(net, neuron_output, trace) && trace[0] == inputs && trace.last()
            == out
}

impl<W: Copy> Layer<W> {
    /// One output per neuron: `neuron_output` applied to the neuron and the
    /// layer's inputs.
    pub fn propogate<F: Fn(&Neuron<W>, &Vec<W>) -> W>(&self, inputs: &Vec<W>, neuron_output: &F) -> (r:
        Vec<W>)
        requires
            forall|j: int|
                0 <= j < self.neurons@.len() ==> #[trigger] self.neurons@[j].weights@.len()
                    == inputs@.len(),
            forall|n: &Neuron<W>, v: &Vec<W>|
                n.weights@.len() == v@.len() ==> #[trigger] neuron_output.requires((n, v)),
        ensures
            layer_outputs(*self, *inputs, *neuron_output, r),
    {
        let mut out: Vec<W> = Vec::new();
        let mut j: usize = 0;
        while j < self.neurons.len()
            invariant
                j <= self.neurons@.len(),
                forall|q: int|
                    0 <= q < self.neurons@.len() ==> #[trigger] self.neurons@[q].weights@.len()
                        == inputs@.len(),
                forall|n: &Neuron<W>, v: &Vec<W>|
                    n.weights@.len() == v@.len() ==> #[trigger] neuron_output.requires((n, v)),
                out@.len() == j,
                forall|q: int|
                    0 <= q < j ==> neuron_output.ensures(
                        (&self.neurons@[q], inputs),
                        #[trigger] out@[q],
                    ),
            decreases self.neurons@.len() - j,
        {
            let neuron = &self.neurons[j];
            assert(neuron.weights@.len() == inputs@.len());
            let value = neuron_output(neuron, inputs);
            out.push(value);
            j = j + 1;
        }
        out
    }
}

impl<W: Copy> Network<W> {
    /// Feeds `inputs` through every layer in turn; what the last layer gives
    /// is the network's output.
    pub fn propogate<F: Fn(&Neuron<W>, &Vec<W>) -> W>(&self, inputs: Vec<W>, neuron_output: &F) -> (r:
        Vec<W>)
        requires
            accepts_width(*self, inputs@.len()),
            forall|n: &Neuron<W>, v: &Vec<W>|
                n.weights@.len() == v@.len() ==> #[trigger] neuron_output.requires((n, v)),
        ensures
            propagates(*self, inputs, *neuron_output, r),
            r@.len() == if self.layers@.len() == 0 {
                inputs@.len()
            } else {
                self.layers@.last().neurons@.len()
            },
    {
        let ghost first = inputs;
        let mut current = inputs;
        let ghost mut trace: Seq<Vec<W>> = seq![current];
        let mut i: usize = 0;
        while i < self.layers.len()
            invariant
                i <= self.layers@.len(),
                accepts_width(*self, first@.len()),
                forall|n: &Neuron<W>, v: &Vec<W>|
                    n.weights@.len() == v@.len() ==> #[trigger] neuron_output.requires((n, v)),
                trace.len() == i + 1,
                trace[0] == first,
                trace.last() == current,
                current@.len() == layer_input_width(*self, first@.len(), i as int),
                forall|q: int|
                    0 <= q < i ==> layer_outputs(
                        self.layers@[q],
                        #[trigger] trace[q],
                        *neuron_output,
                        trace[q + 1],
                    ),
            decreases self.layers@.len() - i,
        {
            let layer = &self.layers[i];
            assert forall|j: int| 0 <= j < layer.neurons@.len() implies #[trigger] layer.neurons@[j].weights@.len()
                == current@.len() by {
                assert(self.layers@[i as int].neurons@[j].weights@.len() == layer_input_width(
                    *self,
                    first@.len(),
                    i as int,
                ));
            }
            let next = layer.propogate(&current, neuron_output);
            proof {
                let old_trace = trace;
                trace = trace.push(next);
                assert forall|q: int| 0 <= q < i + 1 implies layer_outputs(
                    self.layers@[q],
                    #[trigger] trace[q],
                    *neuron_output,
                    trace[q + 1],
                ) by {
                    if q < i {
                        assert(trace[q] == old_trace[q]);
                        assert(trace[q + 1] == old_trace[q + 1]);
                    }
                }
            }
            current = next;
            i = i + 1;
        }
        assert(valid_trace(*self, *neuron_output, trace));
        current
    }
}

/// A network shaped by a topology accepts inputs of the topology's first
/// width, so that propagating them yields the last width's worth of outputs.
pub proof fn lemma_shaped_accepts<W>(net: Network<W>, t: Seq<LayerTopology>)
    requires
        network_shaped(net, t),
    ensures
        accepts_width(net, t[0].neurons as nat),
        net.layers@.last().neurons@.len() == t.last().neurons,
{
    assert forall|i: int, j: int|
        0 <= i < net.layers@.len() && 0 <= j < net.layers@[i].neurons@.len()
            implies #[trigger] net.layers@[i].neurons@[j].weights@.len() == layer_input_width(
        net,
        t[0].neurons as nat,
        i,
    ) by {
        assert(layer_shaped(net.layers@[i], t[i].neurons as nat, t[i + 1].neurons as nat));
        if i > 0 {
            assert(layer_shaped(net.layers@[i - 1], t[i - 1].neurons as nat, t[i].neurons as nat));
        }
    }
    let k = net.layers@.len() - 1;
    assert(layer_shaped(net.layers@[k], t[k].neurons as nat, t[k + 1].neurons as nat));
}

/// What a network shaped by topology `t` makes of its inputs has one value
/// per neuron of the last width of `t`.
pub proof fn lemma_output_width<W, F: Fn(&Neuron<W>, &Vec<W>) -> W>(
    net: Network<W>,
    t: Seq<LayerTopology>,
    inputs: Vec<W>,
    neuron_output: F,
    out: Vec<W>,
)
    requires
        network_shaped(net, t),
        propagates(net, inputs, neuron_output, out),
    ensures
        out@.len() == t.last().neurons,
{
    let trace = choose|trace: Seq<Vec<W>>|
        #[trigger] valid_trace(net, neuron_output, trace) && trace[0] == inputs && trace.last()
            == out;
    let k = net.layers@.len() - 1;
    assert(layer_outputs(net.layers@[k], trace[k], neuron_output, trace[k + 1]));
    assert(layer_shaped(net.layers@[k], t[k].neurons as nat, t[k + 1].neurons as nat));
}

} // verus!
