//! Feed-forward networks of dense sigmoid layers.
//!
//! A network is modelled as a sequence of `LayerModel`s. The forward pass,
//! the backward pass, crossover and mutation are each specified as a
//! function on that model; the executable code is proved to compute it.
use vstd::prelude::*;
use crate::fixed::Fixed;
use crate::fixed::ONE_RAW;
use crate::fixed::lemma_logistic_range;
use crate::random::random_between;

verus! {

/// What can be wrong with the shape of a network.
#[derive(Clone, Copy, Debug, PartialEq, Eq, Structural)]
pub enum NetworkError {
    /// Fewer than two layer sizes, a size of zero, or rows that do not fit.
    InvalidTopology,
    /// Two networks that should have the same layer sizes do not.
    TopologyMismatch,
}

/// The mathematical content of one layer: a matrix with one row of weights
/// per output, and one bias per output.
pub struct LayerModel {
    pub weights: Seq<Seq<Fixed>>,
    pub biases: Seq<Fixed>,
}

/// The rows of a matrix held as a vector of vectors.
pub open spec fn matrix(rows: Seq<Vec<Fixed>>) -> Seq<Seq<Fixed>> {
    Seq::new(rows.len(), |i: int| rows[i]@)
}

/// The layer that the given rows and biases make.
pub open spec fn layer_model(rows: Seq<Vec<Fixed>>, biases: Seq<Fixed>) -> LayerModel {
    LayerModel { weights: matrix(rows), biases }
}

/// The models of a sequence of layers.
pub open spec fn layer_models(layers: Seq<Layer>) -> Seq<LayerModel> {
    Seq::new(layers.len(), |i: int| layers[i]@)
}

/// A layer has at least one output and one input, one bias per row, and
/// rows of one length.
pub open spec fn layer_ok(m: LayerModel) -> bool {
    &&& m.weights.len() >= 1
    &&& m.weights.len() == m.biases.len()
    &&& m.weights[0].len() >= 1
    &&& forall|r: int| 0 <= r < m.weights.len() ==> (#[trigger] m.weights[r]).len() == m.weights[0].len()
}

/// How many inputs a layer takes.
pub open spec fn layer_inputs(m: LayerModel) -> nat {
    m.weights[0].len()
}

/// How many outputs a layer gives.
pub open spec fn layer_outputs(m: LayerModel) -> nat {
    m.biases.len()
}

/// A network is a non-empty chain of layers in which each layer takes as
/// many inputs as the layer before it gives outputs.
pub open spec fn network_ok(layers: Seq<LayerModel>) -> bool {
    &&& layers.len() >= 1
    &&& forall|i: int| 0 <= i < layers.len() ==> layer_ok(#[trigger] layers[i])
    &&& forall|i: int|
        1 <= i < layers.len() ==> layer_inputs(#[trigger] layers[i]) == layer_outputs(layers[i - 1])
}

/// The layer sizes of a network: the input width, then each layer's width.
pub open spec fn topology(layers: Seq<LayerModel>) -> Seq<nat> {
    Seq::new(
        layers.len() + 1,
        |k: int|
            if k == 0 {
                layer_inputs(layers[0])
            } else {
                layer_outputs(layers[k - 1])
            },
    )
}

/// The sum of the products of the first `n` pairs, added left to right.
pub open spec fn dot_prefix(w: Seq<Fixed>, x: Seq<Fixed>, n: nat) -> Fixed
    decreases n,
{
    if n == 0 {
        Fixed::zero_spec()
    } else {
        dot_prefix(w, x, (n - 1) as nat).add_spec(w[n - 1].mul_spec(x[n - 1]))
    }
}

/// The dot product of a row of weights with an input, over the positions
/// that both have.
pub open spec fn dot_spec(w: Seq<Fixed>, x: Seq<Fixed>) -> Fixed {
    dot_prefix(
        w,
        x,
        if w.len() <= x.len() {
            w.len()
        } else {
            x.len()
        },
    )
}

/// The weighted sum that one neuron forms before its activation.
pub open spec fn neuron_sum(row: Seq<Fixed>, bias: Fixed, input: Seq<Fixed>) -> Fixed {
    dot_spec(row, input).add_spec(bias)
}

/// The weighted sums of a layer, one per output.
pub open spec fn layer_sums(m: LayerModel, input: Seq<Fixed>) -> Seq<Fixed> {
    Seq::new(m.biases.len(), |r: int| neuron_sum(m.weights[r], m.biases[r], input))
}

/// The sigmoid of each element.
pub open spec fn sigmoid_all(v: Seq<Fixed>) -> Seq<Fixed> {
    Seq::new(v.len(), |i: int| v[i].sigmoid_spec())
}

/// The output of a layer: the sigmoid of each weighted sum.
pub open spec fn layer_output(m: LayerModel, input: Seq<Fixed>) -> Seq<Fixed> {
    sigmoid_all(layer_sums(m, input))
}

/// The vector that enters layer `k`: the input for `k == 0`, else the
/// output of layer `k - 1`. For `k == layers.len()` it is the network's output.
pub open spec fn activation_at(layers: Seq<LayerModel>, input: Seq<Fixed>, k: nat) -> Seq<Fixed>
    decreases k,
{
    if k == 0 {
        input
    } else {
        layer_output(layers[k - 1], activation_at(layers, input, (k - 1) as nat))
    }
}

/// The output of the whole network.
pub open spec fn forward_spec(layers: Seq<LayerModel>, input: Seq<Fixed>) -> Seq<Fixed> {
    activation_at(layers, input, layers.len())
}

/// Every weight and bias of the layer has a raw value from `lo` to `hi`.
pub open spec fn layer_entries_within(m: LayerModel, lo: int, hi: int) -> bool {
    &&& forall|r: int, c: int|
        0 <= r < m.weights.len() && 0 <= c < m.weights[r].len() ==> lo <= (
        #[trigger] m.weights[r][c]).raw <= hi
    &&& forall|r: int| 0 <= r < m.biases.len() ==> lo <= (#[trigger] m.biases[r]).raw <= hi
}

/// Every weight and bias of the network has a raw value from `lo` to `hi`.
pub open spec fn entries_within(layers: Seq<LayerModel>, lo: int, hi: int) -> bool {
    forall|l: int| 0 <= l < layers.len() ==> layer_entries_within(#[trigger] layers[l], lo, hi)
}

/// One dense layer.
#[derive(Debug)]
pub struct Layer {
    weights: Vec<Vec<Fixed>>,
    biases: Vec<Fixed>,
}

/// An ordered, non-empty stack of layers with the sigmoid as activation.
#[derive(Debug)]
pub struct NeuralNetwork {
    layers: Vec<Layer>,
}

impl View for Layer {
    type V = LayerModel;

    closed spec fn view(&self) -> LayerModel {
        layer_model(self.weights@, self.biases@)
    }
}

impl View for NeuralNetwork {
    type V = Seq<LayerModel>;

    closed spec fn view(&self) -> Seq<LayerModel> {
        layer_models(self.layers@)
    }
}

fn dot(row: &Vec<Fixed>, input: &[Fixed]) -> (r: Fixed)
    ensures
        r == dot_spec(row@, input@),
{
    let n: usize = if row.len() <= input.len() {
        row.len()
    } else {
        input.len()
    };
    let mut acc: Fixed = Fixed::zero();
    let mut j: usize = 0;
    while j < n
        invariant
            j <= n,
            n <= row.len(),
            n <= input.len(),
            acc == dot_prefix(row@, input@, j as nat),
        decreases n - j,
    {
        acc = acc.saturating_add(row[j].saturating_mul(input[j]));
        j += 1;
    }
    acc
}

impl Layer {
    /// Every layer is well formed, wherever it came from.
    #[verifier::type_invariant]
    pub open spec fn well_formed(&self) -> bool {
        layer_ok(self@)
    }

    /// A layer from its rows of weights and its biases.
    pub fn new(weights: Vec<Vec<Fixed>>, biases: Vec<Fixed>) -> (r: Result<Layer, NetworkError>)
        ensures
            layer_ok(layer_model(weights@, biases@)) <==> r is Ok,
            r matches Ok(layer) ==> layer@ == layer_model(weights@, biases@),
            r matches Err(e) ==> e == NetworkError::InvalidTopology,
    {
        let ghost m = layer_model(weights@, biases@);
        if weights.len() == 0 || weights.len() != biases.len() {
            return Err(NetworkError::InvalidTopology);
        }
        let cols: usize = weights[0].len();
        if cols == 0 {
            return Err(NetworkError::InvalidTopology);
        }
        let mut r: usize = 1;
        while r < weights.len()
            invariant
                1 <= r <= weights.len(),
                cols == weights@[0]@.len(),
                m.weights == matrix(weights@),
                forall|k: int| 0 <= k < r ==> (#[trigger] m.weights[k]).len() == cols,
            decreases weights.len() - r,
        {
            if weights[r].len() != cols {
                assert(m.weights[r as int].len() != m.weights[0].len());
                return Err(NetworkError::InvalidTopology);
            }
            r += 1;
        }
        Ok(Layer { weights, biases })
    }

    /// How many inputs the layer takes.
    pub fn input_size(&self) -> (n: usize)
        ensures
            n == layer_inputs(self@),
            n >= 1,
    {
        proof {
            use_type_invariant(self);
        }
        self.weights[0].len()
    }

    /// How many outputs the layer gives.
    pub fn output_size(&self) -> (n: usize)
        ensures
            n == layer_outputs(self@),
            n >= 1,
    {
        proof {
            use_type_invariant(self);
        }
        self.biases.len()
    }

    /// The rows of weights.
    pub fn weights(&self) -> (w: &Vec<Vec<Fixed>>)
        ensures
            matrix(w@) == self@.weights,
    {
        &self.weights
    }

    /// The biases.
    pub fn biases(&self) -> (b: &Vec<Fixed>)
        ensures
            b@ == self@.biases,
    {
        &self.biases
    }

    /// The weighted sum of each neuron for `input`, before the activation.
    pub fn weighted_sums(&self, input: &[Fixed]) -> (sums: Vec<Fixed>)
        ensures
            sums@ == layer_sums(self@, input@),
    {
        proof {
            use_type_invariant(self);
        }
        let mut sums: Vec<Fixed> = Vec::new();
        let mut i: usize = 0;
        while i < self.biases.len()
            invariant
                i <= self.biases.len(),
                self.weights.len() == self.biases.len(),
                sums@.len() == i,
                forall|k: int|
                    0 <= k < i ==> #[trigger] sums@[k] == neuron_sum(
                        self@.weights[k],
                        self@.biases[k],
                        input@,
                    ),
            decreases self.biases.len() - i,
        {
            let z: Fixed = dot(&self.weights[i], input).saturating_add(self.biases[i]);
            sums.push(z);
            i += 1;
        }
        assert(sums@ =~= layer_sums(self@, input@));
        sums
    }

    /// The output of the layer for `input`: the sigmoid of each weighted sum.
    /// A neuron reads as many inputs as it has weights; where `input` is
    /// shorter, the missing positions add nothing.
    pub fn forward(&self, input: &[Fixed]) -> (out: Vec<Fixed>)
        ensures
            out@ == layer_output(self@, input@),
            out@.len() == layer_outputs(self@),
    {
        let sums: Vec<Fixed> = self.weighted_sums(input);
        sigmoid_each(&sums)
    }
}

fn sigmoid_each(v: &Vec<Fixed>) -> (r: Vec<Fixed>)
    ensures
        r@ == sigmoid_all(v@),
{
    let mut r: Vec<Fixed> = Vec::new();
    let mut i: usize = 0;
    while i < v.len()
        invariant
            i <= v.len(),
            r@.len() == i,
            forall|k: int| 0 <= k < i ==> #[trigger] r@[k] == v@[k].sigmoid_spec(),
        decreases v.len() - i,
    {
        r.push(v[i].sigmoid());
        i += 1;
    }
    assert(r@ =~= sigmoid_all(v@));
    r
}

impl Clone for Layer {
    fn clone(&self) -> (r: Self)
        ensures
            r@ == self@,
    {
        proof {
            use_type_invariant(self);
        }
        let mut weights: Vec<Vec<Fixed>> = Vec::new();
        let mut i: usize = 0;
        while i < self.weights.len()
            invariant
                i <= self.weights.len(),
                weights@.len() == i,
                forall|k: int| 0 <= k < i ==> (#[trigger] weights@[k])@ == self.weights@[k]@,
            decreases self.weights.len() - i,
        {
            weights.push(copy_slice(self.weights[i].as_slice()));
            i += 1;
        }
        let biases: Vec<Fixed> = copy_slice(self.biases.as_slice());
        assert(matrix(weights@) =~= matrix(self.weights@));
        Layer { weights, biases }
    }
}

/// Layer sizes as numbers without a bound.
pub open spec fn widths(sizes: Seq<usize>) -> Seq<nat> {
    Seq::new(sizes.len(), |k: int| sizes[k] as nat)
}

/// The layer sizes are at least two, and none is zero.
pub open spec fn valid_sizes(sizes: Seq<usize>) -> bool {
    &&& sizes.len() >= 2
    &&& forall|k: int| 0 <= k < sizes.len() ==> sizes[k] > 0
}

/// The activations of a forward pass: the input, then each layer's output.
pub open spec fn all_activations(layers: Seq<LayerModel>, input: Seq<Fixed>) -> Seq<Seq<Fixed>> {
    Seq::new(layers.len() + 1, |k: int| activation_at(layers, input, k as nat))
}

/// The weighted sums of a forward pass, one vector per layer.
pub open spec fn all_weighted_sums(layers: Seq<LayerModel>, input: Seq<Fixed>) -> Seq<Seq<Fixed>> {
    Seq::new(
        layers.len(),
        |k: int| layer_sums(layers[k], activation_at(layers, input, k as nat)),
    )
}

/// The output of a well-formed network has the width of its last layer.
pub proof fn lemma_forward_width(layers: Seq<LayerModel>, input: Seq<Fixed>)
    requires
        network_ok(layers),
    ensures
        forward_spec(layers, input).len() == topology(layers).last(),
{
}

/// A network of valid layer sizes maps an input of the first size to an
/// output of the last size.
pub proof fn lemma_output_has_last_size(
    layers: Seq<LayerModel>,
    sizes: Seq<usize>,
    input: Seq<Fixed>,
)
    requires
        valid_sizes(sizes),
        network_ok(layers),
        topology(layers) == widths(sizes),
        input.len() == sizes[0],
    ensures
        forward_spec(layers, input).len() == sizes.last(),
{
    lemma_forward_width(layers, input);
    assert(widths(sizes).last() == sizes.last());
}

/// Every output of a network lies strictly between zero and one.
pub proof fn lemma_output_in_sigmoid_range(layers: Seq<LayerModel>, input: Seq<Fixed>)
    requires
        network_ok(layers),
    ensures
        forall|i: int|
            0 <= i < forward_spec(layers, input).len() ==> 0 < (#[trigger] forward_spec(
                layers,
                input,
            )[i]).raw < ONE_RAW,
{
    let out = forward_spec(layers, input);
    assert forall|i: int| 0 <= i < out.len() implies 0 < (#[trigger] out[i]).raw < ONE_RAW by {
        let last = layers[layers.len() - 1];
        let before = activation_at(layers, input, (layers.len() - 1) as nat);
        let z = layer_sums(last, before)[i];
        assert(out[i] == z.sigmoid_spec());
        lemma_logistic_range(z.raw as int);
    }
}

pub(crate) fn copy_slice(v: &[Fixed]) -> (r: Vec<Fixed>)
    ensures
        r@ == v@,
{
    let mut r: Vec<Fixed> = Vec::new();
    let mut i: usize = 0;
    while i < v.len()
        invariant
            i <= v.len(),
            r@ == v@.subrange(0, i as int),
        decreases v.len() - i,
    {
        r.push(v[i]);
        i += 1;
        assert(r@ =~= v@.subrange(0, i as int));
    }
    assert(r@ =~= v@);
    r
}

fn random_row(len: usize, lo: i64, hi: i64) -> (r: Vec<Fixed>)
    requires
        lo <= hi,
    ensures
        r@.len() == len,
        forall|c: int| 0 <= c < len ==> lo <= (#[trigger] r@[c]).raw <= hi,
{
    let mut r: Vec<Fixed> = Vec::new();
    let mut c: usize = 0;
    while c < len
        invariant
            c <= len,
            lo <= hi,
            r@.len() == c,
            forall|k: int| 0 <= k < c ==> lo <= (#[trigger] r@[k]).raw <= hi,
        decreases len - c,
    {
        r.push(Fixed::from_raw(random_between(lo, hi)));
        c += 1;
    }
    r
}

fn random_layer(inputs: usize, outputs: usize, lo: i64, hi: i64) -> (layer: Layer)
    requires
        inputs >= 1,
        outputs >= 1,
        lo <= hi,
    ensures
        layer_inputs(layer@) == inputs,
        layer_outputs(layer@) == outputs,
        layer_entries_within(layer@, lo as int, hi as int),
{
    let mut weights: Vec<Vec<Fixed>> = Vec::new();
    let mut r: usize = 0;
    while r < outputs
        invariant
            r <= outputs,
            lo <= hi,
            weights@.len() == r,
            forall|k: int| 0 <= k < r ==> (#[trigger] weights@[k])@.len() == inputs,
            forall|k: int, c: int|
                0 <= k < r && 0 <= c < inputs ==> lo <= (#[trigger] weights@[k]@[c]).raw <= hi,
        decreases outputs - r,
    {
        let row: Vec<Fixed> = random_row(inputs, lo, hi);
        weights.push(row);
        r += 1;
    }
    let biases: Vec<Fixed> = random_row(outputs, lo, hi);
    let layer = Layer { weights, biases };
    assert(layer_entries_within(layer@, lo as int, hi as int)) by {
        assert forall|k: int, c: int|
            0 <= k < layer@.weights.len() && 0 <= c < layer@.weights[k].len() implies lo <= (
        #[trigger] layer@.weights[k][c]).raw <= hi by {
            assert(layer@.weights[k][c] == weights@[k]@[c]);
        }
    }
    layer
}

impl NeuralNetwork {
    /// Every network is well formed, wherever it came from.
    #[verifier::type_invariant]
    pub open spec fn well_formed(&self) -> bool {
        network_ok(self@)
    }

    /// A network from its layers, first layer first.
    pub fn from_layers(layers: Vec<Layer>) -> (r: Result<NeuralNetwork, NetworkError>)
        ensures
            network_ok(layer_models(layers@)) <==> r is Ok,
            r matches Ok(net) ==> net@ == layer_models(layers@),
            r matches Err(e) ==> e == NetworkError::InvalidTopology,
    {
        let ghost models = layer_models(layers@);
        if layers.len() == 0 {
            return Err(NetworkError::InvalidTopology);
        }
        let first: &Layer = &layers[0];
        proof {
            use_type_invariant(first);
        }
        let mut i: usize = 1;
        while i < layers.len()
            invariant
                1 <= i <= layers.len(),
                models == layer_models(layers@),
                forall|k: int| 0 <= k < i ==> layer_ok(#[trigger] models[k]),
                forall|k: int|
                    1 <= k < i ==> layer_inputs(#[trigger] models[k]) == layer_outputs(models[k - 1]),
            decreases layers.len() - i,
        {
            let layer: &Layer = &layers[i];
            proof {
                use_type_invariant(layer);
            }
            if layer.input_size() != layers[i - 1].output_size() {
                assert(layer_inputs(models[i as int]) != layer_outputs(models[i - 1]));
                return Err(NetworkError::InvalidTopology);
            }
            i += 1;
        }
        Ok(NeuralNetwork { layers })
    }

    /// A network with the given layer sizes, input width first, and with
    /// every weight and bias drawn uniformly from `[-1, 1)`.
    pub fn new(sizes: &[usize]) -> (r: Result<NeuralNetwork, NetworkError>)
        ensures
            valid_sizes(sizes@) <==> r is Ok,
            r matches Ok(net) ==> {
                &&& topology(net@) == widths(sizes@)
                &&& entries_within(net@, -ONE_RAW, ONE_RAW - 1)
            },
            r matches Err(e) ==> e == NetworkError::InvalidTopology,
    {
        NeuralNetwork::random(sizes, -ONE_RAW, ONE_RAW - 1)
    }

    /// A network with the given layer sizes and with every weight and bias
    /// drawn uniformly from the raw values `lo` to `hi`.
    pub fn random(sizes: &[usize], lo: i64, hi: i64) -> (r: Result<NeuralNetwork, NetworkError>)
        requires
            lo <= hi,
        ensures
            valid_sizes(sizes@) <==> r is Ok,
            r matches Ok(net) ==> {
                &&& topology(net@) == widths(sizes@)
                &&& entries_within(net@, lo as int, hi as int)
            },
            r matches Err(e) ==> e == NetworkError::InvalidTopology,
    {
        if sizes.len() < 2 {
            return Err(NetworkError::InvalidTopology);
        }
        if sizes[0] == 0 {
            return Err(NetworkError::InvalidTopology);
        }
        let mut layers: Vec<Layer> = Vec::new();
        let mut k: usize = 1;
        while k < sizes.len()
            invariant
                1 <= k <= sizes.len(),
                lo <= hi,
                layers@.len() == k - 1,
                forall|j: int| 0 <= j < k ==> sizes@[j] > 0,
                forall|j: int| 0 <= j < k - 1 ==> layer_ok(#[trigger] layers@[j]@),
                forall|j: int|
                    0 <= j < k - 1 ==> layer_inputs(#[trigger] layers@[j]@) == sizes@[j]
                        && layer_outputs(layers@[j]@) == sizes@[j + 1],
                forall|j: int|
                    0 <= j < k - 1 ==> layer_entries_within(
                        #[trigger] layers@[j]@,
                        lo as int,
                        hi as int,
                    ),
            decreases sizes.len() - k,
        {
            if sizes[k] == 0 {
                return Err(NetworkError::InvalidTopology);
            }
            let layer: Layer = random_layer(sizes[k - 1], sizes[k], lo, hi);
            proof {
                use_type_invariant(&layer);
            }
            layers.push(layer);
            k += 1;
        }
        let net = NeuralNetwork { layers };
        assert(topology(net@) =~= widths(sizes@));
        Ok(net)
    }

    /// Whether the layer sizes can make a network: at least two of them,
    /// and none of them zero.
    pub fn valid_topology(sizes: &[usize]) -> (valid: bool)
        ensures
            valid == valid_sizes(sizes@),
    {
        if sizes.len() < 2 {
            return false;
        }
        let mut k: usize = 0;
        while k < sizes.len()
            invariant
                k <= sizes.len(),
                forall|j: int| 0 <= j < k ==> sizes@[j] > 0,
            decreases sizes.len() - k,
        {
            if sizes[k] == 0 {
                return false;
            }
            k += 1;
        }
        true
    }

    /// How many layers the network has.
    pub fn layer_count(&self) -> (n: usize)
        ensures
            n == self@.len(),
            n >= 1,
    {
        proof {
            use_type_invariant(self);
        }
        self.layers.len()
    }

    /// The layers, first layer first.
    pub fn layers(&self) -> (l: &Vec<Layer>)
        ensures
            layer_models(l@) == self@,
    {
        &self.layers
    }

    /// The width of the input that the network reads.
    pub fn input_size(&self) -> (n: usize)
        ensures
            n == topology(self@)[0],
            n >= 1,
    {
        proof {
            use_type_invariant(self);
        }
        self.layers[0].input_size()
    }

    /// The width of the output that the network gives.
    pub fn output_size(&self) -> (n: usize)
        ensures
            n == topology(self@).last(),
            n >= 1,
    {
        proof {
            use_type_invariant(self);
        }
        self.layers[self.layers.len() - 1].output_size()
    }

    /// The layer sizes: the input width, then the width of each layer.
    pub fn sizes(&self) -> (s: Vec<usize>)
        ensures
            widths(s@) == topology(self@),
            valid_sizes(s@),
    {
        proof {
            use_type_invariant(self);
        }
        let mut s: Vec<usize> = Vec::new();
        s.push(self.layers[0].input_size());
        let mut k: usize = 0;
        while k < self.layers.len()
            invariant
                k <= self.layers.len(),
                network_ok(self@),
                s@.len() == k + 1,
                forall|j: int| 0 <= j <= k ==> #[trigger] s@[j] == topology(self@)[j],
                forall|j: int| 0 <= j <= k ==> #[trigger] s@[j] > 0,
            decreases self.layers.len() - k,
        {
            s.push(self.layers[k].output_size());
            k += 1;
        }
        assert(widths(s@) =~= topology(self@));
        s
    }

    /// The output of the network for `input`: each layer in turn forms
    /// `sigmoid(W * x + b)` of what the layer before it gave.
    pub fn forward(&self, input: &[Fixed]) -> (out: Vec<Fixed>)
        ensures
            out@ == forward_spec(self@, input@),
            out@.len() == topology(self@).last(),
    {
        proof {
            use_type_invariant(self);
        }
        let mut current: Vec<Fixed> = self.layers[0].forward(input);
        assert(current@ == activation_at(self@, input@, 1)) by {
            reveal_with_fuel(activation_at, 2);
        }
        let mut k: usize = 1;
        while k < self.layers.len()
            invariant
                1 <= k <= self.layers.len(),
                current@ == activation_at(self@, input@, k as nat),
            decreases self.layers.len() - k,
        {
            current = self.layers[k].forward(current.as_slice());
            k += 1;
        }
        current
    }

    /// The forward pass with what training needs of it: the output, the
    /// activations (the input first, then each layer's output) and the
    /// weighted sums of each layer.
    pub fn forward_with_intermediates(&self, input: &[Fixed]) -> (r: (
        Vec<Fixed>,
        Vec<Vec<Fixed>>,
        Vec<Vec<Fixed>>,
    ))
        ensures
            r.0@ == forward_spec(self@, input@),
            matrix(r.1@) == all_activations(self@, input@),
            matrix(r.2@) == all_weighted_sums(self@, input@),
    {
        proof {
            use_type_invariant(self);
        }
        let mut activations: Vec<Vec<Fixed>> = Vec::new();
        let mut sums: Vec<Vec<Fixed>> = Vec::new();
        let mut current: Vec<Fixed> = copy_slice(input);
        let mut k: usize = 0;
        while k < self.layers.len()
            invariant
                k <= self.layers.len(),
                current@ == activation_at(self@, input@, k as nat),
                activations@.len() == k,
                sums@.len() == k,
                forall|j: int|
                    0 <= j < k ==> (#[trigger] activations@[j])@ == activation_at(
                        self@,
                        input@,
                        j as nat,
                    ),
                forall|j: int|
                    0 <= j < k ==> (#[trigger] sums@[j])@ == layer_sums(
                        self@[j],
                        activation_at(self@, input@, j as nat),
                    ),
            decreases self.layers.len() - k,
        {
            let z: Vec<Fixed> = self.layers[k].weighted_sums(current.as_slice());
            let next: Vec<Fixed> = sigmoid_each(&z);
            activations.push(current);
            sums.push(z);
            current = next;
            k += 1;
        }
        activations.push(copy_slice(current.as_slice()));
        assert(matrix(activations@) =~= all_activations(self@, input@));
        assert(matrix(sums@) =~= all_weighted_sums(self@, input@));
        (current, activations, sums)
    }
}

impl Clone for NeuralNetwork {
    fn clone(&self) -> (r: Self)
        ensures
            r@ == self@,
    {
        proof {
            use_type_invariant(self);
        }
        let mut layers: Vec<Layer> = Vec::new();
        let mut i: usize = 0;
        while i < self.layers.len()
            invariant
                i <= self.layers.len(),
                layers@.len() == i,
                forall|k: int| 0 <= k < i ==> (#[trigger] layers@[k])@ == self.layers@[k]@,
            decreases self.layers.len() - i,
        {
            layers.push(self.layers[i].clone());
            i += 1;
        }
        assert(layer_models(layers@) =~= layer_models(self.layers@));
        NeuralNetwork { layers }
    }
}

/// Two scalars combined: their mean, or their saturating sum.
pub open spec fn combined(a: Fixed, b: Fixed, average: bool) -> Fixed {
    if average {
        a.mean_spec(b)
    } else {
        a.add_spec(b)
    }
}

/// Two vectors of one length combined position by position.
pub open spec fn combined_rows(a: Seq<Fixed>, b: Seq<Fixed>, average: bool) -> Seq<Fixed> {
    Seq::new(a.len(), |c: int| combined(a[c], b[c], average))
}

/// Two layers of one shape combined weight by weight and bias by bias.
pub open spec fn combined_layer(a: LayerModel, b: LayerModel, average: bool) -> LayerModel {
    LayerModel {
        weights: Seq::new(
            a.weights.len(),
            |r: int| combined_rows(a.weights[r], b.weights[r], average),
        ),
        biases: combined_rows(a.biases, b.biases, average),
    }
}

/// Two networks of one topology combined layer by layer.
pub open spec fn combined_network(a: Seq<LayerModel>, b: Seq<LayerModel>, average: bool) -> Seq<
    LayerModel,
> {
    Seq::new(a.len(), |l: int| combined_layer(a[l], b[l], average))
}

/// The child of two parents: every weight and bias is the mean of the
/// parents' values at that place.
pub open spec fn crossover_spec(a: Seq<LayerModel>, b: Seq<LayerModel>) -> Seq<LayerModel> {
    combined_network(a, b, true)
}

/// A network with `noise` added to it: every weight and bias is the
/// saturating sum of the two values at that place.
pub open spec fn perturbed(a: Seq<LayerModel>, noise: Seq<LayerModel>) -> Seq<LayerModel> {
    combined_network(a, noise, false)
}

/// The largest perturbation that a mutation rate allows: its magnitude.
pub open spec fn rate_bound(rate: Fixed) -> int {
    if rate.raw >= 0 {
        rate.raw as int
    } else if rate.raw == i64::MIN {
        i64::MAX as int
    } else {
        -rate.raw
    }
}

/// `after` is `before` with a perturbation of at most `bound` added to
/// every weight and bias.
pub open spec fn is_mutation_of(before: Seq<LayerModel>, after: Seq<LayerModel>, bound: int) -> bool {
    exists|noise: Seq<LayerModel>|
        {
            &&& network_ok(noise)
            &&& topology(noise) == topology(before)
            &&& entries_within(noise, -bound, bound)
            &&& after == #[trigger] perturbed(before, noise)
        }
}

/// A flip is a scalar from zero up to, but not including, one.
pub open spec fn is_flip(flip: Fixed) -> bool {
    0 <= flip.raw < ONE_RAW
}

/// A flip decides for a mutation where it is below the probability.
pub open spec fn mutation_due_spec(flip: Fixed, probability: Fixed) -> bool {
    flip.raw < probability.raw
}

/// The network after a mutation with the given flip and noise: where the
/// flip is below the probability, `noise` is added to every weight and bias;
/// else the network is as it was. One flip decides for the whole network.
pub open spec fn mutated(
    before: Seq<LayerModel>,
    flip: Fixed,
    noise: Seq<LayerModel>,
    probability: Fixed,
) -> Seq<LayerModel> {
    if mutation_due_spec(flip, probability) {
        perturbed(before, noise)
    } else {
        before
    }
}

/// `after` is what the flip leaves of `before`: where the flip is below
/// the probability, `before` with a perturbation within the rate on every
/// weight and bias; else `before` itself.
pub open spec fn is_flip_outcome(
    before: Seq<LayerModel>,
    after: Seq<LayerModel>,
    flip: Fixed,
    probability: Fixed,
    rate: Fixed,
) -> bool {
    if mutation_due_spec(flip, probability) {
        is_mutation_of(before, after, rate_bound(rate))
    } else {
        after == before
    }
}

/// `after` is what a mutation with the given probability and rate can
/// leave of `before`: what some flip leaves of it.
pub open spec fn is_mutate_outcome(
    before: Seq<LayerModel>,
    after: Seq<LayerModel>,
    probability: Fixed,
    rate: Fixed,
) -> bool {
    exists|flip: Fixed|
        is_flip(flip) && #[trigger] is_flip_outcome(before, after, flip, probability, rate)
}

/// With a probability of zero or less a mutation changes nothing.
pub proof fn lemma_no_mutation_at_probability_zero(
    before: Seq<LayerModel>,
    after: Seq<LayerModel>,
    probability: Fixed,
    rate: Fixed,
)
    requires
        is_mutate_outcome(before, after, probability, rate),
        probability.raw <= 0,
    ensures
        after == before,
{
}

/// With a probability of one or more a mutation perturbs every weight and
/// bias within the rate.
pub proof fn lemma_mutation_at_probability_one(
    before: Seq<LayerModel>,
    after: Seq<LayerModel>,
    probability: Fixed,
    rate: Fixed,
)
    requires
        is_mutate_outcome(before, after, probability, rate),
        probability.raw >= ONE_RAW,
    ensures
        is_mutation_of(before, after, rate_bound(rate)),
{
}

/// A mutation keeps the layer sizes.
pub proof fn lemma_mutation_shape(before: Seq<LayerModel>, after: Seq<LayerModel>, bound: int)
    requires
        network_ok(before),
        is_mutation_of(before, after, bound),
    ensures
        network_ok(after),
        topology(after) == topology(before),
{
    let noise = choose|noise: Seq<LayerModel>|
        {
            &&& network_ok(noise)
            &&& topology(noise) == topology(before)
            &&& entries_within(noise, -bound, bound)
            &&& after == #[trigger] perturbed(before, noise)
        };
    lemma_combined_shape(before, noise, false);
}

/// Combining keeps the shape of the first network.
pub proof fn lemma_combined_shape(a: Seq<LayerModel>, b: Seq<LayerModel>, average: bool)
    requires
        network_ok(a),
    ensures
        network_ok(combined_network(a, b, average)),
        topology(combined_network(a, b, average)) == topology(a),
{
    let c = combined_network(a, b, average);
    assert forall|i: int| 0 <= i < c.len() implies layer_ok(#[trigger] c[i]) by {
        assert(layer_ok(a[i]));
        assert forall|r: int| 0 <= r < c[i].weights.len() implies (#[trigger] c[i].weights[r]).len()
            == c[i].weights[0].len() by {
            assert(a[i].weights[r].len() == a[i].weights[0].len());
        }
    }
    assert forall|i: int| 1 <= i < c.len() implies layer_inputs(#[trigger] c[i]) == layer_outputs(
        c[i - 1],
    ) by {
        assert(layer_inputs(a[i]) == layer_outputs(a[i - 1]));
        assert(layer_ok(a[i]));
    }
    assert(layer_ok(a[0]));
    assert(topology(c) =~= topology(a));
}

/// The child of two parents with the same weights has those weights.
pub proof fn lemma_crossover_of_equal_parents(a: Seq<LayerModel>, b: Seq<LayerModel>)
    requires
        network_ok(a),
        b == a,
    ensures
        crossover_spec(a, b) == a,
{
    let c = crossover_spec(a, b);
    assert forall|l: int| 0 <= l < a.len() implies #[trigger] c[l] == a[l] by {
        assert(layer_ok(a[l]));
        assert forall|r: int| 0 <= r < a[l].weights.len() implies #[trigger] c[l].weights[r]
            == a[l].weights[r] by {
            assert(c[l].weights[r] =~= a[l].weights[r]);
        }
        assert(c[l].weights =~= a[l].weights);
        assert(c[l].biases =~= a[l].biases);
    }
    assert(c =~= a);
}

/// The child of a network with itself is that network.
pub proof fn lemma_crossover_with_itself(a: Seq<LayerModel>)
    requires
        network_ok(a),
    ensures
        crossover_spec(a, a) == a,
{
    lemma_crossover_of_equal_parents(a, a);
}

fn combine_rows(a: &Vec<Fixed>, b: &Vec<Fixed>, average: bool) -> (r: Vec<Fixed>)
    requires
        a@.len() == b@.len(),
    ensures
        r@ == combined_rows(a@, b@, average),
{
    let mut r: Vec<Fixed> = Vec::new();
    let mut c: usize = 0;
    while c < a.len()
        invariant
            c <= a.len(),
            a@.len() == b@.len(),
            r@.len() == c,
            forall|k: int| 0 <= k < c ==> #[trigger] r@[k] == combined(a@[k], b@[k], average),
        decreases a.len() - c,
    {
        let v: Fixed = if average {
            a[c].mean(b[c])
        } else {
            a[c].saturating_add(b[c])
        };
        r.push(v);
        c += 1;
    }
    assert(r@ =~= combined_rows(a@, b@, average));
    r
}

impl Layer {
    fn combine(&self, other: &Layer, average: bool) -> (r: Layer)
        requires
            layer_inputs(self@) == layer_inputs(other@),
            layer_outputs(self@) == layer_outputs(other@),
        ensures
            r@ == combined_layer(self@, other@, average),
    {
        proof {
            use_type_invariant(self);
            use_type_invariant(other);
        }
        let mut weights: Vec<Vec<Fixed>> = Vec::new();
        let mut i: usize = 0;
        while i < self.weights.len()
            invariant
                i <= self.weights.len(),
                layer_ok(self@),
                layer_ok(other@),
                layer_inputs(self@) == layer_inputs(other@),
                layer_outputs(self@) == layer_outputs(other@),
                weights@.len() == i,
                forall|k: int|
                    0 <= k < i ==> (#[trigger] weights@[k])@ == combined_rows(
                        self@.weights[k],
                        other@.weights[k],
                        average,
                    ),
            decreases self.weights.len() - i,
        {
            assert(self@.weights[i as int].len() == other@.weights[i as int].len());
            let row: Vec<Fixed> = combine_rows(&self.weights[i], &other.weights[i], average);
            weights.push(row);
            i += 1;
        }
        let biases: Vec<Fixed> = combine_rows(&self.biases, &other.biases, average);
        let ghost m = combined_layer(self@, other@, average);
        assert(matrix(weights@) =~= m.weights);
        assert(layer_ok(layer_model(weights@, biases@))) by {
            assert(self@.weights[0].len() >= 1);
            assert forall|r: int| 0 <= r < m.weights.len() implies (#[trigger] m.weights[r]).len()
                == m.weights[0].len() by {
                assert(self@.weights[r].len() == self@.weights[0].len());
            }
        }
        Layer { weights, biases }
    }
}

impl NeuralNetwork {
    /// Whether the two networks have the same layer sizes.
    pub fn same_topology(&self, other: &NeuralNetwork) -> (same: bool)
        ensures
            same == (topology(self@) == topology(other@)),
    {
        proof {
            use_type_invariant(self);
            use_type_invariant(other);
        }
        if self.layers.len() != other.layers.len() {
            assert(topology(self@).len() != topology(other@).len());
            return false;
        }
        if self.layers[0].input_size() != other.layers[0].input_size() {
            assert(topology(self@)[0] != topology(other@)[0]);
            return false;
        }
        let mut k: usize = 0;
        while k < self.layers.len()
            invariant
                k <= self.layers.len(),
                self.layers.len() == other.layers.len(),
                topology(self@)[0] == topology(other@)[0],
                forall|j: int| 1 <= j <= k ==> topology(self@)[j] == topology(other@)[j],
            decreases self.layers.len() - k,
        {
            if self.layers[k].output_size() != other.layers[k].output_size() {
                assert(topology(self@)[k + 1] != topology(other@)[k + 1]);
                return false;
            }
            k += 1;
        }
        assert(topology(self@) =~= topology(other@));
        true
    }

    fn combine(&self, other: &NeuralNetwork, average: bool) -> (r: NeuralNetwork)
        requires
            topology(self@) == topology(other@),
        ensures
            r@ == combined_network(self@, other@, average),
    {
        proof {
            use_type_invariant(self);
            use_type_invariant(other);
            lemma_combined_shape(self@, other@, average);
        }
        let mut layers: Vec<Layer> = Vec::new();
        let mut l: usize = 0;
        while l < self.layers.len()
            invariant
                l <= self.layers.len(),
                network_ok(self@),
                network_ok(other@),
                topology(self@) == topology(other@),
                layers@.len() == l,
                forall|k: int|
                    0 <= k < l ==> (#[trigger] layers@[k])@ == combined_layer(
                        self@[k],
                        other@[k],
                        average,
                    ),
            decreases self.layers.len() - l,
        {
            proof {
                assert(topology(self@).len() == topology(other@).len());
                assert(topology(self@)[l + 1] == topology(other@)[l + 1]);
                assert(topology(self@)[l as int] == topology(other@)[l as int]);
                assert(layer_ok(self@[l as int]) && layer_ok(other@[l as int]));
                if l > 0 {
                    assert(layer_inputs(self@[l as int]) == layer_outputs(self@[l - 1]));
                    assert(layer_inputs(other@[l as int]) == layer_outputs(other@[l - 1]));
                }
            }
            let layer: Layer = self.layers[l].combine(&other.layers[l], average);
            layers.push(layer);
            l += 1;
        }
        assert(layer_models(layers@) =~= combined_network(self@, other@, average));
        NeuralNetwork { layers }
    }

    /// Adds `noise` to the network, weight by weight and bias by bias.
    /// Where the two do not have the same layer sizes, nothing changes.
    pub fn perturb(&mut self, noise: &NeuralNetwork) -> (r: Result<(), NetworkError>)
        ensures
            topology(old(self)@) == topology(noise@) <==> r is Ok,
            r is Ok ==> final(self)@ == perturbed(old(self)@, noise@),
            r matches Err(e) ==> e == NetworkError::TopologyMismatch && final(self)@ == old(self)@,
            topology(final(self)@) == topology(old(self)@),
    {
        if !self.same_topology(noise) {
            return Err(NetworkError::TopologyMismatch);
        }
        proof {
            use_type_invariant(&*self);
            lemma_combined_shape(self@, noise@, false);
        }
        let sum: NeuralNetwork = self.combine(noise, false);
        *self = sum;
        Ok(())
    }
}

/// The child of two parents of one topology: every weight and bias is the
/// mean of the parents' values at that place. The parents are not changed.
pub fn crossover_average(parent1: NeuralNetwork, parent2: NeuralNetwork) -> (r: Result<
    NeuralNetwork,
    NetworkError,
>)
    ensures
        topology(parent1@) == topology(parent2@) <==> r is Ok,
        r matches Ok(child) ==> child@ == crossover_spec(parent1@, parent2@) && topology(child@)
            == topology(parent1@),
        r matches Err(e) ==> e == NetworkError::TopologyMismatch,
{
    if !parent1.same_topology(&parent2) {
        return Err(NetworkError::TopologyMismatch);
    }
    proof {
        use_type_invariant(&parent1);
        lemma_combined_shape(parent1@, parent2@, true);
    }
    Ok(parent1.combine(&parent2, true))
}

/// The magnitude of a rate, as a raw value.
fn magnitude(rate: Fixed) -> (b: i64)
    ensures
        b == rate_bound(rate),
        b >= 0,
{
    if rate.raw >= 0 {
        rate.raw
    } else if rate.raw == i64::MIN {
        i64::MAX
    } else {
        -rate.raw
    }
}

/// Whether a flip decides for a mutation: where it is below the
/// probability.
pub fn mutation_due(flip: Fixed, mutation_probability: Fixed) -> (due: bool)
    ensures
        due == mutation_due_spec(flip, mutation_probability),
{
    flip.raw < mutation_probability.raw
}

/// Mutates the network in place with the given flip and noise. The one
/// flip decides for the whole network: where it is below the probability,
/// `noise` is added to every weight and bias; else nothing changes.
pub fn mutate_with(
    nn: &mut NeuralNetwork,
    flip: Fixed,
    noise: &NeuralNetwork,
    mutation_probability: Fixed,
)
    requires
        topology(noise@) == topology(old(nn)@),
    ensures
        final(nn)@ == mutated(old(nn)@, flip, noise@, mutation_probability),
        flip.raw < mutation_probability.raw ==> final(nn)@ == perturbed(old(nn)@, noise@),
        flip.raw >= mutation_probability.raw ==> final(nn)@ == old(nn)@,
        topology(final(nn)@) == topology(old(nn)@),
{
    if mutation_due(flip, mutation_probability) {
        let _ = nn.perturb(noise);
    }
}

/// Mutates the network in place. One flip, drawn uniformly from `[0, 1)`,
/// decides for the whole network: where it is below `mutation_probability`,
/// every weight and bias receives a perturbation of its own, drawn uniformly
/// from `[-rate, rate]`; else nothing changes. What the two draws do to the
/// network is what `mutate_with` says.
pub fn mutate(nn: &mut NeuralNetwork, mutation_probability: Fixed, mutation_rate: Fixed)
    ensures
        topology(final(nn)@) == topology(old(nn)@),
        is_mutate_outcome(old(nn)@, final(nn)@, mutation_probability, mutation_rate),
        mutation_probability.raw <= 0 ==> final(nn)@ == old(nn)@,
        mutation_probability.raw >= ONE_RAW ==> is_mutation_of(
            old(nn)@,
            final(nn)@,
            rate_bound(mutation_rate),
        ),
{
    let flip: Fixed = Fixed::from_raw(random_between(0, ONE_RAW - 1));
    let ghost before = nn@;
    if mutation_due(flip, mutation_probability) {
        let bound: i64 = magnitude(mutation_rate);
        let sizes: Vec<usize> = nn.sizes();
        let drawn = NeuralNetwork::random(sizes.as_slice(), -bound, bound);
        match drawn {
            Ok(noise) => {
                proof {
                    use_type_invariant(&noise);
                }
                mutate_with(nn, flip, &noise, mutation_probability);
                assert(nn@ == perturbed(before, noise@));
            },
            Err(_) => {},
        }
    }
    assert(is_flip_outcome(before, nn@, flip, mutation_probability, mutation_rate));
}

/// The local gradient of a layer: the incoming gradient times the slope of
/// the sigmoid at each weighted sum.
pub open spec fn local_gradient(d: Seq<Fixed>, sums: Seq<Fixed>) -> Seq<Fixed> {
    Seq::new(d.len(), |r: int| d[r].mul_spec(sums[r].sigmoid_derivative_spec()))
}

/// The sum over the first `n` rows of `weights[r][c] * g[r]`, added in the
/// order of the rows.
pub open spec fn column_dot(weights: Seq<Seq<Fixed>>, g: Seq<Fixed>, c: int, n: nat) -> Fixed
    decreases n,
{
    if n == 0 {
        Fixed::zero_spec()
    } else {
        column_dot(weights, g, c, (n - 1) as nat).add_spec(weights[n - 1][c].mul_spec(g[n - 1]))
    }
}

/// The gradient that a layer hands to the layer before it: the transposed
/// weights times the local gradient.
pub open spec fn propagated(m: LayerModel, g: Seq<Fixed>) -> Seq<Fixed> {
    Seq::new(layer_inputs(m), |c: int| column_dot(m.weights, g, c, m.weights.len()))
}

/// A row of weights after one step: each weight less `step` times the
/// input at its place.
pub open spec fn updated_row(row: Seq<Fixed>, input: Seq<Fixed>, step: Fixed) -> Seq<Fixed> {
    Seq::new(row.len(), |c: int| row[c].sub_spec(step.mul_spec(input[c])))
}

/// A layer after one step of gradient descent with local gradient `g`:
/// weight `[r][c]` less `rate * g[r] * input[c]`, bias `[r]` less `rate * g[r]`.
pub open spec fn updated_layer(m: LayerModel, input: Seq<Fixed>, g: Seq<Fixed>, rate: Fixed) -> LayerModel {
    LayerModel {
        weights: Seq::new(
            m.weights.len(),
            |r: int| updated_row(m.weights[r], input, rate.mul_spec(g[r])),
        ),
        biases: Seq::new(m.biases.len(), |r: int| m.biases[r].sub_spec(rate.mul_spec(g[r]))),
    }
}

/// The gradient that arrives at the output of layer `i`: the loss gradient
/// at the last layer, else what layer `i + 1` hands back, computed with the
/// weights that layer had before the step.
pub open spec fn delta_at(
    layers: Seq<LayerModel>,
    sums: Seq<Seq<Fixed>>,
    d_loss: Seq<Fixed>,
    i: int,
) -> Seq<Fixed>
    decreases layers.len() - i,
{
    if i >= layers.len() - 1 {
        d_loss
    } else {
        propagated(
            layers[i + 1],
            local_gradient(delta_at(layers, sums, d_loss, i + 1), sums[i + 1]),
        )
    }
}

/// The network after one backward pass.
pub open spec fn backward_spec(
    layers: Seq<LayerModel>,
    activations: Seq<Seq<Fixed>>,
    sums: Seq<Seq<Fixed>>,
    d_loss: Seq<Fixed>,
    rate: Fixed,
) -> Seq<LayerModel> {
    Seq::new(
        layers.len(),
        |i: int|
            updated_layer(
                layers[i],
                activations[i],
                local_gradient(delta_at(layers, sums, d_loss, i), sums[i]),
                rate,
            ),
    )
}

/// The intermediates of a forward pass and a loss gradient fit the network:
/// one activation vector per layer and one more, one vector of sums per
/// layer, each of its layer's width, and a gradient of the output's width.
pub open spec fn backward_shapes(
    layers: Seq<LayerModel>,
    activations: Seq<Seq<Fixed>>,
    sums: Seq<Seq<Fixed>>,
    d_loss: Seq<Fixed>,
) -> bool {
    &&& activations.len() == layers.len() + 1
    &&& sums.len() == layers.len()
    &&& forall|i: int|
        0 <= i < layers.len() ==> (#[trigger] activations[i]).len() == layer_inputs(layers[i])
    &&& forall|i: int| 0 <= i < layers.len() ==> (#[trigger] sums[i]).len() == layer_outputs(layers[i])
    &&& d_loss.len() == layer_outputs(layers.last())
}

/// The gradient that arrives at a layer has that layer's width.
pub proof fn lemma_delta_width(
    layers: Seq<LayerModel>,
    sums: Seq<Seq<Fixed>>,
    d_loss: Seq<Fixed>,
    i: int,
)
    requires
        network_ok(layers),
        d_loss.len() == layer_outputs(layers.last()),
        0 <= i < layers.len(),
    ensures
        delta_at(layers, sums, d_loss, i).len() == layer_outputs(layers[i]),
    decreases layers.len() - i,
{
    if i < layers.len() - 1 {
        assert(layer_inputs(layers[i + 1]) == layer_outputs(layers[i]));
    }
}

/// The intermediates of a forward pass on an input of the network's width,
/// with a gradient of the output's width, fit the network.
pub proof fn lemma_intermediate_shapes(layers: Seq<LayerModel>, input: Seq<Fixed>, d_loss: Seq<Fixed>)
    requires
        network_ok(layers),
        input.len() == topology(layers)[0],
        d_loss.len() == topology(layers).last(),
    ensures
        backward_shapes(
            layers,
            all_activations(layers, input),
            all_weighted_sums(layers, input),
            d_loss,
        ),
{
    let acts = all_activations(layers, input);
    assert forall|i: int| 0 <= i < layers.len() implies (#[trigger] acts[i]).len() == layer_inputs(
        layers[i],
    ) by {
        if i > 0 {
            assert(layer_inputs(layers[i]) == layer_outputs(layers[i - 1]));
        }
    }
}

/// A step of gradient descent keeps the shape of a layer.
pub proof fn lemma_updated_layer_shape(m: LayerModel, input: Seq<Fixed>, g: Seq<Fixed>, rate: Fixed)
    requires
        layer_ok(m),
    ensures
        layer_ok(updated_layer(m, input, g, rate)),
        layer_inputs(updated_layer(m, input, g, rate)) == layer_inputs(m),
        layer_outputs(updated_layer(m, input, g, rate)) == layer_outputs(m),
{
    let u = updated_layer(m, input, g, rate);
    assert forall|r: int| 0 <= r < u.weights.len() implies (#[trigger] u.weights[r]).len()
        == u.weights[0].len() by {
        assert(m.weights[r].len() == m.weights[0].len());
    }
}

/// A backward pass keeps the layer sizes of the network.
pub proof fn lemma_backward_shape(
    layers: Seq<LayerModel>,
    activations: Seq<Seq<Fixed>>,
    sums: Seq<Seq<Fixed>>,
    d_loss: Seq<Fixed>,
    rate: Fixed,
)
    requires
        network_ok(layers),
    ensures
        network_ok(backward_spec(layers, activations, sums, d_loss, rate)),
        topology(backward_spec(layers, activations, sums, d_loss, rate)) == topology(layers),
{
    let b = backward_spec(layers, activations, sums, d_loss, rate);
    assert forall|i: int| 0 <= i < b.len() implies layer_ok(#[trigger] b[i]) && layer_inputs(b[i])
        == layer_inputs(layers[i]) && layer_outputs(b[i]) == layer_outputs(layers[i]) by {
        assert(layer_ok(layers[i]));
        lemma_updated_layer_shape(
            layers[i],
            activations[i],
            local_gradient(delta_at(layers, sums, d_loss, i), sums[i]),
            rate,
        );
    }
    assert forall|i: int| 1 <= i < b.len() implies layer_inputs(#[trigger] b[i]) == layer_outputs(
        b[i - 1],
    ) by {
        assert(layer_inputs(layers[i]) == layer_outputs(layers[i - 1]));
        assert(layer_ok(b[i - 1]));
    }
    assert(layer_ok(b[0]));
    assert(topology(b) =~= topology(layers));
}

fn local_gradient_of(d: &Vec<Fixed>, sums: &Vec<Fixed>) -> (g: Vec<Fixed>)
    requires
        d@.len() == sums@.len(),
    ensures
        g@ == local_gradient(d@, sums@),
{
    let mut g: Vec<Fixed> = Vec::new();
    let mut r: usize = 0;
    while r < d.len()
        invariant
            r <= d.len(),
            d@.len() == sums@.len(),
            g@.len() == r,
            forall|k: int|
                0 <= k < r ==> #[trigger] g@[k] == d@[k].mul_spec(
                    sums@[k].sigmoid_derivative_spec(),
                ),
        decreases d.len() - r,
    {
        g.push(d[r].saturating_mul(sums[r].sigmoid_derivative()));
        r += 1;
    }
    assert(g@ =~= local_gradient(d@, sums@));
    g
}

fn update_row(row: &Vec<Fixed>, input: &Vec<Fixed>, step: Fixed) -> (r: Vec<Fixed>)
    requires
        row@.len() == input@.len(),
    ensures
        r@ == updated_row(row@, input@, step),
{
    let mut r: Vec<Fixed> = Vec::new();
    let mut c: usize = 0;
    while c < row.len()
        invariant
            c <= row.len(),
            row@.len() == input@.len(),
            r@.len() == c,
            forall|k: int|
                0 <= k < c ==> #[trigger] r@[k] == row@[k].sub_spec(step.mul_spec(input@[k])),
        decreases row.len() - c,
    {
        r.push(row[c].saturating_sub(step.saturating_mul(input[c])));
        c += 1;
    }
    assert(r@ =~= updated_row(row@, input@, step));
    r
}

impl Layer {
    fn propagate(&self, g: &Vec<Fixed>) -> (p: Vec<Fixed>)
        requires
            g@.len() == layer_outputs(self@),
        ensures
            p@ == propagated(self@, g@),
    {
        proof {
            use_type_invariant(self);
        }
        let inputs: usize = self.weights[0].len();
        let mut p: Vec<Fixed> = Vec::new();
        let mut c: usize = 0;
        while c < inputs
            invariant
                c <= inputs,
                inputs == layer_inputs(self@),
                layer_ok(self@),
                g@.len() == layer_outputs(self@),
                p@.len() == c,
                forall|k: int|
                    0 <= k < c ==> #[trigger] p@[k] == column_dot(
                        self@.weights,
                        g@,
                        k,
                        self@.weights.len(),
                    ),
            decreases inputs - c,
        {
            let mut acc: Fixed = Fixed::zero();
            let mut r: usize = 0;
            while r < self.weights.len()
                invariant
                    r <= self.weights.len(),
                    c < inputs,
                    inputs == layer_inputs(self@),
                    layer_ok(self@),
                    g@.len() == layer_outputs(self@),
                    acc == column_dot(self@.weights, g@, c as int, r as nat),
                decreases self.weights.len() - r,
            {
                assert(self@.weights[r as int].len() == self@.weights[0].len());
                acc = acc.saturating_add(self.weights[r][c].saturating_mul(g[r]));
                r += 1;
            }
            p.push(acc);
            c += 1;
        }
        assert(p@ =~= propagated(self@, g@));
        p
    }

    fn updated(&self, input: &Vec<Fixed>, g: &Vec<Fixed>, rate: Fixed) -> (u: Layer)
        requires
            input@.len() == layer_inputs(self@),
            g@.len() == layer_outputs(self@),
        ensures
            u@ == updated_layer(self@, input@, g@, rate),
    {
        proof {
            use_type_invariant(self);
            lemma_updated_layer_shape(self@, input@, g@, rate);
        }
        let ghost m = updated_layer(self@, input@, g@, rate);
        let mut weights: Vec<Vec<Fixed>> = Vec::new();
        let mut biases: Vec<Fixed> = Vec::new();
        let mut r: usize = 0;
        while r < self.weights.len()
            invariant
                r <= self.weights.len(),
                layer_ok(self@),
                input@.len() == layer_inputs(self@),
                g@.len() == layer_outputs(self@),
                m == updated_layer(self@, input@, g@, rate),
                weights@.len() == r,
                biases@.len() == r,
                forall|k: int| 0 <= k < r ==> (#[trigger] weights@[k])@ == m.weights[k],
                forall|k: int| 0 <= k < r ==> #[trigger] biases@[k] == m.biases[k],
            decreases self.weights.len() - r,
        {
            assert(self@.weights[r as int].len() == self@.weights[0].len());
            let step: Fixed = rate.saturating_mul(g[r]);
            let row: Vec<Fixed> = update_row(&self.weights[r], input, step);
            weights.push(row);
            biases.push(self.biases[r].saturating_sub(step));
            r += 1;
        }
        assert(matrix(weights@) =~= m.weights);
        assert(biases@ =~= m.biases);
        Layer { weights, biases }
    }
}

impl NeuralNetwork {
    /// One step of gradient descent for one example, from the last layer
    /// to the first. For each layer the local gradient is the incoming
    /// gradient times the slope of the sigmoid at the layer's weighted sums;
    /// every weight loses `learning_rate * local_gradient[row] * input[col]`
    /// and every bias `learning_rate * local_gradient[row]`; the layer before
    /// receives the transposed weights, as they were before the step, times
    /// the local gradient.
    pub fn backward(
        &mut self,
        activations: &Vec<Vec<Fixed>>,
        weighted_sums: &Vec<Vec<Fixed>>,
        d_loss: Vec<Fixed>,
        learning_rate: Fixed,
    )
        requires
            backward_shapes(old(self)@, matrix(activations@), matrix(weighted_sums@), d_loss@),
        ensures
            final(self)@ == backward_spec(
                old(self)@,
                matrix(activations@),
                matrix(weighted_sums@),
                d_loss@,
                learning_rate,
            ),
            topology(final(self)@) == topology(old(self)@),
    {
        proof {
            use_type_invariant(&*self);
        }
        let ghost before = self@;
        let ghost acts = matrix(activations@);
        let ghost sums = matrix(weighted_sums@);
        let ghost after = backward_spec(before, acts, sums, d_loss@, learning_rate);
        proof {
            lemma_backward_shape(before, acts, sums, d_loss@, learning_rate);
        }
        let n: usize = self.layers.len();
        let mut layers: Vec<Layer> = Vec::new();
        let mut delta: Vec<Fixed> = d_loss;
        let mut i: usize = n;
        while i > 0
            invariant
                i <= n,
                n == before.len(),
                before == self@,
                network_ok(before),
                acts == matrix(activations@),
                sums == matrix(weighted_sums@),
                backward_shapes(before, acts, sums, d_loss@),
                after == backward_spec(before, acts, sums, d_loss@, learning_rate),
                layers@.len() == n - i,
                forall|k: int| 0 <= k < n - i ==> (#[trigger] layers@[k])@ == after[n - 1 - k],
                i > 0 ==> delta@ == delta_at(before, sums, d_loss@, i - 1),
            decreases i,
        {
            i -= 1;
            proof {
                lemma_delta_width(before, sums, d_loss@, i as int);
                assert(sums[i as int].len() == layer_outputs(before[i as int]));
                assert(acts[i as int].len() == layer_inputs(before[i as int]));
            }
            let layer: &Layer = &self.layers[i];
            let g: Vec<Fixed> = local_gradient_of(&delta, &weighted_sums[i]);
            if i > 0 {
                delta = layer.propagate(&g);
            }
            let updated: Layer = layer.updated(&activations[i], &g, learning_rate);
            layers.push(updated);
        }
        let mut result: Vec<Layer> = Vec::new();
        while layers.len() > 0
            invariant
                layers@.len() + result@.len() == n,
                after.len() == n,
                forall|j: int| 0 <= j < layers@.len() ==> (#[trigger] layers@[j])@ == after[n - 1 - j],
                forall|j: int| 0 <= j < result@.len() ==> (#[trigger] result@[j])@ == after[j],
            decreases layers@.len(),
        {
            let popped: Option<Layer> = layers.pop();
            match popped {
                Some(layer) => {
                    result.push(layer);
                },
                None => {},
            }
        }
        assert(layer_models(result@) =~= after);
        self.layers = result;
    }
}

} // verus!
