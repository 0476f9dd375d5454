//! Sequential models: an ordered chain of layers sharing one scratch buffer.
use vstd::prelude::*;
use crate::activation::{Activation, Softmax};
use crate::dense::DenseHeapLayer;
use crate::layer::Layer;
use crate::layout::{lemma_region_start_monotone, lemma_regions_disjoint, plan_regions, region_start, total_width};
use crate::scalar::Scalar;

verus! {

/// One layer of a model.
#[derive(Clone, Debug)]
pub enum LayerKind<T> {
    Dense(DenseHeapLayer<T>),
    Activation(Activation),
    Softmax(Softmax),
}

impl<T: Scalar> LayerKind<T> {
    /// Width of the layer's input.
    pub open spec fn in_len(&self) -> usize {
        match self {
            LayerKind::Dense(d) => d.input_len,
            LayerKind::Activation(a) => a.width,
            LayerKind::Softmax(s) => s.width,
        }
    }

    /// Width of the layer's output.
    pub open spec fn out_len(&self) -> usize {
        match self {
            LayerKind::Dense(d) => d.output_len,
            LayerKind::Activation(a) => a.width,
            LayerKind::Softmax(s) => s.width,
        }
    }

    /// The layer's own invariant.
    pub open spec fn layer_wf(&self) -> bool {
        match self {
            LayerKind::Dense(d) => d.well_formed(),
            _ => true,
        }
    }
}

impl<T: Scalar> Layer<T> for LayerKind<T> {
    open spec fn in_width(&self) -> nat {
        self.in_len() as nat
    }

    open spec fn out_width(&self) -> nat {
        self.out_len() as nat
    }

    open spec fn buf_width(&self) -> nat {
        self.out_len() as nat
    }

    open spec fn wf(&self) -> bool {
        self.layer_wf()
    }

    open spec fn forward(&self, input: Seq<T>) -> Seq<T> {
        match self {
            LayerKind::Dense(d) => d.forward(input),
            LayerKind::Activation(a) => Layer::<T>::forward(a, input),
            LayerKind::Softmax(s) => Layer::<T>::forward(s, input),
        }
    }

    open spec fn backward(&self, input: Seq<T>, buffer: Seq<T>, gradient: Seq<T>) -> Seq<T> {
        match self {
            LayerKind::Dense(d) => d.backward(input, buffer, gradient),
            LayerKind::Activation(a) => Layer::<T>::backward(a, input, buffer, gradient),
            LayerKind::Softmax(s) => Layer::<T>::backward(s, input, buffer, gradient),
        }
    }

    /// The layer keeps its kind and is updated by that kind's rule.
    open spec fn updated(&self, new: Self, input: Seq<T>, buffer: Seq<T>, gradient: Seq<T>) -> bool {
        match self {
            LayerKind::Dense(d) => match new {
                LayerKind::Dense(e) => d.updated(e, input, buffer, gradient),
                _ => false,
            },
            LayerKind::Activation(a) => match new {
                LayerKind::Activation(e) => Layer::<T>::updated(a, e, input, buffer, gradient),
                _ => false,
            },
            LayerKind::Softmax(s) => match new {
                LayerKind::Softmax(e) => Layer::<T>::updated(s, e, input, buffer, gradient),
                _ => false,
            },
        }
    }

    proof fn lemma_forward_len(&self, input: Seq<T>) {
        match self {
            LayerKind::Dense(d) => d.lemma_forward_len(input),
            LayerKind::Activation(a) => Layer::<T>::lemma_forward_len(a, input),
            LayerKind::Softmax(s) => Layer::<T>::lemma_forward_len(s, input),
        }
    }

    fn input_width(&self) -> (r: usize) {
        match self {
            LayerKind::Dense(d) => d.input_len,
            LayerKind::Activation(a) => a.width,
            LayerKind::Softmax(s) => s.width,
        }
    }

    fn output_width(&self) -> (r: usize) {
        match self {
            LayerKind::Dense(d) => d.output_len,
            LayerKind::Activation(a) => a.width,
            LayerKind::Softmax(s) => s.width,
        }
    }

    fn buffer_width(&self) -> (r: usize) {
        self.output_width()
    }

    fn predict(&self, input: &[T], buffer: &mut [T]) {
        match self {
            LayerKind::Dense(d) => d.predict(input, buffer),
            LayerKind::Activation(a) => Layer::<T>::predict(a, input, buffer),
            LayerKind::Softmax(s) => Layer::<T>::predict(s, input, buffer),
        }
    }

    fn backpropagate(&mut self, input: &[T], buffer: &[T], gradient: &[T]) -> (r: Vec<T>) {
        match self {
            LayerKind::Dense(d) => d.backpropagate(input, buffer, gradient),
            LayerKind::Activation(a) => Layer::<T>::backpropagate(a, input, buffer, gradient),
            LayerKind::Softmax(s) => Layer::<T>::backpropagate(s, input, buffer, gradient),
        }
    }
}

/// Why a list of layers does not make a model.
#[derive(Clone, Copy, Debug, PartialEq, Eq)]
pub enum ModelError {
    /// The list holds no layer.
    NoLayers,
    /// The widths disagree at `boundary`: boundary `0` is between the model's
    /// input and the first layer, boundary `k` between layer `k - 1` and layer
    /// `k`, and the last boundary between the last layer and the model's output.
    ConfigurationMismatch { boundary: usize },
    /// The scratch buffer would hold more than `usize::MAX` elements.
    CacheTooLarge,
}

/// The output widths of the layers, in order: the widths of the buffer regions.
pub open spec fn output_widths<T: Scalar>(layers: Seq<LayerKind<T>>) -> Seq<usize> {
    Seq::new(layers.len(), |i: int| layers[i].out_len())
}

/// Width of what arrives at boundary `b`: the model's input for `b == 0`, else
/// the output of layer `b - 1`.
pub open spec fn arriving_width<T: Scalar>(layers: Seq<LayerKind<T>>, input_width: usize, b: int) -> usize {
    if b == 0 {
        input_width
    } else {
        layers[b - 1].out_len()
    }
}

/// Width expected at boundary `b`: the input of layer `b`, or the model's
/// output for the last boundary.
pub open spec fn expected_width<T: Scalar>(layers: Seq<LayerKind<T>>, output_width: usize, b: int) -> usize {
    if b == layers.len() {
        output_width
    } else {
        layers[b].in_len()
    }
}

pub open spec fn boundary_matches<T: Scalar>(
    layers: Seq<LayerKind<T>>,
    input_width: usize,
    output_width: usize,
    b: int,
) -> bool {
    arriving_width(layers, input_width, b) == expected_width(layers, output_width, b)
}

/// Every boundary of the chain joins equal widths.
pub open spec fn chained<T: Scalar>(layers: Seq<LayerKind<T>>, input_width: usize, output_width: usize) -> bool {
    forall|b: int| 0 <= b <= layers.len() ==> #[trigger] boundary_matches(layers, input_width, output_width, b)
}

/// The output of layer `k` in a forward pass from `input`: layer `0` maps the
/// input, and layer `k` maps the output of layer `k - 1`.
pub open spec fn layer_output<T: Scalar>(layers: Seq<LayerKind<T>>, input: Seq<T>, k: int) -> Seq<T>
    decreases k,
{
    if k <= 0 {
        layers[0].forward(input)
    } else {
        layers[k].forward(layer_output(layers, input, k - 1))
    }
}

/// The outputs of layers `0 .. k` one after the other: the scratch buffer
/// after a forward pass through the first `k` layers.
pub open spec fn stacked<T: Scalar>(layers: Seq<LayerKind<T>>, input: Seq<T>, k: int) -> Seq<T>
    decreases k,
{
    if k <= 0 {
        Seq::empty()
    } else {
        stacked(layers, input, k - 1) + layer_output(layers, input, k - 1)
    }
}

/// What layer `k` reads in the backward pass: the model's input for `k == 0`,
/// else region `k - 1` of the buffer.
pub open spec fn step_input<T: Scalar>(
    layers: Seq<LayerKind<T>>,
    offsets: Seq<usize>,
    input: Seq<T>,
    buffer: Seq<T>,
    k: int,
) -> Seq<T> {
    if k == 0 {
        input
    } else {
        buffer.subrange(offsets[k - 1] as int, offsets[k] as int)
    }
}

/// Region `k` of the buffer: the output of layer `k`.
pub open spec fn step_output<T: Scalar>(
    layers: Seq<LayerKind<T>>,
    offsets: Seq<usize>,
    buffer: Seq<T>,
    k: int,
) -> Seq<T> {
    buffer.subrange(offsets[k] as int, offsets[k] + layers[k].out_len())
}

/// The gradient that reaches layer `k - 1` (the model's input gradient for
/// `k == 0`): `gradient` enters the last layer, and each layer from the last
/// down to `k` turns the gradient it receives into the one it passes on.
pub open spec fn gradient_chain<T: Scalar>(
    layers: Seq<LayerKind<T>>,
    offsets: Seq<usize>,
    input: Seq<T>,
    buffer: Seq<T>,
    gradient: Seq<T>,
    k: int,
) -> Seq<T>
    decreases layers.len() - k,
{
    if k >= layers.len() || k < 0 {
        gradient
    } else {
        layers[k].backward(
            step_input(layers, offsets, input, buffer, k),
            step_output(layers, offsets, buffer, k),
            gradient_chain(layers, offsets, input, buffer, gradient, k + 1),
        )
    }
}

/// A sequential model: the layers in order, the model's widths, and the
/// layout of the scratch buffer, where region `i` holds the output of layer `i`.
#[derive(Clone, Debug)]
pub struct Model<T> {
    pub layers: Vec<LayerKind<T>>,
    pub input_width: usize,
    pub output_width: usize,
    pub offsets: Vec<usize>,
    pub cache_width: usize,
}

impl<T: Scalar> Model<T> {
    pub open spec fn widths(&self) -> Seq<usize> {
        output_widths(self.layers@)
    }

    /// The model's invariant: a non-empty chain of well-formed layers with
    /// matching widths, and the buffer layout of their outputs.
    pub open spec fn well_formed(&self) -> bool {
        &&& self.layers@.len() > 0
        &&& forall|i: int| 0 <= i < self.layers@.len() ==> #[trigger] self.layers@[i].layer_wf()
        &&& chained(self.layers@, self.input_width, self.output_width)
        &&& self.offsets@.len() == self.layers@.len()
        &&& forall|i: int| 0 <= i < self.offsets@.len() ==> #[trigger] self.offsets@[i] == region_start(self.widths(), i)
        &&& self.cache_width == total_width(self.widths())
    }

    /// Checks that the layers chain from `input_width` to `output_width` and
    /// lays out the scratch buffer: region `i`, of the output width of layer
    /// `i`, starts where region `i - 1` ends.
    pub fn compile(input_width: usize, output_width: usize, layers: Vec<LayerKind<T>>) -> (r: Result<Model<T>, ModelError>)
        requires
            forall|i: int| 0 <= i < layers@.len() ==> #[trigger] layers@[i].layer_wf(),
        ensures
            match r {
                Ok(m) => {
                    &&& layers@.len() > 0
                    &&& chained(layers@, input_width, output_width)
                    &&& total_width(output_widths(layers@)) <= usize::MAX
                    &&& m.well_formed()
                    &&& m.layers@ == layers@
                    &&& m.input_width == input_width
                    &&& m.output_width == output_width
                },
                Err(ModelError::NoLayers) => layers@.len() == 0,
                Err(ModelError::ConfigurationMismatch { boundary }) => {
                    &&& layers@.len() > 0
                    &&& boundary <= layers@.len()
                    &&& !boundary_matches(layers@, input_width, output_width, boundary as int)
                    &&& forall|b: int| 0 <= b < boundary ==> #[trigger] boundary_matches(layers@, input_width, output_width, b)
                },
                Err(ModelError::CacheTooLarge) => {
                    &&& layers@.len() > 0
                    &&& chained(layers@, input_width, output_width)
                    &&& total_width(output_widths(layers@)) > usize::MAX
                },
            },
    {
        let n: usize = layers.len();
        if n == 0 {
            return Err(ModelError::NoLayers);
        }
        let mut widths: Vec<usize> = Vec::new();
        let mut arriving: usize = input_width;
        let mut b: usize = 0;
        while b < n
            invariant
                b <= n,
                n == layers@.len(),
                forall|i: int| 0 <= i < layers@.len() ==> #[trigger] layers@[i].layer_wf(),
                arriving == arriving_width(layers@, input_width, b as int),
                widths@ == output_widths(layers@).subrange(0, b as int),
                forall|c: int| 0 <= c < b ==> #[trigger] boundary_matches(layers@, input_width, output_width, c),
            decreases n - b,
        {
            let expected: usize = layers[b].input_width();
            if arriving != expected {
                return Err(ModelError::ConfigurationMismatch { boundary: b });
            }
            arriving = layers[b].output_width();
            widths.push(arriving);
            b = b + 1;
        }
        if arriving != output_width {
            return Err(ModelError::ConfigurationMismatch { boundary: n });
        }
        assert(widths@ == output_widths(layers@));
        assert(boundary_matches(layers@, input_width, output_width, n as int));
        match plan_regions(&widths) {
            None => Err(ModelError::CacheTooLarge),
            Some((offsets, cache_width)) => Ok(Model { layers, input_width, output_width, offsets, cache_width }),
        }
    }

    /// Where layer `i` reads and writes: its output region lies inside the
    /// buffer, its input is the model's input or the region just before its
    /// own, and the widths agree.
    pub proof fn lemma_layer_regions(&self, i: int)
        requires
            self.well_formed(),
            0 <= i < self.layers@.len(),
        ensures
            self.widths()[i] == self.layers@[i].out_len(),
            self.offsets@[i] + self.layers@[i].out_len() <= self.cache_width,
            self.offsets@[i] + self.layers@[i].out_len() == region_start(self.widths(), i + 1),
            i == 0 ==> self.offsets@[i] == 0 && self.layers@[i].in_len() == self.input_width,
            i > 0 ==> self.offsets@[i - 1] + self.layers@[i].in_len() == self.offsets@[i],
            i > 0 ==> self.layers@[i].in_len() == self.layers@[i - 1].out_len(),
            i == self.layers@.len() - 1 ==> self.offsets@[i] + self.layers@[i].out_len() == self.cache_width,
            i == self.layers@.len() - 1 ==> self.layers@[i].out_len() == self.output_width,
    {
        let n = self.layers@.len() as int;
        lemma_regions_disjoint(self.widths(), i, n);
        assert(boundary_matches(self.layers@, self.input_width, self.output_width, i));
        assert(boundary_matches(self.layers@, self.input_width, self.output_width, n));
        assert(self.offsets@[i] == region_start(self.widths(), i));
        if i > 0 {
            assert(self.offsets@[i - 1] == region_start(self.widths(), i - 1));
        }
    }

    /// Each layer's output has that layer's output width.
    pub proof fn lemma_output_len(&self, input: Seq<T>, k: int)
        requires
            self.well_formed(),
            0 <= k < self.layers@.len(),
        ensures
            layer_output(self.layers@, input, k).len() == self.layers@[k].out_len(),
    {
        if k == 0 {
            self.layers@[0].lemma_forward_len(input);
        } else {
            self.layers@[k].lemma_forward_len(layer_output(self.layers@, input, k - 1));
        }
    }

    /// The first `k` stacked outputs fill the buffer up to region `k`.
    pub proof fn lemma_stacked_len(&self, input: Seq<T>, k: int)
        requires
            self.well_formed(),
            0 <= k <= self.layers@.len(),
        ensures
            stacked(self.layers@, input, k).len() == region_start(self.widths(), k),
        decreases k,
    {
        if k > 0 {
            self.lemma_stacked_len(input, k - 1);
            self.lemma_output_len(input, k - 1);
        }
    }

    /// Region `j` of the stacked outputs of the first `k` layers, `j < k`,
    /// holds the output of layer `j`.
    pub proof fn lemma_stacked_region(&self, input: Seq<T>, j: int, k: int)
        requires
            self.well_formed(),
            0 <= j < k <= self.layers@.len(),
        ensures
            stacked(self.layers@, input, k).subrange(
                self.offsets@[j] as int,
                self.offsets@[j] + self.layers@[j].out_len(),
            ) == layer_output(self.layers@, input, j),
        decreases k,
    {
        self.lemma_layer_regions(j);
        self.lemma_stacked_len(input, k - 1);
        self.lemma_output_len(input, k - 1);
        let prev = stacked(self.layers@, input, k - 1);
        let last = layer_output(self.layers@, input, k - 1);
        if j == k - 1 {
            assert(stacked(self.layers@, input, k).subrange(
                self.offsets@[j] as int,
                self.offsets@[j] + self.layers@[j].out_len(),
            ) =~= last);
        } else {
            self.lemma_stacked_region(input, j, k - 1);
            lemma_region_start_monotone(self.widths(), j + 1, k - 1);
            assert(stacked(self.layers@, input, k).subrange(
                self.offsets@[j] as int,
                self.offsets@[j] + self.layers@[j].out_len(),
            ) =~= prev.subrange(self.offsets@[j] as int, self.offsets@[j] + self.layers@[j].out_len()));
        }
    }

    /// After a buffered forward pass, the last region holds what the
    /// unbuffered forward pass returns: both compute the same composition.
    pub proof fn lemma_buffered_matches_unbuffered(&self, input: Seq<T>)
        requires
            self.well_formed(),
        ensures
            stacked(self.layers@, input, self.layers@.len() as int).subrange(
                self.offsets@[self.layers@.len() - 1] as int,
                self.cache_width as int,
            ) == layer_output(self.layers@, input, self.layers@.len() - 1),
    {
        let n = self.layers@.len() as int;
        self.lemma_layer_regions(n - 1);
        self.lemma_stacked_region(input, n - 1, n);
    }

    /// A fresh scratch buffer for this model, every element zero.
    pub fn new_cache(&self) -> (r: Vec<T>)
        ensures
            r@.len() == self.cache_width,
            forall|k: int| 0 <= k < r@.len() ==> #[trigger] r@[k] == T::spec_zero(),
    {
        zeros(self.cache_width)
    }

    /// Bounds of the region that holds the model's output.
    pub fn output_region(&self) -> (r: (usize, usize))
        requires
            self.well_formed(),
        ensures
            r.0 == self.offsets@[self.layers@.len() - 1],
            r.1 == self.cache_width,
            r.1 - r.0 == self.output_width,
    {
        let last: usize = self.layers.len() - 1;
        proof {
            self.lemma_layer_regions(last as int);
        }
        (self.offsets[last], self.cache_width)
    }

    /// The model's output as left in `buffer` by `predict_buffered`.
    pub fn output_of<'a>(&self, buffer: &'a [T]) -> (r: &'a [T])
        requires
            self.well_formed(),
            buffer@.len() == self.cache_width,
        ensures
            r@ == buffer@.subrange(self.offsets@[self.layers@.len() - 1] as int, self.cache_width as int),
            r@.len() == self.output_width,
    {
        let (start, _) = self.output_region();
        let (_, out) = buffer.split_at(start);
        out
    }

    /// Forward pass through the scratch buffer: layer `i` reads the model's
    /// input (for `i == 0`) or region `i - 1`, and writes region `i`. The
    /// model's output is left in the last region.
    pub fn predict_buffered(&self, input: &[T], buffer: &mut [T])
        requires
            self.well_formed(),
            input@.len() == self.input_width,
            old(buffer)@.len() == self.cache_width,
        ensures
            final(buffer)@ == stacked(self.layers@, input@, self.layers@.len() as int),
            forall|k: int|
                0 <= k < self.layers@.len() ==> #[trigger] final(buffer)@.subrange(
                    self.offsets@[k] as int,
                    self.offsets@[k] + self.layers@[k].out_len(),
                ) == layer_output(self.layers@, input@, k),
    {
        let n: usize = self.layers.len();
        let mut i: usize = 0;
        while i < n
            invariant
                i <= n,
                n == self.layers@.len(),
                self.well_formed(),
                input@.len() == self.input_width,
                buffer@.len() == self.cache_width,
                buffer@.subrange(0, region_start(self.widths(), i as int)) == stacked(self.layers@, input@, i as int),
            decreases n - i,
        {
            proof {
                self.lemma_layer_regions(i as int);
                lemma_regions_disjoint(self.widths(), i as int, n as int);
                if i > 0 {
                    self.lemma_layer_regions(i - 1);
                    self.lemma_stacked_region(input@, i - 1, i as int);
                    self.lemma_output_len(input@, i - 1);
                }
            }
            let ghost before_buf = buffer@;
            let layer = &self.layers[i];
            let start: usize = self.offsets[i];
            let width: usize = layer.output_width();
            let (before, rest) = buffer.split_at_mut(start);
            let (region, _) = rest.split_at_mut(width);
            if i == 0 {
                layer.predict(input, region);
            } else {
                let previous: usize = self.offsets[i - 1];
                let (_, source) = before.split_at(previous);
                assert(source@ == layer_output(self.layers@, input@, i - 1)) by {
                    assert(source@ =~= before_buf.subrange(0, start as int).subrange(previous as int, start as int));
                };
                layer.predict(source, region);
            }
            proof {
                assert(buffer@.subrange(0, region_start(self.widths(), i + 1)) =~= stacked(self.layers@, input@, i + 1));
            }
            i = i + 1;
        }
        proof {
            assert(buffer@ =~= buffer@.subrange(0, region_start(self.widths(), n as int)));
            assert forall|k: int| 0 <= k < self.layers@.len() implies #[trigger] buffer@.subrange(
                self.offsets@[k] as int,
                self.offsets@[k] + self.layers@[k].out_len(),
            ) == layer_output(self.layers@, input@, k) by {
                self.lemma_stacked_region(input@, k, n as int);
            }
        }
    }

    /// Forward pass without a scratch buffer: each layer's output is handed to
    /// the next layer and then dropped. Returns the model's output.
    pub fn predict(&self, input: &[T]) -> (r: Vec<T>)
        requires
            self.well_formed(),
            input@.len() == self.input_width,
        ensures
            r@ == layer_output(self.layers@, input@, self.layers@.len() - 1),
            r@.len() == self.output_width,
    {
        let n: usize = self.layers.len();
        let mut current: Vec<T> = Vec::new();
        let mut k: usize = 0;
        while k < input.len()
            invariant
                k <= input@.len(),
                current@ == input@.subrange(0, k as int),
            decreases input@.len() - k,
        {
            current.push(input[k]);
            k = k + 1;
            proof {
                assert(current@ =~= input@.subrange(0, k as int));
            }
        }
        assert(current@ =~= input@);
        let mut i: usize = 0;
        while i < n
            invariant
                i <= n,
                n == self.layers@.len(),
                self.well_formed(),
                input@.len() == self.input_width,
                i == 0 ==> current@ == input@,
                i > 0 ==> current@ == layer_output(self.layers@, input@, i - 1),
            decreases n - i,
        {
            proof {
                self.lemma_layer_regions(i as int);
                if i > 0 {
                    self.lemma_output_len(input@, i - 1);
                }
            }
            let layer = &self.layers[i];
            let mut next: Vec<T> = zeros(layer.output_width());
            layer.predict(current.as_slice(), next.as_mut_slice());
            current = next;
            i = i + 1;
        }
        proof {
            self.lemma_layer_regions(n - 1);
            self.lemma_output_len(input@, n - 1);
        }
        current
    }

    /// The gradient that `backpropagate` returns.
    pub open spec fn spec_backward(&self, input: Seq<T>, buffer: Seq<T>, gradient: Seq<T>) -> Seq<T> {
        gradient_chain(self.layers@, self.offsets@, input, buffer, gradient, 0)
    }

    /// `new` is this model after `backpropagate`: widths and layout are kept,
    /// and each layer `k` is updated by its own rule from the input it saw
    /// (the model's input or region `k - 1`), its output (region `k`) and the
    /// gradient passed down from layer `k + 1`.
    pub open spec fn spec_updated(&self, new: Model<T>, input: Seq<T>, buffer: Seq<T>, gradient: Seq<T>) -> bool {
        &&& same_shape(self, &new)
        &&& forall|k: int|
            0 <= k < self.layers@.len() ==> #[trigger] self.layers@[k].updated(
                new.layers@[k],
                step_input(self.layers@, self.offsets@, input, buffer, k),
                step_output(self.layers@, self.offsets@, buffer, k),
                gradient_chain(self.layers@, self.offsets@, input, buffer, gradient, k + 1),
            )
    }

    /// Backward pass: walks the layers from last to first. Layer `i` gets the
    /// input it saw in the forward pass (the model's input for `i == 0`, else
    /// region `i - 1` of `buffer`), its own output (region `i`) and the
    /// gradient produced by layer `i + 1` (`gradient` for the last layer); it
    /// updates its parameters and produces the gradient for layer `i - 1`.
    /// Returns the gradient with respect to the model's input.
    pub fn backpropagate(&mut self, input: &[T], buffer: &[T], gradient: &[T]) -> (r: Vec<T>)
        requires
            old(self).well_formed(),
            input@.len() == old(self).input_width,
            buffer@.len() == old(self).cache_width,
            gradient@.len() == old(self).output_width,
        ensures
            final(self).well_formed(),
            old(self).spec_updated(*final(self), input@, buffer@, gradient@),
            r@ == old(self).spec_backward(input@, buffer@, gradient@),
            r@.len() == old(self).input_width,
    {
        let ghost layers0 = self.layers@;
        let ghost offsets0 = self.offsets@;
        let n: usize = self.layers.len();
        let mut grad: Vec<T> = Vec::new();
        let mut k: usize = 0;
        while k < gradient.len()
            invariant
                k <= gradient@.len(),
                grad@ == gradient@.subrange(0, k as int),
            decreases gradient@.len() - k,
        {
            grad.push(gradient[k]);
            k = k + 1;
            proof {
                assert(grad@ =~= gradient@.subrange(0, k as int));
            }
        }
        assert(grad@ =~= gradient@);
        proof {
            old(self).lemma_layer_regions(n - 1);
        }
        let mut k: usize = n;
        while k > 0
            invariant
                k <= n,
                n == self.layers@.len(),
                layers0 == old(self).layers@,
                offsets0 == old(self).offsets@,
                old(self).well_formed(),
                same_shape(old(self), self),
                input@.len() == self.input_width,
                buffer@.len() == self.cache_width,
                grad@ == gradient_chain(layers0, offsets0, input@, buffer@, gradient@, k as int),
                k == n ==> grad@.len() == self.output_width,
                k < n ==> grad@.len() == self.layers@[k as int].in_len(),
                forall|j: int| 0 <= j < k ==> #[trigger] self.layers@[j] == layers0[j],
                forall|j: int|
                    k <= j < n ==> #[trigger] layers0[j].updated(
                        self.layers@[j],
                        step_input(layers0, offsets0, input@, buffer@, j),
                        step_output(layers0, offsets0, buffer@, j),
                        gradient_chain(layers0, offsets0, input@, buffer@, gradient@, j + 1),
                    ),
            decreases k,
        {
            let i: usize = k - 1;
            proof {
                old(self).lemma_layer_regions(i as int);
                if k < n {
                    old(self).lemma_layer_regions(k as int);
                }
                lemma_same_shape_well_formed(old(self), self);
            }
            let start: usize = self.offsets[i];
            let width: usize = self.layers[i].output_width();
            let (before, rest) = buffer.split_at(start);
            let (region, _) = rest.split_at(width);
            assert(region@ == step_output(layers0, offsets0, buffer@, i as int)) by {
                assert(region@ =~= buffer@.subrange(start as int, start + width));
            };
            let next: Vec<T> = if i == 0 {
                self.layers[i].backpropagate(input, region, grad.as_slice())
            } else {
                let previous: usize = self.offsets[i - 1];
                let (_, source) = before.split_at(previous);
                assert(source@ == step_input(layers0, offsets0, input@, buffer@, i as int)) by {
                    assert(source@ =~= buffer@.subrange(previous as int, start as int));
                };
                self.layers[i].backpropagate(source, region, grad.as_slice())
            };
            grad = next;
            k = i;
        }
        proof {
            lemma_same_shape_well_formed(old(self), self);
            old(self).lemma_layer_regions(0);
        }
        grad
    }

    /// The model's input width is that of its first layer, and its output
    /// width that of its last layer.
    pub proof fn lemma_shape_propagation(&self)
        requires
            self.well_formed(),
        ensures
            self.input_width == self.layers@[0].in_len(),
            self.output_width == self.layers@[self.layers@.len() - 1].out_len(),
    {
        self.lemma_layer_regions(0);
        self.lemma_layer_regions(self.layers@.len() - 1);
    }
}

/// `b` has the widths, buffer layout and well-formed layers of `a`: what a
/// backward pass keeps while it updates parameters.
pub open spec fn same_shape<T: Scalar>(a: &Model<T>, b: &Model<T>) -> bool {
    &&& b.layers@.len() == a.layers@.len()
    &&& forall|j: int| 0 <= j < a.layers@.len() ==> {
        &&& (#[trigger] b.layers@[j]).in_len() == a.layers@[j].in_len()
        &&& b.layers@[j].out_len() == a.layers@[j].out_len()
        &&& b.layers@[j].layer_wf()
    }
    &&& b.input_width == a.input_width
    &&& b.output_width == a.output_width
    &&& b.offsets@ == a.offsets@
    &&& b.cache_width == a.cache_width
}

proof fn lemma_same_shape_well_formed<T: Scalar>(a: &Model<T>, b: &Model<T>)
    requires
        a.well_formed(),
        same_shape(a, b),
    ensures
        b.well_formed(),
{
    assert(b.widths() =~= a.widths());
    assert forall|c: int| 0 <= c <= b.layers@.len() implies #[trigger] boundary_matches(b.layers@, b.input_width, b.output_width, c) by {
        assert(boundary_matches(a.layers@, a.input_width, a.output_width, c));
    }
}

impl<T: Scalar> Layer<T> for Model<T> {
    open spec fn in_width(&self) -> nat {
        self.input_width as nat
    }

    open spec fn out_width(&self) -> nat {
        self.output_width as nat
    }

    open spec fn buf_width(&self) -> nat {
        self.cache_width as nat
    }

    open spec fn wf(&self) -> bool {
        self.well_formed()
    }

    /// The scratch buffer after a forward pass: every layer's output, in order.
    open spec fn forward(&self, input: Seq<T>) -> Seq<T> {
        stacked(self.layers@, input, self.layers@.len() as int)
    }

    open spec fn backward(&self, input: Seq<T>, buffer: Seq<T>, gradient: Seq<T>) -> Seq<T> {
        self.spec_backward(input, buffer, gradient)
    }

    open spec fn updated(&self, new: Self, input: Seq<T>, buffer: Seq<T>, gradient: Seq<T>) -> bool {
        self.spec_updated(new, input, buffer, gradient)
    }

    proof fn lemma_forward_len(&self, input: Seq<T>) {
        self.lemma_stacked_len(input, self.layers@.len() as int);
    }

    fn input_width(&self) -> (r: usize) {
        self.input_width
    }

    fn output_width(&self) -> (r: usize) {
        self.output_width
    }

    fn buffer_width(&self) -> (r: usize) {
        self.cache_width
    }

    fn predict(&self, input: &[T], buffer: &mut [T]) {
        self.predict_buffered(input, buffer)
    }

    fn backpropagate(&mut self, input: &[T], buffer: &[T], gradient: &[T]) -> (r: Vec<T>) {
        Model::<T>::backpropagate(self, input, buffer, gradient)
    }
}

/// `n` zeros.
fn zeros<T: Scalar>(n: usize) -> (r: Vec<T>)
    ensures
        r@.len() == n,
        forall|k: int| 0 <= k < n ==> #[trigger] r@[k] == T::spec_zero(),
{
    let mut r: Vec<T> = Vec::new();
    let mut k: usize = 0;
    while k < n
        invariant
            k <= n,
            r@.len() == k,
            forall|q: int| 0 <= q < k ==> #[trigger] r@[q] == T::spec_zero(),
        decreases n - k,
    {
        r.push(T::zero());
        k = k + 1;
    }
    r
}

} // verus!
