//! The affine layer `output = W * input + b`, with its weights on the heap.
use vstd::prelude::*;
use crate::layer::Layer;
use crate::scalar::Scalar;

verus! {

/// Number of random draws that initialising a dense layer takes: one per weight
/// and one per bias.
pub open spec fn draws_needed(input_len: nat, output_len: nat) -> nat {
    output_len * input_len + output_len
}

/// The Xavier-style initial value `(u - 1/2) * 2 / fan` for the draw `draw`,
/// read as `u = draw / 2^32`, a number in `[0, 1)`.
pub open spec fn spec_xavier<T: Scalar>(draw: u32, fan: int) -> T {
    T::spec_from_ratio(draw as u64, 0x1_0000_0000u64).spec_sub(T::spec_from_ratio(1, 2)).spec_mul(
        T::spec_from_ratio(2, fan as u64),
    )
}

/// `v` is the initial value of some draw.
pub open spec fn is_xavier_value<T: Scalar>(v: T, fan: int) -> bool {
    exists|d: u32| v == #[trigger] spec_xavier::<T>(d, fan)
}

fn xavier<T: Scalar>(draw: u32, fan: usize) -> (r: T)
    requires
        fan > 0,
    ensures
        r == spec_xavier::<T>(draw, fan as int),
{
    let unit = T::from_ratio(draw as u64, 0x1_0000_0000u64);
    unit.sub(T::from_ratio(1, 2)).mul(T::from_ratio(2, fan as u64))
}

/// `sum_{k < n} w[row + k] * x[k]`, added from the first term on.
pub open spec fn row_dot<T: Scalar>(w: Seq<T>, row: int, x: Seq<T>, n: int) -> T
    decreases n,
{
    if n <= 0 {
        T::spec_zero()
    } else {
        row_dot(w, row, x, n - 1).spec_add(w[row + n - 1].spec_mul(x[n - 1]))
    }
}

/// `sum_{j < n} w[j * input_len + i] * g[j]`: the gradient reaching input `i`
/// from the first `n` outputs, added from the first output on.
pub open spec fn column_grad<T: Scalar>(w: Seq<T>, g: Seq<T>, input_len: int, i: int, n: int) -> T
    decreases n,
{
    if n <= 0 {
        T::spec_zero()
    } else {
        column_grad(w, g, input_len, i, n - 1).spec_add(w[(n - 1) * input_len + i].spec_mul(g[n - 1]))
    }
}

/// The weight at position `k` after one update: `W[j][i] - g[j] * x[i] * lr`
/// for `k == j * input_len + i`.
pub open spec fn updated_weight<T: Scalar>(w: Seq<T>, x: Seq<T>, g: Seq<T>, lr: T, input_len: int, k: int) -> T {
    w[k].spec_sub(g[k / input_len].spec_mul(x[k % input_len]).spec_mul(lr))
}

/// The bias of output `j` after one update: `b[j] - g[j] * lr`.
pub open spec fn updated_bias<T: Scalar>(b: Seq<T>, g: Seq<T>, lr: T, j: int) -> T {
    b[j].spec_sub(g[j].spec_mul(lr))
}

/// A dense layer from `input_len` inputs to `output_len` outputs.
///
/// `weights` holds the matrix row by row: the weight from input `i` to output
/// `j` is at `j * input_len + i`. `lr` is the learning rate of the per-sample
/// gradient-descent update made by `backpropagate`.
#[derive(Clone, Debug)]
pub struct DenseHeapLayer<T> {
    pub weights: Vec<T>,
    pub biasies: Vec<T>,
    pub lr: T,
    pub input_len: usize,
    pub output_len: usize,
}

/// The dense layer under its short name. Widths are values here rather than
/// type parameters, so an array-backed variant would hold the same data.
pub type DenseLayer<T> = DenseHeapLayer<T>;

impl<T: Scalar> DenseHeapLayer<T> {
    /// The weights and biases have the lengths the widths call for.
    pub open spec fn well_formed(&self) -> bool {
        &&& self.weights@.len() == self.output_len * self.input_len
        &&& self.biasies@.len() == self.output_len
    }

    /// Builds a layer whose weights and then biases are initialised, in order,
    /// from `draws`, each draw read as a fraction of `2^32`.
    pub fn from_draws(input_len: usize, output_len: usize, lr: T, draws: &Vec<u32>) -> (r: Self)
        requires
            draws@.len() == draws_needed(input_len as nat, output_len as nat),
        ensures
            r.well_formed(),
            r.input_len == input_len,
            r.output_len == output_len,
            r.lr == lr,
            forall|k: int|
                0 <= k < output_len * input_len ==> r.weights@[k] == #[trigger] spec_xavier::<T>(
                    draws@[k],
                    input_len + output_len,
                ),
            forall|j: int|
                0 <= j < output_len ==> r.biasies@[j] == #[trigger] spec_xavier::<T>(
                    draws@[output_len * input_len + j],
                    input_len + output_len,
                ),
    {
        let total: usize = draws.len();
        proof {
            assert(output_len * input_len <= draws@.len()) by (nonlinear_arith)
                requires
                    draws@.len() == output_len * input_len + output_len,
            ;
        }
        let n_weights: usize = output_len * input_len;
        let mut weights: Vec<T> = Vec::new();
        let mut biasies: Vec<T> = Vec::new();
        let mut k: usize = 0;
        while k < n_weights
            invariant
                k <= n_weights,
                n_weights == output_len * input_len,
                draws@.len() == n_weights + output_len,
                draws@.len() == total,
                weights@.len() == k,
                forall|q: int|
                    0 <= q < k ==> weights@[q] == #[trigger] spec_xavier::<T>(draws@[q], input_len + output_len),
            decreases n_weights - k,
        {
            proof {
                assert(0 < input_len + output_len <= draws@.len()) by (nonlinear_arith)
                    requires
                        k < n_weights,
                        n_weights == output_len * input_len,
                        draws@.len() == n_weights + output_len,
                ;
            }
            weights.push(xavier(draws[k], input_len + output_len));
            k = k + 1;
        }
        let mut j: usize = 0;
        while j < output_len
            invariant
                j <= output_len,
                n_weights == output_len * input_len,
                draws@.len() == n_weights + output_len,
                draws@.len() == total,
                weights@.len() == n_weights,
                biasies@.len() == j,
                forall|q: int|
                    0 <= q < n_weights ==> weights@[q] == #[trigger] spec_xavier::<T>(draws@[q], input_len + output_len),
                forall|q: int|
                    0 <= q < j ==> biasies@[q] == #[trigger] spec_xavier::<T>(
                        draws@[n_weights + q],
                        input_len + output_len,
                    ),
            decreases output_len - j,
        {
            proof {
                assert(0 < input_len + output_len <= draws@.len()) by (nonlinear_arith)
                    requires
                        j < output_len,
                        n_weights == output_len * input_len,
                        draws@.len() == n_weights + output_len,
                ;
            }
            biasies.push(xavier(draws[n_weights + j], input_len + output_len));
            j = j + 1;
        }
        DenseHeapLayer { weights, biasies, lr, input_len, output_len }
    }

    /// Builds a layer with every weight and bias drawn at random, Xavier
    /// style: `(u - 1/2) * 2 / (input_len + output_len)` for `u` uniform in
    /// `[0, 1)`.
    pub fn random(input_len: usize, output_len: usize, lr: T) -> (r: Self)
        requires
            draws_needed(input_len as nat, output_len as nat) <= usize::MAX,
        ensures
            r.well_formed(),
            r.input_len == input_len,
            r.output_len == output_len,
            r.lr == lr,
            forall|k: int|
                0 <= k < output_len * input_len ==> is_xavier_value(#[trigger] r.weights@[k], input_len + output_len),
            forall|j: int|
                0 <= j < output_len ==> is_xavier_value(#[trigger] r.biasies@[j], input_len + output_len),
    {
        let count: usize = output_len * input_len + output_len;
        let mut draws: Vec<u32> = Vec::new();
        let mut k: usize = 0;
        while k < count
            invariant
                k <= count,
                draws@.len() == k,
            decreases count - k,
        {
            let d: u32 = rand::random::<u32>();
            draws.push(d);
            k = k + 1;
        }
        let r = Self::from_draws(input_len, output_len, lr, &draws);
        proof {
            assert forall|k: int| 0 <= k < output_len * input_len implies is_xavier_value(
                #[trigger] r.weights@[k],
                input_len + output_len,
            ) by {
                assert(r.weights@[k] == spec_xavier::<T>(draws@[k], input_len + output_len));
            }
            assert forall|j: int| 0 <= j < output_len implies is_xavier_value(
                #[trigger] r.biasies@[j],
                input_len + output_len,
            ) by {
                assert(r.biasies@[j] == spec_xavier::<T>(
                    draws@[output_len * input_len + j],
                    input_len + output_len,
                ));
            }
        }
        r
    }
}

/// Row `j` of the weight matrix, the positions `j * input_len + i` for
/// `i < input_len`, lies inside the matrix.
proof fn lemma_row_inside(j: int, input_len: int, output_len: int)
    requires
        0 <= j < output_len,
        0 <= input_len,
    ensures
        0 <= j * input_len,
        j * input_len + input_len <= output_len * input_len,
{
    assert(j * input_len + input_len <= output_len * input_len) by (nonlinear_arith)
        requires
            0 <= j < output_len,
            0 <= input_len,
    ;
    assert(0 <= j * input_len) by (nonlinear_arith)
        requires
            0 <= j,
            0 <= input_len,
    ;
}

impl<T: Scalar> Layer<T> for DenseHeapLayer<T> {
    open spec fn in_width(&self) -> nat {
        self.input_len as nat
    }

    open spec fn out_width(&self) -> nat {
        self.output_len as nat
    }

    open spec fn buf_width(&self) -> nat {
        self.output_len as nat
    }

    open spec fn wf(&self) -> bool {
        self.well_formed()
    }

    /// `sum_i W[j][i] * input[i] + b[j]` at every output position `j`.
    open spec fn forward(&self, input: Seq<T>) -> Seq<T> {
        Seq::new(
            self.output_len as nat,
            |j: int| row_dot(self.weights@, j * self.input_len, input, self.input_len as int).spec_add(self.biasies@[j]),
        )
    }

    /// `sum_j W[j][i] * gradient[j]` at every input position `i`, with the
    /// weights as they were before the update.
    open spec fn backward(&self, input: Seq<T>, buffer: Seq<T>, gradient: Seq<T>) -> Seq<T> {
        Seq::new(
            self.input_len as nat,
            |i: int| column_grad(self.weights@, gradient, self.input_len as int, i, self.output_len as int),
        )
    }

    /// Per-sample gradient descent: `W[j][i] -= gradient[j] * input[i] * lr`
    /// and `b[j] -= gradient[j] * lr`; widths and learning rate are kept.
    open spec fn updated(&self, new: Self, input: Seq<T>, buffer: Seq<T>, gradient: Seq<T>) -> bool {
        &&& new.input_len == self.input_len
        &&& new.output_len == self.output_len
        &&& new.lr == self.lr
        &&& new.weights@ == Seq::new(
            self.weights@.len(),
            |k: int| updated_weight(self.weights@, input, gradient, self.lr, self.input_len as int, k),
        )
        &&& new.biasies@ == Seq::new(
            self.biasies@.len(),
            |j: int| updated_bias(self.biasies@, gradient, self.lr, j),
        )
    }

    proof fn lemma_forward_len(&self, input: Seq<T>) {
    }

    fn input_width(&self) -> (r: usize) {
        self.input_len
    }

    fn output_width(&self) -> (r: usize) {
        self.output_len
    }

    fn buffer_width(&self) -> (r: usize) {
        self.output_len
    }

    fn predict(&self, input: &[T], buffer: &mut [T]) {
        let n_weights: usize = self.weights.len();
        let mut j: usize = 0;
        while j < self.output_len
            invariant
                j <= self.output_len,
                self.well_formed(),
                n_weights == self.weights@.len(),
                input@.len() == self.input_len,
                buffer@.len() == self.output_len,
                forall|q: int|
                    0 <= q < j ==> buffer@[q] == #[trigger] row_dot(self.weights@, q * self.input_len, input@, self.input_len as int).spec_add(self.biasies@[q]),
            decreases self.output_len - j,
        {
            proof {
                lemma_row_inside(j as int, self.input_len as int, self.output_len as int);
            }
            let row: usize = j * self.input_len;
            let mut acc = T::zero();
            let mut i: usize = 0;
            while i < self.input_len
                invariant
                    i <= self.input_len,
                    j < self.output_len,
                    row == j * self.input_len,
                    row + self.input_len <= n_weights,
                    self.well_formed(),
                    n_weights == self.weights@.len(),
                    input@.len() == self.input_len,
                    acc == row_dot(self.weights@, row as int, input@, i as int),
                decreases self.input_len - i,
            {
                acc = acc.add(self.weights[row + i].mul(input[i]));
                i = i + 1;
            }
            buffer[j] = acc.add(self.biasies[j]);
            j = j + 1;
        }
        proof {
            assert(buffer@ =~= Layer::<T>::forward(self, input@));
        }
    }

    /// For every output `j` and input `i`: `b[j] -= gradient[j] * lr`; the
    /// returned gradient gains `W[j][i] * gradient[j]`, read before `W[j][i]`
    /// is updated by `W[j][i] -= gradient[j] * input[i] * lr`.
    fn backpropagate(&mut self, input: &[T], buffer: &[T], gradient: &[T]) -> (r: Vec<T>) {
        let ghost w0 = self.weights@;
        let ghost b0 = self.biasies@;
        let mut r: Vec<T> = Vec::new();
        let mut i: usize = 0;
        while i < self.input_len
            invariant
                i <= self.input_len,
                r@.len() == i,
                forall|q: int| 0 <= q < i ==> #[trigger] r@[q] == T::spec_zero(),
            decreases self.input_len - i,
        {
            r.push(T::zero());
            i = i + 1;
        }
        let lr = self.lr;
        let n_weights: usize = self.weights.len();
        let mut j: usize = 0;
        while j < self.output_len
            invariant
                j <= self.output_len,
                self.well_formed(),
                n_weights == self.weights@.len(),
                self.input_len == old(self).input_len,
                self.output_len == old(self).output_len,
                self.lr == old(self).lr,
                lr == self.lr,
                w0 == old(self).weights@,
                b0 == old(self).biasies@,
                w0.len() == n_weights,
                b0.len() == self.output_len,
                input@.len() == self.input_len,
                gradient@.len() == self.output_len,
                r@.len() == self.input_len,
                forall|q: int|
                    0 <= q < self.input_len ==> #[trigger] r@[q] == column_grad(w0, gradient@, self.input_len as int, q, j as int),
                forall|k: int|
                    0 <= k < j * self.input_len ==> #[trigger] self.weights@[k] == updated_weight(w0, input@, gradient@, lr, self.input_len as int, k),
                forall|k: int|
                    j * self.input_len <= k < n_weights ==> #[trigger] self.weights@[k] == w0[k],
                forall|q: int| 0 <= q < j ==> #[trigger] self.biasies@[q] == updated_bias(b0, gradient@, lr, q),
                forall|q: int| j <= q < self.output_len ==> #[trigger] self.biasies@[q] == b0[q],
            decreases self.output_len - j,
        {
            let g = gradient[j];
            self.biasies[j] = self.biasies[j].sub(g.mul(lr));
            proof {
                lemma_row_inside(j as int, self.input_len as int, self.output_len as int);
            }
            let row: usize = j * self.input_len;
            let mut i: usize = 0;
            while i < self.input_len
                invariant
                    i <= self.input_len,
                    j < self.output_len,
                    row == j * self.input_len,
                    row + self.input_len <= n_weights,
                    self.well_formed(),
                    n_weights == self.weights@.len(),
                    self.input_len == old(self).input_len,
                    self.output_len == old(self).output_len,
                    self.lr == old(self).lr,
                    lr == self.lr,
                    g == gradient@[j as int],
                    w0 == old(self).weights@,
                    b0 == old(self).biasies@,
                    w0.len() == n_weights,
                    b0.len() == self.output_len,
                    input@.len() == self.input_len,
                    gradient@.len() == self.output_len,
                    r@.len() == self.input_len,
                    forall|q: int|
                        0 <= q < i ==> #[trigger] r@[q] == column_grad(w0, gradient@, self.input_len as int, q, j + 1),
                    forall|q: int|
                        i <= q < self.input_len ==> #[trigger] r@[q] == column_grad(w0, gradient@, self.input_len as int, q, j as int),
                    forall|k: int|
                        0 <= k < row + i ==> #[trigger] self.weights@[k] == updated_weight(w0, input@, gradient@, lr, self.input_len as int, k),
                    forall|k: int| row + i <= k < n_weights ==> #[trigger] self.weights@[k] == w0[k],
                    forall|q: int| 0 <= q <= j ==> #[trigger] self.biasies@[q] == updated_bias(b0, gradient@, lr, q),
                    forall|q: int| j < q < self.output_len ==> #[trigger] self.biasies@[q] == b0[q],
                decreases self.input_len - i,
            {
                proof {
                    vstd::arithmetic::div_mod::lemma_fundamental_div_mod_converse(
                        row + i,
                        self.input_len as int,
                        j as int,
                        i as int,
                    );
                }
                let w = self.weights[row + i];
                r[i] = r[i].add(w.mul(g));
                self.weights[row + i] = w.sub(g.mul(input[i]).mul(lr));
                i = i + 1;
            }
            proof {
                assert((j + 1) * self.input_len == j * self.input_len + self.input_len) by (nonlinear_arith);
            }
            j = j + 1;
        }
        proof {
            assert(self.weights@ =~= Seq::new(
                w0.len(),
                |k: int| updated_weight(w0, input@, gradient@, lr, self.input_len as int, k),
            ));
            assert(self.biasies@ =~= Seq::new(b0.len(), |q: int| updated_bias(b0, gradient@, lr, q)));
            assert(r@ =~= Layer::<T>::backward(&*old(self), input@, buffer@, gradient@));
        }
        r
    }
}

} // verus!
