//! Parameterless layers: elementwise activations and softmax.
use vstd::prelude::*;
use crate::layer::Layer;
use crate::scalar::Scalar;

verus! {

/// `1 / (1 + e^-x)` in terms of the element type's operations.
pub open spec fn spec_sigmoid<T: Scalar>(x: T) -> T {
    T::spec_one().spec_div(T::spec_one().spec_add(x.spec_neg().spec_exp()))
}

/// The logistic function `1 / (1 + e^-x)`.
pub fn sigmoid<T: Scalar>(x: T) -> (r: T)
    ensures
        r == spec_sigmoid(x),
{
    T::one().div(T::one().add(x.neg().exp()))
}

/// The elementwise transforms, each with its derivative expressed as a
/// function of the input.
#[derive(Clone, Copy, Debug, PartialEq, Eq)]
pub enum ActivationKind {
    /// `f(x) = 1 / (1 + e^-x)`, `f'(x) = sigmoid(x) * (1 - sigmoid(x))`.
    Sigmoid,
    /// `f(x) = tanh(x)`, `f'(x) = 1 - tanh(x)^2`.
    Tanh,
    /// `f(x) = x / (1 + e^-x)`, `f'(x) = sigmoid(x) * (1 + x * (1 - sigmoid(x)))`.
    Swish,
    /// `f(x) = max(x, 0)`, `f'(x) = 1` for `x > 0` and `0` otherwise, so the
    /// derivative at zero is zero.
    Relu,
    /// `f(x) = x`, `f'(x) = 1`.
    Identity,
    /// `f(x) = x^2`, `f'(x) = 2x`.
    Square,
}

impl ActivationKind {
    /// The transform of one element.
    pub open spec fn spec_apply<T: Scalar>(self, x: T) -> T {
        match self {
            ActivationKind::Sigmoid => spec_sigmoid(x),
            ActivationKind::Tanh => x.spec_tanh(),
            ActivationKind::Swish => x.spec_div(x.spec_neg().spec_exp().spec_add(T::spec_one())),
            ActivationKind::Relu => if x.spec_is_positive() {
                x
            } else {
                T::spec_zero()
            },
            ActivationKind::Identity => x,
            ActivationKind::Square => x.spec_mul(x),
        }
    }

    /// The derivative of the transform at one element.
    pub open spec fn spec_derivative<T: Scalar>(self, x: T) -> T {
        match self {
            ActivationKind::Sigmoid => spec_sigmoid(x).spec_mul(T::spec_one().spec_sub(spec_sigmoid(x))),
            ActivationKind::Tanh => T::spec_one().spec_sub(x.spec_tanh().spec_mul(x.spec_tanh())),
            ActivationKind::Swish => spec_sigmoid(x).spec_mul(
                T::spec_one().spec_add(x.spec_mul(T::spec_one().spec_sub(spec_sigmoid(x)))),
            ),
            ActivationKind::Relu => if x.spec_is_positive() {
                T::spec_one()
            } else {
                T::spec_zero()
            },
            ActivationKind::Identity => T::spec_one(),
            ActivationKind::Square => x.spec_mul(T::spec_one().spec_add(T::spec_one())),
        }
    }

    /// The transform applied to one element.
    pub fn apply<T: Scalar>(self, x: T) -> (r: T)
        ensures
            r == self.spec_apply(x),
    {
        match self {
            ActivationKind::Sigmoid => sigmoid(x),
            ActivationKind::Tanh => x.tanh(),
            ActivationKind::Swish => x.div(x.neg().exp().add(T::one())),
            ActivationKind::Relu => {
                if x.is_positive() {
                    x
                } else {
                    T::zero()
                }
            },
            ActivationKind::Identity => x,
            ActivationKind::Square => x.mul(x),
        }
    }

    /// The derivative of the transform at `x`.
    pub fn derivative<T: Scalar>(self, x: T) -> (r: T)
        ensures
            r == self.spec_derivative(x),
    {
        match self {
            ActivationKind::Sigmoid => {
                let s = sigmoid(x);
                s.mul(T::one().sub(s))
            },
            ActivationKind::Tanh => {
                let t = x.tanh();
                T::one().sub(t.mul(t))
            },
            ActivationKind::Swish => {
                let s = sigmoid(x);
                s.mul(T::one().add(x.mul(T::one().sub(s))))
            },
            ActivationKind::Relu => {
                if x.is_positive() {
                    T::one()
                } else {
                    T::zero()
                }
            },
            ActivationKind::Identity => T::one(),
            ActivationKind::Square => x.mul(T::one().add(T::one())),
        }
    }
}

/// The derivative of ReLU is one where the input is positive and zero
/// elsewhere, zero included; the derivative of sigmoid is `s * (1 - s)`.
pub proof fn lemma_derivative_rules<T: Scalar>(x: T)
    ensures
        ActivationKind::Relu.spec_derivative(x) == (if x.spec_is_positive() {
            T::spec_one()
        } else {
            T::spec_zero()
        }),
        ActivationKind::Sigmoid.spec_derivative(x) == spec_sigmoid(x).spec_mul(
            T::spec_one().spec_sub(spec_sigmoid(x)),
        ),
{
}

/// An elementwise activation layer over vectors of `width` elements.
#[derive(Clone, Copy, Debug, PartialEq, Eq)]
pub struct Activation {
    pub kind: ActivationKind,
    pub width: usize,
}

impl Activation {
    pub fn new(kind: ActivationKind, width: usize) -> (r: Activation)
        ensures
            r.kind == kind,
            r.width == width,
    {
        Activation { kind, width }
    }
}

impl<T: Scalar> Layer<T> for Activation {
    open spec fn in_width(&self) -> nat {
        self.width as nat
    }

    open spec fn out_width(&self) -> nat {
        self.width as nat
    }

    open spec fn buf_width(&self) -> nat {
        self.width as nat
    }

    open spec fn wf(&self) -> bool {
        true
    }

    /// `f(input[n])` at every position `n`.
    open spec fn forward(&self, input: Seq<T>) -> Seq<T> {
        Seq::new(self.width as nat, |n: int| self.kind.spec_apply(input[n]))
    }

    /// `f'(input[n]) * gradient[n]` at every position `n`.
    open spec fn backward(&self, input: Seq<T>, buffer: Seq<T>, gradient: Seq<T>) -> Seq<T> {
        Seq::new(self.width as nat, |n: int| self.kind.spec_derivative(input[n]).spec_mul(gradient[n]))
    }

    /// The layer has no parameters.
    open spec fn updated(&self, new: Self, input: Seq<T>, buffer: Seq<T>, gradient: Seq<T>) -> bool {
        new == *self
    }

    proof fn lemma_forward_len(&self, input: Seq<T>) {
    }

    fn input_width(&self) -> (r: usize) {
        self.width
    }

    fn output_width(&self) -> (r: usize) {
        self.width
    }

    fn buffer_width(&self) -> (r: usize) {
        self.width
    }

    fn predict(&self, input: &[T], buffer: &mut [T]) {
        let mut n: usize = 0;
        while n < self.width
            invariant
                n <= self.width,
                input@.len() == self.width,
                buffer@.len() == self.width,
                forall|k: int| 0 <= k < n ==> buffer@[k] == #[trigger] self.kind.spec_apply(input@[k]),
            decreases self.width - n,
        {
            buffer[n] = self.kind.apply(input[n]);
            n = n + 1;
        }
        proof {
            assert(buffer@ =~= Layer::<T>::forward(self, input@));
        }
    }

    fn backpropagate(&mut self, input: &[T], buffer: &[T], gradient: &[T]) -> (r: Vec<T>) {
        let mut r: Vec<T> = Vec::new();
        let mut n: usize = 0;
        while n < self.width
            invariant
                n <= self.width,
                input@.len() == self.width,
                gradient@.len() == self.width,
                r@.len() == n,
                forall|k: int| 0 <= k < n ==> r@[k] == #[trigger] self.kind.spec_derivative(input@[k]).spec_mul(gradient@[k]),
            decreases self.width - n,
        {
            r.push(self.kind.derivative(input[n]).mul(gradient[n]));
            n = n + 1;
        }
        proof {
            assert(r@ =~= Layer::<T>::backward(&*self, input@, buffer@, gradient@));
        }
        r
    }
}

/// The largest of `input[0 .. n]`, keeping the earlier element on ties:
/// an element replaces the running maximum when it exceeds it.
pub open spec fn running_max<T: Scalar>(input: Seq<T>, n: int) -> T
    decreases n,
{
    if n <= 1 {
        input[0]
    } else {
        let m = running_max(input, n - 1);
        if input[n - 1].spec_sub(m).spec_is_positive() {
            input[n - 1]
        } else {
            m
        }
    }
}

/// `sum_{k < n} e^(input[k] - m)`, added from the first element on.
pub open spec fn sum_exp<T: Scalar>(input: Seq<T>, m: T, n: int) -> T
    decreases n,
{
    if n <= 0 {
        T::spec_zero()
    } else {
        sum_exp(input, m, n - 1).spec_add(input[n - 1].spec_sub(m).spec_exp())
    }
}

/// Softmax over vectors of `width` elements:
/// `out[n] = e^in[n] / sum_k e^in[k]`, computed as
/// `e^(in[n] - m) / sum_k e^(in[k] - m)` with `m` the largest input, so that
/// no exponential overflows.
///
/// The backward pass keeps only the diagonal of the Jacobian:
/// `grad_in[n] = out[n] * (1 - out[n]) * grad_out[n]`, reading `out` from the
/// buffer written by the forward pass. This suits losses whose gradient
/// already accounts for the cross terms; it is not the full Jacobian product.
#[derive(Clone, Copy, Debug, PartialEq, Eq)]
pub struct Softmax {
    pub width: usize,
}

impl Softmax {
    pub fn new(width: usize) -> (r: Softmax)
        ensures
            r.width == width,
    {
        Softmax { width }
    }
}

impl<T: Scalar> Layer<T> for Softmax {
    open spec fn in_width(&self) -> nat {
        self.width as nat
    }

    open spec fn out_width(&self) -> nat {
        self.width as nat
    }

    open spec fn buf_width(&self) -> nat {
        self.width as nat
    }

    open spec fn wf(&self) -> bool {
        true
    }

    /// `e^(input[n] - m) / sum_k e^(input[k] - m)` at every position `n`,
    /// with `m` the largest input.
    open spec fn forward(&self, input: Seq<T>) -> Seq<T> {
        let m = running_max(input, self.width as int);
        Seq::new(
            self.width as nat,
            |n: int| input[n].spec_sub(m).spec_exp().spec_div(sum_exp(input, m, self.width as int)),
        )
    }

    /// `out[n] * (1 - out[n]) * gradient[n]`, with `out` read from `buffer`.
    open spec fn backward(&self, input: Seq<T>, buffer: Seq<T>, gradient: Seq<T>) -> Seq<T> {
        Seq::new(
            self.width as nat,
            |n: int| buffer[n].spec_mul(T::spec_one().spec_sub(buffer[n])).spec_mul(gradient[n]),
        )
    }

    /// The layer has no parameters.
    open spec fn updated(&self, new: Self, input: Seq<T>, buffer: Seq<T>, gradient: Seq<T>) -> bool {
        new == *self
    }

    proof fn lemma_forward_len(&self, input: Seq<T>) {
    }

    fn input_width(&self) -> (r: usize) {
        self.width
    }

    fn output_width(&self) -> (r: usize) {
        self.width
    }

    fn buffer_width(&self) -> (r: usize) {
        self.width
    }

    fn predict(&self, input: &[T], buffer: &mut [T]) {
        if self.width == 0 {
            assert(buffer@ =~= Layer::<T>::forward(self, input@));
            return;
        }
        let mut m = input[0];
        let mut k: usize = 1;
        while k < self.width
            invariant
                1 <= k <= self.width,
                input@.len() == self.width,
                m == running_max(input@, k as int),
            decreases self.width - k,
        {
            if input[k].sub(m).is_positive() {
                m = input[k];
            }
            k = k + 1;
        }
        let mut sum = T::zero();
        let mut k: usize = 0;
        while k < self.width
            invariant
                k <= self.width,
                input@.len() == self.width,
                sum == sum_exp(input@, m, k as int),
            decreases self.width - k,
        {
            sum = sum.add(input[k].sub(m).exp());
            k = k + 1;
        }
        let mut n: usize = 0;
        while n < self.width
            invariant
                n <= self.width,
                input@.len() == self.width,
                buffer@.len() == self.width,
                m == running_max(input@, self.width as int),
                sum == sum_exp(input@, m, self.width as int),
                forall|j: int| 0 <= j < n ==> buffer@[j] == #[trigger] input@[j].spec_sub(m).spec_exp().spec_div(sum),
            decreases self.width - n,
        {
            buffer[n] = input[n].sub(m).exp().div(sum);
            n = n + 1;
        }
        proof {
            assert(buffer@ =~= Layer::<T>::forward(self, input@));
        }
    }

    fn backpropagate(&mut self, input: &[T], buffer: &[T], gradient: &[T]) -> (r: Vec<T>) {
        let mut r: Vec<T> = Vec::new();
        let mut n: usize = 0;
        while n < self.width
            invariant
                n <= self.width,
                buffer@.len() == self.width,
                gradient@.len() == self.width,
                r@.len() == n,
                forall|j: int| 0 <= j < n ==> r@[j] == #[trigger] buffer@[j].spec_mul(T::spec_one().spec_sub(buffer@[j])).spec_mul(gradient@[j]),
            decreases self.width - n,
        {
            let o = buffer[n];
            r.push(o.mul(T::one().sub(o)).mul(gradient[n]));
            n = n + 1;
        }
        proof {
            assert(r@ =~= Layer::<T>::backward(&*self, input@, buffer@, gradient@));
        }
        r
    }
}

} // verus!
