//! The contract every layer meets: a forward pass and a backward pass over
//! vectors of fixed widths.
use vstd::prelude::*;
use crate::scalar::Scalar;

verus! {

/// A unit of a network that maps an input vector of a fixed width to an
/// output vector of a fixed width, and back-propagates gradients.
///
/// `predict` writes into a buffer of `buffer_width` elements: for a single
/// layer that is its output; for a model it is the scratch buffer holding the
/// output of every layer.
pub trait Layer<T: Scalar>: Sized {
    /// Width of the input vector.
    spec fn in_width(&self) -> nat;

    /// Width of the output vector.
    spec fn out_width(&self) -> nat;

    /// Width of the buffer written by `predict`.
    spec fn buf_width(&self) -> nat;

    /// The layer's internal invariant.
    spec fn wf(&self) -> bool;

    /// What `predict` writes into the buffer for `input`.
    spec fn forward(&self, input: Seq<T>) -> Seq<T>;

    /// The gradient with respect to the input that `backpropagate` returns.
    spec fn backward(&self, input: Seq<T>, buffer: Seq<T>, gradient: Seq<T>) -> Seq<T>;

    /// `new` is this layer after its parameter update by `backpropagate`.
    spec fn updated(&self, new: Self, input: Seq<T>, buffer: Seq<T>, gradient: Seq<T>) -> bool;

    /// The forward result fills the buffer.
    proof fn lemma_forward_len(&self, input: Seq<T>)
        requires
            self.wf(),
        ensures
            self.forward(input).len() == self.buf_width(),
    ;

    fn input_width(&self) -> (r: usize)
        requires
            self.wf(),
        ensures
            r == self.in_width(),
    ;

    fn output_width(&self) -> (r: usize)
        requires
            self.wf(),
        ensures
            r == self.out_width(),
    ;

    fn buffer_width(&self) -> (r: usize)
        requires
            self.wf(),
        ensures
            r == self.buf_width(),
    ;

    /// Forward pass: writes the layer's result into `buffer`.
    fn predict(&self, input: &[T], buffer: &mut [T])
        requires
            self.wf(),
            input@.len() == self.in_width(),
            old(buffer)@.len() == self.buf_width(),
        ensures
            final(buffer)@ == self.forward(input@),
    ;

    /// Backward pass: given the input of the forward pass, the buffer it wrote
    /// and the gradient of the loss with respect to the output, updates the
    /// learnable parameters and returns the gradient with respect to the input.
    fn backpropagate(&mut self, input: &[T], buffer: &[T], gradient: &[T]) -> (r: Vec<T>)
        requires
            old(self).wf(),
            input@.len() == old(self).in_width(),
            buffer@.len() == old(self).buf_width(),
            gradient@.len() == old(self).out_width(),
        ensures
            final(self).wf(),
            final(self).in_width() == old(self).in_width(),
            final(self).out_width() == old(self).out_width(),
            final(self).buf_width() == old(self).buf_width(),
            old(self).updated(*final(self), input@, buffer@, gradient@),
            r@ == old(self).backward(input@, buffer@, gradient@),
    ;
}

} // verus!
