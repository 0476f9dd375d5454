//! A small neural-network construction kit: layers with fixed widths, and a
//! model that chains them through one shared scratch buffer.
use vstd::prelude::*;

pub mod activation;
pub mod dense;
pub mod layer;
pub mod layout;
pub mod model;
pub mod scalar;

pub use activation::{sigmoid, Activation, ActivationKind, Softmax};
pub use dense::{DenseHeapLayer, DenseLayer};
pub use layer::Layer;
pub use layout::plan_regions;
pub use model::{LayerKind, Model, ModelError};
pub use scalar::Scalar;

verus! {

/// Relies on rand::random: a value drawn from the thread-local generator.
/// Nothing is promised of the value. Used by `random` and
/// `DenseHeapLayer::random`.
pub assume_specification<T>[ rand::random::<T> ]() -> (r: T)
    where
        rand::distributions::Standard: rand::distributions::Distribution<T>,
;

/// A number drawn uniformly from `[0, 1)`, in steps of `2^-32`.
pub fn random<T: Scalar>() -> (r: T)
    ensures
        exists|d: u32| r == #[trigger] T::spec_from_ratio(d as u64, 0x1_0000_0000u64),
{
    let draw: u32 = rand::random::<u32>();
    let r = T::from_ratio(draw as u64, 0x1_0000_0000u64);
    assert(r == T::spec_from_ratio(draw as u64, 0x1_0000_0000u64));
    r
}

/// A vector of `len` elements, all zero but a one at position `i`.
pub fn onehot<T: Scalar>(len: usize, i: usize) -> (r: Vec<T>)
    requires
        i < len,
    ensures
        r@.len() == len,
        forall|k: int|
            0 <= k < len ==> #[trigger] r@[k] == (if k == i {
                T::spec_one()
            } else {
                T::spec_zero()
            }),
{
    let mut r: Vec<T> = Vec::new();
    let mut k: usize = 0;
    while k < len
        invariant
            k <= len,
            r@.len() == k,
            forall|q: int|
                0 <= q < k ==> #[trigger] r@[q] == (if q == i {
                    T::spec_one()
                } else {
                    T::spec_zero()
                }),
        decreases len - k,
    {
        if k == i {
            r.push(T::one());
        } else {
            r.push(T::zero());
        }
        k = k + 1;
    }
    r
}

} // verus!
