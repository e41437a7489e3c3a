//! The caller's side of a network: its signals and what is computed on them.
//!
//! The crate moves signals between neurons and decides which operation is
//! applied to which of them, in what order. What a signal is, and what each
//! operation yields, is the caller's: an implementation of [`Behavior`] is
//! made once, handed to a population when it is created, and shared by
//! reference among all its agents.
//!
//! Nothing is assumed of an implementation. The contracts of this crate speak
//! of a behaviour only through what its own methods may return.

use vstd::prelude::*;
use crate::codec::{Layer, Weight};

verus! {

/// The numeric behaviour of a network: the arithmetic on its signals, its
/// activation functions, and the measure of fitness.
///
/// For a network over real numbers `zero` is `0`, `activate` is the
/// activation function of the layer that the signal is read from, `weigh`
/// multiplies by `weight.magnitude / WEIGHT_SCALE` (negated when
/// `weight.negative` is set), `accumulate` adds, and `fitness` is an error
/// measure such as the mean squared error, mapped to an integer in a way that
/// keeps its order. Lower fitness is better.
pub trait Behavior {
    /// The values that flow through a network.
    type Signal: Copy;

    /// The value of a neuron that has received nothing.
    fn zero(&self) -> Self::Signal;

    /// The activation function of `layer`, applied to a signal read from it.
    fn activate(&self, layer: Layer, signal: Self::Signal) -> Self::Signal;

    /// `signal` scaled by `weight`.
    fn weigh(&self, signal: Self::Signal, weight: Weight) -> Self::Signal;

    /// `total` with `signal` added to it.
    fn accumulate(&self, total: Self::Signal, signal: Self::Signal) -> Self::Signal;

    /// The error of `produced` against `expected`, two vectors of one length.
    fn fitness(&self, produced: &Vec<Self::Signal>, expected: &Vec<Self::Signal>) -> u64;
}

/// `value` is a zero of the behaviour: a value that `zero` may return.
pub open spec fn is_zero<B: Behavior>(behavior: &B, value: B::Signal) -> bool {
    call_ensures(B::zero, (behavior,), value)
}

/// Every value of `values` is a zero of the behaviour.
pub open spec fn all_zero<B: Behavior>(behavior: &B, values: Seq<B::Signal>) -> bool {
    forall|i: int| 0 <= i < values.len() ==> is_zero(behavior, #[trigger] values[i])
}

/// `score` is a fitness that the behaviour may give `produced` against
/// `expected`.
pub open spec fn is_fitness<B: Behavior>(
    behavior: &B,
    produced: Vec<B::Signal>,
    expected: Vec<B::Signal>,
    score: u64,
) -> bool {
    call_ensures(B::fitness, (behavior, &produced, &expected), score)
}

} // verus!
