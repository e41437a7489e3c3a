//! Configuration errors.

use vstd::prelude::*;

verus! {

/// A configuration that no network or population can be built from.
#[derive(Clone, Copy, Debug, PartialEq, Eq, Structural)]
pub enum ConfigError {
    /// One of the three layers was given no neurons.
    EmptyLayer,
    /// A mutation rate outside the half-open interval from zero to one.
    RateOutOfRange,
    /// A vector whose length differs from the size of the layer it is meant for.
    LengthMismatch,
}

} // verus!
