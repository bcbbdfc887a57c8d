//! The error taxonomy of the library.
//!
//! Validation failures are raised synchronously from `setup`-like
//! operations, never per frame; the remaining variants cover the
//! lifecycle (`NotReady`), internal sequencing invariants (`Index`,
//! `Division`) and exact arithmetic that left the 64-bit range
//! (`Overflow`).

use vstd::prelude::*;
use crate::ratio::Ratio;

verus! {

/// Which configuration field failed validation.
#[derive(Clone, Copy, Debug, PartialEq, Eq, Structural)]
pub enum Field {
    Densities,
    Locations,
    Colors,
    Sizes,
    Period,
    Decay,
}

/// Which constraint the field violated.
#[derive(Clone, Copy, Debug, PartialEq, Eq, Structural)]
pub enum Constraint {
    /// The keyframe array must not be empty.
    NonEmpty,
    /// The value must lie in `[0, 1]`.
    UnitRange,
    /// The value must be at least zero.
    NonNegative,
    /// The value must be strictly positive.
    Positive,
}

#[derive(Clone, Copy, Debug, PartialEq, Eq, Structural)]
pub enum Error {
    /// A configuration value broke a documented constraint.  `value` is
    /// the offending scalar, or zero when the constraint is `NonEmpty`.
    Validation { field: Field, constraint: Constraint, value: Ratio },
    /// `run` was called before a successful `setup`.
    NotReady,
    /// A sequential group's child index left its range (an internal
    /// bookkeeping invariant; surfaced rather than silently recovered).
    Index,
    /// A sequential group was given an empty child collection.
    Division,
    /// An exact rational result left the 64-bit representable range.
    Overflow,
}

} // verus!
