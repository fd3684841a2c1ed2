//! Zeros for each supported sample type.
//!
//! Used for generic `Sample`s: the renderer falls back to the zero
//! amplitude when a render window runs past the last bin.

use vstd::prelude::*;

verus! {

/// A type with a distinguished zero value.
pub trait Zero: Sized {
    /// The zero value, at the specification level.
    spec fn spec_zero() -> Self;

    /// Returns the zero value.
    fn zero() -> (r: Self)
        ensures
            r == Self::spec_zero(),
    ;
}

impl Zero for i16 {
    open spec fn spec_zero() -> i16 {
        0i16
    }

    fn zero() -> i16 {
        0i16
    }
}

impl Zero for u16 {
    open spec fn spec_zero() -> u16 {
        0u16
    }

    fn zero() -> u16 {
        0u16
    }
}

impl Zero for i32 {
    open spec fn spec_zero() -> i32 {
        0i32
    }

    fn zero() -> i32 {
        0i32
    }
}

impl Zero for u32 {
    open spec fn spec_zero() -> u32 {
        0u32
    }

    fn zero() -> u32 {
        0u32
    }
}

impl Zero for u8 {
    open spec fn spec_zero() -> u8 {
        0u8
    }

    fn zero() -> u8 {
        0u8
    }
}

impl Zero for i8 {
    open spec fn spec_zero() -> i8 {
        0i8
    }

    fn zero() -> i8 {
        0i8
    }
}

} // verus!
