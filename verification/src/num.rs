//! Integers that are known not to be zero.
//!
//! Limits and shares in this crate are configured with these types, so a zero
//! is refused once, where the configuration is built.

use vstd::prelude::*;

verus! {

/// A `u8` other than zero.
#[derive(Debug, Clone, Copy, PartialEq, Eq, PartialOrd, Ord, Hash)]
pub struct NonZeroU8 {
    value: u8,
}

impl View for NonZeroU8 {
    type V = nat;

    closed spec fn view(&self) -> nat {
        self.value as nat
    }
}

impl NonZeroU8 {
    #[verifier::type_invariant]
    spec fn is_nonzero(self) -> bool {
        self.value != 0
    }

    /// The value as a `NonZeroU8`, or `None` if it is zero.
    pub fn new(value: u8) -> (made: Option<NonZeroU8>)
        ensures
            made is Some <==> value != 0,
            made matches Some(n) ==> n@ == value,
    {
        if value == 0 {
            None
        } else {
            Some(NonZeroU8 { value })
        }
    }

    /// The value as a plain integer.
    pub fn get(self) -> (value: u8)
        ensures
            value == self@,
            value != 0,
    {
        proof {
            use_type_invariant(&self);
        }
        self.value
    }
}

/// A `u16` other than zero.
#[derive(Debug, Clone, Copy, PartialEq, Eq, PartialOrd, Ord, Hash)]
pub struct NonZeroU16 {
    value: u16,
}

impl View for NonZeroU16 {
    type V = nat;

    closed spec fn view(&self) -> nat {
        self.value as nat
    }
}

impl NonZeroU16 {
    #[verifier::type_invariant]
    spec fn is_nonzero(self) -> bool {
        self.value != 0
    }

    /// The value as a `NonZeroU16`, or `None` if it is zero.
    pub fn new(value: u16) -> (made: Option<NonZeroU16>)
        ensures
            made is Some <==> value != 0,
            made matches Some(n) ==> n@ == value,
    {
        if value == 0 {
            None
        } else {
            Some(NonZeroU16 { value })
        }
    }

    /// The value as a plain integer.
    pub fn get(self) -> (value: u16)
        ensures
            value == self@,
            value != 0,
    {
        proof {
            use_type_invariant(&self);
        }
        self.value
    }
}

/// A `u32` other than zero.
#[derive(Debug, Clone, Copy, PartialEq, Eq, PartialOrd, Ord, Hash)]
pub struct NonZeroU32 {
    value: u32,
}

impl View for NonZeroU32 {
    type V = nat;

    closed spec fn view(&self) -> nat {
        self.value as nat
    }
}

impl NonZeroU32 {
    #[verifier::type_invariant]
    spec fn is_nonzero(self) -> bool {
        self.value != 0
    }

    /// The value as a `NonZeroU32`, or `None` if it is zero.
    pub fn new(value: u32) -> (made: Option<NonZeroU32>)
        ensures
            made is Some <==> value != 0,
            made matches Some(n) ==> n@ == value,
    {
        if value == 0 {
            None
        } else {
            Some(NonZeroU32 { value })
        }
    }

    /// The value as a plain integer.
    pub fn get(self) -> (value: u32)
        ensures
            value == self@,
            value != 0,
    {
        proof {
            use_type_invariant(&self);
        }
        self.value
    }
}

/// A `usize` other than zero.
#[derive(Debug, Clone, Copy, PartialEq, Eq, PartialOrd, Ord, Hash)]
pub struct NonZeroUsize {
    value: usize,
}

impl View for NonZeroUsize {
    type V = nat;

    closed spec fn view(&self) -> nat {
        self.value as nat
    }
}

impl NonZeroUsize {
    #[verifier::type_invariant]
    spec fn is_nonzero(self) -> bool {
        self.value != 0
    }

    /// The value as a `NonZeroUsize`, or `None` if it is zero.
    pub fn new(value: usize) -> (made: Option<NonZeroUsize>)
        ensures
            made is Some <==> value != 0,
            made matches Some(n) ==> n@ == value,
    {
        if value == 0 {
            None
        } else {
            Some(NonZeroUsize { value })
        }
    }

    /// The value as a plain integer.
    pub fn get(self) -> (value: usize)
        ensures
            value == self@,
            value != 0,
    {
        proof {
            use_type_invariant(&self);
        }
        self.value
    }
}

} // verus!
