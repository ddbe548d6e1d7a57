//! The coercion layer: every accepted input type converts, totally and
//! without failure, to the canonical `u32` postal-code representation.

use vstd::prelude::*;

use crate::text::{parse_code_text, text_code};

verus! {

/// The value of a fixed-width integer reinterpreted as an unsigned 32-bit
/// value: reduction modulo 2^32, which models sign-extension followed by
/// truncation for narrow signed sources and plain truncation for wide ones.
pub open spec fn wrap32(n: int) -> u32 {
    (n % 0x1_0000_0000) as u32
}

/// A type whose values can stand for a postal code. The single operation is
/// total: it never fails, falling back to a defined value instead.
pub trait LooksLikePostalCode {
    /// The canonical code this value converts to.
    spec fn spec_as_u32(&self) -> u32;

    /// Convert to the canonical 32-bit code.
    fn as_u32(&self) -> (r: u32)
        ensures
            r == self.spec_as_u32(),
    ;
}

impl LooksLikePostalCode for u8 {
    open spec fn spec_as_u32(&self) -> u32 {
        *self as u32
    }

    fn as_u32(&self) -> (r: u32)
        ensures
            r == self.spec_as_u32(),
    {
        *self as u32
    }
}

impl LooksLikePostalCode for u16 {
    open spec fn spec_as_u32(&self) -> u32 {
        *self as u32
    }

    fn as_u32(&self) -> (r: u32)
        ensures
            r == self.spec_as_u32(),
    {
        *self as u32
    }
}

impl LooksLikePostalCode for u32 {
    open spec fn spec_as_u32(&self) -> u32 {
        *self
    }

    fn as_u32(&self) -> (r: u32)
        ensures
            r == self.spec_as_u32(),
    {
        *self
    }
}

impl LooksLikePostalCode for u64 {
    open spec fn spec_as_u32(&self) -> u32 {
        wrap32(*self as int)
    }

    fn as_u32(&self) -> (r: u32)
        ensures
            r == self.spec_as_u32(),
    {
        (*self % 0x1_0000_0000u64) as u32
    }
}

impl LooksLikePostalCode for i8 {
    open spec fn spec_as_u32(&self) -> u32 {
        wrap32(*self as int)
    }

    fn as_u32(&self) -> (r: u32)
        ensures
            r == self.spec_as_u32(),
    {
        let wide: i64 = *self as i64;
        if wide >= 0 {
            wide as u32
        } else {
            (wide + 0x1_0000_0000i64) as u32
        }
    }
}

impl LooksLikePostalCode for i16 {
    open spec fn spec_as_u32(&self) -> u32 {
        wrap32(*self as int)
    }

    fn as_u32(&self) -> (r: u32)
        ensures
            r == self.spec_as_u32(),
    {
        let wide: i64 = *self as i64;
        if wide >= 0 {
            wide as u32
        } else {
            (wide + 0x1_0000_0000i64) as u32
        }
    }
}

impl LooksLikePostalCode for i32 {
    open spec fn spec_as_u32(&self) -> u32 {
        wrap32(*self as int)
    }

    fn as_u32(&self) -> (r: u32)
        ensures
            r == self.spec_as_u32(),
    {
        let wide: i64 = *self as i64;
        if wide >= 0 {
            wide as u32
        } else {
            (wide + 0x1_0000_0000i64) as u32
        }
    }
}

impl LooksLikePostalCode for i64 {
    open spec fn spec_as_u32(&self) -> u32 {
        wrap32(*self as int)
    }

    fn as_u32(&self) -> (r: u32)
        ensures
            r == self.spec_as_u32(),
    {
        let rem: i64 = *self % 0x1_0000_0000i64;
        if rem >= 0 {
            rem as u32
        } else {
            (rem + 0x1_0000_0000i64) as u32
        }
    }
}

impl LooksLikePostalCode for String {
    open spec fn spec_as_u32(&self) -> u32 {
        text_code(self@)
    }

    fn as_u32(&self) -> (r: u32)
        ensures
            r == self.spec_as_u32(),
    {
        parse_code_text(self.as_str())
    }
}

impl LooksLikePostalCode for &str {
    open spec fn spec_as_u32(&self) -> u32 {
        text_code(self@)
    }

    fn as_u32(&self) -> (r: u32)
        ensures
            r == self.spec_as_u32(),
    {
        parse_code_text(*self)
    }
}

} // verus!
