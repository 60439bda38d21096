//! Element types and byte orders.

use vstd::prelude::*;

use crate::error::ActiveStorageError;

verus! {

/// Numeric type of an array element.
#[derive(Debug, Clone, Copy, PartialEq, Eq, Structural)]
pub enum DType {
    Int32,
    Int64,
    Uint32,
    Uint64,
    Float32,
    Float64,
}

/// Order of the bytes inside one element.
#[derive(Debug, Clone, Copy, PartialEq, Eq, Structural)]
pub enum ByteOrder {
    Big,
    Little,
}

/// Order of the elements in memory: `C` has the last axis varying fastest,
/// `F` the first.
#[derive(Debug, Clone, Copy, PartialEq, Eq, Structural)]
pub enum Order {
    C,
    F,
}

impl DType {
    /// Bytes per element.
    pub open spec fn size(self) -> nat {
        match self {
            DType::Int32 | DType::Uint32 | DType::Float32 => 4,
            DType::Int64 | DType::Uint64 | DType::Float64 => 8,
        }
    }

    pub open spec fn is_float(self) -> bool {
        self == DType::Float32 || self == DType::Float64
    }

    /// Number of distinct bit patterns of an element: 2^32 or 2^64.
    pub open spec fn modulus(self) -> int {
        if self.size() == 4 {
            0x1_0000_0000
        } else {
            0x1_0000_0000_0000_0000
        }
    }
}

/// Bytes per element of `dtype`.
pub fn element_size(dtype: DType) -> (n: u8)
    ensures
        n == dtype.size(),
        n == 4 || n == 8,
{
    match dtype {
        DType::Int32 | DType::Uint32 | DType::Float32 => 4,
        DType::Int64 | DType::Uint64 | DType::Float64 => 8,
    }
}

impl DType {
    /// Whether `bits` is the bit pattern of an element of this type: patterns
    /// of four-byte types are below 2^32.
    pub open spec fn holds(self, bits: u64) -> bool {
        bits < self.modulus()
    }

    /// The number by which elements are compared.
    ///
    /// For the integer types this is the integer that the bits spell, in two's
    /// complement for the signed ones. For the floating-point types it is the
    /// magnitude bits taken as an integer, negated when the sign bit is set:
    /// IEEE-754 numbers that are not NaN compare as these integers do, and
    /// both zeros get 0.
    pub open spec fn value(self, bits: u64) -> int {
        match self {
            DType::Uint32 | DType::Uint64 => bits as int,
            DType::Int32 => if bits < 0x8000_0000 {
                bits as int
            } else {
                bits - 0x1_0000_0000
            },
            DType::Int64 => if bits < 0x8000_0000_0000_0000 {
                bits as int
            } else {
                bits - 0x1_0000_0000_0000_0000
            },
            DType::Float32 => if bits < 0x8000_0000 {
                bits as int
            } else {
                0x8000_0000 - bits
            },
            DType::Float64 => if bits < 0x8000_0000_0000_0000 {
                bits as int
            } else {
                0x8000_0000_0000_0000 - bits
            },
        }
    }

    /// Whether `bits` is a NaN of this type: a floating-point pattern whose
    /// magnitude lies above that of infinity.
    pub open spec fn is_nan(self, bits: u64) -> bool {
        match self {
            DType::Float32 => self.value(bits) > 0x7f80_0000 || self.value(bits) < -0x7f80_0000,
            DType::Float64 => self.value(bits) > 0x7ff0_0000_0000_0000 || self.value(bits)
                < -0x7ff0_0000_0000_0000,
            _ => false,
        }
    }

    /// The smallest and the largest integer of an integer type.
    pub open spec fn integer_range(self) -> (int, int) {
        match self {
            DType::Int32 => (-0x8000_0000, 0x7fff_ffff),
            DType::Int64 => (-0x8000_0000_0000_0000, 0x7fff_ffff_ffff_ffff),
            DType::Uint32 => (0, 0xffff_ffff),
            _ => (0, 0xffff_ffff_ffff_ffff),
        }
    }

    /// Computes `value`.
    pub fn value_of(&self, bits: u64) -> (v: i128)
        ensures
            v == self.value(bits),
    {
        let wide = bits as i128;
        match self {
            DType::Uint32 | DType::Uint64 => wide,
            DType::Int32 => if bits < 0x8000_0000 {
                wide
            } else {
                wide - 0x1_0000_0000
            },
            DType::Int64 => if bits < 0x8000_0000_0000_0000 {
                wide
            } else {
                wide - 0x1_0000_0000_0000_0000
            },
            DType::Float32 => if bits < 0x8000_0000 {
                wide
            } else {
                0x8000_0000 - wide
            },
            DType::Float64 => if bits < 0x8000_0000_0000_0000 {
                wide
            } else {
                0x8000_0000_0000_0000 - wide
            },
        }
    }

    /// Computes `is_nan`.
    pub fn nan(&self, bits: u64) -> (b: bool)
        ensures
            b == self.is_nan(bits),
    {
        match self {
            DType::Float32 => {
                let v = self.value_of(bits);
                v > 0x7f80_0000 || v < -0x7f80_0000
            },
            DType::Float64 => {
                let v = self.value_of(bits);
                v > 0x7ff0_0000_0000_0000 || v < -0x7ff0_0000_0000_0000
            },
            _ => false,
        }
    }

    /// The bit pattern of the integer `v` as an element of this type.
    ///
    /// Fails with `InvalidMissing` when this is a floating-point type or `v`
    /// is outside the range of the type.
    pub fn integer_element(&self, v: i128) -> (result: Result<u64, ActiveStorageError>)
        ensures
            result is Ok <==> !self.is_float() && self.integer_range().0 <= v
                <= self.integer_range().1,
            result matches Ok(bits) ==> self.holds(bits) && self.value(bits) == v,
            result is Err ==> result->Err_0 == ActiveStorageError::InvalidMissing,
    {
        let (low, high, wrap): (i128, i128, i128) = match self {
            DType::Int32 => (-0x8000_0000, 0x7fff_ffff, 0x1_0000_0000),
            DType::Int64 => (
                -0x8000_0000_0000_0000,
                0x7fff_ffff_ffff_ffff,
                0x1_0000_0000_0000_0000,
            ),
            DType::Uint32 => (0, 0xffff_ffff, 0),
            DType::Uint64 => (0, 0xffff_ffff_ffff_ffff, 0),
            _ => {
                return Err(ActiveStorageError::InvalidMissing);
            },
        };
        if v < low || v > high {
            return Err(ActiveStorageError::InvalidMissing);
        }
        if v < 0 {
            Ok((v + wrap) as u64)
        } else {
            Ok(v as u64)
        }
    }
}

} // verus!
