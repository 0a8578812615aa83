//! Types: interned, value-like IR metadata describing values.

use vstd::prelude::*;
use crate::text::dec_seq;

verus! {

/// An IR type.
///
/// Types are value-like: copying a type never copies underlying
/// storage, and equality is structural.
#[derive(Clone, Copy, Debug, PartialEq, Eq, Hash, Structural)]
pub enum Type {
    /// The target-width unsigned index type.
    Index,
    /// A bit-exact integer type of the given width.
    Integer { width: u64 },
    /// The 16-bit brain floating-point type.
    BFloat16,
    /// The 16-bit IEEE floating-point type.
    Float16,
    /// The 32-bit IEEE floating-point type.
    Float32,
    /// The 64-bit IEEE floating-point type.
    Float64,
}

/// A type is well formed when an integer width is positive.
pub open spec fn type_wf(t: Type) -> bool {
    match t {
        Type::Integer { width } => width >= 1,
        _ => true,
    }
}

/// The canonical textual form of a type.
pub open spec fn type_text(t: Type) -> Seq<char> {
    match t {
        Type::Index => "index"@,
        Type::Integer { width } => "i"@ + dec_seq(width as nat),
        Type::BFloat16 => "bf16"@,
        Type::Float16 => "f16"@,
        Type::Float32 => "f32"@,
        Type::Float64 => "f64"@,
    }
}

/// True of the float type kinds.
pub open spec fn type_is_float(t: Type) -> bool {
    t is BFloat16 || t is Float16 || t is Float32 || t is Float64
}

impl Type {
    /// The index type.
    pub fn index() -> (r: Type)
        ensures
            r == Type::Index,
    {
        Type::Index
    }

    /// An integer type of the given width.
    pub fn integer(width: u64) -> (r: Type)
        requires
            width >= 1,
        ensures
            r == (Type::Integer { width }),
            type_wf(r),
    {
        Type::Integer { width }
    }

    /// True when the type is a float kind.
    pub fn is_float(&self) -> (r: bool)
        ensures
            r == type_is_float(*self),
    {
        match self {
            Type::BFloat16 | Type::Float16 | Type::Float32 | Type::Float64 => true,
            _ => false,
        }
    }
}

} // verus!
