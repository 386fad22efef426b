//! The marker that keeps `SlabPrimitive` closed to the built-in integer
//! types it is implemented for here.

use vstd::prelude::*;

verus! {

/// Implemented only for the integer primitives that can be slab elements.
pub trait Sealed {

}

impl Sealed for u8 {

}

impl Sealed for i8 {

}

impl Sealed for u16 {

}

impl Sealed for i16 {

}

impl Sealed for u32 {

}

impl Sealed for i32 {

}

impl Sealed for u64 {

}

impl Sealed for i64 {

}

} // verus!
