//! Conversions of the engine's types into the GPU layer's: a type the GPU
//! layer converts from implements `WgpuFrom`, and every value then converts
//! with `wgpu_into`.
use vstd::prelude::*;

verus! {

/// A type that can be made from a `T`.
pub trait WgpuFrom<T>: Sized {
    fn from(val: T) -> Self;
}

/// A value that can be turned into a `U`.
pub trait WgpuInto<U> {
    fn wgpu_into(self) -> U;
}

impl<T, U: WgpuFrom<T>> WgpuInto<U> for T {
    /// Makes a `U` from the value with `U`'s conversion.
    fn wgpu_into(self) -> (u: U)
        ensures
            call_ensures(U::from, (self,), u),
    {
        U::from(self)
    }
}

} // verus!
