//! The safe surface of the entropy-probe kernels: the element types they
//! accept, their error type, and the reading of a launch's return code.

use vstd::prelude::*;

verus! {

/// Element type of a logits array, as the kernels' C ABI numbers it.
#[derive(Debug, Clone, Copy, PartialEq, Eq, Structural)]
pub enum Dtype {
    /// `float32`
    F32,
    /// `bfloat16`
    Bf16,
    /// `float16`
    F16,
}

/// The C ABI code of an element type.
pub open spec fn dtype_code(d: Dtype) -> i32 {
    match d {
        Dtype::F32 => 0,
        Dtype::Bf16 => 1,
        Dtype::F16 => 2,
    }
}

impl Dtype {
    /// The C ABI code of this element type.
    pub fn code(self) -> (c: i32)
        ensures
            c == dtype_code(self),
    {
        match self {
            Dtype::F32 => 0,
            Dtype::Bf16 => 1,
            Dtype::F16 => 2,
        }
    }
}

/// Errors that can occur when launching a kernel.
#[derive(Debug, Clone, Copy, PartialEq, Eq)]
pub enum KernelError {
    /// The kernels were built without CUDA support, or the runtime libraries
    /// are missing.
    Unavailable,
    /// The CUDA launch returned a non-zero error code.
    Launch(i32),
    /// One of the caller-supplied pointers was null.
    NullPointer(&'static str),
}

/// Result alias of the kernel surface.
pub type Result<T> = core::result::Result<T, KernelError>;

/// The code a launch returns when the backend is the stub.
pub const UNAVAILABLE_CODE: i32 = -1;

/// The outcome a kernel launch's return code stands for: `0` is success,
/// `-1` an unavailable backend, anything else a failed launch.
pub fn launch_outcome(code: i32) -> (r: Result<()>)
    ensures
        code == 0 ==> r is Ok,
        code == UNAVAILABLE_CODE ==> r matches Err(KernelError::Unavailable),
        code != 0 && code != UNAVAILABLE_CODE ==> (r matches Err(KernelError::Launch(c)) && c == code),
{
    if code == 0 {
        Ok(())
    } else if code == UNAVAILABLE_CODE {
        Err(KernelError::Unavailable)
    } else {
        Err(KernelError::Launch(code))
    }
}

} // verus!
