//! The ways in which reading a memory card image can fail.

use vstd::prelude::*;

verus! {

/// Why an operation on a memory card image failed.
#[derive(Debug, Clone, Copy, PartialEq, Eq, Structural)]
pub enum VmcError {
    /// A read reached past the end of the image.
    Io,
    /// The image does not hold a well-formed memory card file system.
    InvalidFormat,
}

} // verus!
