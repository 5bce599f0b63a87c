//! Input validation and the failures it reports.

use vstd::prelude::*;

verus! {

/// Why a request for a mesh was turned down.
#[derive(Debug, Clone, Copy, PartialEq, Eq, Structural)]
pub enum MeshError {
    /// A grid dimension is below two samples.
    InvalidDimension,
    /// The tessellation factor is zero.
    InvalidTessellation,
    /// The number of samples is not `width * height`.
    InputLengthMismatch,
}

/// The failure that a request with `len` samples, a `width` by `height` grid
/// and the given tessellation factor meets, if any. Dimensions are judged
/// first, then the factor, then the number of samples.
pub open spec fn input_fault(len: int, width: int, height: int, factor: int) -> Option<MeshError> {
    if width < 2 || height < 2 {
        Some(MeshError::InvalidDimension)
    } else if factor == 0 {
        Some(MeshError::InvalidTessellation)
    } else if len != width * height {
        Some(MeshError::InputLengthMismatch)
    } else {
        None
    }
}

/// `true` exactly when `len == width * height`, for any sizes: a product that
/// does not fit in `usize` is no length.
pub fn covers_grid(len: usize, width: usize, height: usize) -> (ok: bool)
    ensures
        ok == (len == width * height),
{
    match width.checked_mul(height) {
        Some(cells) => cells == len,
        None => false,
    }
}

/// Validates a mesh request before any work is done on it.
pub fn check_input(len: usize, width: usize, height: usize, tessellation_factor: usize) -> (r: Result<
    (),
    MeshError,
>)
    ensures
        r == match input_fault(len as int, width as int, height as int, tessellation_factor as int) {
            Some(e) => Err::<(), MeshError>(e),
            None => Ok(()),
        },
{
    if width < 2 || height < 2 {
        Err(MeshError::InvalidDimension)
    } else if tessellation_factor == 0 {
        Err(MeshError::InvalidTessellation)
    } else if !covers_grid(len, width, height) {
        Err(MeshError::InputLengthMismatch)
    } else {
        Ok(())
    }
}

} // verus!
