//! Terrain mesh generation: a coarse grid of elevation samples is upsampled,
//! cut into triangles, and written out as flat position, colour and normal
//! buffers.
//!
//! The library is generic in the scalar type `T` of the samples. It owns every
//! decision about which samples are read, in which order vertices are emitted
//! and how the buffers are laid out; the arithmetic on scalars is supplied by
//! the caller as closures, and every contract is stated relative to what those
//! closures promise.

pub mod buffers;
pub mod error;
pub mod interpolate;
pub mod mesh;
pub mod ramp;
pub mod tessellate;

pub use buffers::MeshComputeData;
pub use error::{check_input, MeshError};
pub use interpolate::{axis_tap, interpolate_elevations, AxisTap, Weight};
pub use mesh::{fits_in_memory, mesh_compute};
pub use ramp::{get_color_for_elevation, terrain_colors, ColorStop, Rgb, COLOR_SCALE};
pub use tessellate::tessellate;
