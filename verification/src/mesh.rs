//! From a grid of elevation samples to a mesh: validation, upsampling,
//! tessellation.

use vstd::prelude::*;
use crate::buffers::{MeshComputeData, MeshView};
use crate::error::{check_input, input_fault, MeshError};
use crate::interpolate::{
    blend_is_function, blend_ready, interpolate_elevations, is_interpolation,
    lemma_interpolation_unique, Weight,
};
use crate::ramp::{mix_is_function, ramp_ready, within_is_function, ColorStop, Rgb};
use crate::tessellate::{
    coord_is_function, coord_ready, is_mesh, lemma_mesh_unique, normal_is_function, normal_ready,
    tessellate,
};

verus! {

/// The mesh of a `width` by `height` grid, upsampled by `factor`, can be
/// addressed: the upsampled grid has a size along both axes, and each buffer
/// has a length, eighteen scalars for every cell of the upsampled grid.
pub open spec fn mesh_fits(width: int, height: int, factor: int) -> bool {
    &&& 1 <= width * factor <= usize::MAX
    &&& 1 <= height * factor <= usize::MAX
    &&& (width * factor - 1) * (height * factor - 1) * 18 <= usize::MAX
}

/// Decides `mesh_fits` without overflowing.
pub fn fits_in_memory(width: usize, height: usize, tessellation_factor: usize) -> (fits: bool)
    ensures
        fits == mesh_fits(width as int, height as int, tessellation_factor as int),
{
    let new_width = match width.checked_mul(tessellation_factor) {
        Some(n) => n,
        None => {
            return false;
        },
    };
    let new_height = match height.checked_mul(tessellation_factor) {
        Some(n) => n,
        None => {
            return false;
        },
    };
    if new_width == 0 || new_height == 0 {
        return false;
    }
    match (new_width - 1).checked_mul(new_height - 1) {
        Some(cells) => cells.checked_mul(18).is_some(),
        None => {
            proof {
                assert((new_width - 1) * (new_height - 1) * 18 >= (new_width - 1) * (new_height - 1))
                    by (nonlinear_arith)
                    requires
                        (new_width - 1) * (new_height - 1) >= 0,
                ;
            }
            false
        },
    }
}

/// `mesh` is the terrain mesh of the row-major `width` by `height` grid
/// `elevations`: the tessellation of the grid upsampled by `factor` along
/// both axes.
pub open spec fn is_terrain_mesh<
    T,
    B: Fn(T, T, T, T, Weight, Weight) -> T,
    C: Fn(usize, usize) -> T,
    N: Fn((T, T, T), (T, T, T), (T, T, T)) -> (T, T, T),
    W: Fn(T, T, T) -> bool,
    M: Fn(ColorStop<T>, ColorStop<T>, T) -> Rgb<T>,
>(
    elevations: Seq<T>,
    width: int,
    height: int,
    factor: int,
    stops: Seq<ColorStop<T>>,
    blend: B,
    coord: C,
    normal: N,
    within: W,
    mix: M,
    mesh: MeshView<T>,
) -> bool {
    exists|grid: Seq<T>|
        {
            &&& #[trigger] is_interpolation(
                elevations,
                width,
                height,
                width * factor,
                height * factor,
                blend,
                grid,
            )
            &&& is_mesh(grid, width * factor, height * factor, stops, coord, normal, within, mix, mesh)
        }
}

/// Sizes of an upsampled grid whose buffers fit in memory fit as well.
proof fn lemma_sizes_fit(new_width: int, new_height: int, limit: int)
    requires
        new_width >= 2,
        new_height >= 2,
        (new_width - 1) * (new_height - 1) * 18 <= limit,
    ensures
        new_width <= limit,
        new_height <= limit,
        new_width * new_height <= limit,
{
    let a = new_width - 1;
    let b = new_height - 1;
    assert(new_width * new_height == a * b + a + b + 1) by (nonlinear_arith)
        requires
            a == new_width - 1,
            b == new_height - 1,
    ;
    assert(a <= a * b && b <= a * b) by (nonlinear_arith)
        requires
            a >= 1,
            b >= 1,
    ;
}

/// Builds the terrain mesh of a grid of elevation samples.
///
/// The request is validated first. The `width` by `height` grid is then
/// upsampled by `tessellation_factor` along both axes and every cell of the
/// finer grid is cut into two triangles. With a factor of one the grid is
/// tessellated as it stands.
///
/// The arithmetic on samples is the caller's: `blend` mixes four neighbouring
/// samples, `coord` places a grid index on its axis, `normal` gives a triangle
/// its normal, and `within` and `mix` read the colour ramp `stops`.
pub fn mesh_compute<
    T: Copy,
    B: Fn(T, T, T, T, Weight, Weight) -> T,
    C: Fn(usize, usize) -> T,
    N: Fn((T, T, T), (T, T, T), (T, T, T)) -> (T, T, T),
    W: Fn(T, T, T) -> bool,
    M: Fn(ColorStop<T>, ColorStop<T>, T) -> Rgb<T>,
>(
    elevations: &[T],
    width: usize,
    height: usize,
    tessellation_factor: usize,
    stops: &[ColorStop<T>],
    blend: &B,
    coord: &C,
    normal: &N,
    within: &W,
    mix: &M,
) -> (out: Result<MeshComputeData<T>, MeshError>)
    requires
        stops@.len() >= 1,
        blend_ready(*blend),
        coord_ready(*coord),
        normal_ready(*normal),
        ramp_ready(*within, *mix),
        input_fault(
            elevations@.len() as int,
            width as int,
            height as int,
            tessellation_factor as int,
        ) is None ==> mesh_fits(width as int, height as int, tessellation_factor as int),
    ensures
        match out {
            Ok(mesh) => {
                &&& input_fault(
                    elevations@.len() as int,
                    width as int,
                    height as int,
                    tessellation_factor as int,
                ) is None
                &&& is_terrain_mesh(
                    elevations@,
                    width as int,
                    height as int,
                    tessellation_factor as int,
                    stops@,
                    *blend,
                    *coord,
                    *normal,
                    *within,
                    *mix,
                    mesh@,
                )
                &&& tessellation_factor == 1 ==> is_mesh(
                    elevations@,
                    width as int,
                    height as int,
                    stops@,
                    *coord,
                    *normal,
                    *within,
                    *mix,
                    mesh@,
                )
                &&& mesh@.vertex_count == (width * tessellation_factor - 1) * (height
                    * tessellation_factor - 1) * 6
                &&& mesh@.vertices.len() == 3 * mesh@.vertex_count
                &&& mesh@.colors.len() == 3 * mesh@.vertex_count
                &&& mesh@.normals.len() == 3 * mesh@.vertex_count
            },
            Err(e) => input_fault(
                elevations@.len() as int,
                width as int,
                height as int,
                tessellation_factor as int,
            ) == Some(e),
        },
{
    match check_input(elevations.len(), width, height, tessellation_factor) {
        Err(e) => {
            return Err(e);
        },
        Ok(()) => {},
    }
    proof {
        let w = width * tessellation_factor;
        let h = height * tessellation_factor;
        assert(w >= 2 && h >= 2 && (tessellation_factor == 1 ==> w == width && h == height))
            by (nonlinear_arith)
            requires
                width >= 2,
                height >= 2,
                tessellation_factor >= 1,
                w == width * tessellation_factor,
                h == height * tessellation_factor,
        ;
        lemma_sizes_fit(w, h, usize::MAX as int);
    }
    let new_width = width * tessellation_factor;
    let new_height = height * tessellation_factor;
    match interpolate_elevations(elevations, width, height, new_width, new_height, blend) {
        Err(e) => Err(e),
        Ok(interpolated) => {
            let mesh = tessellate(
                interpolated.as_slice(),
                new_width,
                new_height,
                stops,
                coord,
                normal,
                within,
                mix,
            );
            proof {
                assert(is_interpolation(
                    elevations@,
                    width as int,
                    height as int,
                    width * tessellation_factor,
                    height * tessellation_factor,
                    *blend,
                    interpolated@,
                ));
            }
            Ok(mesh)
        },
    }
}

/// Determinism: with kernels that are functions, a grid of elevations has one
/// terrain mesh for each tessellation factor.
pub proof fn lemma_terrain_mesh_unique<
    T,
    B: Fn(T, T, T, T, Weight, Weight) -> T,
    C: Fn(usize, usize) -> T,
    N: Fn((T, T, T), (T, T, T), (T, T, T)) -> (T, T, T),
    W: Fn(T, T, T) -> bool,
    M: Fn(ColorStop<T>, ColorStop<T>, T) -> Rgb<T>,
>(
    elevations: Seq<T>,
    width: int,
    height: int,
    factor: int,
    stops: Seq<ColorStop<T>>,
    blend: B,
    coord: C,
    normal: N,
    within: W,
    mix: M,
    first: MeshView<T>,
    second: MeshView<T>,
)
    requires
        width >= 2,
        height >= 2,
        factor >= 1,
        blend_is_function(blend),
        coord_is_function(coord),
        normal_is_function(normal),
        within_is_function(within),
        mix_is_function(mix),
        is_terrain_mesh(elevations, width, height, factor, stops, blend, coord, normal, within, mix, first),
        is_terrain_mesh(
            elevations,
            width,
            height,
            factor,
            stops,
            blend,
            coord,
            normal,
            within,
            mix,
            second,
        ),
    ensures
        first == second,
{
    let new_width = width * factor;
    let new_height = height * factor;
    assert(new_width >= 1 && new_height >= 1) by (nonlinear_arith)
        requires
            width >= 2,
            height >= 2,
            factor >= 1,
            new_width == width * factor,
            new_height == height * factor,
    ;
    let g1 = choose|grid: Seq<T>|
        {
            &&& #[trigger] is_interpolation(elevations, width, height, new_width, new_height, blend, grid)
            &&& is_mesh(grid, new_width, new_height, stops, coord, normal, within, mix, first)
        };
    let g2 = choose|grid: Seq<T>|
        {
            &&& #[trigger] is_interpolation(elevations, width, height, new_width, new_height, blend, grid)
            &&& is_mesh(grid, new_width, new_height, stops, coord, normal, within, mix, second)
        };
    lemma_interpolation_unique(elevations, width, height, new_width, new_height, blend, g1, g2);
    lemma_mesh_unique(g1, new_width, new_height, stops, coord, normal, within, mix, first, second);
}

} // verus!
