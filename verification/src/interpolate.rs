//! Bilinear upsampling of a rectangular grid of samples.

use vstd::prelude::*;
use crate::error::{covers_grid, MeshError};

verus! {

/// The fraction `num / den`, a blending weight in `[0, 1)`.
#[derive(Debug, Clone, Copy, PartialEq, Eq, Structural)]
pub struct Weight {
    pub num: usize,
    pub den: usize,
}

/// Where one target index falls on a source axis: between the source samples
/// `lo` and `hi`, the fraction `frac` of the way from `lo`.
#[derive(Debug, Clone, Copy, PartialEq, Eq, Structural)]
pub struct AxisTap {
    pub lo: usize,
    pub hi: usize,
    pub frac: Weight,
}

/// The source sample at or below target index `i`, when an axis of `src`
/// samples is stretched over `dst` target samples: the floor of
/// `i * (src - 1) / (dst - 1)`.
pub open spec fn tap_lo(i: int, src: int, dst: int) -> int {
    (i * (src - 1)) / (dst - 1)
}

/// The source sample after `tap_lo`, held back at the last sample of the axis.
pub open spec fn tap_hi(i: int, src: int, dst: int) -> int {
    if tap_lo(i, src, dst) + 1 < src - 1 {
        tap_lo(i, src, dst) + 1
    } else {
        src - 1
    }
}

/// The numerator, over `dst - 1`, of the distance from `tap_lo` to the mapped
/// coordinate `i * (src - 1) / (dst - 1)`.
pub open spec fn tap_num(i: int, src: int, dst: int) -> int {
    (i * (src - 1)) % (dst - 1)
}

/// A tap stays on its axis: `tap_lo` and `tap_hi` are samples of the source
/// axis, and `tap_num` over `dst - 1` is a proper fraction.
pub proof fn lemma_tap_bounds(i: int, src: int, dst: int)
    requires
        src >= 1,
        dst >= 2,
        0 <= i < dst,
    ensures
        0 <= tap_lo(i, src, dst) <= tap_hi(i, src, dst) < src,
        0 <= tap_num(i, src, dst) < dst - 1,
        i * (src - 1) == tap_lo(i, src, dst) * (dst - 1) + tap_num(i, src, dst),
{
    let p = i * (src - 1);
    let d = dst - 1;
    assert(0 <= p <= d * (src - 1)) by (nonlinear_arith)
        requires
            0 <= i <= d,
            src - 1 >= 0,
            p == i * (src - 1),
    ;
    vstd::arithmetic::div_mod::lemma_fundamental_div_mod(p, d);
    assert(0 <= p / d <= src - 1) by (nonlinear_arith)
        requires
            d > 0,
            0 <= p <= d * (src - 1),
            p == d * (p / d) + p % d,
            0 <= p % d < d,
    ;
    assert(d * (p / d) == (p / d) * d) by (nonlinear_arith);
}

/// Maps target index `i` of an axis with `dst` samples onto an axis with `src`
/// samples, in exact integer arithmetic.
pub fn axis_tap(i: usize, src: usize, dst: usize) -> (t: AxisTap)
    requires
        src >= 1,
        dst >= 2,
        i < dst,
    ensures
        t.lo == tap_lo(i as int, src as int, dst as int),
        t.hi == tap_hi(i as int, src as int, dst as int),
        t.frac.num == tap_num(i as int, src as int, dst as int),
        t.frac.den == dst - 1,
        t.lo <= t.hi < src,
        t.frac.num < t.frac.den,
{
    proof {
        lemma_tap_bounds(i as int, src as int, dst as int);
        assert(i * (src - 1) <= u128::MAX) by (nonlinear_arith)
            requires
                0 <= i <= u64::MAX,
                0 <= src - 1 <= u64::MAX,
        ;
    }
    let span: u128 = (dst - 1) as u128;
    let scaled: u128 = (i as u128) * ((src - 1) as u128);
    let lo: usize = (scaled / span) as usize;
    let num: usize = (scaled % span) as usize;
    let hi: usize = if lo + 1 < src - 1 {
        lo + 1
    } else {
        src - 1
    };
    AxisTap { lo, hi, frac: Weight { num, den: dst - 1 } }
}

/// The failure that an upsampling request meets, if any: every dimension,
/// source and target, needs two samples, and the source needs `width * height`
/// of them.
pub open spec fn grid_fault(len: int, width: int, height: int, new_width: int, new_height: int) -> Option<
    MeshError,
> {
    if width < 2 || height < 2 || new_width < 2 || new_height < 2 {
        Some(MeshError::InvalidDimension)
    } else if len != width * height {
        Some(MeshError::InputLengthMismatch)
    } else {
        None
    }
}

/// `blend` may be called on any four samples with any two proper fractions.
pub open spec fn blend_ready<T, B: Fn(T, T, T, T, Weight, Weight) -> T>(blend: B) -> bool {
    forall|z1: T, z2: T, z3: T, z4: T, wx: Weight, wy: Weight|
        wx.num < wx.den && wy.num < wy.den ==> call_requires(blend, (z1, z2, z3, z4, wx, wy))
}

/// `v` is a correct target sample at column `x`, row `y`.
///
/// The target coordinate is mapped onto the source grid. Where it falls
/// exactly on a source sample, `v` is that sample, untouched. Elsewhere `v` is
/// what `blend` returns for the four surrounding samples (upper left, upper
/// right, lower left, lower right) and the fractional distances along the two
/// axes.
pub open spec fn is_sample<T, B: Fn(T, T, T, T, Weight, Weight) -> T>(
    src: Seq<T>,
    width: int,
    height: int,
    new_width: int,
    new_height: int,
    blend: B,
    x: int,
    y: int,
    v: T,
) -> bool {
    let x1 = tap_lo(x, width, new_width);
    let x2 = tap_hi(x, width, new_width);
    let y1 = tap_lo(y, height, new_height);
    let y2 = tap_hi(y, height, new_height);
    let nx = tap_num(x, width, new_width);
    let ny = tap_num(y, height, new_height);
    if nx == 0 && ny == 0 {
        v == src[y1 * width + x1]
    } else {
        call_ensures(
            blend,
            (
                src[y1 * width + x1],
                src[y1 * width + x2],
                src[y2 * width + x1],
                src[y2 * width + x2],
                (Weight { num: nx as usize, den: (new_width - 1) as usize }),
                (Weight { num: ny as usize, den: (new_height - 1) as usize }),
            ),
            v,
        )
    }
}

/// `out` is the row-major `new_width` by `new_height` upsampling of the
/// row-major `width` by `height` grid `src`.
pub open spec fn is_interpolation<T, B: Fn(T, T, T, T, Weight, Weight) -> T>(
    src: Seq<T>,
    width: int,
    height: int,
    new_width: int,
    new_height: int,
    blend: B,
    out: Seq<T>,
) -> bool {
    &&& out.len() == new_width * new_height
    &&& forall|j: int|
        0 <= j < new_width * new_height ==> is_sample(
            src,
            width,
            height,
            new_width,
            new_height,
            blend,
            j % new_width,
            j / new_width,
            #[trigger] out[j],
        )
}

/// Row `y`, column `x` of a row-major grid that is `width` wide lies inside a
/// grid of `height` rows, and is found again from its flat index.
pub proof fn lemma_flat_index(x: int, y: int, width: int, height: int)
    requires
        0 <= x < width,
        0 <= y < height,
    ensures
        0 <= y * width + x < width * height,
        (y * width + x) % width == x,
        (y * width + x) / width == y,
{
    assert(0 <= y * width && y * width + width <= width * height) by (nonlinear_arith)
        requires
            0 <= y < height,
            0 < width,
    ;
    vstd::arithmetic::div_mod::lemma_fundamental_div_mod_converse(y * width + x, width, y, x);
}

/// A flat index below `width * height` splits into a row and a column of the
/// grid.
pub proof fn lemma_flat_index_split(j: int, width: int, height: int)
    requires
        0 < width,
        0 <= j < width * height,
    ensures
        0 <= j % width < width,
        0 <= j / width < height,
        (j / width) * width + j % width == j,
{
    vstd::arithmetic::div_mod::lemma_fundamental_div_mod(j, width);
    let q = j / width;
    assert(0 <= q < height) by (nonlinear_arith)
        requires
            0 < width,
            0 <= j < width * height,
            j == width * q + j % width,
            0 <= j % width < width,
    ;
    assert(width * q == q * width) by (nonlinear_arith);
}

/// A target coordinate that maps exactly onto source sample `k` taps that
/// sample with no fractional part.
pub proof fn lemma_tap_exact(i: int, src: int, dst: int, k: int)
    requires
        dst >= 2,
        i * (src - 1) == k * (dst - 1),
    ensures
        tap_lo(i, src, dst) == k,
        tap_num(i, src, dst) == 0,
{
    vstd::arithmetic::div_mod::lemma_fundamental_div_mod_converse(i * (src - 1), dst - 1, k, 0);
}

/// One target sample: copied where the target coordinate falls on a source
/// sample, blended from its four neighbours elsewhere.
fn sample_at<T: Copy, B: Fn(T, T, T, T, Weight, Weight) -> T>(
    elevations: &[T],
    width: usize,
    height: usize,
    tx: AxisTap,
    ty: AxisTap,
    blend: &B,
) -> (v: T)
    requires
        blend_ready(*blend),
        elevations@.len() == width * height,
        tx.lo <= tx.hi < width,
        ty.lo <= ty.hi < height,
        tx.frac.num < tx.frac.den,
        ty.frac.num < ty.frac.den,
    ensures
        tx.frac.num == 0 && ty.frac.num == 0 ==> v == elevations@[ty.lo * width + tx.lo],
        !(tx.frac.num == 0 && ty.frac.num == 0) ==> call_ensures(
            *blend,
            (
                elevations@[ty.lo * width + tx.lo],
                elevations@[ty.lo * width + tx.hi],
                elevations@[ty.hi * width + tx.lo],
                elevations@[ty.hi * width + tx.hi],
                tx.frac,
                ty.frac,
            ),
            v,
        ),
{
    proof {
        assert(elevations@.len() == elevations.len());
        lemma_flat_index(tx.lo as int, ty.lo as int, width as int, height as int);
        lemma_flat_index(tx.hi as int, ty.lo as int, width as int, height as int);
        lemma_flat_index(tx.lo as int, ty.hi as int, width as int, height as int);
        lemma_flat_index(tx.hi as int, ty.hi as int, width as int, height as int);
    }
    let z1 = elevations[ty.lo * width + tx.lo];
    if tx.frac.num == 0 && ty.frac.num == 0 {
        z1
    } else {
        let z2 = elevations[ty.lo * width + tx.hi];
        let z3 = elevations[ty.hi * width + tx.lo];
        let z4 = elevations[ty.hi * width + tx.hi];
        blend(z1, z2, z3, z4, tx.frac, ty.frac)
    }
}

/// Upsamples the row-major grid `elevations`, `width` by
/// `height`, to `new_width` by `new_height` samples.
///
/// Target sample `(x, y)` sits at source coordinate
/// `(x * (width - 1) / (new_width - 1), y * (height - 1) / (new_height - 1))`,
/// so the corners of the two grids coincide. The coordinate is split into its
/// whole and fractional part in exact integer arithmetic; only the blend of
/// the four neighbours is left to `blend`.
pub fn interpolate_elevations<T: Copy, B: Fn(T, T, T, T, Weight, Weight) -> T>(
    elevations: &[T],
    width: usize,
    height: usize,
    new_width: usize,
    new_height: usize,
    blend: &B,
) -> (out: Result<Vec<T>, MeshError>)
    requires
        blend_ready(*blend),
        grid_fault(
            elevations@.len() as int,
            width as int,
            height as int,
            new_width as int,
            new_height as int,
        ) is None ==> new_width * new_height <= usize::MAX,
    ensures
        match out {
            Ok(grid) => {
                &&& grid_fault(
                    elevations@.len() as int,
                    width as int,
                    height as int,
                    new_width as int,
                    new_height as int,
                ) is None
                &&& is_interpolation(
                    elevations@,
                    width as int,
                    height as int,
                    new_width as int,
                    new_height as int,
                    *blend,
                    grid@,
                )
                &&& new_width == width && new_height == height ==> grid@
                    == elevations@
            },
            Err(e) => grid_fault(
                elevations@.len() as int,
                width as int,
                height as int,
                new_width as int,
                new_height as int,
            ) == Some(e),
        },
{
    if width < 2 || height < 2 || new_width < 2 || new_height < 2 {
        return Err(MeshError::InvalidDimension);
    }
    if !covers_grid(elevations.len(), width, height) {
        return Err(MeshError::InputLengthMismatch);
    }
    let mut interpolated: Vec<T> = Vec::new();
    let mut y: usize = 0;
    while y < new_height
        invariant
            blend_ready(*blend),
            width >= 2,
            height >= 2,
            new_width >= 2,
            new_height >= 2,
            elevations@.len() == width * height,
            y <= new_height,
            interpolated@.len() == y * new_width,
            forall|j: int|
                0 <= j < y * new_width ==> is_sample(
                    elevations@,
                    width as int,
                    height as int,
                    new_width as int,
                    new_height as int,
                    *blend,
                    j % (new_width as int),
                    j / (new_width as int),
                    #[trigger] interpolated@[j],
                ),
        decreases new_height - y,
    {
        let ty = axis_tap(y, height, new_height);
        let mut x: usize = 0;
        while x < new_width
            invariant
                blend_ready(*blend),
                width >= 2,
                height >= 2,
                new_width >= 2,
                new_height >= 2,
                elevations@.len() == width * height,
                y < new_height,
                x <= new_width,
                ty.lo == tap_lo(y as int, height as int, new_height as int),
                ty.hi == tap_hi(y as int, height as int, new_height as int),
                ty.frac.num == tap_num(y as int, height as int, new_height as int),
                ty.frac.den == new_height - 1,
                ty.lo <= ty.hi < height,
                ty.frac.num < ty.frac.den,
                interpolated@.len() == y * new_width + x,
                forall|j: int|
                    0 <= j < y * new_width + x ==> is_sample(
                        elevations@,
                        width as int,
                        height as int,
                        new_width as int,
                        new_height as int,
                        *blend,
                        j % (new_width as int),
                        j / (new_width as int),
                        #[trigger] interpolated@[j],
                    ),
            decreases new_width - x,
        {
            let tx = axis_tap(x, width, new_width);
            let v = sample_at(elevations, width, height, tx, ty, blend);
            proof {
                lemma_flat_index(x as int, y as int, new_width as int, new_height as int);
            }
            interpolated.push(v);
            x += 1;
        }
        proof {
            assert((y + 1) * new_width == y * new_width + new_width) by (nonlinear_arith);
        }
        y += 1;
    }
    proof {
        assert(new_height * new_width == new_width * new_height) by (nonlinear_arith);
        if new_width == width && new_height == height {
            lemma_identity(
                elevations@,
                width as int,
                height as int,
                *blend,
                interpolated@,
            );
        }
    }
    Ok(interpolated)
}

/// Identity: upsampling a grid to its own size gives the grid back, whatever
/// its samples are and whatever `blend` computes.
pub proof fn lemma_identity<T, B: Fn(T, T, T, T, Weight, Weight) -> T>(
    src: Seq<T>,
    width: int,
    height: int,
    blend: B,
    out: Seq<T>,
)
    requires
        width >= 2,
        height >= 2,
        src.len() == width * height,
        is_interpolation(src, width, height, width, height, blend, out),
    ensures
        out == src,
{
    assert forall|j: int| 0 <= j < width * height implies out[j] == src[j] by {
        lemma_flat_index_split(j, width, height);
        lemma_tap_exact(j % width, width, width, j % width);
        lemma_tap_exact(j / width, height, height, j / width);
    }
}

/// No blending error on the source samples: wherever a target coordinate
/// `(x, y)` maps exactly onto source sample `(i, k)`, the target sample is
/// that source sample, unchanged.
pub proof fn lemma_exact_on_samples<T, B: Fn(T, T, T, T, Weight, Weight) -> T>(
    src: Seq<T>,
    width: int,
    height: int,
    new_width: int,
    new_height: int,
    blend: B,
    out: Seq<T>,
    x: int,
    y: int,
    i: int,
    k: int,
)
    requires
        new_width >= 2,
        new_height >= 2,
        is_interpolation(src, width, height, new_width, new_height, blend, out),
        0 <= x < new_width,
        0 <= y < new_height,
        x * (width - 1) == i * (new_width - 1),
        y * (height - 1) == k * (new_height - 1),
    ensures
        out[y * new_width + x] == src[k * width + i],
{
    lemma_flat_index(x, y, new_width, new_height);
    lemma_tap_exact(x, width, new_width, i);
    lemma_tap_exact(y, height, new_height, k);
}

/// `blend` is a function: it has one result for each choice of arguments.
pub open spec fn blend_is_function<T, B: Fn(T, T, T, T, Weight, Weight) -> T>(blend: B) -> bool {
    forall|z1: T, z2: T, z3: T, z4: T, wx: Weight, wy: Weight, a: T, b: T|
        #[trigger] call_ensures(blend, (z1, z2, z3, z4, wx, wy), a) && #[trigger] call_ensures(
            blend,
            (z1, z2, z3, z4, wx, wy),
            b,
        ) ==> a == b
}

/// Determinism: with a `blend` that is a function, a grid has one upsampling
/// of each size.
pub proof fn lemma_interpolation_unique<T, B: Fn(T, T, T, T, Weight, Weight) -> T>(
    src: Seq<T>,
    width: int,
    height: int,
    new_width: int,
    new_height: int,
    blend: B,
    first: Seq<T>,
    second: Seq<T>,
)
    requires
        blend_is_function(blend),
        is_interpolation(src, width, height, new_width, new_height, blend, first),
        is_interpolation(src, width, height, new_width, new_height, blend, second),
    ensures
        first == second,
{
    assert forall|j: int| 0 <= j < new_width * new_height implies first[j] == second[j] by {
        assert(is_sample(
            src,
            width,
            height,
            new_width,
            new_height,
            blend,
            j % new_width,
            j / new_width,
            first[j],
        ));
        assert(is_sample(
            src,
            width,
            height,
            new_width,
            new_height,
            blend,
            j % new_width,
            j / new_width,
            second[j],
        ));
    }
}

} // verus!
