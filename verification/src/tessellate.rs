//! Tessellation: every cell of a grid becomes two flat-shaded triangles.

use vstd::prelude::*;
use crate::buffers::{MeshComputeData, MeshView};
use crate::interpolate::{lemma_flat_index, lemma_flat_index_split};
use crate::ramp::{
    get_color_for_elevation, is_ramp_color, lemma_ramp_color_unique, mix_is_function, ramp_ready,
    within_is_function, ColorStop, Rgb,
};

verus! {

/// The three scalars of vertex `v` in a flat buffer.
pub open spec fn triple_at<T>(buffer: Seq<T>, v: int) -> (T, T, T) {
    (buffer[3 * v], buffer[3 * v + 1], buffer[3 * v + 2])
}

/// `coord` may be called on any index of an axis and the last index of that
/// axis.
pub open spec fn coord_ready<T, C: Fn(usize, usize) -> T>(coord: C) -> bool {
    forall|index: usize, last: usize| 1 <= last && index <= last ==> call_requires(coord, (index, last))
}

/// `normal` may be called on any three points.
pub open spec fn normal_ready<T, N: Fn((T, T, T), (T, T, T), (T, T, T)) -> (T, T, T)>(normal: N) -> bool {
    forall|a: (T, T, T), b: (T, T, T), c: (T, T, T)| call_requires(normal, (a, b, c))
}

/// The vertices `first`, `first + 1` and `first + 2` of `mesh` are the
/// triangle `a`, `b`, `c`, and all three carry one normal: what `normal`
/// returns for the triangle.
pub open spec fn is_flat_triangle<T, N: Fn((T, T, T), (T, T, T), (T, T, T)) -> (T, T, T)>(
    normal: N,
    mesh: MeshView<T>,
    first: int,
    a: (T, T, T),
    b: (T, T, T),
    c: (T, T, T),
) -> bool {
    &&& triple_at(mesh.vertices, first) == a
    &&& triple_at(mesh.vertices, first + 1) == b
    &&& triple_at(mesh.vertices, first + 2) == c
    &&& call_ensures(normal, (a, b, c), triple_at(mesh.normals, first))
    &&& triple_at(mesh.normals, first + 1) == triple_at(mesh.normals, first)
    &&& triple_at(mesh.normals, first + 2) == triple_at(mesh.normals, first)
}

/// The six vertices of the grid cell in column `cx`, row `cy` are in place.
///
/// Cells are laid out row by row, six vertices each. The corners of a cell
/// are upper left `(x1, y1)`, upper right `(x2, y1)`, lower left `(x1, y2)`
/// and lower right `(x2, y2)`; each takes its `z` from the grid, unchanged,
/// and its `x` and `y` from `coord`, which is asked once for each of the four
/// coordinates. The cell is cut into the triangles upper left, upper right,
/// lower left and upper right, lower right, lower left.
pub open spec fn is_cell<
    T,
    C: Fn(usize, usize) -> T,
    N: Fn((T, T, T), (T, T, T), (T, T, T)) -> (T, T, T),
>(
    grid: Seq<T>,
    new_width: int,
    new_height: int,
    coord: C,
    normal: N,
    mesh: MeshView<T>,
    cx: int,
    cy: int,
) -> bool {
    let first = 6 * (cy * (new_width - 1) + cx);
    let x1 = mesh.vertices[3 * first];
    let y1 = mesh.vertices[3 * first + 1];
    let x2 = mesh.vertices[3 * first + 3];
    let y2 = mesh.vertices[3 * first + 7];
    let upper_left = (x1, y1, grid[cy * new_width + cx]);
    let upper_right = (x2, y1, grid[cy * new_width + cx + 1]);
    let lower_left = (x1, y2, grid[(cy + 1) * new_width + cx]);
    let lower_right = (x2, y2, grid[(cy + 1) * new_width + cx + 1]);
    &&& call_ensures(coord, (cx as usize, (new_width - 1) as usize), x1)
    &&& call_ensures(coord, ((cx + 1) as usize, (new_width - 1) as usize), x2)
    &&& call_ensures(coord, (cy as usize, (new_height - 1) as usize), y1)
    &&& call_ensures(coord, ((cy + 1) as usize, (new_height - 1) as usize), y2)
    &&& is_flat_triangle(normal, mesh, first, upper_left, upper_right, lower_left)
    &&& is_flat_triangle(normal, mesh, first + 3, upper_right, lower_right, lower_left)
}

/// The colour of vertex `v` is the ramp's colour for the vertex's own `z`.
pub open spec fn is_shaded<T, W: Fn(T, T, T) -> bool, M: Fn(ColorStop<T>, ColorStop<T>, T) -> Rgb<T>>(
    stops: Seq<ColorStop<T>>,
    within: W,
    mix: M,
    mesh: MeshView<T>,
    v: int,
) -> bool {
    is_ramp_color(
        stops,
        within,
        mix,
        mesh.vertices[3 * v + 2],
        (Rgb { r: mesh.colors[3 * v], g: mesh.colors[3 * v + 1], b: mesh.colors[3 * v + 2] }),
    )
}

/// `mesh` is the tessellation of the row-major `new_width` by `new_height`
/// grid: six vertices for every cell that has a right and a lower neighbour,
/// flat normals, and ramp colours.
pub open spec fn is_mesh<
    T,
    C: Fn(usize, usize) -> T,
    N: Fn((T, T, T), (T, T, T), (T, T, T)) -> (T, T, T),
    W: Fn(T, T, T) -> bool,
    M: Fn(ColorStop<T>, ColorStop<T>, T) -> Rgb<T>,
>(
    grid: Seq<T>,
    new_width: int,
    new_height: int,
    stops: Seq<ColorStop<T>>,
    coord: C,
    normal: N,
    within: W,
    mix: M,
    mesh: MeshView<T>,
) -> bool {
    &&& mesh.vertex_count == (new_width - 1) * (new_height - 1) * 6
    &&& mesh.well_formed()
    &&& forall|cx: int, cy: int|
        0 <= cx < new_width - 1 && 0 <= cy < new_height - 1 ==> #[trigger] is_cell(
            grid,
            new_width,
            new_height,
            coord,
            normal,
            mesh,
            cx,
            cy,
        )
    &&& forall|v: int| 0 <= v < mesh.vertex_count ==> #[trigger] is_shaded(stops, within, mix, mesh, v)
}

/// `longer` starts with `shorter`.
spec fn extends<T>(shorter: Seq<T>, longer: Seq<T>) -> bool {
    &&& shorter.len() <= longer.len()
    &&& forall|i: int| 0 <= i < shorter.len() ==> longer[i] == shorter[i]
}

/// The buffers of a mesh under construction, as a mesh.
spec fn mesh_of<T>(vertices: Seq<T>, colors: Seq<T>, normals: Seq<T>) -> MeshView<T> {
    MeshView { vertices, colors, normals, vertex_count: (vertices.len() / 3) as nat }
}

/// Appends one vertex: its normal, its position, and the ramp colour of its
/// elevation.
fn push_vertex<T: Copy, W: Fn(T, T, T) -> bool, M: Fn(ColorStop<T>, ColorStop<T>, T) -> Rgb<T>>(
    vertices: &mut Vec<T>,
    colors: &mut Vec<T>,
    normals: &mut Vec<T>,
    position: (T, T, T),
    normal: (T, T, T),
    stops: &[ColorStop<T>],
    within: &W,
    mix: &M,
)
    requires
        stops@.len() >= 1,
        ramp_ready(*within, *mix),
        old(vertices)@.len() == old(colors)@.len(),
        old(vertices)@.len() == old(normals)@.len(),
        old(vertices)@.len() % 3 == 0,
    ensures
        final(vertices)@ == old(vertices)@ + seq![position.0, position.1, position.2],
        final(normals)@ == old(normals)@ + seq![normal.0, normal.1, normal.2],
        final(colors)@.len() == old(colors)@.len() + 3,
        extends(old(colors)@, final(colors)@),
        is_shaded(
            stops@,
            *within,
            *mix,
            mesh_of(final(vertices)@, final(colors)@, final(normals)@),
            old(vertices)@.len() as int / 3,
        ),
{
    normals.push(normal.0);
    normals.push(normal.1);
    normals.push(normal.2);
    vertices.push(position.0);
    vertices.push(position.1);
    vertices.push(position.2);
    let color = get_color_for_elevation(position.2, stops, within, mix);
    colors.push(color.r);
    colors.push(color.g);
    colors.push(color.b);
}

/// Appends one triangle: `normal` is asked once, and each corner in turn gets
/// the shared normal, its position and its ramp colour.
fn push_triangle<
    T: Copy,
    N: Fn((T, T, T), (T, T, T), (T, T, T)) -> (T, T, T),
    W: Fn(T, T, T) -> bool,
    M: Fn(ColorStop<T>, ColorStop<T>, T) -> Rgb<T>,
>(
    vertices: &mut Vec<T>,
    colors: &mut Vec<T>,
    normals: &mut Vec<T>,
    a: (T, T, T),
    b: (T, T, T),
    c: (T, T, T),
    stops: &[ColorStop<T>],
    normal: &N,
    within: &W,
    mix: &M,
)
    requires
        stops@.len() >= 1,
        normal_ready(*normal),
        ramp_ready(*within, *mix),
        old(vertices)@.len() == old(colors)@.len(),
        old(vertices)@.len() == old(normals)@.len(),
        old(vertices)@.len() % 3 == 0,
    ensures
        final(vertices)@.len() == old(vertices)@.len() + 9,
        final(colors)@.len() == old(colors)@.len() + 9,
        final(normals)@.len() == old(normals)@.len() + 9,
        extends(old(vertices)@, final(vertices)@),
        extends(old(colors)@, final(colors)@),
        extends(old(normals)@, final(normals)@),
        is_flat_triangle(
            *normal,
            mesh_of(final(vertices)@, final(colors)@, final(normals)@),
            old(vertices)@.len() as int / 3,
            a,
            b,
            c,
        ),
        forall|s: int|
            0 <= s < 3 ==> #[trigger] is_shaded(
                stops@,
                *within,
                *mix,
                mesh_of(final(vertices)@, final(colors)@, final(normals)@),
                old(vertices)@.len() as int / 3 + s,
            ),
{
    let n = normal(a, b, c);
    push_vertex(vertices, colors, normals, a, n, stops, within, mix);
    push_vertex(vertices, colors, normals, b, n, stops, within, mix);
    push_vertex(vertices, colors, normals, c, n, stops, within, mix);
}

/// A cell that is in place stays in place when the buffers grow.
proof fn lemma_cell_kept<
    T,
    C: Fn(usize, usize) -> T,
    N: Fn((T, T, T), (T, T, T), (T, T, T)) -> (T, T, T),
>(
    grid: Seq<T>,
    new_width: int,
    new_height: int,
    coord: C,
    normal: N,
    before: MeshView<T>,
    after: MeshView<T>,
    cx: int,
    cy: int,
)
    requires
        is_cell(grid, new_width, new_height, coord, normal, before, cx, cy),
        0 <= cy * (new_width - 1) + cx,
        18 * (cy * (new_width - 1) + cx) + 18 <= before.vertices.len(),
        18 * (cy * (new_width - 1) + cx) + 18 <= before.normals.len(),
        extends(before.vertices, after.vertices),
        extends(before.normals, after.normals),
    ensures
        is_cell(grid, new_width, new_height, coord, normal, after, cx, cy),
{
}

/// A vertex that has its colour keeps it when the buffers grow.
proof fn lemma_shade_kept<T, W: Fn(T, T, T) -> bool, M: Fn(ColorStop<T>, ColorStop<T>, T) -> Rgb<T>>(
    stops: Seq<ColorStop<T>>,
    within: W,
    mix: M,
    before: MeshView<T>,
    after: MeshView<T>,
    v: int,
)
    requires
        is_shaded(stops, within, mix, before, v),
        0 <= v,
        3 * v + 3 <= before.vertices.len(),
        3 * v + 3 <= before.colors.len(),
        extends(before.vertices, after.vertices),
        extends(before.colors, after.colors),
    ensures
        is_shaded(stops, within, mix, after, v),
{
}

/// The cells before cell `(x, y)` in row-major order, and the room they take.
proof fn lemma_cell_order(cx: int, cy: int, x: int, y: int, cells_wide: int)
    requires
        0 <= cx < cells_wide,
        0 <= x <= cells_wide,
        0 <= cy,
        0 <= y,
    ensures
        0 <= cy * cells_wide + cx,
        (cy < y || (cy == y && cx < x)) <==> cy * cells_wide + cx < y * cells_wide + x,
{
    assert(0 <= cy * cells_wide) by (nonlinear_arith)
        requires
            0 <= cy,
            0 <= cells_wide,
    ;
    if cy < y {
        assert(cy * cells_wide + cells_wide <= y * cells_wide) by (nonlinear_arith)
            requires
                cy + 1 <= y,
                0 <= cells_wide,
        ;
    } else if cy > y {
        assert(y * cells_wide + cells_wide <= cy * cells_wide) by (nonlinear_arith)
            requires
                y + 1 <= cy,
                0 <= cells_wide,
        ;
    }
}

/// Cuts the row-major `new_width` by `new_height` grid into triangles.
///
/// Every cell with a right and a lower neighbour gives two triangles, row by
/// row. `coord(index, last)` places a grid index on its axis; `normal` gives a
/// triangle its normal; the ramp `stops`, read with `within` and `mix`, gives
/// each vertex its colour from its own elevation.
pub fn tessellate<
    T: Copy,
    C: Fn(usize, usize) -> T,
    N: Fn((T, T, T), (T, T, T), (T, T, T)) -> (T, T, T),
    W: Fn(T, T, T) -> bool,
    M: Fn(ColorStop<T>, ColorStop<T>, T) -> Rgb<T>,
>(
    grid: &[T],
    new_width: usize,
    new_height: usize,
    stops: &[ColorStop<T>],
    coord: &C,
    normal: &N,
    within: &W,
    mix: &M,
) -> (mesh: MeshComputeData<T>)
    requires
        new_width >= 1,
        new_height >= 1,
        grid@.len() == new_width * new_height,
        stops@.len() >= 1,
        coord_ready(*coord),
        normal_ready(*normal),
        ramp_ready(*within, *mix),
        (new_width - 1) * (new_height - 1) * 18 <= usize::MAX,
    ensures
        is_mesh(
            grid@,
            new_width as int,
            new_height as int,
            stops@,
            *coord,
            *normal,
            *within,
            *mix,
            mesh@,
        ),
{
    let cells_wide: usize = new_width - 1;
    let cells_high: usize = new_height - 1;
    let mut vertices: Vec<T> = Vec::new();
    let mut colors: Vec<T> = Vec::new();
    let mut normals: Vec<T> = Vec::new();

    let mut y: usize = 0;
    while y < cells_high
        invariant
            cells_wide == new_width - 1,
            cells_high == new_height - 1,
            new_width >= 1,
            grid@.len() == new_width * new_height,
            stops@.len() >= 1,
            coord_ready(*coord),
            normal_ready(*normal),
            ramp_ready(*within, *mix),
            y <= cells_high,
            vertices@.len() == 18 * (y * cells_wide),
            colors@.len() == vertices@.len(),
            normals@.len() == vertices@.len(),
            forall|cx: int, cy: int|
                0 <= cx < cells_wide && 0 <= cy < y ==> #[trigger] is_cell(
                    grid@,
                    new_width as int,
                    new_height as int,
                    *coord,
                    *normal,
                    mesh_of(vertices@, colors@, normals@),
                    cx,
                    cy,
                ),
            forall|v: int|
                0 <= v < 6 * (y * cells_wide) ==> #[trigger] is_shaded(
                    stops@,
                    *within,
                    *mix,
                    mesh_of(vertices@, colors@, normals@),
                    v,
                ),
        decreases cells_high - y,
    {
        let mut x: usize = 0;
        while x < cells_wide
            invariant
                cells_wide == new_width - 1,
                cells_high == new_height - 1,
                new_width >= 1,
                grid@.len() == new_width * new_height,
                stops@.len() >= 1,
                coord_ready(*coord),
                normal_ready(*normal),
                ramp_ready(*within, *mix),
                y < cells_high,
                x <= cells_wide,
                vertices@.len() == 18 * (y * cells_wide + x),
                colors@.len() == vertices@.len(),
                normals@.len() == vertices@.len(),
                forall|cx: int, cy: int|
                    0 <= cx < cells_wide && 0 <= cy <= y && (cy < y || cx < x) ==> #[trigger] is_cell(
                        grid@,
                        new_width as int,
                        new_height as int,
                        *coord,
                        *normal,
                        mesh_of(vertices@, colors@, normals@),
                        cx,
                        cy,
                    ),
                forall|v: int|
                    0 <= v < 6 * (y * cells_wide + x) ==> #[trigger] is_shaded(
                        stops@,
                        *within,
                        *mix,
                        mesh_of(vertices@, colors@, normals@),
                        v,
                    ),
            decreases cells_wide - x,
        {
            proof {
                assert(grid@.len() == grid.len());
                lemma_flat_index(x as int, y as int, new_width as int, new_height as int);
                lemma_flat_index(x + 1, y as int, new_width as int, new_height as int);
                lemma_flat_index(x as int, y + 1, new_width as int, new_height as int);
                lemma_flat_index(x + 1, y + 1, new_width as int, new_height as int);
                assert((y + 1) * new_width == y * new_width + new_width) by (nonlinear_arith);
            }
            let x1 = coord(x, cells_wide);
            let x2 = coord(x + 1, cells_wide);
            let y1 = coord(y, cells_high);
            let y2 = coord(y + 1, cells_high);

            let z1 = grid[y * new_width + x];
            let z2 = grid[y * new_width + (x + 1)];
            let z3 = grid[(y + 1) * new_width + x];
            let z4 = grid[(y + 1) * new_width + (x + 1)];

            let upper_left = (x1, y1, z1);
            let upper_right = (x2, y1, z2);
            let lower_left = (x1, y2, z3);
            let lower_right = (x2, y2, z4);

            let ghost done = y * cells_wide + x;
            let ghost before = mesh_of(vertices@, colors@, normals@);
            proof {
            }
            push_triangle(
                &mut vertices,
                &mut colors,
                &mut normals,
                upper_left,
                upper_right,
                lower_left,
                stops,
                normal,
                within,
                mix,
            );
            let ghost between = mesh_of(vertices@, colors@, normals@);
            push_triangle(
                &mut vertices,
                &mut colors,
                &mut normals,
                upper_right,
                lower_right,
                lower_left,
                stops,
                normal,
                within,
                mix,
            );
            proof {
                let after = mesh_of(vertices@, colors@, normals@);
                assert(is_cell(
                    grid@,
                    new_width as int,
                    new_height as int,
                    *coord,
                    *normal,
                    after,
                    x as int,
                    y as int,
                ));
                assert forall|cx: int, cy: int|
                    0 <= cx < cells_wide && 0 <= cy <= y && (cy < y || cx < x + 1) implies #[trigger] is_cell(
                    grid@,
                    new_width as int,
                    new_height as int,
                    *coord,
                    *normal,
                    after,
                    cx,
                    cy,
                ) by {
                    if cy < y || cx < x {
                        lemma_cell_order(cx, cy, x as int, y as int, cells_wide as int);
                        lemma_cell_kept(
                            grid@,
                            new_width as int,
                            new_height as int,
                            *coord,
                            *normal,
                            before,
                            after,
                            cx,
                            cy,
                        );
                    }
                }
                assert forall|v: int| 0 <= v < 6 * (done + 1) implies #[trigger] is_shaded(
                    stops@,
                    *within,
                    *mix,
                    after,
                    v,
                ) by {
                    if v < 6 * done {
                        lemma_shade_kept(stops@, *within, *mix, before, after, v);
                    } else if v < 6 * done + 3 {
                        assert(is_shaded(stops@, *within, *mix, between, 6 * done + (v - 6 * done)));
                    } else {
                        assert(is_shaded(stops@, *within, *mix, after, 6 * done + 3 + (v - 6 * done - 3)));
                    }
                }
            }
            x += 1;
        }
        proof {
            assert((y + 1) * cells_wide == y * cells_wide + cells_wide) by (nonlinear_arith);
        }
        y += 1;
    }
    proof {
        let cells = cells_high * cells_wide;
        assert(cells == (new_width - 1) * (new_height - 1)) by (nonlinear_arith)
            requires
                cells == cells_high * cells_wide,
                cells_wide == new_width - 1,
                cells_high == new_height - 1,
        ;
    }
    let ghost built = mesh_of(vertices@, colors@, normals@);
    let mesh = MeshComputeData::from_buffers(vertices, colors, normals);
    assert(mesh@ == built);
    mesh
}

/// Flat shading: the three vertices of every triangle of a mesh carry one
/// normal, the one that `normal` returns for the positions of those three
/// vertices in their order.
pub proof fn lemma_normals_flat<
    T,
    C: Fn(usize, usize) -> T,
    N: Fn((T, T, T), (T, T, T), (T, T, T)) -> (T, T, T),
    W: Fn(T, T, T) -> bool,
    M: Fn(ColorStop<T>, ColorStop<T>, T) -> Rgb<T>,
>(
    grid: Seq<T>,
    new_width: int,
    new_height: int,
    stops: Seq<ColorStop<T>>,
    coord: C,
    normal: N,
    within: W,
    mix: M,
    mesh: MeshView<T>,
    triangle: int,
)
    requires
        new_width >= 1,
        new_height >= 1,
        is_mesh(grid, new_width, new_height, stops, coord, normal, within, mix, mesh),
        0 <= triangle,
        3 * triangle < mesh.vertex_count,
    ensures
        call_ensures(
            normal,
            (
                triple_at(mesh.vertices, 3 * triangle),
                triple_at(mesh.vertices, 3 * triangle + 1),
                triple_at(mesh.vertices, 3 * triangle + 2),
            ),
            triple_at(mesh.normals, 3 * triangle),
        ),
        triple_at(mesh.normals, 3 * triangle + 1) == triple_at(mesh.normals, 3 * triangle),
        triple_at(mesh.normals, 3 * triangle + 2) == triple_at(mesh.normals, 3 * triangle),
{
    let cells_wide = new_width - 1;
    let cells_high = new_height - 1;
    let cell = triangle / 2;
    assert(cells_wide > 0 && cell < cells_wide * cells_high) by (nonlinear_arith)
        requires
            cells_wide >= 0,
            cells_high >= 0,
            0 <= triangle,
            3 * triangle < cells_wide * cells_high * 6,
            cell == triangle / 2,
    ;
    lemma_flat_index_split(cell, cells_wide, cells_high);
    let cx = cell % cells_wide;
    let cy = cell / cells_wide;
    assert(is_cell(grid, new_width, new_height, coord, normal, mesh, cx, cy));
}

/// `coord` is a function: it has one result for each choice of arguments.
pub open spec fn coord_is_function<T, C: Fn(usize, usize) -> T>(coord: C) -> bool {
    forall|index: usize, last: usize, a: T, b: T|
        #[trigger] call_ensures(coord, (index, last), a) && #[trigger] call_ensures(
            coord,
            (index, last),
            b,
        ) ==> a == b
}

/// `normal` is a function: it has one result for each choice of arguments.
pub open spec fn normal_is_function<T, N: Fn((T, T, T), (T, T, T), (T, T, T)) -> (T, T, T)>(
    normal: N,
) -> bool {
    forall|p: (T, T, T), q: (T, T, T), r: (T, T, T), a: (T, T, T), b: (T, T, T)|
        #[trigger] call_ensures(normal, (p, q, r), a) && #[trigger] call_ensures(normal, (p, q, r), b)
            ==> a == b
}

/// Determinism: with kernels that are functions, a grid has one mesh.
pub proof fn lemma_mesh_unique<
    T,
    C: Fn(usize, usize) -> T,
    N: Fn((T, T, T), (T, T, T), (T, T, T)) -> (T, T, T),
    W: Fn(T, T, T) -> bool,
    M: Fn(ColorStop<T>, ColorStop<T>, T) -> Rgb<T>,
>(
    grid: Seq<T>,
    new_width: int,
    new_height: int,
    stops: Seq<ColorStop<T>>,
    coord: C,
    normal: N,
    within: W,
    mix: M,
    first: MeshView<T>,
    second: MeshView<T>,
)
    requires
        new_width >= 1,
        new_height >= 1,
        coord_is_function(coord),
        normal_is_function(normal),
        within_is_function(within),
        mix_is_function(mix),
        is_mesh(grid, new_width, new_height, stops, coord, normal, within, mix, first),
        is_mesh(grid, new_width, new_height, stops, coord, normal, within, mix, second),
    ensures
        first == second,
{
    let cells_wide = new_width - 1;
    let cells_high = new_height - 1;
    let count = first.vertex_count as int;
    assert forall|v: int| 0 <= v < count implies triple_at(first.vertices, v) == triple_at(
        second.vertices,
        v,
    ) && triple_at(first.normals, v) == triple_at(second.normals, v) && triple_at(first.colors, v)
        == triple_at(second.colors, v) by {
        let cell = v / 6;
        assert(cells_wide > 0 && cell < cells_wide * cells_high) by (nonlinear_arith)
            requires
                cells_wide >= 0,
                cells_high >= 0,
                0 <= v < cells_wide * cells_high * 6,
                cell == v / 6,
        ;
        lemma_flat_index_split(cell, cells_wide, cells_high);
        let cx = cell % cells_wide;
        let cy = cell / cells_wide;
        assert(is_cell(grid, new_width, new_height, coord, normal, first, cx, cy));
        assert(is_cell(grid, new_width, new_height, coord, normal, second, cx, cy));
        assert(is_shaded(stops, within, mix, first, v));
        assert(is_shaded(stops, within, mix, second, v));
        lemma_ramp_color_unique(
            stops,
            within,
            mix,
            first.vertices[3 * v + 2],
            (Rgb { r: first.colors[3 * v], g: first.colors[3 * v + 1], b: first.colors[3 * v + 2] }),
            (Rgb {
                r: second.colors[3 * v],
                g: second.colors[3 * v + 1],
                b: second.colors[3 * v + 2],
            }),
        );
    }
    assert forall|k: int| 0 <= k < 3 * count implies first.vertices[k] == second.vertices[k]
        && first.normals[k] == second.normals[k] && first.colors[k] == second.colors[k] by {
        let v = k / 3;
        assert(triple_at(first.vertices, v) == triple_at(second.vertices, v));
        assert(triple_at(first.normals, v) == triple_at(second.normals, v));
        assert(triple_at(first.colors, v) == triple_at(second.colors, v));
    }
    assert(first.vertices =~= second.vertices);
    assert(first.normals =~= second.normals);
    assert(first.colors =~= second.colors);
}

} // verus!
