use terrain_mesh::{
    get_color_for_elevation, mesh_compute, terrain_colors, tessellate, ColorStop, MeshComputeData, Rgb,
    Weight, COLOR_SCALE,
};

type Point = (f32, f32, f32);

fn blend(z1: f32, z2: f32, z3: f32, z4: f32, wx: Weight, wy: Weight) -> f32 {
    let dx = wx.num as f32 / wx.den as f32;
    let dy = wy.num as f32 / wy.den as f32;
    z1 * (1.0 - dx) * (1.0 - dy) + z2 * dx * (1.0 - dy) + z3 * (1.0 - dx) * dy + z4 * dx * dy
}

fn coord(index: usize, last: usize) -> f32 {
    (index as f32 / last as f32) * 2.0 - 1.0
}

fn calculate_normal(v1: Point, v2: Point, v3: Point) -> Point {
    let edge1 = (v2.0 - v1.0, v2.1 - v1.1, v2.2 - v1.2);
    let edge2 = (v3.0 - v1.0, v3.1 - v1.1, v3.2 - v1.2);
    let normal = (
        edge1.1 * edge2.2 - edge1.2 * edge2.1,
        edge1.2 * edge2.0 - edge1.0 * edge2.2,
        edge1.0 * edge2.1 - edge1.1 * edge2.0,
    );
    let length = (normal.0 * normal.0 + normal.1 * normal.1 + normal.2 * normal.2).sqrt();
    if length == 0.0 {
        return (0.0, 0.0, 0.0);
    }
    (normal.0 / length, normal.1 / length, normal.2 / length)
}

fn within(lo: f32, value: f32, hi: f32) -> bool {
    value >= lo && value <= hi
}

fn mix(from: ColorStop<f32>, to: ColorStop<f32>, value: f32) -> Rgb<f32> {
    let t = (value - from.threshold) / (to.threshold - from.threshold);
    Rgb {
        r: from.color.r + (to.color.r - from.color.r) * t,
        g: from.color.g + (to.color.g - from.color.g) * t,
        b: from.color.b + (to.color.b - from.color.b) * t,
    }
}

fn scaled(n: u8) -> f32 {
    n as f32 / COLOR_SCALE as f32
}

fn terrain() -> Vec<ColorStop<f32>> {
    terrain_colors()
        .iter()
        .map(|stop| ColorStop {
            threshold: scaled(stop.threshold),
            color: Rgb { r: scaled(stop.color.r), g: scaled(stop.color.g), b: scaled(stop.color.b) },
        })
        .collect()
}

fn terrain_mesh_of(elevations: &[f32], width: usize, height: usize, factor: usize) -> MeshComputeData<f32> {
    mesh_compute(
        elevations,
        width,
        height,
        factor,
        &terrain(),
        &blend,
        &coord,
        &calculate_normal,
        &within,
        &mix,
    )
    .unwrap()
}

fn magnitude(buffer: &[f32], vertex: usize) -> f32 {
    let (x, y, z) = (buffer[3 * vertex], buffer[3 * vertex + 1], buffer[3 * vertex + 2]);
    (x * x + y * y + z * z).sqrt()
}

// Kernels on whole numbers, which name what they were handed.

fn keep_first(z1: i64, _z2: i64, _z3: i64, _z4: i64, _wx: Weight, _wy: Weight) -> i64 {
    z1
}

fn place(index: usize, last: usize) -> i64 {
    (1000 * last + index) as i64
}

/// The three elevations of the triangle, in the order of its corners.
fn corner_heights(a: (i64, i64, i64), b: (i64, i64, i64), c: (i64, i64, i64)) -> (i64, i64, i64) {
    (a.2, b.2, c.2)
}

fn whole_within(lo: i64, value: i64, hi: i64) -> bool {
    lo <= value && value <= hi
}

fn whole_mix(from: ColorStop<i64>, to: ColorStop<i64>, value: i64) -> Rgb<i64> {
    Rgb { r: from.threshold, g: to.threshold, b: value }
}

fn whole_ramp() -> Vec<ColorStop<i64>> {
    vec![
        ColorStop { threshold: 0, color: Rgb { r: -1, g: -1, b: -1 } },
        ColorStop { threshold: 50, color: Rgb { r: -2, g: -2, b: -2 } },
        ColorStop { threshold: 100, color: Rgb { r: -3, g: -3, b: -3 } },
    ]
}

fn whole_mesh_of(grid: &[i64], width: usize, height: usize) -> MeshComputeData<i64> {
    tessellate(grid, width, height, &whole_ramp(), &place, &corner_heights, &whole_within, &whole_mix)
}

#[test]
fn single_cell_positions() {
    let mesh = terrain_mesh_of(&[0.0, 0.0, 0.0, 1.0], 2, 2, 1);
    assert_eq!(mesh.vertex_count(), 6);
    assert_eq!(
        mesh.vertices().to_vec(),
        vec![
            -1.0, -1.0, 0.0, 1.0, -1.0, 0.0, -1.0, 1.0, 0.0, // upper left, upper right, lower left
            1.0, -1.0, 0.0, 1.0, 1.0, 1.0, -1.0, 1.0, 0.0, // upper right, lower right, lower left
        ]
    );
}

#[test]
fn single_cell_colors() {
    let mesh = terrain_mesh_of(&[0.0, 0.0, 0.0, 1.0], 2, 2, 1);
    assert_eq!(
        mesh.colors().to_vec(),
        vec![
            0.6, 0.6, 0.95, 0.6, 0.6, 0.95, 0.6, 0.6, 0.95, //
            0.6, 0.6, 0.95, 1.0, 1.0, 1.0, 0.6, 0.6, 0.95,
        ]
    );
}

#[test]
fn single_cell_normals() {
    let mesh = terrain_mesh_of(&[0.0, 0.0, 0.0, 1.0], 2, 2, 1);
    let normals = mesh.normals();
    assert_eq!(normals.len(), 18);
    assert_eq!(normals[..9].to_vec(), vec![0.0, 0.0, 1.0, 0.0, 0.0, 1.0, 0.0, 0.0, 1.0]);
    let tilted = [f32::from_bits(0xbed105eb), f32::from_bits(0xbed105eb), f32::from_bits(0x3f5105eb)];
    assert_eq!(normals[9..12], tilted);
    assert_eq!(normals[12..15], tilted);
    assert_eq!(normals[15..18], tilted);
    assert!((normals[9] + 0.40824829).abs() < 1e-6);
    assert!((normals[11] - 0.81649658).abs() < 1e-6);
    for vertex in 0..6 {
        assert!((magnitude(normals, vertex) - 1.0).abs() < 1e-6);
    }
}

#[test]
fn buffers_hold_three_scalars_per_vertex() {
    let mesh = terrain_mesh_of(&[0.0, 0.2, 0.4, 0.6, 0.8, 1.0], 3, 2, 2);
    // A 6 by 4 grid has 5 by 3 cells.
    assert_eq!(mesh.vertex_count(), 90);
    assert_eq!(mesh.vertices().len(), 270);
    assert_eq!(mesh.colors().len(), 270);
    assert_eq!(mesh.normals().len(), 270);
}

#[test]
fn vertex_count_grows_with_the_factor() {
    let grid = [0.0f32; 12];
    for factor in 1..6 {
        let mesh = terrain_mesh_of(&grid, 4, 3, factor);
        assert_eq!(mesh.vertex_count(), (4 * factor - 1) * (3 * factor - 1) * 6);
        assert_eq!(mesh.vertices().len(), 3 * mesh.vertex_count());
    }
}

#[test]
fn factor_one_tessellates_the_grid_itself() {
    let grid = [0.1f32, 0.9, 0.35, 0.7, 0.05, 0.55];
    let mesh = terrain_mesh_of(&grid, 3, 2, 1);
    let direct = tessellate(&grid, 3, 2, &terrain(), &coord, &calculate_normal, &within, &mix);
    assert_eq!(mesh.vertices(), direct.vertices());
    assert_eq!(mesh.colors(), direct.colors());
    assert_eq!(mesh.normals(), direct.normals());
    let heights: Vec<f32> = (0..12).map(|v| mesh.vertices()[3 * v + 2]).collect();
    assert_eq!(heights, vec![0.1, 0.9, 0.7, 0.9, 0.05, 0.7, 0.9, 0.35, 0.05, 0.35, 0.55, 0.05]);
}

#[test]
fn flat_grid_faces_up() {
    let mesh = terrain_mesh_of(&[0.5; 6], 2, 3, 3);
    let normals = mesh.normals();
    for vertex in 0..mesh.vertex_count() {
        assert_eq!(normals[3 * vertex..3 * vertex + 3], [0.0, 0.0, 1.0]);
    }
    for vertex in 0..mesh.vertex_count() {
        assert_eq!(mesh.colors()[3 * vertex..3 * vertex + 3], [0.8, 0.7, 0.5]);
    }
}

#[test]
fn normals_are_unit_or_zero() {
    let grid = [0.0f32, 0.3, 0.1, 0.9, 0.4, 0.2, 0.8, 0.6, 1.0];
    let mesh = terrain_mesh_of(&grid, 3, 3, 2);
    for vertex in 0..mesh.vertex_count() {
        assert!((magnitude(mesh.normals(), vertex) - 1.0).abs() < 1e-5);
    }
}

#[test]
fn positions_span_the_unit_square() {
    let mesh = terrain_mesh_of(&[0.0; 4], 2, 2, 2);
    // A 4 by 4 grid: coordinates -1, -1/3, 1/3, 1.
    let axis = [-1.0f32, f32::from_bits(0xbeaaaaaa), f32::from_bits(0x3eaaaaac), 1.0];
    let vertices = mesh.vertices();
    assert_eq!(mesh.vertex_count(), 54);
    // Cell (1, 2): the sixth cell of the third row.
    let first = 6 * (2 * 3 + 1);
    assert_eq!(vertices[3 * first..3 * first + 2], [axis[1], axis[2]]);
    assert_eq!(vertices[3 * (first + 1)..3 * (first + 1) + 2], [axis[2], axis[2]]);
    assert_eq!(vertices[3 * (first + 2)..3 * (first + 2) + 2], [axis[1], axis[3]]);
    assert_eq!(vertices[3 * (first + 4)..3 * (first + 4) + 2], [axis[2], axis[3]]);
    for v in vertices.iter().step_by(3) {
        assert!(-1.0 <= *v && *v <= 1.0);
    }
}

#[test]
fn degenerate_triangles_get_zero_normals() {
    fn collapse(_index: usize, _last: usize) -> f32 {
        0.0
    }
    let mesh = tessellate(
        &[0.0f32, 0.0, 0.0, 1.0],
        2,
        2,
        &terrain(),
        &collapse,
        &calculate_normal,
        &within,
        &mix,
    );
    assert_eq!(mesh.normals().to_vec(), vec![0.0; 18]);
    assert_eq!(mesh.vertex_count(), 6);
}

#[test]
fn cells_are_walked_row_by_row() {
    // A 3 by 3 grid of samples 11 .. 33, row then column.
    let grid = [11, 12, 13, 21, 22, 23, 31, 32, 33];
    let mesh = whole_mesh_of(&grid, 3, 3);
    assert_eq!(mesh.vertex_count(), 24);
    let heights: Vec<i64> = (0..24).map(|v| mesh.vertices()[3 * v + 2]).collect();
    assert_eq!(
        heights,
        vec![
            11, 12, 21, 12, 22, 21, // cell (0, 0)
            12, 13, 22, 13, 23, 22, // cell (1, 0)
            21, 22, 31, 22, 32, 31, // cell (0, 1)
            22, 23, 32, 23, 33, 32, // cell (1, 1)
        ]
    );
}

#[test]
fn coordinates_come_from_the_grid_indices() {
    let grid = [11, 12, 13, 21, 22, 23];
    let mesh = whole_mesh_of(&grid, 3, 2);
    let xy: Vec<(i64, i64)> =
        (0..12).map(|v| (mesh.vertices()[3 * v], mesh.vertices()[3 * v + 1])).collect();
    // `place` answers 1000 * last + index: columns have last index 2, rows 1.
    assert_eq!(
        xy,
        vec![
            (2000, 1000),
            (2001, 1000),
            (2000, 1001),
            (2001, 1000),
            (2001, 1001),
            (2000, 1001),
            (2001, 1000),
            (2002, 1000),
            (2001, 1001),
            (2002, 1000),
            (2002, 1001),
            (2001, 1001),
        ]
    );
}

#[test]
fn each_triangle_shares_the_normal_of_its_corners() {
    let grid = [11, 12, 13, 21, 22, 23];
    let mesh = whole_mesh_of(&grid, 3, 2);
    let normals = mesh.normals();
    let per_vertex: Vec<(i64, i64, i64)> =
        (0..12).map(|v| (normals[3 * v], normals[3 * v + 1], normals[3 * v + 2])).collect();
    let expected = [(11, 12, 21), (12, 22, 21), (12, 13, 22), (13, 23, 22)];
    for (triangle, normal) in expected.iter().enumerate() {
        for corner in 0..3 {
            assert_eq!(per_vertex[3 * triangle + corner], *normal);
        }
    }
}

#[test]
fn each_vertex_is_colored_from_its_own_height() {
    let grid = [0, 25, 50, 75, 100, 125];
    let mesh = whole_mesh_of(&grid, 2, 3);
    let stops = whole_ramp();
    assert_eq!(mesh.vertex_count(), 12);
    for v in 0..12 {
        let height = mesh.vertices()[3 * v + 2];
        let color = get_color_for_elevation(height, &stops, &whole_within, &whole_mix);
        assert_eq!(mesh.colors()[3 * v..3 * v + 3], [color.r, color.g, color.b]);
    }
    // The first cell: heights 0, 25, 50, then 25, 75, 50.
    assert_eq!(
        mesh.colors()[..18].to_vec(),
        vec![0, 50, 0, 0, 50, 25, 0, 50, 50, 0, 50, 25, 50, 100, 75, 0, 50, 50]
    );
    // Height 125 is past the last stop and takes its colour.
    assert_eq!(mesh.colors()[3 * 10..3 * 10 + 3], [-3, -3, -3]);
}

#[test]
fn single_row_or_column_has_no_cells() {
    let row = whole_mesh_of(&[1, 2, 3], 3, 1);
    assert_eq!(row.vertex_count(), 0);
    assert!(row.vertices().is_empty() && row.colors().is_empty() && row.normals().is_empty());
    let column = whole_mesh_of(&[1, 2, 3], 1, 3);
    assert_eq!(column.vertex_count(), 0);
}

#[test]
fn upsampled_heights_reach_the_mesh() {
    let stops = whole_ramp();
    let mesh = mesh_compute(
        &[10, 20, 30, 40],
        2,
        2,
        2,
        &stops,
        &keep_first,
        &place,
        &corner_heights,
        &whole_within,
        &whole_mix,
    )
    .unwrap();
    // `keep_first` makes the 4 by 4 grid
    //   10 10 10 20 / 10 10 10 20 / 10 10 10 20 / 30 30 30 40.
    assert_eq!(mesh.vertex_count(), 54);
    let heights: Vec<i64> = (0..54).map(|v| mesh.vertices()[3 * v + 2]).collect();
    assert_eq!(heights[12..18].to_vec(), vec![10, 20, 10, 20, 20, 10]);
    assert_eq!(heights[48..54].to_vec(), vec![10, 20, 30, 20, 40, 30]);
}
