//! The mesh buffers.

use vstd::prelude::*;

verus! {


/// A triangle mesh as three parallel flat buffers, three scalars per vertex:
/// positions `(x, y, z)`, colours `(r, g, b)` and normals `(nx, ny, nz)`.
/// Vertices are not shared: every triangle owns its three.
#[derive(Debug)]
pub struct MeshComputeData<T> {
    vertices: Vec<T>,
    colors: Vec<T>,
    normals: Vec<T>,
    vertex_count: usize,
}

/// What a `MeshComputeData` holds.
pub ghost struct MeshView<T> {
    pub vertices: Seq<T>,
    pub colors: Seq<T>,
    pub normals: Seq<T>,
    pub vertex_count: nat,
}

impl<T> MeshView<T> {
    /// Each buffer holds three scalars for each vertex.
    pub open spec fn well_formed(self) -> bool {
        &&& self.vertices.len() == 3 * self.vertex_count
        &&& self.colors.len() == 3 * self.vertex_count
        &&& self.normals.len() == 3 * self.vertex_count
    }
}

impl<T> View for MeshComputeData<T> {
    type V = MeshView<T>;

    closed spec fn view(&self) -> MeshView<T> {
        MeshView {
            vertices: self.vertices@,
            colors: self.colors@,
            normals: self.normals@,
            vertex_count: self.vertex_count as nat,
        }
    }
}

impl<T> MeshComputeData<T> {
    #[verifier::type_invariant]
    spec fn buffers_match(&self) -> bool {
        self@.well_formed()
    }

    /// Wraps three filled buffers of one length, a multiple of three.
    pub(crate) fn from_buffers(vertices: Vec<T>, colors: Vec<T>, normals: Vec<T>) -> (mesh: Self)
        requires
            vertices@.len() % 3 == 0,
            colors@.len() == vertices@.len(),
            normals@.len() == vertices@.len(),
        ensures
            mesh@ == (MeshView {
                vertices: vertices@,
                colors: colors@,
                normals: normals@,
                vertex_count: (vertices@.len() / 3) as nat,
            }),
    {
        let vertex_count = vertices.len() / 3;
        MeshComputeData { vertices, colors, normals, vertex_count }
    }

    /// The positions, `(x, y, z)` for each vertex in turn.
    pub fn vertices(&self) -> (buffer: &[T])
        ensures
            buffer@ == self@.vertices,
            buffer@.len() == 3 * self@.vertex_count,
    {
        proof {
            use_type_invariant(self);
        }
        self.vertices.as_slice()
    }

    /// The colours, `(r, g, b)` for each vertex in turn.
    pub fn colors(&self) -> (buffer: &[T])
        ensures
            buffer@ == self@.colors,
            buffer@.len() == 3 * self@.vertex_count,
    {
        proof {
            use_type_invariant(self);
        }
        self.colors.as_slice()
    }

    /// The normals, `(nx, ny, nz)` for each vertex in turn.
    pub fn normals(&self) -> (buffer: &[T])
        ensures
            buffer@ == self@.normals,
            buffer@.len() == 3 * self@.vertex_count,
    {
        proof {
            use_type_invariant(self);
        }
        self.normals.as_slice()
    }

    /// The number of vertices.
    pub fn vertex_count(&self) -> (count: usize)
        ensures
            count == self@.vertex_count,
            self@.well_formed(),
    {
        proof {
            use_type_invariant(self);
        }
        self.vertex_count
    }
}

} // verus!
