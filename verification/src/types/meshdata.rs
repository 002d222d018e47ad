//! Mesh data: the attributes of a mesh as they were loaded, and interleaved
//! vertex by vertex as the renderer wants them.

use vstd::prelude::*;

verus! {

/// The number of values that one vertex takes in the interleaved data: three
/// of its position, three of its normal and two of its texture coordinate.
pub const VERTEX_DATA_SIZE: usize = 8;

/// Whether the attributes cover every vertex that `indices` asks for: the
/// positions every vertex named, the normals and texture coordinates every
/// place in `indices`, and the interleaved data has a length.
pub open spec fn covers<T>(
    positions: Seq<T>,
    normals: Seq<T>,
    uv0: Seq<T>,
    indices: Seq<u32>,
) -> bool {
    &&& indices.len() * VERTEX_DATA_SIZE <= usize::MAX
    &&& forall|i: int| 0 <= i < indices.len() ==> (#[trigger] indices[i]) * 3 + 2 < positions.len()
    &&& indices.len() * 3 <= normals.len()
    &&& indices.len() * 2 <= uv0.len()
}

/// The value at place `at` of the interleaved data: vertex `at / 8` takes its
/// position from where its index points, and its normal and its texture
/// coordinate from its own place.
pub open spec fn raw_vertex<T>(
    positions: Seq<T>,
    normals: Seq<T>,
    uv0: Seq<T>,
    indices: Seq<u32>,
    at: int,
) -> T {
    let vertex = at / 8;
    let part = at % 8;
    if part < 3 {
        positions[indices[vertex] * 3 + part]
    } else if part < 6 {
        normals[vertex * 3 + (part - 3)]
    } else {
        uv0[vertex * 2 + (part - 6)]
    }
}

/// The interleaved data of a mesh.
pub open spec fn interleaved<T>(
    positions: Seq<T>,
    normals: Seq<T>,
    uv0: Seq<T>,
    indices: Seq<u32>,
) -> Seq<T> {
    Seq::new(indices.len() * 8, |at: int| raw_vertex(positions, normals, uv0, indices, at))
}

/// The indices that go with interleaved data: every vertex once, in order.
pub open spec fn counted(n: nat) -> Seq<u32> {
    Seq::new(n, |i: int| #[verifier::truncate] (i as u32))
}

/// The attributes of a mesh, and the same data interleaved.
pub struct MeshData<T> {
    positions: Vec<T>,
    normals: Vec<T>,
    uv0: Vec<T>,
    indices: Vec<u32>,
    raw_vertices: Vec<T>,
    raw_indices: Vec<u32>,
}

impl<T: Copy> MeshData<T> {
    /// The attributes as they were given.
    pub closed spec fn attributes(&self) -> (Seq<T>, Seq<T>, Seq<T>, Seq<u32>) {
        (self.positions@, self.normals@, self.uv0@, self.indices@)
    }

    /// The interleaved data and its indices.
    pub closed spec fn raw(&self) -> (Seq<T>, Seq<u32>) {
        (self.raw_vertices@, self.raw_indices@)
    }

    /// Whether the attributes cover every vertex that `indices` asks for.
    pub fn is_covered(
        positions: &Vec<T>,
        normals: &Vec<T>,
        uv0: &Vec<T>,
        indices: &Vec<u32>,
    ) -> (covered: bool)
        ensures
            covered == covers(positions@, normals@, uv0@, indices@),
    {
        let n = indices.len();
        if n > usize::MAX / 8 {
            return false;
        }
        if n * 3 > normals.len() || n * 2 > uv0.len() {
            return false;
        }
        let mut i: usize = 0;
        while i < n
            invariant
                i <= n,
                n == indices.len(),
                forall|j: int| 0 <= j < i ==> (#[trigger] indices@[j]) * 3 + 2 < positions.len(),
            decreases n - i,
        {
            let index: u64 = indices[i] as u64;
            let limit: u64 = positions.len() as u64;
            if index * 3 + 2 >= limit {
                return false;
            }
            i += 1;
        }
        true
    }

    /// The mesh of the given attributes. For each place in `indices` the
    /// interleaved data holds one vertex: the position that the index points
    /// to, then the normal and the texture coordinate of that place.
    pub fn new(positions: Vec<T>, normals: Vec<T>, uv0: Vec<T>, indices: Vec<u32>) -> (mesh: Self)
        requires
            covers(positions@, normals@, uv0@, indices@),
        ensures
            mesh.attributes() == (positions@, normals@, uv0@, indices@),
            mesh.raw() == (
                interleaved(positions@, normals@, uv0@, indices@),
                counted(indices@.len()),
            ),
    {
        let n = indices.len();
        let mut raw_vertices: Vec<T> = Vec::new();
        let mut raw_indices: Vec<u32> = Vec::new();
        let mut i: usize = 0;
        while i < n
            invariant
                i <= n,
                n == indices.len(),
                covers(positions@, normals@, uv0@, indices@),
                raw_vertices@.len() == i * 8,
                raw_indices@.len() == i,
                forall|at: int|
                    0 <= at < i * 8 ==> #[trigger] raw_vertices@[at] == raw_vertex(
                        positions@,
                        normals@,
                        uv0@,
                        indices@,
                        at,
                    ),
                forall|j: int| 0 <= j < i ==> #[trigger] raw_indices@[j] == #[verifier::truncate] (j as u32),
            decreases n - i,
        {
            let index = indices[i] as usize;
            let ghost before = raw_vertices@;
            assert(indices@[i as int] * 3 + 2 < positions.len());
            raw_vertices.push(positions[index * 3]);
            raw_vertices.push(positions[index * 3 + 1]);
            raw_vertices.push(positions[index * 3 + 2]);
            raw_vertices.push(normals[i * 3]);
            raw_vertices.push(normals[i * 3 + 1]);
            raw_vertices.push(normals[i * 3 + 2]);
            raw_vertices.push(uv0[i * 2]);
            raw_vertices.push(uv0[i * 2 + 1]);
            raw_indices.push(#[verifier::truncate] (i as u32));
            proof {
                assert forall|at: int| 0 <= at < (i + 1) * 8 implies #[trigger] raw_vertices@[at]
                    == raw_vertex(positions@, normals@, uv0@, indices@, at) by {
                    if at < i * 8 {
                        assert(raw_vertices@[at] == before[at]);
                    } else {
                        assert(at / 8 == i as int && at % 8 == at - i * 8);
                    }
                }
            }
            i += 1;
        }
        proof {
            assert(raw_vertices@ =~= interleaved(positions@, normals@, uv0@, indices@));
            assert(raw_indices@ =~= counted(indices@.len()));
        }
        MeshData { positions, normals, uv0, indices, raw_vertices, raw_indices }
    }

    /// The mesh of the given attributes, where they cover every vertex that
    /// `indices` asks for.
    pub fn try_new(positions: Vec<T>, normals: Vec<T>, uv0: Vec<T>, indices: Vec<u32>) -> (mesh:
        Option<Self>)
        ensures
            match mesh {
                Some(m) => covers(positions@, normals@, uv0@, indices@) && m.attributes() == (
                    positions@,
                    normals@,
                    uv0@,
                    indices@,
                ) && m.raw() == (
                    interleaved(positions@, normals@, uv0@, indices@),
                    counted(indices@.len()),
                ),
                None => !covers(positions@, normals@, uv0@, indices@),
            },
    {
        if Self::is_covered(&positions, &normals, &uv0, &indices) {
            Some(Self::new(positions, normals, uv0, indices))
        } else {
            None
        }
    }

    /// The interleaved vertex data.
    pub fn raw_vertices(&self) -> (data: &[T])
        ensures
            data@ == self.raw().0,
    {
        self.raw_vertices.as_slice()
    }

    /// The indices that go with the interleaved data.
    pub fn raw_indices(&self) -> (data: &[u32])
        ensures
            data@ == self.raw().1,
    {
        self.raw_indices.as_slice()
    }
}

} // verus!
