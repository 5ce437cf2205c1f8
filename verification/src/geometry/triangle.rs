use vstd::prelude::*;

verus! {

/// A triangle in 3D space, given by three indices into a vertex array.
///
/// Steam Audio uses a counter-clockwise winding order: looking at the triangle such that
/// its normal points towards you, the vertices are listed counter-clockwise.
#[derive(Copy, Clone, Debug, PartialEq)]
pub struct Triangle {
    /// Indices of the three vertices of this triangle.
    pub indices: [i32; 3],
}

impl Triangle {
    /// Creates a new triangle from three vertex indices.
    pub fn new(vertex_index_0: i32, vertex_index_1: i32, vertex_index_2: i32) -> (r: Self)
        ensures
            r.indices@ == seq![vertex_index_0, vertex_index_1, vertex_index_2],
    {
        let r = Self { indices: [vertex_index_0, vertex_index_1, vertex_index_2] };
        assert(r.indices@ =~= seq![vertex_index_0, vertex_index_1, vertex_index_2]);
        r
    }
}

} // verus!
