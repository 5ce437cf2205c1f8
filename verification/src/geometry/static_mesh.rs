use vstd::prelude::*;

use crate::text::{decimal, push_decimal, push_signed_decimal, signed_decimal};

use crate::error::SteamAudioError;
use crate::geometry::triangle::Triangle;

verus! {

/// Settings used to create a static mesh.
///
/// The validation reads only the number of vertices and of materials, so their element
/// types are left to the caller (`P` for points, `M` for materials).
#[derive(Debug)]
pub struct StaticMeshSettings<'a, P, M> {
    /// Array containing vertices.
    pub vertices: &'a [P],
    /// Array containing (indexed) triangles.
    pub triangles: &'a [Triangle],
    /// Array containing, for each triangle, the index of the associated material.
    pub material_indices: &'a [usize],
    /// Array of materials.
    pub materials: &'a [M],
}

/// Errors produced while creating a static mesh.
#[derive(Debug, PartialEq, Eq, Copy, Clone, Structural)]
pub enum StaticMeshError {
    /// The number of material indices differs from the number of triangles.
    MaterialIndexCountMismatch { num_triangles: usize, num_material_indices: usize },
    /// A triangle refers to a vertex that does not exist.
    VertexIndexOutOfBounds { triangle: usize, vertex_index: i32, num_vertices: usize },
    /// A triangle refers to a material that does not exist.
    MaterialIndexOutOfBounds { triangle: usize, material_index: usize, num_materials: usize },
    /// Native static mesh creation failed.
    SteamAudio(SteamAudioError),
}

impl From<SteamAudioError> for StaticMeshError {
    fn from(error: SteamAudioError) -> (r: Self) {
        StaticMeshError::SteamAudio(error)
    }
}

impl vstd::std_specs::convert::FromSpecImpl<SteamAudioError> for StaticMeshError {
    open spec fn obeys_from_spec() -> bool {
        true
    }

    open spec fn from_spec(v: SteamAudioError) -> Self {
        StaticMeshError::SteamAudio(v)
    }
}

/// Whether a vertex index designates one of `num_vertices` vertices.
pub open spec fn vertex_index_in_bounds(vertex_index: i32, num_vertices: nat) -> bool {
    0 <= vertex_index && vertex_index < num_vertices
}

/// Whether all three vertex indices of a triangle are in bounds.
pub open spec fn triangle_in_bounds(triangle: Triangle, num_vertices: nat) -> bool {
    forall|j: int| 0 <= j < 3 ==> vertex_index_in_bounds(#[trigger] triangle.indices@[j], num_vertices)
}

/// The position (0, 1 or 2) of the first out-of-bounds vertex index of a triangle.
pub open spec fn first_bad_corner(triangle: Triangle, num_vertices: nat) -> int {
    if !vertex_index_in_bounds(triangle.indices@[0], num_vertices) {
        0
    } else if !vertex_index_in_bounds(triangle.indices@[1], num_vertices) {
        1
    } else {
        2
    }
}

/// `t` is the first triangle with an out-of-bounds vertex index.
pub open spec fn is_first_bad_triangle(triangles: Seq<Triangle>, num_vertices: nat, t: int) -> bool {
    &&& 0 <= t < triangles.len()
    &&& !triangle_in_bounds(triangles[t], num_vertices)
    &&& forall|u: int| 0 <= u < t ==> triangle_in_bounds(#[trigger] triangles[u], num_vertices)
}

/// `t` is the first triangle whose material index is out of bounds.
pub open spec fn is_first_bad_material(material_indices: Seq<usize>, num_materials: nat, t: int) -> bool {
    &&& 0 <= t < material_indices.len()
    &&& material_indices[t] >= num_materials
    &&& forall|u: int| 0 <= u < t ==> #[trigger] material_indices[u] < num_materials
}

/// The outcome of validating a static mesh: the first problem found, checking the
/// material index count, then every vertex index in triangle order, then every
/// material index in triangle order.
pub open spec fn static_mesh_validation(
    num_vertices: nat,
    triangles: Seq<Triangle>,
    material_indices: Seq<usize>,
    num_materials: nat,
) -> Result<(), StaticMeshError> {
    if material_indices.len() != triangles.len() {
        Err(
            StaticMeshError::MaterialIndexCountMismatch {
                num_triangles: triangles.len() as usize,
                num_material_indices: material_indices.len() as usize,
            },
        )
    } else if exists|t: int| is_first_bad_triangle(triangles, num_vertices, t) {
        let t = choose|t: int| is_first_bad_triangle(triangles, num_vertices, t);
        Err(
            StaticMeshError::VertexIndexOutOfBounds {
                triangle: t as usize,
                vertex_index: triangles[t].indices@[first_bad_corner(triangles[t], num_vertices)],
                num_vertices: num_vertices as usize,
            },
        )
    } else if exists|t: int| is_first_bad_material(material_indices, num_materials, t) {
        let t = choose|t: int| is_first_bad_material(material_indices, num_materials, t);
        Err(
            StaticMeshError::MaterialIndexOutOfBounds {
                triangle: t as usize,
                material_index: material_indices[t],
                num_materials: num_materials as usize,
            },
        )
    } else {
        Ok(())
    }
}

/// Whether every index of the settings designates an existing vertex or material.
pub open spec fn static_mesh_settings_valid(
    num_vertices: nat,
    triangles: Seq<Triangle>,
    material_indices: Seq<usize>,
    num_materials: nat,
) -> bool {
    &&& material_indices.len() == triangles.len()
    &&& forall|t: int| 0 <= t < triangles.len() ==> triangle_in_bounds(#[trigger] triangles[t], num_vertices)
    &&& forall|t: int| 0 <= t < material_indices.len() ==> #[trigger] material_indices[t] < num_materials
}

proof fn lemma_first_bad_triangle_unique(triangles: Seq<Triangle>, num_vertices: nat, t: int)
    requires
        is_first_bad_triangle(triangles, num_vertices, t),
    ensures
        (choose|u: int| is_first_bad_triangle(triangles, num_vertices, u)) == t,
{
    let c = choose|u: int| is_first_bad_triangle(triangles, num_vertices, u);
    assert(is_first_bad_triangle(triangles, num_vertices, c));
    if c < t {
        assert(triangle_in_bounds(triangles[c], num_vertices));
    } else if c > t {
        assert(triangle_in_bounds(triangles[t], num_vertices));
    }
}

proof fn lemma_first_bad_material_unique(material_indices: Seq<usize>, num_materials: nat, t: int)
    requires
        is_first_bad_material(material_indices, num_materials, t),
    ensures
        (choose|u: int| is_first_bad_material(material_indices, num_materials, u)) == t,
{
    let c = choose|u: int| is_first_bad_material(material_indices, num_materials, u);
    assert(is_first_bad_material(material_indices, num_materials, c));
    if c < t {
        assert(material_indices[c] < num_materials);
    } else if c > t {
        assert(material_indices[t] < num_materials);
    }
}

/// Returns whether `vertex_index` designates one of `num_vertices` vertices.
fn vertex_index_ok(vertex_index: i32, num_vertices: usize) -> (r: bool)
    ensures
        r == vertex_index_in_bounds(vertex_index, num_vertices as nat),
{
    vertex_index >= 0 && (vertex_index as usize) < num_vertices
}

/// Validates static mesh settings.
///
/// Returns an error when the number of material indices differs from the number of
/// triangles, or when a vertex or material index is out of bounds (the first one found,
/// vertex indices before material indices).
pub fn validate_static_mesh_settings<P, M>(settings: &StaticMeshSettings<P, M>) -> (r: Result<
    (),
    StaticMeshError,
>)
    ensures
        r == static_mesh_validation(
            settings.vertices@.len(),
            settings.triangles@,
            settings.material_indices@,
            settings.materials@.len(),
        ),
        r is Ok <==> static_mesh_settings_valid(
            settings.vertices@.len(),
            settings.triangles@,
            settings.material_indices@,
            settings.materials@.len(),
        ),
        r is Ok <==> {
            &&& settings.material_indices@.len() == settings.triangles@.len()
            &&& forall|t: int, j: int|
                0 <= t < settings.triangles@.len() && 0 <= j < 3 ==> 0
                    <= #[trigger] settings.triangles@[t].indices@[j]
                    && settings.triangles@[t].indices@[j] < settings.vertices@.len()
            &&& forall|t: int|
                0 <= t < settings.material_indices@.len() ==> #[trigger] settings.material_indices@[t]
                    < settings.materials@.len()
        },
{
    proof {
        lemma_static_mesh_validation_accepts_valid_meshes(
            settings.vertices@.len(),
            settings.triangles@,
            settings.material_indices@,
            settings.materials@.len(),
        );
    }
    let num_vertices = settings.vertices.len();
    let num_materials = settings.materials.len();
    let ghost nv = num_vertices as nat;
    let ghost tris = settings.triangles@;
    let ghost mis = settings.material_indices@;
    let ghost nm = num_materials as nat;

    if settings.material_indices.len() != settings.triangles.len() {
        return Err(
            StaticMeshError::MaterialIndexCountMismatch {
                num_triangles: settings.triangles.len(),
                num_material_indices: settings.material_indices.len(),
            },
        );
    }
    let num_triangles = settings.triangles.len();
    let mut t: usize = 0;
    while t < num_triangles
        invariant
            mis.len() == tris.len(),
            mis == settings.material_indices@,
            tris == settings.triangles@,
            nm == settings.materials@.len(),
            nv == settings.vertices@.len(),
            num_triangles == tris.len(),
            nv == settings.vertices@.len(),
            num_vertices == nv,
            0 <= t <= num_triangles,
            forall|u: int| 0 <= u < t ==> triangle_in_bounds(#[trigger] tris[u], nv),
        decreases num_triangles - t,
    {
        let triangle = settings.triangles[t];
        let mut j: usize = 0;
        while j < 3
            invariant
                mis.len() == tris.len(),
                mis == settings.material_indices@,
                tris == settings.triangles@,
                nm == settings.materials@.len(),
                nv == settings.vertices@.len(),
                0 <= t < num_triangles,
                num_triangles == tris.len(),
                triangle == tris[t as int],
                num_vertices == nv,
                forall|u: int| 0 <= u < t ==> triangle_in_bounds(#[trigger] tris[u], nv),
                0 <= j <= 3,
                forall|k: int| 0 <= k < j ==> vertex_index_in_bounds(#[trigger] triangle.indices@[k], nv),
            decreases 3 - j,
        {
            let vertex_index = triangle.indices[j];
            if !vertex_index_ok(vertex_index, num_vertices) {
                proof {
                    assert(!vertex_index_in_bounds(triangle.indices@[j as int], nv));
                    assert(!triangle_in_bounds(tris[t as int], nv));
                    assert(is_first_bad_triangle(tris, nv, t as int));
                    lemma_first_bad_triangle_unique(tris, nv, t as int);
                    assert(first_bad_corner(triangle, nv) == j);
                }
                return Err(
                    StaticMeshError::VertexIndexOutOfBounds {
                        triangle: t,
                        vertex_index,
                        num_vertices,
                    },
                );
            }
            j += 1;
        }
        assert(triangle_in_bounds(triangle, nv));
        t += 1;
    }
    assert(!exists|u: int| is_first_bad_triangle(tris, nv, u));

    let mut t: usize = 0;
    while t < num_triangles
        invariant
            mis.len() == tris.len(),
            mis == settings.material_indices@,
            tris == settings.triangles@,
            nm == settings.materials@.len(),
            nv == settings.vertices@.len(),
            forall|u: int| 0 <= u < tris.len() ==> triangle_in_bounds(#[trigger] tris[u], nv),
            num_triangles == mis.len(),
            num_materials == nm,
            0 <= t <= num_triangles,
            forall|u: int| 0 <= u < t ==> #[trigger] mis[u] < nm,
        decreases num_triangles - t,
    {
        let material_index = settings.material_indices[t];
        if material_index >= num_materials {
            proof {
                assert(mis[t as int] >= nm);
                assert(is_first_bad_material(mis, nm, t as int));
                lemma_first_bad_material_unique(mis, nm, t as int);
            }
            return Err(
                StaticMeshError::MaterialIndexOutOfBounds {
                    triangle: t,
                    material_index,
                    num_materials,
                },
            );
        }
        t += 1;
    }
    assert(!exists|u: int| is_first_bad_material(mis, nm, u));
    Ok(())
}

impl StaticMeshError {
    /// The message that describes the error.
    pub open spec fn spec_message(self) -> Seq<char> {
        match self {
            StaticMeshError::MaterialIndexCountMismatch { num_triangles, num_material_indices } =>
                "static mesh has "@ + decimal(num_triangles as nat) + " triangles but "@ + decimal(
                num_material_indices as nat,
            ) + " material indices"@,
            StaticMeshError::VertexIndexOutOfBounds { triangle, vertex_index, num_vertices } =>
                "triangle "@ + decimal(triangle as nat) + " has vertex index "@ + signed_decimal(
                vertex_index as int,
            ) + ", but the mesh has "@ + decimal(num_vertices as nat) + " vertices"@,
            StaticMeshError::MaterialIndexOutOfBounds { triangle, material_index, num_materials } =>
                "triangle "@ + decimal(triangle as nat) + " has material index "@ + decimal(
                material_index as nat,
            ) + ", but the mesh has "@ + decimal(num_materials as nat) + " materials"@,
            StaticMeshError::SteamAudio(error) => error.spec_message(),
        }
    }

    /// Returns the message that describes the error.
    pub fn message(&self) -> (r: String)
        ensures
            r@ == self.spec_message(),
    {
        match self {
            StaticMeshError::MaterialIndexCountMismatch { num_triangles, num_material_indices } => {
                let mut s = String::from_str("static mesh has ");
                push_decimal(&mut s, *num_triangles as u64);
                s.append(" triangles but ");
                push_decimal(&mut s, *num_material_indices as u64);
                s.append(" material indices");
                s
            },
            StaticMeshError::VertexIndexOutOfBounds { triangle, vertex_index, num_vertices } => {
                let mut s = String::from_str("triangle ");
                push_decimal(&mut s, *triangle as u64);
                s.append(" has vertex index ");
                push_signed_decimal(&mut s, *vertex_index as i64);
                s.append(", but the mesh has ");
                push_decimal(&mut s, *num_vertices as u64);
                s.append(" vertices");
                s
            },
            StaticMeshError::MaterialIndexOutOfBounds { triangle, material_index, num_materials } => {
                let mut s = String::from_str("triangle ");
                push_decimal(&mut s, *triangle as u64);
                s.append(" has material index ");
                push_decimal(&mut s, *material_index as u64);
                s.append(", but the mesh has ");
                push_decimal(&mut s, *num_materials as u64);
                s.append(" materials");
                s
            },
            StaticMeshError::SteamAudio(error) => error.message(),
        }
    }
}


/// Some triangle out of bounds means a first one: the earliest triangle with a corner
/// out of bounds.
proof fn lemma_first_bad_triangle_exists(triangles: Seq<Triangle>, num_vertices: nat, t: int)
    requires
        0 <= t < triangles.len(),
        !triangle_in_bounds(triangles[t], num_vertices),
    ensures
        exists|u: int| is_first_bad_triangle(triangles, num_vertices, u),
    decreases t,
{
    if forall|u: int| 0 <= u < t ==> triangle_in_bounds(#[trigger] triangles[u], num_vertices) {
        assert(is_first_bad_triangle(triangles, num_vertices, t));
    } else {
        let u = choose|u: int| 0 <= u < t && !triangle_in_bounds(#[trigger] triangles[u], num_vertices);
        lemma_first_bad_triangle_exists(triangles, num_vertices, u);
    }
}

/// Some material index out of range means a first one.
proof fn lemma_first_bad_material_exists(material_indices: Seq<usize>, num_materials: nat, t: int)
    requires
        0 <= t < material_indices.len(),
        material_indices[t] >= num_materials,
    ensures
        exists|u: int| is_first_bad_material(material_indices, num_materials, u),
    decreases t,
{
    if forall|u: int| 0 <= u < t ==> #[trigger] material_indices[u] < num_materials {
        assert(is_first_bad_material(material_indices, num_materials, t));
    } else {
        let u = choose|u: int| 0 <= u < t && #[trigger] material_indices[u] >= num_materials;
        lemma_first_bad_material_exists(material_indices, num_materials, u);
    }
}

/// A mesh passes validation exactly when it has one material index per triangle, every
/// corner of every triangle names one of the vertices (from zero up to, not including,
/// the vertex count), and every material index names one of the materials. A count
/// mismatch is reported first, with both counts.
pub proof fn lemma_static_mesh_validation_accepts_valid_meshes(
    num_vertices: nat,
    triangles: Seq<Triangle>,
    material_indices: Seq<usize>,
    num_materials: nat,
)
    ensures
        static_mesh_validation(num_vertices, triangles, material_indices, num_materials) is Ok <==> {
            &&& material_indices.len() == triangles.len()
            &&& forall|t: int, j: int|
                0 <= t < triangles.len() && 0 <= j < 3 ==> 0 <= #[trigger] triangles[t].indices@[j]
                    && triangles[t].indices@[j] < num_vertices
            &&& forall|t: int| 0 <= t < material_indices.len() ==> #[trigger] material_indices[t] < num_materials
        },
        material_indices.len() != triangles.len() ==> static_mesh_validation(
            num_vertices,
            triangles,
            material_indices,
            num_materials,
        ) == Err::<(), StaticMeshError>(
            StaticMeshError::MaterialIndexCountMismatch {
                num_triangles: triangles.len() as usize,
                num_material_indices: material_indices.len() as usize,
            },
        ),
{
    let ok = static_mesh_validation(num_vertices, triangles, material_indices, num_materials) is Ok;
    let corners = forall|t: int, j: int|
        0 <= t < triangles.len() && 0 <= j < 3 ==> 0 <= #[trigger] triangles[t].indices@[j]
            && triangles[t].indices@[j] < num_vertices;
    let mats = forall|t: int| 0 <= t < material_indices.len() ==> #[trigger] material_indices[t] < num_materials;
    if material_indices.len() == triangles.len() {
        if corners {
            assert forall|u: int| 0 <= u < triangles.len() implies triangle_in_bounds(
                #[trigger] triangles[u],
                num_vertices,
            ) by {
                assert forall|j: int| 0 <= j < 3 implies vertex_index_in_bounds(
                    #[trigger] triangles[u].indices@[j],
                    num_vertices,
                ) by {
                    assert(0 <= triangles[u].indices@[j]);
                }
            }
            assert(!exists|t: int| is_first_bad_triangle(triangles, num_vertices, t));
        } else {
            let (t, j) = choose|t: int, j: int|
                !(0 <= t < triangles.len() && 0 <= j < 3 ==> 0 <= #[trigger] triangles[t].indices@[j]
                    && triangles[t].indices@[j] < num_vertices);
            assert(!vertex_index_in_bounds(triangles[t].indices@[j], num_vertices));
            assert(!triangle_in_bounds(triangles[t], num_vertices));
            lemma_first_bad_triangle_exists(triangles, num_vertices, t);
        }
        if !mats {
            let t = choose|t: int| !(0 <= t < material_indices.len() ==> #[trigger] material_indices[t] < num_materials);
            lemma_first_bad_material_exists(material_indices, num_materials, t);
        }
    }
}

} // verus!
