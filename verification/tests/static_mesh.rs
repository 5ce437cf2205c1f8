use audionimbus::error::SteamAudioError;
use audionimbus::geometry::{validate_static_mesh_settings, StaticMeshError, StaticMeshSettings, Triangle};

type Point = [f32; 3];

/// Absorption, scattering and transmission, as a material holds them.
type Material = ([f32; 3], f32, [f32; 3]);

const GENERIC: Material = ([0.10, 0.20, 0.30], 0.05, [0.100, 0.050, 0.030]);

static VERTICES: [Point; 3] = [[0.0, 0.0, 0.0], [1.0, 0.0, 0.0], [0.0, 1.0, 0.0]];
static TRIANGLES: [Triangle; 1] = [Triangle { indices: [0, 1, 2] }];
static MATERIAL_INDICES: [usize; 1] = [0];
static MATERIALS: [Material; 1] = [GENERIC];

fn valid_static_mesh_settings() -> StaticMeshSettings<'static, Point, Material> {
    StaticMeshSettings {
        vertices: &VERTICES,
        triangles: &TRIANGLES,
        material_indices: &MATERIAL_INDICES,
        materials: &MATERIALS,
    }
}

#[test]
fn accepts_valid_static_mesh_settings() {
    assert_eq!(validate_static_mesh_settings(&valid_static_mesh_settings()), Ok(()));
}

#[test]
fn rejects_mismatched_material_index_count() {
    let mut settings = valid_static_mesh_settings();
    settings.material_indices = &[];

    assert_eq!(
        validate_static_mesh_settings(&settings),
        Err(StaticMeshError::MaterialIndexCountMismatch { num_triangles: 1, num_material_indices: 0 })
    );
}

#[test]
fn rejects_negative_vertex_index() {
    let triangles = [Triangle::new(-1, 1, 2)];
    let mut settings = valid_static_mesh_settings();
    settings.triangles = &triangles;

    assert_eq!(
        validate_static_mesh_settings(&settings),
        Err(StaticMeshError::VertexIndexOutOfBounds { triangle: 0, vertex_index: -1, num_vertices: 3 })
    );
}

#[test]
fn rejects_out_of_range_vertex_index() {
    let triangles = [Triangle::new(0, 1, 3)];
    let mut settings = valid_static_mesh_settings();
    settings.triangles = &triangles;

    assert_eq!(
        validate_static_mesh_settings(&settings),
        Err(StaticMeshError::VertexIndexOutOfBounds { triangle: 0, vertex_index: 3, num_vertices: 3 })
    );
}

#[test]
fn rejects_out_of_range_material_index() {
    let material_indices = [1];
    let mut settings = valid_static_mesh_settings();
    settings.material_indices = &material_indices;

    assert_eq!(
        validate_static_mesh_settings(&settings),
        Err(StaticMeshError::MaterialIndexOutOfBounds { triangle: 0, material_index: 1, num_materials: 1 })
    );
}

#[test]
fn test_triangle_new() {
    let t = Triangle::new(0, 1, 2);
    assert_eq!(t, Triangle { indices: [0, 1, 2] });
}

#[test]
fn reports_first_bad_triangle_with_its_first_bad_corner() {
    let vertices: [Point; 4] = [[0.0; 3]; 4];
    let triangles = [Triangle::new(0, 1, 2), Triangle::new(0, 7, 9), Triangle::new(-3, 0, 1)];
    let material_indices = [0, 0, 0];
    let materials = [GENERIC];
    let settings = StaticMeshSettings {
        vertices: &vertices,
        triangles: &triangles,
        material_indices: &material_indices,
        materials: &materials,
    };
    assert_eq!(
        validate_static_mesh_settings(&settings),
        Err(StaticMeshError::VertexIndexOutOfBounds { triangle: 1, vertex_index: 7, num_vertices: 4 })
    );
}

#[test]
fn checks_vertex_indices_before_material_indices() {
    let vertices: [Point; 3] = [[0.0; 3]; 3];
    let triangles = [Triangle::new(0, 1, 2), Triangle::new(0, 1, 5)];
    let material_indices = [4, 0];
    let materials = [GENERIC];
    let settings = StaticMeshSettings {
        vertices: &vertices,
        triangles: &triangles,
        material_indices: &material_indices,
        materials: &materials,
    };
    assert_eq!(
        validate_static_mesh_settings(&settings),
        Err(StaticMeshError::VertexIndexOutOfBounds { triangle: 1, vertex_index: 5, num_vertices: 3 })
    );
}

#[test]
fn checks_counts_before_indices() {
    let vertices: [Point; 0] = [];
    let triangles = [Triangle::new(0, 1, 2)];
    let material_indices = [0, 0];
    let materials: [Material; 0] = [];
    let settings = StaticMeshSettings {
        vertices: &vertices,
        triangles: &triangles,
        material_indices: &material_indices,
        materials: &materials,
    };
    assert_eq!(
        validate_static_mesh_settings(&settings),
        Err(StaticMeshError::MaterialIndexCountMismatch { num_triangles: 1, num_material_indices: 2 })
    );
}

#[test]
fn accepts_empty_mesh() {
    let vertices: [Point; 0] = [];
    let triangles: [Triangle; 0] = [];
    let material_indices: [usize; 0] = [];
    let materials: [Material; 0] = [];
    let settings = StaticMeshSettings {
        vertices: &vertices,
        triangles: &triangles,
        material_indices: &material_indices,
        materials: &materials,
    };
    assert_eq!(validate_static_mesh_settings(&settings), Ok(()));
}

#[test]
fn static_mesh_error_messages() {
    assert_eq!(
        StaticMeshError::MaterialIndexCountMismatch { num_triangles: 12, num_material_indices: 0 }.message(),
        "static mesh has 12 triangles but 0 material indices"
    );
    assert_eq!(
        StaticMeshError::VertexIndexOutOfBounds { triangle: 0, vertex_index: -1, num_vertices: 3 }.message(),
        "triangle 0 has vertex index -1, but the mesh has 3 vertices"
    );
    assert_eq!(
        StaticMeshError::VertexIndexOutOfBounds { triangle: 104, vertex_index: i32::MIN, num_vertices: 3 }
            .message(),
        "triangle 104 has vertex index -2147483648, but the mesh has 3 vertices"
    );
    assert_eq!(
        StaticMeshError::MaterialIndexOutOfBounds { triangle: 7, material_index: 10, num_materials: 9 }.message(),
        "triangle 7 has material index 10, but the mesh has 9 materials"
    );
    assert_eq!(StaticMeshError::SteamAudio(SteamAudioError::OutOfMemory).message(), "out of memory");
}

#[test]
fn static_mesh_error_from_steam_audio_error() {
    assert_eq!(
        StaticMeshError::from(SteamAudioError::Initialization),
        StaticMeshError::SteamAudio(SteamAudioError::Initialization)
    );
}
