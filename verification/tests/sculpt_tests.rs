use evo_sculptor::generator::{PhenotypeImage, Rgb};
use evo_sculptor::sculpt::{create_sculpt_mesh, insert_quad, MeshError, SculptMeshData};
use evo_sculptor::state::StitchingType;

fn gray_image(width: usize, height: usize) -> PhenotypeImage {
    let mut pixels = Vec::new();
    for i in 0..width * height {
        let v = (i % 256) as u8;
        pixels.push(Rgb { r: v, g: v, b: v });
    }
    PhenotypeImage { width, height, pixels }
}

fn synthesize(width: usize, height: usize, mode: StitchingType) -> SculptMeshData {
    create_sculpt_mesh(&gray_image(width, height), mode).expect("mesh synthesis should succeed")
}

#[test]
fn vertex_count_is_grid_size_in_every_mode() {
    for mode in [
        StitchingType::Plane,
        StitchingType::Sphere,
        StitchingType::Cylinder,
        StitchingType::Torus,
    ] {
        let mesh = synthesize(3, 3, mode);
        assert_eq!(mesh.vertices.len(), 9);
        let mesh = synthesize(5, 4, mode);
        assert_eq!(mesh.vertices.len(), 20);
    }
}

#[test]
fn vertices_are_the_pixels_in_order() {
    let img = gray_image(4, 3);
    let mesh = create_sculpt_mesh(&img, StitchingType::Plane).unwrap();
    assert_eq!(mesh.vertices.len(), img.pixels.len());
    for (v, p) in mesh.vertices.iter().zip(img.pixels.iter()) {
        assert_eq!((v.r, v.g, v.b), (p.r, p.g, p.b));
    }
}

#[test]
fn index_counts_per_mode() {
    let (w, h) = (4, 3);
    assert_eq!(synthesize(w, h, StitchingType::Plane).indices.len(), 6 * (w - 1) * (h - 1));
    assert_eq!(synthesize(w, h, StitchingType::Cylinder).indices.len(), 6 * w * (h - 1));
    assert_eq!(synthesize(w, h, StitchingType::Torus).indices.len(), 6 * w * h);
    assert_eq!(synthesize(w, h, StitchingType::Sphere).indices.len(), 6 * w * (h + 1));
}

#[test]
fn plane_indices_2x2_exact() {
    let mesh = synthesize(2, 2, StitchingType::Plane);
    assert_eq!(mesh.indices, vec![0, 2, 1, 1, 2, 3]);
}

#[test]
fn cylinder_indices_2x2_exact() {
    let mesh = synthesize(2, 2, StitchingType::Cylinder);
    assert_eq!(mesh.indices, vec![0, 2, 1, 1, 2, 3, 1, 3, 0, 0, 3, 2]);
}

#[test]
fn torus_indices_2x2_exact() {
    let mesh = synthesize(2, 2, StitchingType::Torus);
    assert_eq!(
        mesh.indices,
        vec![0, 2, 1, 1, 2, 3, 1, 3, 0, 0, 3, 2, 2, 0, 3, 3, 0, 1, 3, 1, 2, 2, 1, 0]
    );
}

#[test]
fn sphere_indices_2x2_exact() {
    let mesh = synthesize(2, 2, StitchingType::Sphere);
    let expected = vec![
        // bottom cap fan, collapsed onto vertex 0
        0, 2, 0, 0, 2, 3, 0, 3, 0, 0, 3, 2, // wrapped body row
        0, 2, 1, 1, 2, 3, 1, 3, 0, 0, 3, 2, // top cap fan, collapsed onto vertex 2
        0, 2, 1, 1, 2, 2, 1, 2, 0, 0, 2, 2,
    ];
    assert_eq!(mesh.indices, expected);
}

#[test]
fn torus_has_no_orphan_vertices() {
    for (w, h) in [(2, 2), (3, 3), (4, 5)] {
        let mesh = synthesize(w, h, StitchingType::Torus);
        let mut used = vec![false; w * h];
        for &ix in &mesh.indices {
            used[ix as usize] = true;
        }
        assert!(used.iter().all(|&u| u), "torus mesh {}x{} leaves an orphan vertex", w, h);
    }
}

#[test]
fn all_indices_address_vertices_in_every_mode() {
    for mode in [
        StitchingType::Plane,
        StitchingType::Sphere,
        StitchingType::Cylinder,
        StitchingType::Torus,
    ] {
        let mesh = synthesize(5, 3, mode);
        for &ix in &mesh.indices {
            assert!((ix as usize) < mesh.vertices.len());
        }
    }
}

#[test]
fn too_small_grid_is_rejected() {
    for (w, h) in [(1, 5), (5, 1), (1, 1), (0, 0)] {
        let err = create_sculpt_mesh(&gray_image(w, h), StitchingType::Plane).unwrap_err();
        assert_eq!(err, MeshError::GridTooSmall);
    }
}

#[test]
fn malformed_image_is_rejected() {
    let img = PhenotypeImage {
        width: 4,
        height: 4,
        pixels: vec![Rgb { r: 0, g: 0, b: 0 }; 15],
    };
    let err = create_sculpt_mesh(&img, StitchingType::Torus).unwrap_err();
    assert_eq!(err, MeshError::MalformedImage);
}

#[test]
fn insert_quad_pushes_two_triangles() {
    let mut indices: Vec<u32> = vec![9];
    insert_quad(&mut indices, 10, 20, 30, 40);
    assert_eq!(indices, vec![9, 10, 20, 30, 30, 20, 40]);
}
