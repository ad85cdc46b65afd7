use asf_kai::clusterize::{build_meshlets_for_skinned_vertices, build_meshlets_for_vertices, cluster_vertices};

fn float_bytes(values: &[f32]) -> Vec<u8> {
    let mut bytes = Vec::new();
    for v in values {
        bytes.extend_from_slice(&v.to_le_bytes());
    }
    bytes
}

#[test]
fn test_build_meshlets_for_quad() {
    let vertices: &[f32] = &[
        // Quad vertices
        0.5, 0.5, 0.0, // top right
        0.5, -0.5, 0.0, // bottom right
        -0.5, -0.5, 0.0, // bottom left
        -0.5, 0.5, 0.0, // top left
    ];

    let indices: &[u32] = &[
        0, 1, 3, // first triangle
        1, 2, 3, // second triangle
    ];

    let vertex_data = float_bytes(vertices);

    let meshlets = cluster_vertices(&vertex_data, std::mem::size_of::<f32>() * 3, indices)
        .expect("a quad gives at least one meshlet");

    assert_eq!(meshlets.meshlets.len(), 1, "Expected to find one meshlet for a simple quad");

    let meshlet = &meshlets.meshlets[0];

    // The first meshlet should contain all vertices and indices for the quad.
    assert_eq!(meshlet.vertex_count, 4);
    assert_eq!(meshlet.triangle_count, 2);

    let expected_meshlet_vertices: &[u32] = &[1, 2, 3, 0];
    let meshlet_vertices = &meshlets.vertices
        [meshlet.vertex_offset as usize..(meshlet.vertex_offset + meshlet.vertex_count) as usize];
    assert_eq!(meshlet_vertices, expected_meshlet_vertices);

    let expected_meshlet_triangles: &[u8] = &[
        0, 1, 2, // Corresponds to mesh indices 1, 2, 3
        3, 0, 2, // Corresponds to mesh indices 0, 1, 3
    ];
    let meshlet_triangles = &meshlets.triangles
        [meshlet.triangle_offset as usize..(meshlet.triangle_offset + meshlet.triangle_count * 3) as usize];
    assert_eq!(meshlet_triangles, expected_meshlet_triangles);
}

fn static_record(x: f32, y: f32, z: f32) -> Vec<f32> {
    vec![x, y, z, 1.0, 0.0, 0.0, 1.0, 0.0, 0.0, 0.0, 0.0, 0.0]
}

#[test]
fn static_mesh_without_triangles_has_no_meshlets() {
    let mut values = Vec::new();
    values.extend(static_record(0.0, 0.0, 0.0));
    values.extend(static_record(1.0, 0.0, 0.0));
    values.extend(static_record(0.0, 1.0, 0.0));
    let bytes = float_bytes(&values);
    assert_eq!(bytes.len(), 3 * 48);
    assert!(build_meshlets_for_vertices(&bytes, &[]).is_none());
}

#[test]
fn static_triangle_gives_one_meshlet_over_its_corners() {
    let mut values = Vec::new();
    values.extend(static_record(0.0, 0.0, 0.0));
    values.extend(static_record(1.0, 0.0, 0.0));
    values.extend(static_record(0.0, 1.0, 0.0));
    let bytes = float_bytes(&values);
    let m = build_meshlets_for_vertices(&bytes, &[0, 1, 2]).expect("one triangle gives one meshlet");
    assert_eq!(m.meshlets.len(), 1);
    assert_eq!(m.meshlets[0].triangle_count, 1);
    assert_eq!(m.meshlets[0].vertex_count, 3);
    let mut seen: Vec<u32> = m.vertices[..3].to_vec();
    seen.sort();
    assert_eq!(seen, vec![0, 1, 2]);
}

#[test]
fn skinned_mesh_without_triangles_keeps_an_empty_set() {
    let mut values = static_record(0.0, 0.0, 0.0);
    values.extend_from_slice(&[0.0; 8]);
    let bytes = float_bytes(&values);
    assert_eq!(bytes.len(), 80);
    let m = build_meshlets_for_skinned_vertices(&bytes, &[]).expect("skinned meshes always keep their set");
    assert!(m.meshlets.is_empty());
}

#[test]
fn large_grid_meshlets_keep_to_the_vertex_and_triangle_limits() {
    let n = 20usize;
    let mut values = Vec::new();
    for y in 0..=n {
        for x in 0..=n {
            values.extend_from_slice(&[x as f32, y as f32, 0.0]);
        }
    }
    let mut indices = Vec::new();
    for y in 0..n {
        for x in 0..n {
            let a = (y * (n + 1) + x) as u32;
            let b = a + 1;
            let c = a + (n + 1) as u32;
            let d = c + 1;
            indices.extend_from_slice(&[a, b, c, b, d, c]);
        }
    }
    let m = cluster_vertices(&float_bytes(&values), 12, &indices).expect("a grid gives meshlets");
    assert!(m.meshlets.len() > 1);
    let mut triangles = 0;
    for meshlet in &m.meshlets {
        assert!(meshlet.vertex_count as usize <= 64);
        assert!(meshlet.triangle_count as usize <= 128);
        triangles += meshlet.triangle_count as usize;
    }
    assert_eq!(triangles, 2 * n * n);
}
