use asf_kai::animated_meshlets::assemble_animated_meshlets;
use asf_kai::gltf_textures::{convert_gltf_texture, GltfImage, GltfPixelFormat};
use asf_kai::identity_transform_meshlets::{self as identity, assemble_identity_layout};
use asf_kai::meshlet::{DrawCommand, Meshlet, MeshletDescription, Meshlets};
use asf_kai::name_table::TextureTable;
use asf_kai::static_meshlets::{assemble_static_meshlets, MeshInput, MeshletBuffers, ModelInput};
use asf_kai::triangle_packing::pack_triangle_indices;

fn quad_meshlets() -> Meshlets {
    Meshlets {
        meshlets: vec![Meshlet { vertex_offset: 0, triangle_offset: 0, vertex_count: 4, triangle_count: 2 }],
        vertices: vec![1, 2, 3, 0],
        triangles: vec![0, 1, 2, 3, 0, 2, 0, 0],
    }
}

fn triangle_meshlets() -> Meshlets {
    Meshlets {
        meshlets: vec![Meshlet { vertex_offset: 0, triangle_offset: 0, vertex_count: 3, triangle_count: 1 }],
        vertices: vec![0, 1, 2],
        triangles: vec![0, 1, 2, 0],
    }
}

fn models() -> Vec<ModelInput> {
    vec![
        ModelInput {
            name: "quad".to_string(),
            meshes: vec![MeshInput { vertex_count: 4, texture_name: Some("wood.png".to_string()), meshlets: Some(quad_meshlets()) }],
        },
        ModelInput {
            name: "tri".to_string(),
            meshes: vec![
                MeshInput { vertex_count: 10, texture_name: None, meshlets: None },
                MeshInput { vertex_count: 3, texture_name: Some("missing.png".to_string()), meshlets: Some(triangle_meshlets()) },
            ],
        },
    ]
}

fn textures() -> TextureTable {
    let mut t = TextureTable::new();
    t.insert("wood.png".to_string(), 1);
    t
}

#[test]
fn static_layout_rebases_each_mesh_onto_the_global_buffers() {
    let b = assemble_static_meshlets(&models(), &textures());
    assert_eq!(b.vertex_count, 7);
    assert_eq!(b.meshlet_vertex_indices, vec![1, 2, 3, 0, 4, 5, 6]);
    assert_eq!(b.meshlet_triangle_indices, vec![0, 1, 2, 3, 0, 2, 0, 0, 0, 1, 2, 0]);
    assert_eq!(
        b.meshlets,
        vec![
            MeshletDescription { vertex_list_offset: 0, triangle_list_offset: 0, triangle_count: 2, vertex_count: 4 },
            MeshletDescription { vertex_list_offset: 4, triangle_list_offset: 8, triangle_count: 1, vertex_count: 3 },
        ]
    );
    assert_eq!(
        b.draw_commands,
        vec![
            DrawCommand { meshlet_id: 0, transform_id: 0, texture_id: 1, _padding: 0 },
            DrawCommand { meshlet_id: 1, transform_id: 1, texture_id: 0, _padding: 0 },
        ]
    );
}

#[test]
fn static_layout_is_consistent() {
    let b = assemble_static_meshlets(&models(), &textures());
    assert_eq!(b.draw_commands.len(), b.meshlets.len());
    for (i, d) in b.draw_commands.iter().enumerate() {
        assert_eq!(d.meshlet_id as usize, i);
    }
    for v in &b.meshlet_vertex_indices {
        assert!((*v as usize) < b.vertex_count);
    }
    for m in &b.meshlets {
        let start = m.triangle_list_offset as usize;
        for t in &b.meshlet_triangle_indices[start..start + 3 * m.triangle_count as usize] {
            assert!((*t as u32) < m.vertex_count);
        }
    }
}

#[test]
fn empty_model_list_gives_empty_buffers() {
    let b = assemble_static_meshlets(&Vec::new(), &textures());
    assert_eq!(b.vertex_count, 0);
    assert!(b.meshlets.is_empty() && b.draw_commands.is_empty());
}

#[test]
fn appending_a_mesh_returns_its_meshlet_group() {
    let mut b = MeshletBuffers::new();
    let g1 = b.append_mesh(4, &quad_meshlets(), 2, 0);
    let g2 = b.append_mesh(3, &triangle_meshlets(), 5, 1);
    assert_eq!(g1.meshlet_indices, vec![0]);
    assert_eq!(g1.texture_id, 2);
    assert_eq!(g2.meshlet_indices, vec![1]);
    assert_eq!(g2.texture_id, 5);
}

#[test]
fn animated_layout_records_the_groups_of_each_model() {
    let layout = assemble_animated_meshlets(&models(), &textures());
    assert_eq!(layout.buffers.meshlets.len(), 2);
    let quad = layout.model_meshlets.get(&"quad".to_string()).unwrap();
    assert_eq!(quad.len(), 1);
    assert_eq!(quad[0].meshlet_indices, vec![0]);
    assert_eq!(quad[0].texture_id, 1);
    let tri = layout.model_meshlets.get(&"tri".to_string()).unwrap();
    assert_eq!(tri.len(), 1);
    assert_eq!(tri[0].meshlet_indices, vec![1]);
    assert_eq!(tri[0].texture_id, 0);
    assert!(layout.model_meshlets.get(&"other".to_string()).is_none());
}

#[test]
fn identity_layout_scales_triangle_offsets_and_uses_one_transform() {
    let layout = assemble_identity_layout(&models());
    assert_eq!(layout.vertex_count, 7);
    assert_eq!(layout.meshlet_vertex_indices, vec![1, 2, 3, 0, 4, 5, 6]);
    assert_eq!(
        layout.meshlets,
        vec![
            identity::MeshletDescription { vertex_list_offset: 0, triangle_list_offset: 0, triangle_count: 2, _padding: 0 },
            identity::MeshletDescription { vertex_list_offset: 4, triangle_list_offset: 8, triangle_count: 1, _padding: 0 },
        ]
    );
    assert_eq!(
        layout.draw_commands,
        vec![
            identity::DrawCommand { meshlet_id: 0, transform_id: 0 },
            identity::DrawCommand { meshlet_id: 1, transform_id: 0 },
        ]
    );
}

#[test]
fn identity_layout_triangle_offset_indexes_micro_indices() {
    let ml = Meshlets {
        meshlets: vec![
            Meshlet { vertex_offset: 0, triangle_offset: 0, vertex_count: 3, triangle_count: 1 },
            Meshlet { vertex_offset: 3, triangle_offset: 4, vertex_count: 3, triangle_count: 1 },
        ],
        vertices: vec![0, 1, 2, 2, 1, 0],
        triangles: vec![0, 1, 2, 0, 0, 1, 2, 0],
    };
    let models = vec![
        ModelInput { name: "q".to_string(), meshes: vec![MeshInput { vertex_count: 4, texture_name: None, meshlets: Some(quad_meshlets()) }] },
        ModelInput { name: "m".to_string(), meshes: vec![MeshInput { vertex_count: 3, texture_name: None, meshlets: Some(ml) }] },
    ];
    let layout = assemble_identity_layout(&models);
    assert_eq!(layout.meshlets[2].triangle_list_offset, 8 + 4);
    assert_eq!(layout.meshlets[2].vertex_list_offset, 4 + 3);
    for m in &layout.meshlets {
        assert!(m.triangle_list_offset as usize + 3 * m.triangle_count as usize <= layout.meshlet_triangle_indices.len());
    }
}

#[test]
fn triangle_indices_pack_little_endian_with_zero_padding() {
    assert_eq!(pack_triangle_indices(&vec![1, 2, 3, 4, 5]), vec![0x0403_0201, 0x0000_0005]);
    assert_eq!(pack_triangle_indices(&vec![]), Vec::<u32>::new());
    let bytes: Vec<u8> = vec![9, 8, 7, 6, 5, 4, 3, 2];
    let words = pack_triangle_indices(&bytes);
    let mut back = Vec::new();
    for w in words {
        back.extend_from_slice(&w.to_le_bytes());
    }
    assert_eq!(back, bytes);
}

#[test]
fn draws_sample_layers_of_the_loaded_texture_array() {
    let png = convert_gltf_texture(
        &"m".to_string(),
        0,
        &GltfImage { width: 1, height: 1, format: GltfPixelFormat::R8G8B8A8, pixels: vec![1, 2, 3, 4] },
    )
    .unwrap()
    .unwrap()
    .1;
    let set = asf_kai::textures::load_textures(&vec![asf_kai::textures::TextureEntry { name: "wood.png".to_string(), data: png }]);
    let b = assemble_static_meshlets(&models(), &set.texture_map);
    assert_eq!(b.draw_commands[0].texture_id, 1);
    for d in &b.draw_commands {
        assert!((d.texture_id as usize) < set.texture_cpu_data.len());
    }
}
