use asf_kai::animated_draws::{build_animated_frame, AnimatedDrawCommand, AnimatedInstanceInfo};
use asf_kai::instanced_scene::{build_frame_lookups, load_mesh_table, InstanceLookup as FirstVertexLookup, MeshCounts};
use asf_kai::meshlet::ModelMeshlets;
use asf_kai::name_table::NameTable;
use asf_kai::scene::{prepare_scene_frame, GpuMeshInfo, InstanceData, InstanceLookup, MeshDescription};

fn inst(mesh_id: u32, index_count: u32) -> InstanceData {
    InstanceData { mesh_id, texture_id: 0, texture_array_index: 0, index_count }
}

#[test]
fn scene_frame_remaps_mesh_ids_to_dense_positions() {
    let meshes = vec![
        (7u64, GpuMeshInfo { index_count: 3, index_buffer_offset: 12, vertex_buffer_offset: 96 }),
        (2u64, GpuMeshInfo { index_count: 6, index_buffer_offset: 0, vertex_buffer_offset: 0 }),
    ];
    let instances = vec![inst(7, 3), inst(5, 3), inst(2, u32::MAX), inst(2, 2)];
    let f = prepare_scene_frame(&instances, &meshes).unwrap();
    assert_eq!(f.mesh_ids, vec![2, 7]);
    assert_eq!(
        f.mesh_descriptions,
        vec![
            MeshDescription { index_count: 6, first_index: 0, base_vertex: 0, _padding: 0 },
            MeshDescription { index_count: 3, first_index: 3, base_vertex: 2, _padding: 0 },
        ]
    );
    assert_eq!(f.instances, vec![inst(1, 3), inst(0, 2)]);
    assert_eq!(f.source_indices, vec![0, 3]);
    let l = |i: u32, v: u32| InstanceLookup { instance_id: i, local_vertex_index: v };
    assert_eq!(f.instance_lookups, vec![l(0, 0), l(0, 1), l(0, 2), l(1, 0), l(1, 1)]);
    assert_eq!(f.total_indices_to_draw, 5);
}

#[test]
fn scene_frame_without_drawable_instances_is_none() {
    let meshes = vec![(1u64, GpuMeshInfo { index_count: 3, index_buffer_offset: 0, vertex_buffer_offset: 0 })];
    assert!(prepare_scene_frame(&vec![inst(1, u32::MAX), inst(4, 3)], &meshes).is_none());
    assert!(prepare_scene_frame(&Vec::new(), &meshes).is_none());
}

#[test]
fn mesh_table_concatenates_meshes_in_file_order() {
    let table = load_mesh_table(&vec![
        MeshCounts { vertex_count: 4, index_count: 6 },
        MeshCounts { vertex_count: 3, index_count: 3 },
    ]);
    assert_eq!(
        table.mesh_descriptions,
        vec![
            MeshDescription { index_count: 6, first_index: 0, base_vertex: 0, _padding: 0 },
            MeshDescription { index_count: 3, first_index: 6, base_vertex: 4, _padding: 0 },
        ]
    );
}

#[test]
fn frame_lookups_point_at_each_instance_and_its_first_vertex() {
    let table = load_mesh_table(&vec![
        MeshCounts { vertex_count: 4, index_count: 6 },
        MeshCounts { vertex_count: 3, index_count: 3 },
    ]);
    let f = build_frame_lookups(&vec![1, 0], &table).unwrap();
    assert_eq!(f.total_vertices_to_draw, 9);
    let mut expected = vec![FirstVertexLookup { instance_id: 0, first_vertex_of_instance: 0 }; 3];
    expected.extend(vec![FirstVertexLookup { instance_id: 1, first_vertex_of_instance: 3 }; 6]);
    assert_eq!(f.instance_lookups, expected);
    assert!(build_frame_lookups(&vec![], &table).is_none());
}

#[test]
fn frame_with_only_empty_meshes_draws_nothing() {
    let table = load_mesh_table(&vec![MeshCounts { vertex_count: 0, index_count: 0 }]);
    assert!(build_frame_lookups(&vec![0, 0], &table).is_none());
}

#[test]
fn animated_frame_draws_each_meshlet_of_each_known_model() {
    let mut table: NameTable<Vec<ModelMeshlets>> = NameTable::new();
    table.insert("hero".to_string(), vec![ModelMeshlets { meshlet_indices: vec![5, 6], texture_id: 2 }]);
    let instances = vec![
        AnimatedInstanceInfo { entity_id: 10, model_name: "hero".to_string(), bone_matrix_count: 3 },
        AnimatedInstanceInfo { entity_id: 11, model_name: "ghost".to_string(), bone_matrix_count: 2 },
        AnimatedInstanceInfo { entity_id: 12, model_name: "hero".to_string(), bone_matrix_count: 4 },
    ];
    let f = build_animated_frame(&instances, &table);
    let d = |m: u32, i: u32, e: u32| AnimatedDrawCommand { meshlet_id: m, bone_set_id: i, transform_id: i, entity_id: e, texture_id: 2 };
    assert_eq!(f.draw_commands, vec![d(5, 0, 10), d(6, 0, 10), d(5, 2, 12), d(6, 2, 12)]);
    assert_eq!(f.bone_matrix_offsets, vec![0, 3, 5]);
}
