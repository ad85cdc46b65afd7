use asf_kai::gltf_mesh::{
    assign_parent_indices, channel_bone_name, channel_key_times, choose_scene, dedup_indices, model_kind, rgb_to_rgba, root_nodes,
    skeleton_skin, AnimatedImportError, ModelKind,
};

#[test]
fn indices_are_deduplicated_in_order_of_first_use() {
    let d = dedup_indices(&vec![5, 3, 5, 9, 3]);
    assert_eq!(d.unique_sources, vec![5, 3, 9]);
    assert_eq!(d.remapped, vec![0, 1, 0, 2, 1]);
    for (i, r) in d.remapped.iter().enumerate() {
        assert_eq!(d.unique_sources[*r as usize], [5, 3, 5, 9, 3][i]);
    }
}

#[test]
fn rgb_pixels_get_opaque_alpha() {
    assert_eq!(rgb_to_rgba(&vec![1, 2, 3, 4, 5, 6, 7]), vec![1, 2, 3, 255, 4, 5, 6, 255, 7, 255]);
    assert_eq!(rgb_to_rgba(&vec![]), Vec::<u8>::new());
}

#[test]
fn joint_parents_are_the_first_joint_listing_them_as_child() {
    let parents = assign_parent_indices(&vec![10, 11, 12], &vec![vec![11, 12], vec![], vec![]]);
    assert_eq!(parents, vec![None, Some(0), Some(0)]);
}

#[test]
fn roots_are_nodes_nobody_lists_as_child() {
    assert_eq!(root_nodes(&vec![vec![1, 2], vec![], vec![]]), vec![0]);
    assert_eq!(root_nodes(&vec![vec![], vec![]]), vec![0, 1]);
}

#[test]
fn default_scene_first_then_scene_zero() {
    assert_eq!(choose_scene(Some(2), 5), Some(2));
    assert_eq!(choose_scene(None, 3), Some(0));
    assert_eq!(choose_scene(None, 0), None);
}

#[test]
fn animation_channels_resolve_to_bones() {
    let joint_nodes = vec![4, 7, 9];
    let bones: Vec<String> = ["Hips", "Spine", "Node_12"].iter().map(|s| s.to_string()).collect();
    assert_eq!(channel_bone_name(7, Some("whatever".to_string()), &joint_nodes, &bones), Some("Spine".to_string()));
    assert_eq!(channel_bone_name(12, None, &joint_nodes, &bones), Some("Node_12".to_string()));
    assert_eq!(channel_bone_name(13, Some("Hips".to_string()), &joint_nodes, &bones), Some("Hips".to_string()));
    assert_eq!(channel_bone_name(13, Some("Tail".to_string()), &joint_nodes, &bones), None);
    assert_eq!(channel_bone_name(13, None, &joint_nodes, &bones), None);
}

#[test]
fn animations_or_skins_make_an_animated_model() {
    assert_eq!(model_kind(0, 0), ModelKind::Static);
    assert_eq!(model_kind(2, 0), ModelKind::Animated);
    assert_eq!(model_kind(0, 1), ModelKind::Animated);
}

#[test]
fn animated_import_errors() {
    assert_eq!(skeleton_skin(3), Ok(0));
    assert_eq!(skeleton_skin(0), Err(AnimatedImportError::NoSkin));
    assert_eq!(AnimatedImportError::NoSkin.message(), "Animated model has no skin");
    assert_eq!(channel_key_times(Some(vec![0.0f32, 0.5])), Ok(vec![0.0f32, 0.5]));
    let missing: Option<Vec<f32>> = None;
    let err = channel_key_times(missing).unwrap_err();
    assert_eq!(err, AnimatedImportError::NoInputTimes);
    assert_eq!(err.message(), "Animation channel has no input times");
}
