use asf_kai::asset_loading::{
    patch_instance, patch_instance_data, placeholder_instance, AssetLoadState, InstanceAssetIds, LoadedAssetInfo,
    LoadedGpuAssets, SpawnedEntities,
};

fn info(name: &str, is_mesh: bool) -> LoadedAssetInfo {
    LoadedAssetInfo { name: name.to_string(), is_mesh }
}

#[test]
fn batch_with_matching_tokens_is_accepted() {
    let mut s = AssetLoadState::new();
    s.start_loading("cube".to_string(), true, 1, 7);
    s.start_loading("wood".to_string(), false, 2, 7);
    assert!(s.batch_tokens_match(7, &vec![info("cube", true), info("wood", false)]));
}

#[test]
fn batch_with_a_stale_token_is_dropped() {
    let mut s = AssetLoadState::new();
    s.start_loading("cube".to_string(), true, 1, 7);
    s.start_loading("wood".to_string(), false, 2, 8);
    assert!(!s.batch_tokens_match(7, &vec![info("cube", true), info("wood", false)]));
}

#[test]
fn unknown_assets_do_not_reject_a_batch() {
    let s = AssetLoadState::new();
    assert!(s.batch_tokens_match(3, &vec![info("ghost", true)]));
}

#[test]
fn upload_target_is_the_loading_id_and_an_upload_settles_it() {
    let mut s = AssetLoadState::new();
    s.start_loading("cube".to_string(), true, 41, 7);
    assert_eq!(s.upload_target(&"cube".to_string(), true), Some(41));
    assert_eq!(s.upload_target(&"cube".to_string(), false), None);
    s.record_upload("cube".to_string(), true, 41, false);
    assert_eq!(s.upload_target(&"cube".to_string(), true), Some(41));
    s.record_upload("cube".to_string(), true, 41, true);
    assert_eq!(s.upload_target(&"cube".to_string(), true), None);
    assert!(s.batch_tokens_match(99, &vec![info("cube", true)]));
}

fn ids(mesh_id: u32, texture_id: u32, texture_array_index: u32, index_count: u32) -> InstanceAssetIds {
    InstanceAssetIds { mesh_id, texture_id, texture_array_index, index_count }
}

#[test]
fn instance_on_the_fallback_is_patched_once_both_assets_are_uploaded() {
    let mut assets = LoadedGpuAssets::new();
    assets.insert_mesh(5, 300);
    let mut inst = ids(5, 9, 0, 36);
    patch_instance(&mut inst, Some(36), &assets);
    assert_eq!(inst, ids(5, 9, 0, 36));
    assets.insert_texture(9, 4);
    patch_instance(&mut inst, Some(36), &assets);
    assert_eq!(inst, ids(5, 9, 4, 300));
    patch_instance(&mut inst, Some(36), &assets);
    assert_eq!(inst, ids(5, 9, 4, 300));
}

#[test]
fn nothing_is_patched_without_a_fallback_mesh() {
    let mut assets = LoadedGpuAssets::new();
    assets.insert_mesh(5, 300);
    assets.insert_texture(9, 4);
    let mut inst = ids(5, 9, 0, 36);
    patch_instance(&mut inst, None, &assets);
    assert_eq!(inst, ids(5, 9, 0, 36));
}

#[test]
fn patching_all_instances_leaves_already_patched_ones() {
    let mut assets = LoadedGpuAssets::new();
    assets.insert_mesh(1, 12);
    assets.insert_texture(2, 3);
    let mut v = vec![ids(1, 2, 0, 36), ids(1, 2, 3, 12), ids(8, 2, 0, 36)];
    patch_instance_data(&mut v, Some(36), &assets);
    assert_eq!(v, vec![ids(1, 2, 3, 12), ids(1, 2, 3, 12), ids(8, 2, 0, 36)]);
}

#[test]
fn placeholder_uses_the_fallback_assets() {
    let p = placeholder_instance(7, (1u64 << 32) + 5, 0, 36);
    assert_eq!(p, ids(7, 5, 0, 36));
}

#[test]
fn despawned_entities_leave_the_spawn_list() {
    let mut s = SpawnedEntities::new();
    s.record_spawn(3);
    s.record_spawn(8);
    s.record_spawn(3);
    s.record_spawn(5);
    s.record_despawn(3);
    assert_eq!(s.entities, vec![8, 5]);
    s.record_despawn(42);
    assert_eq!(s.entities, vec![8, 5]);
}
