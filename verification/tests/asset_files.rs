use asf_kai::asset_files::{classify_asset_file, AssetFileAction};

#[test]
fn gltf_and_glb_files_are_models_named_after_their_stem() {
    assert_eq!(classify_asset_file("cube.gltf"), AssetFileAction::ImportModel { model_name: "cube".to_string() });
    assert_eq!(classify_asset_file("a.b.glb"), AssetFileAction::ImportModel { model_name: "a.b".to_string() });
}

#[test]
fn png_files_are_textures_under_their_file_name() {
    assert_eq!(classify_asset_file("wood.png"), AssetFileAction::StoreTexture { texture_name: "wood.png".to_string() });
}

#[test]
fn other_files_are_skipped() {
    assert_eq!(classify_asset_file("notes.txt"), AssetFileAction::Skip);
    assert_eq!(classify_asset_file("readme"), AssetFileAction::Skip);
    assert_eq!(classify_asset_file("photo.PNG"), AssetFileAction::Skip);
    assert_eq!(classify_asset_file(".gltf"), AssetFileAction::Skip);
    assert_eq!(classify_asset_file(".."), AssetFileAction::Skip);
    assert_eq!(classify_asset_file("model.gltf.bak"), AssetFileAction::Skip);
}

#[test]
fn a_dotfile_with_an_extension_keeps_its_leading_dot_in_the_stem() {
    assert_eq!(classify_asset_file(".hidden.glb"), AssetFileAction::ImportModel { model_name: ".hidden".to_string() });
}
