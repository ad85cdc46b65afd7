//! Verified core logic of the Kai renderer: frame timing, meshlet buffer
//! assembly, per-frame scene preparation, GPU picking bookkeeping and the
//! asset-pipeline decisions that sit between the GPU and the asset database.
pub mod time;
pub mod name_table;
pub mod meshlet;
pub mod static_meshlets;
pub mod animated_meshlets;
pub mod identity_transform_meshlets;
pub mod triangle_packing;
pub mod scene;
pub mod instanced_scene;
pub mod animated_draws;
pub mod picking;
pub mod gltf_mesh;
pub mod clusterize;
pub mod textures;
pub mod gltf_textures;
pub mod asset_files;
pub mod asset_loading;
pub mod config;
pub mod ui_state;
pub mod resize;
pub mod renderer;
pub mod counter;
