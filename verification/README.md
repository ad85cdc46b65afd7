# asf_kai

A meshlet renderer's core logic, verified with Verus.

`src/` is the verified library:

- `clusterize` – splitting meshes into meshlets with meshoptimizer;
- `meshlet`, `static_meshlets`, `animated_meshlets`, `identity_transform_meshlets` –
  laying the meshlets of all models out in global GPU buffers, with the
  consistency laws `lemma_layout_consistent` and `lemma_identity_layout_consistent`;
- `triangle_packing` – packing micro indices into 32-bit words, with its round trip;
- `scene`, `instanced_scene`, `animated_draws` – per-frame draw data for
  vertex pulling and for skinned meshlets;
- `textures`, `gltf_textures`, `gltf_mesh` – texture decoding, layers and the
  glTF importer's decisions (index de-duplication, joint parents, channels,
  static or animated import and its errors);
- `asset_files`, `asset_loading` – what goes into the asset database, and the
  bookkeeping of streamed asset loads;
- `picking`, `time`, `resize`, `config`, `ui_state`, `counter`, `renderer`,
  `name_table` – the remaining state of the application.

`app/` is the program around it: the eframe window, the ECS world, GPU
resources and passes (shaders are read from `shaders/` at run time), the
vertex-pulling scene buffers, the asset database populator and the glTF reader.  The readers of model files in `app/`
use the `gltf`, `ron` and `russimp` crates, which `Cargo.toml` does not list:
`app/` builds only where they are added to its dependencies.

`tests/` exercises the library on concrete values.
