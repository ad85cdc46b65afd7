//! Streaming asset loads: which loaded batches are accepted, which asset of a
//! batch is uploaded under which id, how instances drawn with the fallback
//! mesh are patched once their real mesh and texture are on the GPU, and the
//! list of spawned instances.
use crate::name_table::NameTable;
use vstd::hash_map::HashMapWithView;
use vstd::prelude::*;

verus! {

broadcast use vstd::std_specs::hash::group_hash_axioms;

/// Load state of one named asset: requested under an id by the batch with a
/// given token, or uploaded under an id.
#[derive(Clone, Copy, Debug, PartialEq, Eq)]
pub enum LoadingStatus {
    Loading { id: u64, token: u64 },
    Loaded(u64),
}

/// What the load bookkeeping reads of one loaded asset: its name and whether
/// it is a mesh (otherwise a texture).
pub struct LoadedAssetInfo {
    pub name: String,
    pub is_mesh: bool,
}

/// Load states of meshes and of textures, by name.
pub struct AssetLoadState {
    pub mesh_load_state: NameTable<LoadingStatus>,
    pub texture_load_state: NameTable<LoadingStatus>,
}

/// The token of the batch that is loading `name`, if it is loading.
pub open spec fn loading_token(states: Map<Seq<char>, LoadingStatus>, name: Seq<char>) -> Option<u64> {
    if states.contains_key(name) {
        match states[name] {
            LoadingStatus::Loading { token, .. } => Some(token),
            LoadingStatus::Loaded(_) => None,
        }
    } else {
        None
    }
}

/// The id under which `name` is loading, if it is loading.
pub open spec fn loading_id(states: Map<Seq<char>, LoadingStatus>, name: Seq<char>) -> Option<u64> {
    if states.contains_key(name) {
        match states[name] {
            LoadingStatus::Loading { id, .. } => Some(id),
            LoadingStatus::Loaded(_) => None,
        }
    } else {
        None
    }
}

/// A loaded asset agrees with a batch token when the mesh entry of its name,
/// if loading, was requested by that batch; failing a loading mesh entry, the
/// texture entry of its name is asked the same.
pub open spec fn token_agrees(
    meshes: Map<Seq<char>, LoadingStatus>,
    textures: Map<Seq<char>, LoadingStatus>,
    name: Seq<char>,
    token: u64,
) -> bool {
    match loading_token(meshes, name) {
        Some(t) => t == token,
        None => match loading_token(textures, name) {
            Some(t) => t == token,
            None => true,
        },
    }
}

pub open spec fn infos_names(assets: Seq<LoadedAssetInfo>) -> Seq<Seq<char>> {
    assets.map_values(|a: LoadedAssetInfo| a.name@)
}

/// A batch is accepted when every asset in it agrees with its token.
pub open spec fn batch_accepted(
    meshes: Map<Seq<char>, LoadingStatus>,
    textures: Map<Seq<char>, LoadingStatus>,
    names: Seq<Seq<char>>,
    token: u64,
) -> bool {
    forall|i: int| 0 <= i < names.len() ==> token_agrees(meshes, textures, #[trigger] names[i], token)
}

/// A batch is dropped as soon as any one of its assets, wherever it stands
/// in the batch, is loading under another batch's token (as a mesh, or, when
/// no mesh of its name is loading, as a texture); a batch none of whose
/// assets is loading under another token is accepted.
pub proof fn lemma_batch_accepted_iff_no_stale_asset(
    meshes: Map<Seq<char>, LoadingStatus>,
    textures: Map<Seq<char>, LoadingStatus>,
    names: Seq<Seq<char>>,
    token: u64,
)
    ensures
        forall|i: int|
            0 <= i < names.len() && meshes.contains_key(#[trigger] names[i]) && meshes[names[i]] is Loading
                && meshes[names[i]]->token != token ==> !batch_accepted(meshes, textures, names, token),
        forall|i: int|
            0 <= i < names.len() && !(meshes.contains_key(#[trigger] names[i]) && meshes[names[i]] is Loading)
                && textures.contains_key(names[i]) && textures[names[i]] is Loading && textures[names[i]]->token
                != token ==> !batch_accepted(meshes, textures, names, token),
        (forall|i: int|
            0 <= i < names.len() ==> {
                &&& meshes.contains_key(#[trigger] names[i]) && meshes[names[i]] is Loading ==> meshes[names[i]]->token
                    == token
                &&& !(meshes.contains_key(names[i]) && meshes[names[i]] is Loading) && textures.contains_key(names[i])
                    && textures[names[i]] is Loading ==> textures[names[i]]->token == token
            }) ==> batch_accepted(meshes, textures, names, token),
{
    assert forall|i: int|
        0 <= i < names.len() && meshes.contains_key(#[trigger] names[i]) && meshes[names[i]] is Loading
            && meshes[names[i]]->token != token implies !batch_accepted(meshes, textures, names, token) by {
        assert(!token_agrees(meshes, textures, names[i], token));
    }
    assert forall|i: int|
        0 <= i < names.len() && !(meshes.contains_key(#[trigger] names[i]) && meshes[names[i]] is Loading)
            && textures.contains_key(names[i]) && textures[names[i]] is Loading && textures[names[i]]->token
            != token implies !batch_accepted(meshes, textures, names, token) by {
        assert(!token_agrees(meshes, textures, names[i], token));
    }
}

impl AssetLoadState {
    pub open spec fn wf(&self) -> bool {
        self.mesh_load_state.wf() && self.texture_load_state.wf()
    }

    pub open spec fn meshes(&self) -> Map<Seq<char>, LoadingStatus> {
        self.mesh_load_state.spec_map()
    }

    pub open spec fn textures(&self) -> Map<Seq<char>, LoadingStatus> {
        self.texture_load_state.spec_map()
    }

    /// The state map that holds assets of this kind.
    pub open spec fn states_for(&self, is_mesh: bool) -> Map<Seq<char>, LoadingStatus> {
        if is_mesh {
            self.meshes()
        } else {
            self.textures()
        }
    }

    /// No asset known yet.
    pub fn new() -> (r: AssetLoadState)
        ensures
            r.wf(),
            r.meshes() == Map::<Seq<char>, LoadingStatus>::empty(),
            r.textures() == Map::<Seq<char>, LoadingStatus>::empty(),
    {
        AssetLoadState { mesh_load_state: NameTable::new(), texture_load_state: NameTable::new() }
    }

    /// Records that `name` is requested under `id` by the batch `token`.
    pub fn start_loading(&mut self, name: String, is_mesh: bool, id: u64, token: u64)
        requires
            old(self).wf(),
        ensures
            final(self).wf(),
            final(self).states_for(is_mesh) == old(self).states_for(is_mesh).insert(
                name@,
                LoadingStatus::Loading { id, token },
            ),
            final(self).states_for(!is_mesh) == old(self).states_for(!is_mesh),
    {
        if is_mesh {
            self.mesh_load_state.insert(name, LoadingStatus::Loading { id, token });
        } else {
            self.texture_load_state.insert(name, LoadingStatus::Loading { id, token });
        }
    }

    /// The token of the batch loading `name` in one of the two state maps.
    fn loading_token_in(table: &NameTable<LoadingStatus>, name: &String) -> (r: Option<u64>)
        requires
            table.wf(),
        ensures
            r == loading_token(table.spec_map(), name@),
    {
        match table.get(name) {
            Some(LoadingStatus::Loading { token, .. }) => Some(*token),
            _ => None,
        }
    }

    /// Whether every asset of a loaded batch agrees with the batch token; a
    /// batch that does not is dropped whole.
    pub fn batch_tokens_match(&self, token: u64, assets: &Vec<LoadedAssetInfo>) -> (r: bool)
        requires
            self.wf(),
        ensures
            r == batch_accepted(self.meshes(), self.textures(), infos_names(assets@), token),
    {
        let ghost names = infos_names(assets@);
        let mut k: usize = 0;
        while k < assets.len()
            invariant
                self.wf(),
                k <= assets@.len(),
                names == infos_names(assets@),
                forall|i: int| 0 <= i < k ==> token_agrees(self.meshes(), self.textures(), #[trigger] names[i], token),
            decreases assets@.len() - k,
        {
            let name = &assets[k].name;
            let agrees = match Self::loading_token_in(&self.mesh_load_state, name) {
                Some(t) => t == token,
                None => match Self::loading_token_in(&self.texture_load_state, name) {
                    Some(t) => t == token,
                    None => true,
                },
            };
            if !agrees {
                assert(!token_agrees(self.meshes(), self.textures(), names[k as int], token));
                return false;
            }
            k = k + 1;
        }
        true
    }

    /// The id under which a loaded asset is to be uploaded: the id it is
    /// loading under, in the state map of its kind; `None` when it is not
    /// loading there (unknown, or already uploaded).
    pub fn upload_target(&self, name: &String, is_mesh: bool) -> (r: Option<u64>)
        requires
            self.wf(),
        ensures
            r == loading_id(self.states_for(is_mesh), name@),
    {
        let table = if is_mesh {
            &self.mesh_load_state
        } else {
            &self.texture_load_state
        };
        match table.get(name) {
            Some(LoadingStatus::Loading { id, .. }) => Some(*id),
            _ => None,
        }
    }

    /// Records the outcome of an upload: a successful one marks the asset as
    /// loaded under its id, a failed one leaves it loading.
    pub fn record_upload(&mut self, name: String, is_mesh: bool, id: u64, uploaded: bool)
        requires
            old(self).wf(),
        ensures
            final(self).wf(),
            final(self).states_for(is_mesh) == (if uploaded {
                old(self).states_for(is_mesh).insert(name@, LoadingStatus::Loaded(id))
            } else {
                old(self).states_for(is_mesh)
            }),
            final(self).states_for(!is_mesh) == old(self).states_for(!is_mesh),
    {
        if uploaded {
            if is_mesh {
                self.mesh_load_state.insert(name, LoadingStatus::Loaded(id));
            } else {
                self.texture_load_state.insert(name, LoadingStatus::Loaded(id));
            }
        }
    }
}

/// An asset that has been uploaded is no upload target any more, so a second
/// batch carrying it cannot upload it again.
pub proof fn lemma_uploaded_is_not_retargeted(
    states: Map<Seq<char>, LoadingStatus>,
    name: Seq<char>,
    id: u64,
)
    ensures
        loading_id(states.insert(name, LoadingStatus::Loaded(id)), name) is None,
        loading_token(states.insert(name, LoadingStatus::Loaded(id)), name) is None,
{
}

/// A batch made of assets that are all unknown, or all already uploaded, is
/// accepted whatever its token.
pub proof fn lemma_batch_of_settled_assets_accepted(
    meshes: Map<Seq<char>, LoadingStatus>,
    textures: Map<Seq<char>, LoadingStatus>,
    names: Seq<Seq<char>>,
    token: u64,
)
    requires
        forall|i: int|
            0 <= i < names.len() ==> loading_token(meshes, #[trigger] names[i]) is None && loading_token(
                textures,
                names[i],
            ) is None,
    ensures
        batch_accepted(meshes, textures, names, token),
{
}

/// The asset ids and draw parameters of one instance, as its GPU record holds
/// them (the model matrix is not read here).
#[derive(Clone, Copy, Debug, PartialEq, Eq)]
pub struct InstanceAssetIds {
    pub mesh_id: u32,
    pub texture_id: u32,
    pub texture_array_index: u32,
    pub index_count: u32,
}

/// The GPU-side assets that are in place: index count of each uploaded mesh
/// and texture array layer of each uploaded texture, by asset id.
pub struct LoadedGpuAssets {
    pub mesh_index_counts: HashMapWithView<u64, u32>,
    pub texture_layers: HashMapWithView<u64, u32>,
}

impl LoadedGpuAssets {
    pub open spec fn meshes(&self) -> Map<u64, u32> {
        self.mesh_index_counts@
    }

    pub open spec fn textures(&self) -> Map<u64, u32> {
        self.texture_layers@
    }

    /// Nothing uploaded yet.
    pub fn new() -> (r: LoadedGpuAssets)
        ensures
            r.meshes() == Map::<u64, u32>::empty(),
            r.textures() == Map::<u64, u32>::empty(),
    {
        LoadedGpuAssets { mesh_index_counts: HashMapWithView::new(), texture_layers: HashMapWithView::new() }
    }

    /// Records an uploaded mesh.
    pub fn insert_mesh(&mut self, id: u64, index_count: u32)
        ensures
            final(self).meshes() == old(self).meshes().insert(id, index_count),
            final(self).textures() == old(self).textures(),
    {
        self.mesh_index_counts.insert(id, index_count);
    }

    /// Records an uploaded texture.
    pub fn insert_texture(&mut self, id: u64, layer: u32)
        ensures
            final(self).textures() == old(self).textures().insert(id, layer),
            final(self).meshes() == old(self).meshes(),
    {
        self.texture_layers.insert(id, layer);
    }
}

/// An instance after patching: one still drawn with the fallback mesh's index
/// count takes its real mesh's index count and its real texture's layer once
/// both are uploaded; any other instance is left as it is, and nothing is
/// patched before the fallback mesh exists.
pub open spec fn patched(
    inst: InstanceAssetIds,
    fallback_index_count: Option<u32>,
    meshes: Map<u64, u32>,
    textures: Map<u64, u32>,
) -> InstanceAssetIds {
    match fallback_index_count {
        Some(fallback) => if inst.index_count == fallback && meshes.contains_key(inst.mesh_id as u64)
            && textures.contains_key(inst.texture_id as u64) {
            InstanceAssetIds {
                index_count: meshes[inst.mesh_id as u64],
                texture_array_index: textures[inst.texture_id as u64],
                ..inst
            }
        } else {
            inst
        },
        None => inst,
    }
}

/// Patches one instance.
pub fn patch_instance(instance: &mut InstanceAssetIds, fallback_index_count: Option<u32>, assets: &LoadedGpuAssets)
    ensures
        *final(instance) == patched(*old(instance), fallback_index_count, assets.meshes(), assets.textures()),
{
    let fallback = match fallback_index_count {
        Some(f) => f,
        None => {
            return;
        },
    };
    if instance.index_count == fallback {
        let mesh_id = instance.mesh_id as u64;
        let texture_id = instance.texture_id as u64;
        match (assets.mesh_index_counts.get(&mesh_id), assets.texture_layers.get(&texture_id)) {
            (Some(index_count), Some(layer)) => {
                instance.index_count = *index_count;
                instance.texture_array_index = *layer;
            },
            _ => {},
        }
    }
}

/// Patches every instance, in place.
pub fn patch_instance_data(
    instances: &mut Vec<InstanceAssetIds>,
    fallback_index_count: Option<u32>,
    assets: &LoadedGpuAssets,
)
    ensures
        final(instances)@.len() == old(instances)@.len(),
        forall|i: int|
            0 <= i < old(instances)@.len() ==> #[trigger] final(instances)@[i] == patched(
                old(instances)@[i],
                fallback_index_count,
                assets.meshes(),
                assets.textures(),
            ),
{
    let ghost before = instances@;
    let mut k: usize = 0;
    while k < instances.len()
        invariant
            k <= instances@.len(),
            instances@.len() == before.len(),
            forall|i: int|
                0 <= i < k ==> #[trigger] instances@[i] == patched(
                    before[i],
                    fallback_index_count,
                    assets.meshes(),
                    assets.textures(),
                ),
            forall|i: int| k <= i < instances@.len() ==> #[trigger] instances@[i] == before[i],
        decreases instances@.len() - k,
    {
        let mut inst = instances[k];
        patch_instance(&mut inst, fallback_index_count, assets);
        instances.set(k, inst);
        k = k + 1;
    }
}

/// Patching twice gives what patching once gives.
pub proof fn lemma_patch_idempotent(
    inst: InstanceAssetIds,
    fallback_index_count: Option<u32>,
    meshes: Map<u64, u32>,
    textures: Map<u64, u32>,
)
    ensures
        patched(patched(inst, fallback_index_count, meshes, textures), fallback_index_count, meshes, textures)
            == patched(inst, fallback_index_count, meshes, textures),
{
}

/// The record a freshly spawned instance starts with: its mesh and texture
/// handles (as the record's 32-bit ids) and the fallback mesh and texture
/// until its own assets are uploaded.
pub open spec fn placeholder(
    mesh_handle: u64,
    texture_handle: u64,
    fallback_texture_array_index: u32,
    fallback_index_count: u32,
) -> InstanceAssetIds {
    InstanceAssetIds {
        mesh_id: mesh_handle as u32,
        texture_id: texture_handle as u32,
        texture_array_index: fallback_texture_array_index,
        index_count: fallback_index_count,
    }
}

/// The record of a freshly spawned instance.
pub fn placeholder_instance(
    mesh_handle: u64,
    texture_handle: u64,
    fallback_texture_array_index: u32,
    fallback_index_count: u32,
) -> (r: InstanceAssetIds)
    ensures
        r == placeholder(mesh_handle, texture_handle, fallback_texture_array_index, fallback_index_count),
{
    InstanceAssetIds {
        mesh_id: #[verifier::truncate] (mesh_handle as u32),
        texture_id: #[verifier::truncate] (texture_handle as u32),
        texture_array_index: fallback_texture_array_index,
        index_count: fallback_index_count,
    }
}

/// The entities spawned through the spawner, oldest first, by their bits.
pub struct SpawnedEntities {
    pub entities: Vec<u64>,
}

impl SpawnedEntities {
    /// No entity spawned.
    pub fn new() -> (r: SpawnedEntities)
        ensures
            r.entities@ == Seq::<u64>::empty(),
    {
        SpawnedEntities { entities: Vec::new() }
    }

    /// Records a newly spawned entity at the end.
    pub fn record_spawn(&mut self, entity: u64)
        ensures
            final(self).entities@ == old(self).entities@.push(entity),
    {
        self.entities.push(entity);
    }

    /// Forgets a despawned entity: every occurrence goes, the others keep
    /// their order.
    pub fn record_despawn(&mut self, entity: u64)
        ensures
            final(self).entities@ == old(self).entities@.filter(|e: u64| e != entity),
    {
        let ghost before = self.entities@;
        let mut kept: Vec<u64> = Vec::new();
        let mut k: usize = 0;
        while k < self.entities.len()
            invariant
                k <= self.entities@.len(),
                self.entities@ == before,
                kept@ == before.take(k as int).filter(|e: u64| e != entity),
            decreases self.entities@.len() - k,
        {
            let e = self.entities[k];
            proof {
                reveal(Seq::filter);
                assert(before.take(k as int + 1).drop_last() =~= before.take(k as int));
                assert(before.take(k as int + 1).last() == e);
            }
            if e != entity {
                kept.push(e);
            }
            k = k + 1;
        }
        assert(before.take(k as int) =~= before);
        self.entities = kept;
    }
}

/// Despawning an entity right after spawning it leaves the list as
/// despawning it alone would: every earlier listing of it goes too.  When it
/// was not listed before (as a fresh entity never is), the list is back to
/// what it was before the spawn.
pub proof fn lemma_spawn_then_despawn(entities: Seq<u64>, entity: u64)
    ensures
        entities.push(entity).filter(|e: u64| e != entity) == entities.filter(|e: u64| e != entity),
        !entities.contains(entity) ==> entities.push(entity).filter(|e: u64| e != entity) == entities,
{
    reveal(Seq::filter);
    assert(entities.push(entity).drop_last() =~= entities);
    if !entities.contains(entity) {
        lemma_filter_keeps_all(entities, entity);
    }
}

proof fn lemma_filter_keeps_all(entities: Seq<u64>, entity: u64)
    requires
        !entities.contains(entity),
    ensures
        entities.filter(|e: u64| e != entity) == entities,
    decreases entities.len(),
{
    reveal(Seq::filter);
    if entities.len() > 0 {
        let rest = entities.drop_last();
        assert(!rest.contains(entity)) by {
            if rest.contains(entity) {
                let j = choose|j: int| 0 <= j < rest.len() && rest[j] == entity;
                assert(entities[j] == entity);
            }
        }
        lemma_filter_keeps_all(rest, entity);
        assert(entities.last() != entity) by {
            assert(entities[entities.len() - 1] == entities.last());
        }
        assert(rest.push(entities.last()) =~= entities);
    }
}

} // verus!
