//! Assembly of the global meshlet buffers from the meshes of all models:
//! each mesh's meshlet vertex indices are rebased onto the global vertex
//! buffer, its micro indices are appended as they are, and every meshlet gets
//! a global description and one draw command.
use crate::meshlet::{DrawCommand, MeshletDescription, Meshlets, MeshletsView, ModelMeshlets, ModelMeshletsView};
use crate::name_table::TextureTable;
use vstd::prelude::*;

verus! {

/// What the assembly reads of one mesh: the length of its vertex buffer, the
/// name of its texture and its meshlets (meshes without meshlets are skipped).
pub struct MeshInput {
    pub vertex_count: usize,
    pub texture_name: Option<String>,
    pub meshlets: Option<Meshlets>,
}

pub ghost struct MeshInputView {
    pub vertex_count: nat,
    pub texture_name: Option<Seq<char>>,
    pub meshlets: Option<MeshletsView>,
}

impl View for MeshInput {
    type V = MeshInputView;

    open spec fn view(&self) -> MeshInputView {
        MeshInputView {
            vertex_count: self.vertex_count as nat,
            texture_name: match self.texture_name {
                Some(s) => Some(s@),
                None => None,
            },
            meshlets: match self.meshlets {
                Some(m) => Some(m@),
                None => None,
            },
        }
    }
}

/// What the assembly reads of one model: its name and meshes.
pub struct ModelInput {
    pub name: String,
    pub meshes: Vec<MeshInput>,
}

pub ghost struct ModelInputView {
    pub name: Seq<char>,
    pub meshes: Seq<MeshInputView>,
}

impl View for ModelInput {
    type V = ModelInputView;

    open spec fn view(&self) -> ModelInputView {
        ModelInputView { name: self.name@, meshes: self.meshes@.map_values(|m: MeshInput| m@) }
    }
}

pub open spec fn models_view(models: Seq<ModelInput>) -> Seq<ModelInputView> {
    models.map_values(|m: ModelInput| m@)
}

/// The CPU side of the global geometry buffers.  Vertex data itself is not
/// held here, only the number of vertices appended so far.
pub struct MeshletBuffers {
    pub vertex_count: usize,
    pub meshlet_vertex_indices: Vec<u32>,
    pub meshlet_triangle_indices: Vec<u8>,
    pub meshlets: Vec<MeshletDescription>,
    pub draw_commands: Vec<DrawCommand>,
}

pub ghost struct BuffersView {
    pub vertex_count: nat,
    pub vertex_indices: Seq<u32>,
    pub triangle_indices: Seq<u8>,
    pub meshlets: Seq<MeshletDescription>,
    pub draw_commands: Seq<DrawCommand>,
}

impl View for MeshletBuffers {
    type V = BuffersView;

    open spec fn view(&self) -> BuffersView {
        BuffersView {
            vertex_count: self.vertex_count as nat,
            vertex_indices: self.meshlet_vertex_indices@,
            triangle_indices: self.meshlet_triangle_indices@,
            meshlets: self.meshlets@,
            draw_commands: self.draw_commands@,
        }
    }
}

pub open spec fn empty_buffers() -> BuffersView {
    BuffersView {
        vertex_count: 0,
        vertex_indices: Seq::empty(),
        triangle_indices: Seq::empty(),
        meshlets: Seq::empty(),
        draw_commands: Seq::empty(),
    }
}

/// Texture layer of a mesh: the layer recorded for its texture name, 0 (the
/// fallback texture) when it has none or the name is unknown.
pub open spec fn texture_id_of(name: Option<Seq<char>>, textures: Map<Seq<char>, u32>) -> u32 {
    match name {
        Some(n) => if textures.contains_key(n) {
            textures[n]
        } else {
            0
        },
        None => 0,
    }
}

/// Global description of a mesh-local meshlet, given the number of meshlet
/// vertex indices and micro indices already in the global lists.
pub open spec fn describe(vertex_index_base: int, triangle_base: int, d: crate::meshlet::Meshlet) -> MeshletDescription {
    MeshletDescription {
        vertex_list_offset: (vertex_index_base + d.vertex_offset) as u32,
        triangle_list_offset: (triangle_base + d.triangle_offset) as u32,
        triangle_count: d.triangle_count,
        vertex_count: d.vertex_count,
    }
}

pub open spec fn draw_command(meshlet_id: int, transform_id: u32, texture_id: u32) -> DrawCommand {
    DrawCommand { meshlet_id: meshlet_id as u32, transform_id, texture_id, _padding: 0 }
}

pub open spec fn rebased(vertex_base: int, vertices: Seq<u32>) -> Seq<u32> {
    vertices.map_values(|v: u32| (vertex_base + v) as u32)
}

pub open spec fn described(vertex_index_base: int, triangle_base: int, ms: Seq<crate::meshlet::Meshlet>) -> Seq<MeshletDescription> {
    ms.map_values(|d: crate::meshlet::Meshlet| describe(vertex_index_base, triangle_base, d))
}

pub open spec fn draws(first_id: int, n: nat, transform_id: u32, texture_id: u32) -> Seq<DrawCommand> {
    Seq::new(n, |k: int| draw_command(first_id + k, transform_id, texture_id))
}

/// Appending one mesh with meshlets to the global buffers.
pub open spec fn append_spec(
    acc: BuffersView,
    vertex_count: nat,
    ml: MeshletsView,
    texture_id: u32,
    transform_id: u32,
) -> BuffersView {
    BuffersView {
        vertex_count: acc.vertex_count + vertex_count,
        vertex_indices: acc.vertex_indices + rebased(acc.vertex_count as int, ml.vertices),
        triangle_indices: acc.triangle_indices + ml.triangles,
        meshlets: acc.meshlets + described(
            acc.vertex_indices.len() as int,
            acc.triangle_indices.len() as int,
            ml.meshlets,
        ),
        draw_commands: acc.draw_commands + draws(
            acc.meshlets.len() as int,
            ml.meshlets.len(),
            transform_id,
            texture_id,
        ),
    }
}

/// The mesh group recorded for a mesh appended onto `acc`.
pub open spec fn group_spec(acc: BuffersView, ml: MeshletsView, texture_id: u32) -> ModelMeshletsView {
    ModelMeshletsView {
        meshlet_indices: Seq::new(ml.meshlets.len(), |k: int| (acc.meshlets.len() + k) as u32),
        texture_id,
    }
}

/// No global offset, base or id of the appended mesh exceeds `u32`, so none of
/// the additions overflows and none of the length conversions truncates.
pub open spec fn append_fits(acc: BuffersView, vertex_count: nat, ml: MeshletsView, transform_id: int) -> bool {
    &&& acc.vertex_count <= u32::MAX
    &&& acc.vertex_count + vertex_count <= usize::MAX
    &&& acc.vertex_indices.len() <= u32::MAX
    &&& acc.triangle_indices.len() <= u32::MAX
    &&& acc.meshlets.len() + ml.meshlets.len() <= u32::MAX + 1
    &&& 0 <= transform_id <= u32::MAX
    &&& forall|k: int| 0 <= k < ml.vertices.len() ==> acc.vertex_count + #[trigger] ml.vertices[k] <= u32::MAX
    &&& forall|k: int|
        0 <= k < ml.meshlets.len() ==> {
            &&& acc.vertex_indices.len() + (#[trigger] ml.meshlets[k]).vertex_offset <= u32::MAX
            &&& acc.triangle_indices.len() + ml.meshlets[k].triangle_offset <= u32::MAX
        }
}

pub open spec fn mesh_step(acc: BuffersView, m: MeshInputView, transform_id: u32, textures: Map<Seq<char>, u32>) -> BuffersView {
    match m.meshlets {
        Some(ml) => append_spec(acc, m.vertex_count, ml, texture_id_of(m.texture_name, textures), transform_id),
        None => acc,
    }
}

pub open spec fn mesh_step_fits(acc: BuffersView, m: MeshInputView, transform_id: int) -> bool {
    match m.meshlets {
        Some(ml) => append_fits(acc, m.vertex_count, ml, transform_id),
        None => true,
    }
}

/// The buffers after appending, in order, the meshes of one model.
pub open spec fn fold_meshes(
    acc: BuffersView,
    meshes: Seq<MeshInputView>,
    transform_id: u32,
    textures: Map<Seq<char>, u32>,
) -> BuffersView
    decreases meshes.len(),
{
    if meshes.len() == 0 {
        acc
    } else {
        mesh_step(fold_meshes(acc, meshes.drop_last(), transform_id, textures), meshes.last(), transform_id, textures)
    }
}

pub open spec fn meshes_fit(
    acc: BuffersView,
    meshes: Seq<MeshInputView>,
    transform_id: int,
    textures: Map<Seq<char>, u32>,
) -> bool
    decreases meshes.len(),
{
    meshes.len() == 0 || (meshes_fit(acc, meshes.drop_last(), transform_id, textures) && mesh_step_fits(
        fold_meshes(acc, meshes.drop_last(), transform_id as u32, textures),
        meshes.last(),
        transform_id,
    ))
}

/// The buffers after appending all meshes of all models; the transform of a
/// model is its position in the list.
pub open spec fn fold_models(models: Seq<ModelInputView>, textures: Map<Seq<char>, u32>) -> BuffersView
    decreases models.len(),
{
    if models.len() == 0 {
        empty_buffers()
    } else {
        fold_meshes(
            fold_models(models.drop_last(), textures),
            models.last().meshes,
            (models.len() - 1) as u32,
            textures,
        )
    }
}

/// The whole assembly stays within `u32` offsets and ids.
pub open spec fn models_fit(models: Seq<ModelInputView>, textures: Map<Seq<char>, u32>) -> bool
    decreases models.len(),
{
    models.len() == 0 || (models_fit(models.drop_last(), textures) && meshes_fit(
        fold_models(models.drop_last(), textures),
        models.last().meshes,
        models.len() - 1,
        textures,
    ))
}

impl MeshletBuffers {
    /// Empty buffers.
    pub fn new() -> (r: MeshletBuffers)
        ensures
            r@ == empty_buffers(),
    {
        MeshletBuffers {
            vertex_count: 0,
            meshlet_vertex_indices: Vec::new(),
            meshlet_triangle_indices: Vec::new(),
            meshlets: Vec::new(),
            draw_commands: Vec::new(),
        }
    }

    /// Appends one mesh's meshlets and returns the group of global meshlet
    /// indices that now belong to the mesh.
    pub fn append_mesh(&mut self, vertex_count: usize, ml: &Meshlets, texture_id: u32, transform_id: u32) -> (group: ModelMeshlets)
        requires
            append_fits(old(self)@, vertex_count as nat, ml@, transform_id as int),
        ensures
            final(self)@ == append_spec(old(self)@, vertex_count as nat, ml@, texture_id, transform_id),
            group@ == group_spec(old(self)@, ml@, texture_id),
    {
        let ghost acc = self@;
        let vertex_base = self.vertex_count as u32;
        let vertex_index_base = self.meshlet_vertex_indices.len() as u32;
        self.vertex_count = self.vertex_count + vertex_count;

        let mut k: usize = 0;
        while k < ml.vertices.len()
            invariant
                k <= ml.vertices@.len(),
                vertex_base == acc.vertex_count,
                append_fits(acc, vertex_count as nat, ml@, transform_id as int),
                self.meshlet_vertex_indices@ == acc.vertex_indices + rebased(vertex_base as int, ml.vertices@.take(k as int)),
                self.meshlet_triangle_indices@ == acc.triangle_indices,
                self.meshlets@ == acc.meshlets,
                self.draw_commands@ == acc.draw_commands,
                self.vertex_count == acc.vertex_count + vertex_count,
            decreases ml.vertices@.len() - k,
        {
            let v = ml.vertices[k];
            assert(acc.vertex_count + ml@.vertices[k as int] <= u32::MAX);
            self.meshlet_vertex_indices.push(vertex_base + v);
            proof {
                assert(ml.vertices@.take(k as int + 1) =~= ml.vertices@.take(k as int).push(v));
                assert(rebased(vertex_base as int, ml.vertices@.take(k as int + 1)) =~= rebased(
                    vertex_base as int,
                    ml.vertices@.take(k as int),
                ).push((vertex_base + v) as u32));
            }
            k = k + 1;
        }
        assert(ml.vertices@.take(k as int) =~= ml.vertices@);

        let triangle_base = self.meshlet_triangle_indices.len() as u32;
        let mut k: usize = 0;
        while k < ml.triangles.len()
            invariant
                k <= ml.triangles@.len(),
                self.meshlet_triangle_indices@ == acc.triangle_indices + ml.triangles@.take(k as int),
                self.meshlet_vertex_indices@ == acc.vertex_indices + rebased(acc.vertex_count as int, ml.vertices@),
                self.meshlets@ == acc.meshlets,
                self.draw_commands@ == acc.draw_commands,
                self.vertex_count == acc.vertex_count + vertex_count,
            decreases ml.triangles@.len() - k,
        {
            self.meshlet_triangle_indices.push(ml.triangles[k]);
            assert(ml.triangles@.take(k as int + 1) =~= ml.triangles@.take(k as int).push(ml.triangles@[k as int]));
            k = k + 1;
        }
        assert(ml.triangles@.take(k as int) =~= ml.triangles@);

        let ghost meshlet_base = self.meshlets@.len();
        let mut meshlet_indices: Vec<u32> = Vec::new();
        let mut k: usize = 0;
        while k < ml.meshlets.len()
            invariant
                k <= ml.meshlets@.len(),
                meshlet_base == acc.meshlets.len(),
                vertex_index_base == acc.vertex_indices.len(),
                triangle_base == acc.triangle_indices.len(),
                append_fits(acc, vertex_count as nat, ml@, transform_id as int),
                self.meshlets@ == acc.meshlets + described(
                    vertex_index_base as int,
                    triangle_base as int,
                    ml.meshlets@.take(k as int),
                ),
                self.draw_commands@ == acc.draw_commands + draws(meshlet_base as int, k as nat, transform_id, texture_id),
                meshlet_indices@ == Seq::new(k as nat, |j: int| (meshlet_base + j) as u32),
                self.meshlet_triangle_indices@ == acc.triangle_indices + ml.triangles@,
                self.meshlet_vertex_indices@ == acc.vertex_indices + rebased(acc.vertex_count as int, ml.vertices@),
                self.vertex_count == acc.vertex_count + vertex_count,
            decreases ml.meshlets@.len() - k,
        {
            let m = ml.meshlets[k];
            assert(acc.vertex_indices.len() + ml@.meshlets[k as int].vertex_offset <= u32::MAX);
            let desc = MeshletDescription {
                vertex_list_offset: vertex_index_base + m.vertex_offset,
                triangle_list_offset: triangle_base + m.triangle_offset,
                triangle_count: m.triangle_count,
                vertex_count: m.vertex_count,
            };
            self.meshlets.push(desc);
            let meshlet_id = (self.meshlets.len() - 1) as u32;
            meshlet_indices.push(meshlet_id);
            self.draw_commands.push(DrawCommand { meshlet_id, transform_id, texture_id, _padding: 0 });
            proof {
                assert(ml.meshlets@.take(k as int + 1) =~= ml.meshlets@.take(k as int).push(m));
                assert(described(vertex_index_base as int, triangle_base as int, ml.meshlets@.take(k as int + 1))
                    =~= described(vertex_index_base as int, triangle_base as int, ml.meshlets@.take(k as int)).push(desc));
                assert(draws(meshlet_base as int, (k + 1) as nat, transform_id, texture_id) =~= draws(
                    meshlet_base as int,
                    k as nat,
                    transform_id,
                    texture_id,
                ).push(DrawCommand { meshlet_id, transform_id, texture_id, _padding: 0 }));
                assert(meshlet_indices@ =~= Seq::new((k + 1) as nat, |j: int| (meshlet_base + j) as u32));
            }
            k = k + 1;
        }
        assert(ml.meshlets@.take(k as int) =~= ml.meshlets@);
        assert(self@.vertex_indices == append_spec(acc, vertex_count as nat, ml@, texture_id, transform_id).vertex_indices);
        ModelMeshlets { meshlet_indices, texture_id }
    }

    /// Appends one mesh if it has meshlets; returns its group if it did.
    pub fn append_mesh_input(&mut self, mesh: &MeshInput, textures: &TextureTable, transform_id: u32) -> (group: Option<ModelMeshlets>)
        requires
            textures.wf(),
            mesh_step_fits(old(self)@, mesh@, transform_id as int),
        ensures
            final(self)@ == mesh_step(old(self)@, mesh@, transform_id, textures.spec_map()),
            match mesh@.meshlets {
                Some(ml) => group matches Some(g) && g@ == group_spec(
                    old(self)@,
                    ml,
                    texture_id_of(mesh@.texture_name, textures.spec_map()),
                ),
                None => group is None,
            },
    {
        match &mesh.meshlets {
            Some(ml) => {
                let texture_id = match &mesh.texture_name {
                    Some(name) => match textures.get(name) {
                        Some(id) => *id,
                        None => 0,
                    },
                    None => 0,
                };
                Some(self.append_mesh(mesh.vertex_count, ml, texture_id, transform_id))
            },
            None => None,
        }
    }
}

/// Lays out all meshes of all models in the global meshlet buffers, as the
/// static asset server does at start-up: model `i` draws with transform `i`,
/// and each meshlet gets one draw command.
pub fn assemble_static_meshlets(models: &Vec<ModelInput>, textures: &TextureTable) -> (r: MeshletBuffers)
    requires
        textures.wf(),
        models_fit(models_view(models@), textures.spec_map()),
    ensures
        r@ == fold_models(models_view(models@), textures.spec_map()),
{
    let ghost mv = models_view(models@);
    let ghost tex = textures.spec_map();
    let mut buffers = MeshletBuffers::new();
    let mut t: usize = 0;
    while t < models.len()
        invariant
            t <= models@.len(),
            mv == models_view(models@),
            tex == textures.spec_map(),
            textures.wf(),
            models_fit(mv, tex),
            buffers@ == fold_models(mv.take(t as int), tex),
        decreases models@.len() - t,
    {
        proof {
            lemma_models_fit_prefix(mv, tex, (t + 1) as int);
            assert(mv.take(t as int + 1).drop_last() =~= mv.take(t as int));
        }
        let model = &models[t];
        let ghost start = buffers@;
        let mut j: usize = 0;
        while j < model.meshes.len()
            invariant
                t < models@.len(),
                j <= model.meshes@.len(),
                model == models@[t as int],
                mv == models_view(models@),
                tex == textures.spec_map(),
                textures.wf(),
                start == fold_models(mv.take(t as int), tex),
                meshes_fit(start, mv[t as int].meshes, t as int, tex),
                buffers@ == fold_meshes(start, mv[t as int].meshes.take(j as int), t as u32, tex),
            decreases model.meshes@.len() - j,
        {
            proof {
                let ms = mv[t as int].meshes;
                assert(ms =~= model.meshes@.map_values(|m: crate::static_meshlets::MeshInput| m@));
                lemma_meshes_fit_prefix(start, ms, t as int, tex, (j + 1) as int);
                assert(ms.take(j as int + 1).drop_last() =~= ms.take(j as int));
                assert(ms.take(j as int + 1).last() == model.meshes@[j as int]@);
            }
            buffers.append_mesh_input(&model.meshes[j], textures, t as u32);
            j = j + 1;
        }
        proof {
            assert(mv[t as int].meshes.take(j as int) =~= mv[t as int].meshes);
            assert(mv.take(t as int + 1).last() == mv[t as int]);
        }
        t = t + 1;
    }
    assert(mv.take(t as int) =~= mv);
    buffers
}

#[verifier::spinoff_prover]
pub proof fn lemma_models_fit_prefix(models: Seq<ModelInputView>, textures: Map<Seq<char>, u32>, n: int)
    requires
        models_fit(models, textures),
        0 <= n <= models.len(),
    ensures
        models_fit(models.take(n), textures),
        n > 0 ==> meshes_fit(
            fold_models(models.take(n - 1), textures),
            models[n - 1].meshes,
            n - 1,
            textures,
        ),
    decreases models.len() - n,
{
    if n < models.len() {
        lemma_models_fit_prefix(models, textures, n + 1);
        assert(models.take(n + 1).drop_last() =~= models.take(n));
    } else {
        assert(models.take(n) =~= models);
    }
    if n > 0 {
        assert(models.take(n).drop_last() =~= models.take(n - 1));
        assert(models.take(n).last() == models[n - 1]);
    }
}

#[verifier::spinoff_prover]
pub proof fn lemma_meshes_fit_prefix(
    acc: BuffersView,
    meshes: Seq<MeshInputView>,
    transform_id: int,
    textures: Map<Seq<char>, u32>,
    n: int,
)
    requires
        meshes_fit(acc, meshes, transform_id, textures),
        0 <= n <= meshes.len(),
    ensures
        meshes_fit(acc, meshes.take(n), transform_id, textures),
        n > 0 ==> mesh_step_fits(
            fold_meshes(acc, meshes.take(n - 1), transform_id as u32, textures),
            meshes[n - 1],
            transform_id,
        ),
    decreases meshes.len() - n,
{
    if n < meshes.len() {
        lemma_meshes_fit_prefix(acc, meshes, transform_id, textures, n + 1);
        assert(meshes.take(n + 1).drop_last() =~= meshes.take(n));
    } else {
        assert(meshes.take(n) =~= meshes);
    }
    if n > 0 {
        assert(meshes.take(n).drop_last() =~= meshes.take(n - 1));
    }
}

/// A global meshlet description whose windows lie inside the global lists and
/// whose micro indices select vertices of its own window.
pub open spec fn description_in_bounds(b: BuffersView, d: MeshletDescription) -> bool {
    &&& d.vertex_list_offset + d.vertex_count <= b.vertex_indices.len()
    &&& d.triangle_list_offset + 3 * d.triangle_count <= b.triangle_indices.len()
    &&& forall|t: int|
        d.triangle_list_offset <= t < d.triangle_list_offset + 3 * d.triangle_count ==> (
        #[trigger] b.triangle_indices[t]) < d.vertex_count
}

/// The global buffers are consistent: one draw command per meshlet, the
/// `i`-th drawing meshlet `i`; every meshlet vertex index points into the
/// global vertex buffer; every description stays inside the global lists.
pub open spec fn buffers_consistent(b: BuffersView) -> bool {
    &&& b.draw_commands.len() == b.meshlets.len()
    &&& forall|i: int| 0 <= i < b.draw_commands.len() ==> (#[trigger] b.draw_commands[i]).meshlet_id == i
    &&& forall|k: int| 0 <= k < b.vertex_indices.len() ==> (#[trigger] b.vertex_indices[k]) < b.vertex_count
    &&& forall|i: int| 0 <= i < b.meshlets.len() ==> description_in_bounds(b, #[trigger] b.meshlets[i])
}

/// A mesh's meshlets are valid for a vertex buffer of `vertex_count`
/// vertices: well formed, and every meshlet vertex names one of its vertices.
pub open spec fn mesh_meshlets_valid(vertex_count: nat, ml: MeshletsView) -> bool {
    &&& crate::meshlet::meshlets_well_formed(ml)
    &&& forall|k: int| 0 <= k < ml.vertices.len() ==> (#[trigger] ml.vertices[k]) < vertex_count
}

pub open spec fn mesh_input_valid(m: MeshInputView) -> bool {
    match m.meshlets {
        Some(ml) => mesh_meshlets_valid(m.vertex_count, ml),
        None => true,
    }
}

pub open spec fn models_valid(models: Seq<ModelInputView>) -> bool {
    forall|t: int, j: int|
        0 <= t < models.len() && 0 <= j < models[t].meshes.len() ==> mesh_input_valid(#[trigger] models[t].meshes[j])
}

/// Appending a valid mesh keeps the global buffers consistent.
pub proof fn lemma_append_keeps_consistent(
    acc: BuffersView,
    vertex_count: nat,
    ml: MeshletsView,
    texture_id: u32,
    transform_id: u32,
)
    requires
        buffers_consistent(acc),
        append_fits(acc, vertex_count, ml, transform_id as int),
        mesh_meshlets_valid(vertex_count, ml),
    ensures
        buffers_consistent(append_spec(acc, vertex_count, ml, texture_id, transform_id)),
{
    let b = append_spec(acc, vertex_count, ml, texture_id, transform_id);
    let vbase = acc.vertex_indices.len() as int;
    let tbase = acc.triangle_indices.len() as int;
    assert forall|i: int| 0 <= i < b.draw_commands.len() implies (#[trigger] b.draw_commands[i]).meshlet_id == i by {
        if i >= acc.draw_commands.len() {
            let k = i - acc.draw_commands.len();
            assert(b.draw_commands[i] == draw_command(acc.meshlets.len() + k, transform_id, texture_id));
        }
    }
    assert forall|k: int| 0 <= k < b.vertex_indices.len() implies (#[trigger] b.vertex_indices[k]) < b.vertex_count by {
        if k >= acc.vertex_indices.len() {
            let j = k - acc.vertex_indices.len();
            assert(b.vertex_indices[k] == rebased(acc.vertex_count as int, ml.vertices)[j]);
            assert(acc.vertex_count + ml.vertices[j] <= u32::MAX);
        }
    }
    assert forall|i: int| 0 <= i < b.meshlets.len() implies description_in_bounds(b, #[trigger] b.meshlets[i]) by {
        if i < acc.meshlets.len() {
            let d = acc.meshlets[i];
            assert(b.meshlets[i] == d);
            assert(description_in_bounds(acc, d));
            assert forall|t: int|
                d.triangle_list_offset <= t < d.triangle_list_offset + 3 * d.triangle_count implies (
                #[trigger] b.triangle_indices[t]) < d.vertex_count by {
                assert(b.triangle_indices[t] == acc.triangle_indices[t]);
            }
        } else {
            let j = i - acc.meshlets.len();
            let m = ml.meshlets[j];
            let d = b.meshlets[i];
            assert(d == describe(vbase, tbase, m));
            assert(vbase + m.vertex_offset <= u32::MAX);
            assert(tbase + m.triangle_offset <= u32::MAX);
            assert(d.vertex_list_offset == vbase + m.vertex_offset);
            assert(d.triangle_list_offset == tbase + m.triangle_offset);
            assert(m.vertex_offset + m.vertex_count <= ml.vertices.len());
            assert(m.triangle_offset + 3 * m.triangle_count <= ml.triangles.len());
            assert forall|t: int|
                d.triangle_list_offset <= t < d.triangle_list_offset + 3 * d.triangle_count implies (
                #[trigger] b.triangle_indices[t]) < d.vertex_count by {
                let u = t - tbase;
                assert(b.triangle_indices[t] == ml.triangles[u]);
                assert(m.triangle_offset <= u < m.triangle_offset + 3 * m.triangle_count);
                assert(ml.triangles[u] < m.vertex_count);
            }
        }
    }
}

/// Appending the meshes of one model, each valid, keeps the buffers consistent.
pub proof fn lemma_fold_meshes_consistent(
    acc: BuffersView,
    meshes: Seq<MeshInputView>,
    transform_id: int,
    textures: Map<Seq<char>, u32>,
)
    requires
        buffers_consistent(acc),
        meshes_fit(acc, meshes, transform_id, textures),
        forall|j: int| 0 <= j < meshes.len() ==> mesh_input_valid(#[trigger] meshes[j]),
    ensures
        buffers_consistent(fold_meshes(acc, meshes, transform_id as u32, textures)),
    decreases meshes.len(),
{
    if meshes.len() > 0 {
        let rest = meshes.drop_last();
        assert forall|j: int| 0 <= j < rest.len() implies mesh_input_valid(#[trigger] rest[j]) by {
            assert(rest[j] == meshes[j]);
        }
        lemma_fold_meshes_consistent(acc, rest, transform_id, textures);
        let before = fold_meshes(acc, rest, transform_id as u32, textures);
        let m = meshes.last();
        assert(mesh_input_valid(meshes[meshes.len() - 1]));
        match m.meshlets {
            Some(ml) => {
                assert(transform_id as u32 as int == transform_id);
                lemma_append_keeps_consistent(
                    before,
                    m.vertex_count,
                    ml,
                    texture_id_of(m.texture_name, textures),
                    transform_id as u32,
                );
            },
            None => {},
        }
    }
}

/// Laying out any list of models whose meshes are all valid gives consistent
/// global buffers: one draw command per meshlet, the `i`-th drawing meshlet
/// `i`, meshlet vertex indices inside the global vertex buffer, and every
/// meshlet description inside the global lists.
pub proof fn lemma_layout_consistent(models: Seq<ModelInputView>, textures: Map<Seq<char>, u32>)
    requires
        models_fit(models, textures),
        models_valid(models),
    ensures
        buffers_consistent(fold_models(models, textures)),
    decreases models.len(),
{
    if models.len() > 0 {
        let rest = models.drop_last();
        assert forall|t: int, j: int| 0 <= t < rest.len() && 0 <= j < rest[t].meshes.len() implies mesh_input_valid(
            #[trigger] rest[t].meshes[j],
        ) by {
            assert(rest[t] == models[t]);
        }
        lemma_layout_consistent(rest, textures);
        let last = models.last();
        assert forall|j: int| 0 <= j < last.meshes.len() implies mesh_input_valid(#[trigger] last.meshes[j]) by {
            assert(last == models[models.len() - 1]);
        }
        lemma_fold_meshes_consistent(fold_models(rest, textures), last.meshes, models.len() - 1, textures);
    } else {
        assert(fold_models(models, textures) == empty_buffers());
    }
}

/// Every layer the map names, and the fallback layer 0, is below `layer_count`.
pub open spec fn texture_ids_below(textures: Map<Seq<char>, u32>, layer_count: nat) -> bool {
    &&& layer_count >= 1
    &&& forall|name: Seq<char>| #[trigger] textures.contains_key(name) ==> textures[name] < layer_count
}

proof fn lemma_fold_meshes_textures(
    acc: BuffersView,
    meshes: Seq<MeshInputView>,
    transform_id: u32,
    textures: Map<Seq<char>, u32>,
    layer_count: nat,
)
    requires
        texture_ids_below(textures, layer_count),
        forall|i: int| 0 <= i < acc.draw_commands.len() ==> (#[trigger] acc.draw_commands[i]).texture_id < layer_count,
    ensures
        forall|i: int|
            0 <= i < fold_meshes(acc, meshes, transform_id, textures).draw_commands.len() ==> (
            #[trigger] fold_meshes(acc, meshes, transform_id, textures).draw_commands[i]).texture_id < layer_count,
    decreases meshes.len(),
{
    if meshes.len() > 0 {
        let rest = meshes.drop_last();
        lemma_fold_meshes_textures(acc, rest, transform_id, textures, layer_count);
        let before = fold_meshes(acc, rest, transform_id, textures);
        let m = meshes.last();
        match m.meshlets {
            Some(ml) => {
                let tex = texture_id_of(m.texture_name, textures);
                let after = append_spec(before, m.vertex_count, ml, tex, transform_id);
                assert(tex < layer_count);
                assert forall|i: int| 0 <= i < after.draw_commands.len() implies (
                #[trigger] after.draw_commands[i]).texture_id < layer_count by {
                    if i >= before.draw_commands.len() {
                        let k = i - before.draw_commands.len();
                        assert(after.draw_commands[i] == draw_command(before.meshlets.len() + k, transform_id, tex));
                    }
                }
            },
            None => {},
        }
    }
}

/// When every texture name maps below `layer_count` (and the fallback layer
/// 0 exists), every draw command of the layout samples an existing layer.
pub proof fn lemma_draw_textures_in_range(
    models: Seq<ModelInputView>,
    textures: Map<Seq<char>, u32>,
    layer_count: nat,
)
    requires
        texture_ids_below(textures, layer_count),
    ensures
        forall|i: int|
            0 <= i < fold_models(models, textures).draw_commands.len() ==> (#[trigger] fold_models(
                models,
                textures,
            ).draw_commands[i]).texture_id < layer_count,
    decreases models.len(),
{
    if models.len() > 0 {
        let rest = models.drop_last();
        lemma_draw_textures_in_range(rest, textures, layer_count);
        lemma_fold_meshes_textures(
            fold_models(rest, textures),
            models.last().meshes,
            (models.len() - 1) as u32,
            textures,
            layer_count,
        );
    }
}

/// With the texture map that loading the stored texture files produces, every
/// draw command of the layout samples a layer of the loaded texture array.
pub proof fn lemma_loaded_textures_cover_draws(
    models: Seq<ModelInputView>,
    entries: Seq<crate::textures::TextureEntryView>,
)
    requires
        entries.len() < u32::MAX,
    ensures
        forall|i: int|
            0 <= i < fold_models(models, crate::textures::loaded_textures(entries).1).draw_commands.len() ==> (
            #[trigger] fold_models(models, crate::textures::loaded_textures(entries).1).draw_commands[i]).texture_id
                < crate::textures::loaded_textures(entries).0.len(),
{
    crate::textures::lemma_texture_layers_in_range(entries);
    let loaded = crate::textures::loaded_textures(entries);
    assert(texture_ids_below(loaded.1, loaded.0.len()));
    lemma_draw_textures_in_range(models, loaded.1, loaded.0.len());
}

} // verus!
