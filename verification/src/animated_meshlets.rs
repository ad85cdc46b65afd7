//! Global meshlet buffers for animated (skinned) models: the same layout as
//! for static models, plus, for each model name, the groups of global meshlet
//! indices of its meshes, which the per-frame draw list is built from.
use crate::meshlet::{ModelMeshlets, ModelMeshletsView};
use crate::name_table::{NameTable, TextureTable};
use crate::static_meshlets::{
    fold_meshes, fold_models, group_spec, lemma_meshes_fit_prefix, lemma_models_fit_prefix, meshes_fit,
    models_fit, models_view, texture_id_of, BuffersView, MeshInput, MeshInputView, MeshletBuffers,
    ModelInput, ModelInputView,
};
use vstd::prelude::*;

verus! {

/// The CPU side of the animated meshlet manager.
pub struct AnimatedMeshletLayout {
    pub buffers: MeshletBuffers,
    pub model_meshlets: NameTable<Vec<ModelMeshlets>>,
}

pub open spec fn groups_view(v: Vec<ModelMeshlets>) -> Seq<ModelMeshletsView> {
    v@.map_values(|g: ModelMeshlets| g@)
}

/// Map view of a model-meshlet table.
pub open spec fn model_table_view(t: NameTable<Vec<ModelMeshlets>>) -> Map<Seq<char>, Seq<ModelMeshletsView>> {
    t.spec_map().map_values(|v: Vec<ModelMeshlets>| groups_view(v))
}

/// The mesh groups of one model's meshes appended onto `acc`.
pub open spec fn fold_groups(
    acc: BuffersView,
    meshes: Seq<MeshInputView>,
    transform_id: u32,
    textures: Map<Seq<char>, u32>,
) -> Seq<ModelMeshletsView>
    decreases meshes.len(),
{
    if meshes.len() == 0 {
        Seq::empty()
    } else {
        let prev = fold_groups(acc, meshes.drop_last(), transform_id, textures);
        let before = fold_meshes(acc, meshes.drop_last(), transform_id, textures);
        match meshes.last().meshlets {
            Some(ml) => prev.push(
                group_spec(before, ml, texture_id_of(meshes.last().texture_name, textures)),
            ),
            None => prev,
        }
    }
}

/// For each model name, the groups of its meshes; a later model with the
/// same name replaces an earlier one.
pub open spec fn fold_model_table(models: Seq<ModelInputView>, textures: Map<Seq<char>, u32>) -> Map<Seq<char>, Seq<ModelMeshletsView>>
    decreases models.len(),
{
    if models.len() == 0 {
        Map::empty()
    } else {
        fold_model_table(models.drop_last(), textures).insert(
            models.last().name,
            fold_groups(
                fold_models(models.drop_last(), textures),
                models.last().meshes,
                (models.len() - 1) as u32,
                textures,
            ),
        )
    }
}

/// Lays out all animated models in the global meshlet buffers and records,
/// per model name, the meshlet groups of its meshes.
pub fn assemble_animated_meshlets(models: &Vec<ModelInput>, textures: &TextureTable) -> (r: AnimatedMeshletLayout)
    requires
        textures.wf(),
        models_fit(models_view(models@), textures.spec_map()),
    ensures
        r.buffers@ == fold_models(models_view(models@), textures.spec_map()),
        r.model_meshlets.wf(),
        model_table_view(r.model_meshlets) == fold_model_table(models_view(models@), textures.spec_map()),
{
    let ghost mv = models_view(models@);
    let ghost tex = textures.spec_map();
    let mut buffers = MeshletBuffers::new();
    let mut table: NameTable<Vec<ModelMeshlets>> = NameTable::new();
    let mut t: usize = 0;
    while t < models.len()
        invariant
            t <= models@.len(),
            mv == models_view(models@),
            tex == textures.spec_map(),
            textures.wf(),
            models_fit(mv, tex),
            buffers@ == fold_models(mv.take(t as int), tex),
            table.wf(),
            model_table_view(table) == fold_model_table(mv.take(t as int), tex),
        decreases models@.len() - t,
    {
        proof {
            lemma_models_fit_prefix(mv, tex, (t + 1) as int);
            assert(mv.take(t as int + 1).drop_last() =~= mv.take(t as int));
        }
        let model = &models[t];
        let ghost start = buffers@;
        let mut groups: Vec<ModelMeshlets> = Vec::new();
        let mut j: usize = 0;
        while j < model.meshes.len()
            invariant
                t < models@.len(),
                j <= model.meshes@.len(),
                model == models@[t as int],
                mv == models_view(models@),
                tex == textures.spec_map(),
                textures.wf(),
                start == fold_models(mv.take(t as int), tex),
                meshes_fit(start, mv[t as int].meshes, t as int, tex),
                buffers@ == fold_meshes(start, mv[t as int].meshes.take(j as int), t as u32, tex),
                groups_view(groups) == fold_groups(start, mv[t as int].meshes.take(j as int), t as u32, tex),
            decreases model.meshes@.len() - j,
        {
            let ghost ms = mv[t as int].meshes;
            let ghost before = buffers@;
            proof {
                assert(ms =~= model.meshes@.map_values(|m: MeshInput| m@));
                lemma_meshes_fit_prefix(start, ms, t as int, tex, (j + 1) as int);
                assert(ms.take(j as int + 1).drop_last() =~= ms.take(j as int));
                assert(ms.take(j as int + 1).last() == model.meshes@[j as int]@);
            }
            let group = buffers.append_mesh_input(&model.meshes[j], textures, t as u32);
            match group {
                Some(g) => {
                    let ghost gv = g@;
                    groups.push(g);
                    proof {
                        assert(groups_view(groups) =~= fold_groups(start, ms.take(j as int), t as u32, tex).push(gv));
                    }
                },
                None => {},
            }
            j = j + 1;
        }
        proof {
            assert(mv[t as int].meshes.take(j as int) =~= mv[t as int].meshes);
            assert(mv.take(t as int + 1).last() == mv[t as int]);
        }
        let ghost old_table = table;
        table.insert(model.name.clone(), groups);
        proof {
            assert(model_table_view(table) =~= model_table_view(old_table).insert(
                model.name@,
                fold_groups(start, mv[t as int].meshes, t as u32, tex),
            ));
        }
        t = t + 1;
    }
    assert(mv.take(t as int) =~= mv);
    AnimatedMeshletLayout { buffers, model_meshlets: table }
}

/// Every meshlet index of the groups is below `n`.
pub open spec fn groups_in_range(gs: Seq<ModelMeshletsView>, n: nat) -> bool {
    forall|i: int, k: int|
        0 <= i < gs.len() && 0 <= k < gs[i].meshlet_indices.len() ==> (#[trigger] gs[i].meshlet_indices[k]) < n
}

/// Appending meshes never removes a meshlet.
proof fn lemma_fold_meshes_grows(
    acc: BuffersView,
    meshes: Seq<MeshInputView>,
    transform_id: u32,
    textures: Map<Seq<char>, u32>,
)
    ensures
        fold_meshes(acc, meshes, transform_id, textures).meshlets.len() >= acc.meshlets.len(),
    decreases meshes.len(),
{
    if meshes.len() > 0 {
        lemma_fold_meshes_grows(acc, meshes.drop_last(), transform_id, textures);
    }
}

/// The groups made for a model's meshes name meshlets that exist once the
/// meshes are appended.
proof fn lemma_fold_groups_in_range(
    acc: BuffersView,
    meshes: Seq<MeshInputView>,
    transform_id: int,
    textures: Map<Seq<char>, u32>,
)
    requires
        meshes_fit(acc, meshes, transform_id, textures),
    ensures
        groups_in_range(
            fold_groups(acc, meshes, transform_id as u32, textures),
            fold_meshes(acc, meshes, transform_id as u32, textures).meshlets.len(),
        ),
    decreases meshes.len(),
{
    if meshes.len() > 0 {
        let rest = meshes.drop_last();
        let tid = transform_id as u32;
        lemma_fold_groups_in_range(acc, rest, transform_id, textures);
        let before = fold_meshes(acc, rest, tid, textures);
        let after = fold_meshes(acc, meshes, tid, textures);
        let prev = fold_groups(acc, rest, tid, textures);
        lemma_fold_meshes_grows(before, seq![meshes.last()], tid, textures);
        assert(seq![meshes.last()].drop_last() =~= Seq::<MeshInputView>::empty());
        assert(after.meshlets.len() >= before.meshlets.len());
        match meshes.last().meshlets {
            Some(ml) => {
                let g = group_spec(before, ml, texture_id_of(meshes.last().texture_name, textures));
                assert(fold_groups(acc, meshes, tid, textures) == prev.push(g));
                assert(after.meshlets.len() == before.meshlets.len() + ml.meshlets.len());
                assert forall|i: int, k: int|
                    0 <= i < prev.push(g).len() && 0 <= k < prev.push(g)[i].meshlet_indices.len() implies (
                    #[trigger] prev.push(g)[i].meshlet_indices[k]) < after.meshlets.len() by {
                    if i < prev.len() {
                        assert(prev.push(g)[i] == prev[i]);
                        assert(prev[i].meshlet_indices[k] < before.meshlets.len());
                    } else {
                        assert(prev.push(g)[i] == g);
                        assert(g.meshlet_indices[k] == (before.meshlets.len() + k) as u32);
                    }
                }
            },
            None => {},
        }
    }
}

/// Laying out models never removes a meshlet.
proof fn lemma_fold_models_grows(models: Seq<ModelInputView>, textures: Map<Seq<char>, u32>, n: int)
    requires
        0 <= n <= models.len(),
    ensures
        fold_models(models.take(n), textures).meshlets.len() <= fold_models(models, textures).meshlets.len(),
    decreases models.len() - n,
{
    if n < models.len() {
        lemma_fold_models_grows(models, textures, n + 1);
        let m = models.take(n + 1);
        assert(m.drop_last() =~= models.take(n));
        lemma_fold_meshes_grows(fold_models(models.take(n), textures), m.last().meshes, n as u32, textures);
    } else {
        assert(models.take(n) =~= models);
    }
}

/// Every meshlet index recorded for an animated model names a meshlet of the
/// global buffers, so the per-frame draw list only draws meshlets that exist.
pub proof fn lemma_model_groups_name_existing_meshlets(models: Seq<ModelInputView>, textures: Map<Seq<char>, u32>)
    requires
        models_fit(models, textures),
    ensures
        forall|name: Seq<char>|
            #[trigger] fold_model_table(models, textures).contains_key(name) ==> groups_in_range(
                fold_model_table(models, textures)[name],
                fold_models(models, textures).meshlets.len(),
            ),
    decreases models.len(),
{
    if models.len() > 0 {
        let rest = models.drop_last();
        let n = models.len() - 1;
        lemma_models_fit_prefix(models, textures, n);
        assert(models.take(n) =~= rest);
        lemma_model_groups_name_existing_meshlets(rest, textures);
        let last = models.last();
        let before = fold_models(rest, textures);
        lemma_fold_groups_in_range(before, last.meshes, n, textures);
        lemma_fold_models_grows(models, textures, n);
        let total = fold_models(models, textures).meshlets.len();
        assert(fold_models(models, textures) == fold_meshes(before, last.meshes, n as u32, textures));
        assert forall|name: Seq<char>| #[trigger] fold_model_table(models, textures).contains_key(name) implies groups_in_range(
            fold_model_table(models, textures)[name],
            total,
        ) by {
            if name != last.name {
                let gs = fold_model_table(rest, textures)[name];
                assert(fold_model_table(models, textures)[name] == gs);
                assert(groups_in_range(gs, before.meshlets.len()));
                assert forall|i: int, k: int| 0 <= i < gs.len() && 0 <= k < gs[i].meshlet_indices.len() implies (
                #[trigger] gs[i].meshlet_indices[k]) < total by {
                    assert(gs[i].meshlet_indices[k] < before.meshlets.len());
                }
            }
        }
    }
}

} // verus!
