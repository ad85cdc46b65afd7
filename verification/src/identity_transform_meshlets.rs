//! The earlier buffer layout of the static asset server: all meshlets share
//! one identity transform and have no texture; each meshlet's micro index
//! offset is rebased onto the global micro index list, like its vertex list
//! offset onto the global meshlet vertex list.
use crate::meshlet::{Meshlet, Meshlets, MeshletsView};
use crate::static_meshlets::{
    mesh_input_valid, mesh_meshlets_valid, models_valid, models_view, rebased, MeshInput, MeshInputView, ModelInput,
    ModelInputView,
};
use vstd::prelude::*;

verus! {

/// Description of one meshlet in the global buffers of this layout.
#[derive(Clone, Copy, Debug, PartialEq, Eq)]
pub struct MeshletDescription {
    pub vertex_list_offset: u32,
    pub triangle_list_offset: u32,
    pub triangle_count: u32,
    pub _padding: u32,
}

/// One indirect draw of this layout.
#[derive(Clone, Copy, Debug, PartialEq, Eq)]
pub struct DrawCommand {
    pub meshlet_id: u32,
    pub transform_id: u32,
}

/// CPU side of the buffers of this layout (vertex data is counted, not held).
pub struct IdentityLayout {
    pub vertex_count: usize,
    pub meshlet_vertex_indices: Vec<u32>,
    pub meshlet_triangle_indices: Vec<u8>,
    pub meshlets: Vec<MeshletDescription>,
    pub draw_commands: Vec<DrawCommand>,
}

pub ghost struct IdentityLayoutView {
    pub vertex_count: nat,
    pub vertex_indices: Seq<u32>,
    pub triangle_indices: Seq<u8>,
    pub meshlets: Seq<MeshletDescription>,
}

pub open spec fn empty_layout() -> IdentityLayoutView {
    IdentityLayoutView {
        vertex_count: 0,
        vertex_indices: Seq::empty(),
        triangle_indices: Seq::empty(),
        meshlets: Seq::empty(),
    }
}

pub open spec fn describe_at(vertex_index_base: int, triangle_base: int, d: Meshlet) -> MeshletDescription {
    MeshletDescription {
        vertex_list_offset: (vertex_index_base + d.vertex_offset) as u32,
        triangle_list_offset: (triangle_base + d.triangle_offset) as u32,
        triangle_count: d.triangle_count,
        _padding: 0,
    }
}

pub open spec fn layout_append(acc: IdentityLayoutView, vertex_count: nat, ml: MeshletsView) -> IdentityLayoutView {
    IdentityLayoutView {
        vertex_count: acc.vertex_count + vertex_count,
        vertex_indices: acc.vertex_indices + rebased(acc.vertex_count as int, ml.vertices),
        triangle_indices: acc.triangle_indices + ml.triangles,
        meshlets: acc.meshlets + ml.meshlets.map_values(
            |d: Meshlet| describe_at(acc.vertex_indices.len() as int, acc.triangle_indices.len() as int, d),
        ),
    }
}

pub open spec fn layout_append_fits(acc: IdentityLayoutView, vertex_count: nat, ml: MeshletsView) -> bool {
    &&& acc.vertex_count <= u32::MAX
    &&& acc.vertex_count + vertex_count <= usize::MAX
    &&& acc.vertex_indices.len() <= u32::MAX
    &&& acc.triangle_indices.len() <= u32::MAX
    &&& forall|k: int| 0 <= k < ml.vertices.len() ==> acc.vertex_count + #[trigger] ml.vertices[k] <= u32::MAX
    &&& forall|k: int|
        0 <= k < ml.meshlets.len() ==> {
            &&& acc.vertex_indices.len() + (#[trigger] ml.meshlets[k]).vertex_offset <= u32::MAX
            &&& acc.triangle_indices.len() + ml.meshlets[k].triangle_offset <= u32::MAX
        }
}

/// All meshes of all models, in model order then mesh order.
pub open spec fn all_meshes(models: Seq<ModelInputView>) -> Seq<MeshInputView>
    decreases models.len(),
{
    if models.len() == 0 {
        Seq::empty()
    } else {
        all_meshes(models.drop_last()) + models.last().meshes
    }
}

pub open spec fn fold_layout(meshes: Seq<MeshInputView>) -> IdentityLayoutView
    decreases meshes.len(),
{
    if meshes.len() == 0 {
        empty_layout()
    } else {
        let prev = fold_layout(meshes.drop_last());
        match meshes.last().meshlets {
            Some(ml) => layout_append(prev, meshes.last().vertex_count, ml),
            None => prev,
        }
    }
}

pub open spec fn layout_fits(meshes: Seq<MeshInputView>) -> bool
    decreases meshes.len(),
{
    meshes.len() == 0 || (layout_fits(meshes.drop_last()) && match meshes.last().meshlets {
        Some(ml) => layout_append_fits(fold_layout(meshes.drop_last()), meshes.last().vertex_count, ml),
        None => true,
    })
}

/// One draw per meshlet, in meshlet order, all with transform 0.
pub open spec fn identity_draws(n: nat) -> Seq<DrawCommand> {
    Seq::new(n, |i: int| DrawCommand { meshlet_id: i as u32, transform_id: 0 })
}

proof fn lemma_layout_fits_prefix(meshes: Seq<MeshInputView>, n: int)
    requires
        layout_fits(meshes),
        0 <= n <= meshes.len(),
    ensures
        layout_fits(meshes.take(n)),
        n > 0 ==> match meshes[n - 1].meshlets {
            Some(ml) => layout_append_fits(fold_layout(meshes.take(n - 1)), meshes[n - 1].vertex_count, ml),
            None => true,
        },
    decreases meshes.len() - n,
{
    if n < meshes.len() {
        lemma_layout_fits_prefix(meshes, n + 1);
        assert(meshes.take(n + 1).drop_last() =~= meshes.take(n));
    } else {
        assert(meshes.take(n) =~= meshes);
    }
    if n > 0 {
        let p = meshes.take(n);
        assert(p.drop_last() =~= meshes.take(n - 1));
        assert(p.last() == meshes[n - 1]);
        assert(layout_fits(p));
        assert(match p.last().meshlets {
            Some(ml) => layout_append_fits(fold_layout(p.drop_last()), p.last().vertex_count, ml),
            None => true,
        });
    }
}

impl IdentityLayout {
    fn append(&mut self, vertex_count: usize, ml: &Meshlets)
        requires
            layout_append_fits(old(self).spec_view(), vertex_count as nat, ml@),
        ensures
            final(self).spec_view() == layout_append(old(self).spec_view(), vertex_count as nat, ml@),
            final(self).draw_commands@ == old(self).draw_commands@,
    {
        let ghost draws0 = self.draw_commands@;
        let ghost acc = self.spec_view();
        let vertex_base = self.vertex_count as u32;
        let vertex_index_base = self.meshlet_vertex_indices.len() as u32;
        let triangle_base = self.meshlet_triangle_indices.len() as u32;
        self.vertex_count = self.vertex_count + vertex_count;
        let mut k: usize = 0;
        while k < ml.vertices.len()
            invariant
                k <= ml.vertices@.len(),
                vertex_base == acc.vertex_count,
                layout_append_fits(acc, vertex_count as nat, ml@),
                self.meshlet_vertex_indices@ == acc.vertex_indices + rebased(vertex_base as int, ml.vertices@.take(k as int)),
                self.meshlet_triangle_indices@ == acc.triangle_indices,
                self.meshlets@ == acc.meshlets,
                self.vertex_count == acc.vertex_count + vertex_count,
                self.draw_commands@ == draws0,
            decreases ml.vertices@.len() - k,
        {
            let v = ml.vertices[k];
            assert(acc.vertex_count + ml@.vertices[k as int] <= u32::MAX);
            self.meshlet_vertex_indices.push(vertex_base + v);
            proof {
                assert(ml.vertices@.take(k as int + 1) =~= ml.vertices@.take(k as int).push(v));
                assert(rebased(vertex_base as int, ml.vertices@.take(k as int + 1)) =~= rebased(
                    vertex_base as int,
                    ml.vertices@.take(k as int),
                ).push((vertex_base + v) as u32));
            }
            k = k + 1;
        }
        assert(ml.vertices@.take(k as int) =~= ml.vertices@);
        let mut k: usize = 0;
        while k < ml.triangles.len()
            invariant
                k <= ml.triangles@.len(),
                self.meshlet_triangle_indices@ == acc.triangle_indices + ml.triangles@.take(k as int),
                self.meshlet_vertex_indices@ == acc.vertex_indices + rebased(acc.vertex_count as int, ml.vertices@),
                self.meshlets@ == acc.meshlets,
                self.vertex_count == acc.vertex_count + vertex_count,
                self.draw_commands@ == draws0,
            decreases ml.triangles@.len() - k,
        {
            self.meshlet_triangle_indices.push(ml.triangles[k]);
            assert(ml.triangles@.take(k as int + 1) =~= ml.triangles@.take(k as int).push(ml.triangles@[k as int]));
            k = k + 1;
        }
        assert(ml.triangles@.take(k as int) =~= ml.triangles@);
        let mut k: usize = 0;
        while k < ml.meshlets.len()
            invariant
                k <= ml.meshlets@.len(),
                vertex_index_base == acc.vertex_indices.len(),
                triangle_base == acc.triangle_indices.len(),
                layout_append_fits(acc, vertex_count as nat, ml@),
                self.meshlets@ == acc.meshlets + ml.meshlets@.take(k as int).map_values(
                    |d: Meshlet| describe_at(vertex_index_base as int, triangle_base as int, d),
                ),
                self.meshlet_triangle_indices@ == acc.triangle_indices + ml.triangles@,
                self.meshlet_vertex_indices@ == acc.vertex_indices + rebased(acc.vertex_count as int, ml.vertices@),
                self.vertex_count == acc.vertex_count + vertex_count,
                self.draw_commands@ == draws0,
            decreases ml.meshlets@.len() - k,
        {
            let m = ml.meshlets[k];
            assert(acc.vertex_indices.len() + ml@.meshlets[k as int].vertex_offset <= u32::MAX);
            let desc = MeshletDescription {
                vertex_list_offset: vertex_index_base + m.vertex_offset,
                triangle_list_offset: triangle_base + m.triangle_offset,
                triangle_count: m.triangle_count,
                _padding: 0,
            };
            self.meshlets.push(desc);
            proof {
                assert(ml.meshlets@.take(k as int + 1) =~= ml.meshlets@.take(k as int).push(m));
                assert(ml.meshlets@.take(k as int + 1).map_values(
                    |d: Meshlet| describe_at(vertex_index_base as int, triangle_base as int, d),
                ) =~= ml.meshlets@.take(k as int).map_values(
                    |d: Meshlet| describe_at(vertex_index_base as int, triangle_base as int, d),
                ).push(desc));
            }
            k = k + 1;
        }
        assert(ml.meshlets@.take(k as int) =~= ml.meshlets@);
    }

    pub closed spec fn spec_view(&self) -> IdentityLayoutView {
        IdentityLayoutView {
            vertex_count: self.vertex_count as nat,
            vertex_indices: self.meshlet_vertex_indices@,
            triangle_indices: self.meshlet_triangle_indices@,
            meshlets: self.meshlets@,
        }
    }
}

/// Lays out every mesh with meshlets of every model, in order, and draws each
/// meshlet once with the single identity transform.
pub fn assemble_identity_layout(models: &Vec<ModelInput>) -> (r: IdentityLayout)
    requires
        layout_fits(all_meshes(models_view(models@))),
        fold_layout(all_meshes(models_view(models@))).meshlets.len() <= u32::MAX + 1,
    ensures
        r.vertex_count == fold_layout(all_meshes(models_view(models@))).vertex_count,
        r.meshlet_vertex_indices@ == fold_layout(all_meshes(models_view(models@))).vertex_indices,
        r.meshlet_triangle_indices@ == fold_layout(all_meshes(models_view(models@))).triangle_indices,
        r.meshlets@ == fold_layout(all_meshes(models_view(models@))).meshlets,
        r.draw_commands@ == identity_draws(r.meshlets@.len()),
{
    let ghost mv = models_view(models@);
    let ghost all = all_meshes(mv);
    let mut layout = IdentityLayout {
        vertex_count: 0,
        meshlet_vertex_indices: Vec::new(),
        meshlet_triangle_indices: Vec::new(),
        meshlets: Vec::new(),
        draw_commands: Vec::new(),
    };
    let ghost mut done: Seq<MeshInputView> = Seq::empty();
    let mut t: usize = 0;
    while t < models.len()
        invariant
            t <= models@.len(),
            mv == models_view(models@),
            all == all_meshes(mv),
            layout_fits(all),
            done == all_meshes(mv.take(t as int)),
            layout.spec_view() == fold_layout(done),
            layout.draw_commands@.len() == 0,
        decreases models@.len() - t,
    {
        let model = &models[t];
        let ghost model_done = done;
        let ghost upto = all_meshes(mv.take(t as int + 1));
        proof {
            lemma_all_meshes_prefix(mv, t as int + 1);
            assert(upto.len() <= all.len());
            assert(mv.take(t as int + 1).drop_last() =~= mv.take(t as int));
            assert(mv.take(t as int + 1).last() == mv[t as int]);
            assert(upto == model_done + mv[t as int].meshes);
        }
        let mut j: usize = 0;
        while j < model.meshes.len()
            invariant
                t < models@.len(),
                j <= model.meshes@.len(),
                model == models@[t as int],
                mv == models_view(models@),
                all == all_meshes(mv),
                layout_fits(all),
                upto == model_done + mv[t as int].meshes,
                upto.len() <= all.len(),
                all.take(upto.len() as int) == upto,
                done == model_done + mv[t as int].meshes.take(j as int),
                layout.spec_view() == fold_layout(done),
                layout.draw_commands@.len() == 0,
            decreases model.meshes@.len() - j,
        {
            let ghost ms = mv[t as int].meshes;
            let ghost next = done.push(ms[j as int]);
            proof {
                assert(ms =~= model.meshes@.map_values(|m: MeshInput| m@));
                assert(next =~= model_done + ms.take(j as int + 1));
                assert(next.len() <= upto.len());
                assert(all.take(next.len() as int) =~= next) by {
                    assert(upto.take(next.len() as int) =~= next);
                    assert(all.take(next.len() as int) =~= all.take(upto.len() as int).take(next.len() as int));
                }
                lemma_layout_fits_prefix(all, next.len() as int);
                assert(all.take(next.len() - 1) =~= done);
                assert(all[next.len() - 1] == ms[j as int]) by {
                    assert(all.take(next.len() as int)[next.len() - 1] == all[next.len() - 1]);
                }
                assert(next.drop_last() =~= done);
                assert(next.last() == model.meshes@[j as int]@);
            }
            match &model.meshes[j].meshlets {
                Some(ml) => {
                    layout.append(model.meshes[j].vertex_count, ml);
                },
                None => {},
            }
            proof {
                done = next;
            }
            j = j + 1;
        }
        proof {
            assert(mv[t as int].meshes.take(j as int) =~= mv[t as int].meshes);
        }
        t = t + 1;
    }
    assert(mv.take(t as int) =~= mv);
    let n = layout.meshlets.len();
    let mut i: usize = 0;
    while i < n
        invariant
            i <= n,
            n == layout.meshlets@.len(),
            n <= u32::MAX + 1,
            layout.spec_view() == fold_layout(all_meshes(models_view(models@))),
            layout.draw_commands@ == identity_draws(i as nat),
        decreases n - i,
    {
        layout.draw_commands.push(DrawCommand { meshlet_id: i as u32, transform_id: 0 });
        assert(layout.draw_commands@ =~= identity_draws((i + 1) as nat));
        i = i + 1;
    }
    layout
}

/// The meshes of a prefix of the models are a prefix of all meshes.
proof fn lemma_all_meshes_prefix(models: Seq<ModelInputView>, n: int)
    requires
        0 <= n <= models.len(),
    ensures
        all_meshes(models.take(n)).len() <= all_meshes(models).len(),
        all_meshes(models).take(all_meshes(models.take(n)).len() as int) == all_meshes(models.take(n)),
    decreases models.len() - n,
{
    if n < models.len() {
        lemma_all_meshes_prefix(models, n + 1);
        assert(models.take(n + 1).drop_last() =~= models.take(n));
        assert(models.take(n + 1).last() == models[n]);
        let a = all_meshes(models.take(n));
        let b = all_meshes(models.take(n + 1));
        assert(b == a + models[n].meshes);
        assert(b.take(a.len() as int) =~= a);
        assert(all_meshes(models).take(a.len() as int) =~= all_meshes(models).take(b.len() as int).take(a.len() as int));
    } else {
        assert(models.take(n) =~= models);
        assert(all_meshes(models).take(all_meshes(models).len() as int) =~= all_meshes(models));
    }
}

/// A description of this layout lies inside the global lists: its meshlet
/// vertex list starts inside the global one, and its triangles' micro
/// indices lie inside the global micro index list.
pub open spec fn identity_description_in_bounds(b: IdentityLayoutView, d: MeshletDescription) -> bool {
    &&& d.vertex_list_offset <= b.vertex_indices.len()
    &&& d.triangle_list_offset + 3 * d.triangle_count <= b.triangle_indices.len()
}

/// Every meshlet vertex index points into the global vertex buffer and every
/// description lies inside the global lists.
pub open spec fn identity_layout_consistent(b: IdentityLayoutView) -> bool {
    &&& forall|k: int| 0 <= k < b.vertex_indices.len() ==> (#[trigger] b.vertex_indices[k]) < b.vertex_count
    &&& forall|i: int| 0 <= i < b.meshlets.len() ==> identity_description_in_bounds(b, #[trigger] b.meshlets[i])
}

proof fn lemma_identity_append_consistent(acc: IdentityLayoutView, vertex_count: nat, ml: MeshletsView)
    requires
        identity_layout_consistent(acc),
        layout_append_fits(acc, vertex_count, ml),
        mesh_meshlets_valid(vertex_count, ml),
    ensures
        identity_layout_consistent(layout_append(acc, vertex_count, ml)),
{
    let b = layout_append(acc, vertex_count, ml);
    let vbase = acc.vertex_indices.len() as int;
    let tbase = acc.triangle_indices.len() as int;
    assert forall|k: int| 0 <= k < b.vertex_indices.len() implies (#[trigger] b.vertex_indices[k]) < b.vertex_count by {
        if k >= acc.vertex_indices.len() {
            let j = k - acc.vertex_indices.len();
            assert(b.vertex_indices[k] == rebased(acc.vertex_count as int, ml.vertices)[j]);
            assert(acc.vertex_count + ml.vertices[j] <= u32::MAX);
        }
    }
    assert forall|i: int| 0 <= i < b.meshlets.len() implies identity_description_in_bounds(b, #[trigger] b.meshlets[i]) by {
        if i < acc.meshlets.len() {
            assert(b.meshlets[i] == acc.meshlets[i]);
            assert(identity_description_in_bounds(acc, acc.meshlets[i]));
        } else {
            let j = i - acc.meshlets.len();
            let m = ml.meshlets[j];
            assert(b.meshlets[i] == describe_at(vbase, tbase, m));
            assert(vbase + m.vertex_offset <= u32::MAX);
            assert(tbase + m.triangle_offset <= u32::MAX);
            assert(m.vertex_offset + m.vertex_count <= ml.vertices.len());
            assert(m.triangle_offset + 3 * m.triangle_count <= ml.triangles.len());
        }
    }
}

/// Laying out valid meshes in order keeps the layout consistent.
pub proof fn lemma_fold_layout_consistent(meshes: Seq<MeshInputView>)
    requires
        layout_fits(meshes),
        forall|j: int| 0 <= j < meshes.len() ==> mesh_input_valid(#[trigger] meshes[j]),
    ensures
        identity_layout_consistent(fold_layout(meshes)),
    decreases meshes.len(),
{
    if meshes.len() > 0 {
        let rest = meshes.drop_last();
        assert forall|j: int| 0 <= j < rest.len() implies mesh_input_valid(#[trigger] rest[j]) by {
            assert(rest[j] == meshes[j]);
        }
        lemma_fold_layout_consistent(rest);
        assert(mesh_input_valid(meshes[meshes.len() - 1]));
        match meshes.last().meshlets {
            Some(ml) => {
                lemma_identity_append_consistent(fold_layout(rest), meshes.last().vertex_count, ml);
            },
            None => {},
        }
    }
}

proof fn lemma_all_meshes_valid(models: Seq<ModelInputView>)
    requires
        models_valid(models),
    ensures
        forall|j: int| 0 <= j < all_meshes(models).len() ==> mesh_input_valid(#[trigger] all_meshes(models)[j]),
    decreases models.len(),
{
    if models.len() > 0 {
        let rest = models.drop_last();
        assert(models_valid(rest)) by {
            assert forall|t: int, j: int| 0 <= t < rest.len() && 0 <= j < rest[t].meshes.len() implies mesh_input_valid(
                #[trigger] rest[t].meshes[j],
            ) by {
                assert(rest[t] == models[t]);
            }
        }
        lemma_all_meshes_valid(rest);
        let head = all_meshes(rest);
        let last = models.last();
        assert forall|j: int| 0 <= j < (head + last.meshes).len() implies mesh_input_valid(
            #[trigger] (head + last.meshes)[j],
        ) by {
            if j < head.len() {
                assert((head + last.meshes)[j] == head[j]);
            } else {
                let k = j - head.len();
                assert((head + last.meshes)[j] == last.meshes[k]);
                assert(last == models[models.len() - 1]);
                assert(mesh_input_valid(models[models.len() - 1].meshes[k]));
            }
        }
    }
}

/// Laying out models whose meshes are all valid gives a consistent identity
/// layout: every meshlet vertex index points into the global vertex buffer,
/// and every meshlet description lies inside the global lists.
pub proof fn lemma_identity_layout_consistent(models: Seq<ModelInputView>)
    requires
        layout_fits(all_meshes(models)),
        models_valid(models),
    ensures
        identity_layout_consistent(fold_layout(all_meshes(models))),
{
    lemma_all_meshes_valid(models);
    lemma_fold_layout_consistent(all_meshes(models));
}

} // verus!
