//! Per-frame draw list of the animated pipeline: every animated instance
//! contributes its bone matrices to one shared buffer and one draw command
//! per meshlet of its model, tagged with the instance's bone set and entity.
use crate::animated_meshlets::{groups_in_range, groups_view, model_table_view};
use crate::meshlet::{ModelMeshlets, ModelMeshletsView};
use crate::name_table::NameTable;
use vstd::prelude::*;

verus! {

/// One draw of an animated meshlet.
#[derive(Clone, Copy, Debug, PartialEq, Eq)]
pub struct AnimatedDrawCommand {
    pub meshlet_id: u32,
    pub bone_set_id: u32,
    pub transform_id: u32,
    pub entity_id: u32,
    pub texture_id: u32,
}

/// What the draw list reads of one animated instance.
pub struct AnimatedInstanceInfo {
    pub entity_id: u32,
    pub model_name: String,
    pub bone_matrix_count: usize,
}

pub ghost struct AnimatedInstanceView {
    pub entity_id: u32,
    pub model_name: Seq<char>,
    pub bone_matrix_count: nat,
}

impl View for AnimatedInstanceInfo {
    type V = AnimatedInstanceView;

    open spec fn view(&self) -> AnimatedInstanceView {
        AnimatedInstanceView {
            entity_id: self.entity_id,
            model_name: self.model_name@,
            bone_matrix_count: self.bone_matrix_count as nat,
        }
    }
}

pub open spec fn instances_view(s: Seq<AnimatedInstanceInfo>) -> Seq<AnimatedInstanceView> {
    s.map_values(|x: AnimatedInstanceInfo| x@)
}

/// The frame's draw commands and, per instance, where its bone matrices
/// start in the shared bone matrix buffer.
pub struct AnimatedFrame {
    pub draw_commands: Vec<AnimatedDrawCommand>,
    pub bone_matrix_offsets: Vec<u32>,
}

pub open spec fn draw_of(meshlet_id: u32, instance: int, entity_id: u32, texture_id: u32) -> AnimatedDrawCommand {
    AnimatedDrawCommand {
        meshlet_id,
        bone_set_id: instance as u32,
        transform_id: instance as u32,
        entity_id,
        texture_id,
    }
}

pub open spec fn group_draws(g: ModelMeshletsView, instance: int, entity_id: u32) -> Seq<AnimatedDrawCommand> {
    g.meshlet_indices.map_values(|m: u32| draw_of(m, instance, entity_id, g.texture_id))
}

pub open spec fn groups_draws(gs: Seq<ModelMeshletsView>, instance: int, entity_id: u32) -> Seq<AnimatedDrawCommand>
    decreases gs.len(),
{
    if gs.len() == 0 {
        Seq::empty()
    } else {
        groups_draws(gs.drop_last(), instance, entity_id) + group_draws(gs.last(), instance, entity_id)
    }
}

/// Draws of instances in order; an instance whose model has no meshlets
/// draws nothing.
pub open spec fn frame_draws(
    instances: Seq<AnimatedInstanceView>,
    table: Map<Seq<char>, Seq<ModelMeshletsView>>,
) -> Seq<AnimatedDrawCommand>
    decreases instances.len(),
{
    if instances.len() == 0 {
        Seq::empty()
    } else {
        let n = instances.len() - 1;
        let x = instances.last();
        frame_draws(instances.drop_last(), table) + if table.contains_key(x.model_name) {
            groups_draws(table[x.model_name], n, x.entity_id)
        } else {
            Seq::empty()
        }
    }
}

pub open spec fn bone_total(instances: Seq<AnimatedInstanceView>) -> nat
    decreases instances.len(),
{
    if instances.len() == 0 {
        0
    } else {
        bone_total(instances.drop_last()) + instances.last().bone_matrix_count
    }
}

/// Builds the animated draw list of one frame.
pub fn build_animated_frame(instances: &Vec<AnimatedInstanceInfo>, model_meshlets: &NameTable<Vec<ModelMeshlets>>) -> (r: AnimatedFrame)
    requires
        model_meshlets.wf(),
        bone_total(instances_view(instances@)) <= usize::MAX,
    ensures
        r.draw_commands@ == frame_draws(instances_view(instances@), model_table_view(*model_meshlets)),
        r.bone_matrix_offsets@.len() == instances@.len(),
        forall|i: int|
            0 <= i < instances@.len() ==> #[trigger] r.bone_matrix_offsets@[i] == bone_total(
                instances_view(instances@).take(i),
            ) as u32,
{
    let ghost iv = instances_view(instances@);
    let ghost table = model_table_view(*model_meshlets);
    let mut draw_commands: Vec<AnimatedDrawCommand> = Vec::new();
    let mut offsets: Vec<u32> = Vec::new();
    let mut bones: usize = 0;
    let mut i: usize = 0;
    while i < instances.len()
        invariant
            i <= instances@.len(),
            iv == instances_view(instances@),
            table == model_table_view(*model_meshlets),
            model_meshlets.wf(),
            bone_total(iv) <= usize::MAX,
            bones == bone_total(iv.take(i as int)),
            offsets@.len() == i,
            forall|k: int| 0 <= k < i ==> #[trigger] offsets@[k] == bone_total(iv.take(k)) as u32,
            draw_commands@ == frame_draws(iv.take(i as int), table),
        decreases instances@.len() - i,
    {
        let instance = &instances[i];
        proof {
            lemma_bone_total_prefix(iv, i as int + 1);
            assert(iv.take(i as int + 1).drop_last() =~= iv.take(i as int));
            assert(iv.take(i as int + 1).last() == instance@);
        }
        offsets.push(#[verifier::truncate] (bones as u32));
        bones = bones + instance.bone_matrix_count;
        let ghost before = draw_commands@;
        match model_meshlets.get(&instance.model_name) {
            Some(groups) => {
                let ghost gs = groups_view(*groups);
                proof {
                    assert(table.contains_key(instance.model_name@));
                    assert(table[instance.model_name@] == gs);
                }
                let mut g: usize = 0;
                while g < groups.len()
                    invariant
                        g <= groups@.len(),
                        gs == groups_view(*groups),
                        i < instances@.len(),
                        draw_commands@ == before + groups_draws(gs.take(g as int), i as int, instance.entity_id),
                    decreases groups@.len() - g,
                {
                    let group = &groups[g];
                    let ghost before_group = draw_commands@;
                    let mut m: usize = 0;
                    while m < group.meshlet_indices.len()
                        invariant
                            m <= group.meshlet_indices@.len(),
                            i < instances@.len(),
                            draw_commands@ == before_group + group@.meshlet_indices.take(m as int).map_values(
                                |id: u32| draw_of(id, i as int, instance.entity_id, group.texture_id),
                            ),
                        decreases group.meshlet_indices@.len() - m,
                    {
                        let cmd = AnimatedDrawCommand {
                            meshlet_id: group.meshlet_indices[m],
                            bone_set_id: #[verifier::truncate] (i as u32),
                            transform_id: #[verifier::truncate] (i as u32),
                            entity_id: instance.entity_id,
                            texture_id: group.texture_id,
                        };
                        draw_commands.push(cmd);
                        proof {
                            assert(group@.meshlet_indices.take(m as int + 1) =~= group@.meshlet_indices.take(m as int).push(
                                group@.meshlet_indices[m as int],
                            ));
                            assert(draw_commands@ =~= before_group + group@.meshlet_indices.take(m as int + 1).map_values(
                                |id: u32| draw_of(id, i as int, instance.entity_id, group.texture_id),
                            ));
                        }
                        m = m + 1;
                    }
                    proof {
                        assert(group@.meshlet_indices.take(m as int) =~= group@.meshlet_indices);
                        assert(gs.take(g as int + 1).drop_last() =~= gs.take(g as int));
                        assert(gs.take(g as int + 1).last() == group@);
                        assert(draw_commands@ =~= before + groups_draws(gs.take(g as int + 1), i as int, instance.entity_id));
                    }
                    g = g + 1;
                }
                proof {
                    assert(gs.take(g as int) =~= gs);
                }
            },
            None => {
                proof {
                    assert(!table.contains_key(instance.model_name@));
                    assert(draw_commands@ =~= before + Seq::<AnimatedDrawCommand>::empty());
                }
            },
        }
        proof {
            assert(offsets@[i as int] == bone_total(iv.take(i as int)) as u32);
        }
        i = i + 1;
    }
    assert(iv.take(i as int) =~= iv);
    AnimatedFrame { draw_commands, bone_matrix_offsets: offsets }
}

proof fn lemma_bone_total_prefix(s: Seq<AnimatedInstanceView>, n: int)
    requires
        0 <= n <= s.len(),
    ensures
        bone_total(s.take(n)) <= bone_total(s),
    decreases s.len() - n,
{
    if n < s.len() {
        lemma_bone_total_prefix(s, n + 1);
        assert(s.take(n + 1).drop_last() =~= s.take(n));
    } else {
        assert(s.take(n) =~= s);
    }
}

/// Every draw command of one instance names a meshlet of the instance's
/// groups and the instance's own bone set.
proof fn lemma_groups_draws_in_range(gs: Seq<ModelMeshletsView>, instance: int, entity_id: u32, n: nat)
    requires
        groups_in_range(gs, n),
    ensures
        forall|k: int|
            0 <= k < groups_draws(gs, instance, entity_id).len() ==> {
                let d = #[trigger] groups_draws(gs, instance, entity_id)[k];
                &&& d.meshlet_id < n
                &&& d.bone_set_id == instance as u32
            },
    decreases gs.len(),
{
    if gs.len() > 0 {
        let rest = gs.drop_last();
        assert(groups_in_range(rest, n)) by {
            assert forall|i: int, k: int| 0 <= i < rest.len() && 0 <= k < rest[i].meshlet_indices.len() implies (
            #[trigger] rest[i].meshlet_indices[k]) < n by {
                assert(rest[i] == gs[i]);
            }
        }
        lemma_groups_draws_in_range(rest, instance, entity_id, n);
        let head = groups_draws(rest, instance, entity_id);
        let tail = group_draws(gs.last(), instance, entity_id);
        assert forall|k: int| 0 <= k < (head + tail).len() implies {
            let d = #[trigger] (head + tail)[k];
            &&& d.meshlet_id < n
            &&& d.bone_set_id == instance as u32
        } by {
            if k < head.len() {
                assert((head + tail)[k] == head[k]);
            } else {
                let j = k - head.len();
                assert((head + tail)[k] == tail[j]);
                assert(gs.last() == gs[gs.len() - 1]);
                assert(gs[gs.len() - 1].meshlet_indices[j] < n);
            }
        }
    }
}

/// When every group of the model table names existing meshlets, every draw
/// command of a frame names an existing meshlet and the bone set of an
/// instance of the frame.
pub proof fn lemma_frame_draws_in_range(
    instances: Seq<AnimatedInstanceView>,
    table: Map<Seq<char>, Seq<ModelMeshletsView>>,
    n: nat,
)
    requires
        instances.len() <= u32::MAX + 1,
        forall|name: Seq<char>| #[trigger] table.contains_key(name) ==> groups_in_range(table[name], n),
    ensures
        forall|k: int|
            0 <= k < frame_draws(instances, table).len() ==> {
                let d = #[trigger] frame_draws(instances, table)[k];
                &&& d.meshlet_id < n
                &&& d.bone_set_id < instances.len()
            },
    decreases instances.len(),
{
    if instances.len() > 0 {
        let rest = instances.drop_last();
        lemma_frame_draws_in_range(rest, table, n);
        let x = instances.last();
        let last = instances.len() - 1;
        let head = frame_draws(rest, table);
        let tail = if table.contains_key(x.model_name) {
            groups_draws(table[x.model_name], last, x.entity_id)
        } else {
            Seq::empty()
        };
        if table.contains_key(x.model_name) {
            lemma_groups_draws_in_range(table[x.model_name], last, x.entity_id, n);
        }
        assert(frame_draws(instances, table) == head + tail);
        assert forall|k: int| 0 <= k < (head + tail).len() implies {
            let d = #[trigger] (head + tail)[k];
            &&& d.meshlet_id < n
            &&& d.bone_set_id < instances.len()
        } by {
            if k < head.len() {
                assert((head + tail)[k] == head[k]);
            } else {
                let j = k - head.len();
                assert((head + tail)[k] == tail[j]);
                assert(tail[j].bone_set_id == last as u32);
            }
        }
    }
}

} // verus!
