//! The first vertex-pulling scene layout: meshes are loaded once into shared
//! vertex and index buffers, and every frame each model instance gets one
//! lookup entry per index, pointing at the instance and at the first pulled
//! vertex of that instance.
use crate::scene::MeshDescription;
use vstd::prelude::*;

verus! {

/// One lookup entry per pulled vertex.
#[derive(Clone, Copy, Debug, PartialEq, Eq)]
pub struct InstanceLookup {
    pub instance_id: u32,
    pub first_vertex_of_instance: u32,
}

/// Vertex and index counts of one loaded mesh, in file order.
#[derive(Clone, Copy, Debug, PartialEq, Eq)]
pub struct MeshCounts {
    pub vertex_count: usize,
    pub index_count: usize,
}

/// Descriptions of the loaded meshes; mesh `i` of the file keeps id `i`.
pub struct StaticMeshTable {
    pub mesh_descriptions: Vec<MeshDescription>,
}

pub open spec fn vertex_total(meshes: Seq<MeshCounts>) -> nat
    decreases meshes.len(),
{
    if meshes.len() == 0 {
        0
    } else {
        vertex_total(meshes.drop_last()) + meshes.last().vertex_count as nat
    }
}

pub open spec fn index_total(meshes: Seq<MeshCounts>) -> nat
    decreases meshes.len(),
{
    if meshes.len() == 0 {
        0
    } else {
        index_total(meshes.drop_last()) + meshes.last().index_count as nat
    }
}

/// Description of mesh `i`: its indices start after those of meshes `0..i`,
/// its vertices after theirs.
pub open spec fn described_mesh(meshes: Seq<MeshCounts>, i: int) -> MeshDescription {
    MeshDescription {
        index_count: meshes[i].index_count as u32,
        first_index: index_total(meshes.take(i)) as u32,
        base_vertex: vertex_total(meshes.take(i)) as i32,
        _padding: 0,
    }
}

/// Concatenates the meshes into the shared buffers, in file order.
pub fn load_mesh_table(meshes: &Vec<MeshCounts>) -> (r: StaticMeshTable)
    requires
        vertex_total(meshes@) <= i32::MAX,
        index_total(meshes@) <= u32::MAX,
    ensures
        r.mesh_descriptions@.len() == meshes@.len(),
        forall|i: int| 0 <= i < meshes@.len() ==> #[trigger] r.mesh_descriptions@[i] == described_mesh(meshes@, i),
{
    let mut descriptions: Vec<MeshDescription> = Vec::new();
    let mut vertex_base: usize = 0;
    let mut index_base: usize = 0;
    let mut i: usize = 0;
    while i < meshes.len()
        invariant
            i <= meshes@.len(),
            vertex_total(meshes@) <= i32::MAX,
            index_total(meshes@) <= u32::MAX,
            vertex_base == vertex_total(meshes@.take(i as int)),
            index_base == index_total(meshes@.take(i as int)),
            descriptions@.len() == i,
            forall|j: int| 0 <= j < i ==> #[trigger] descriptions@[j] == described_mesh(meshes@, j),
        decreases meshes@.len() - i,
    {
        proof {
            lemma_totals_prefix(meshes@, i as int + 1);
            assert(meshes@.take(i as int + 1).drop_last() =~= meshes@.take(i as int));
        }
        let m = meshes[i];
        descriptions.push(
            MeshDescription {
                index_count: m.index_count as u32,
                first_index: index_base as u32,
                base_vertex: vertex_base as i32,
                _padding: 0,
            },
        );
        vertex_base = vertex_base + m.vertex_count;
        index_base = index_base + m.index_count;
        i = i + 1;
    }
    StaticMeshTable { mesh_descriptions: descriptions }
}

proof fn lemma_totals_prefix(meshes: Seq<MeshCounts>, n: int)
    requires
        0 <= n <= meshes.len(),
    ensures
        vertex_total(meshes.take(n)) <= vertex_total(meshes),
        index_total(meshes.take(n)) <= index_total(meshes),
    decreases meshes.len() - n,
{
    if n < meshes.len() {
        lemma_totals_prefix(meshes, n + 1);
        assert(meshes.take(n + 1).drop_last() =~= meshes.take(n));
    } else {
        assert(meshes.take(n) =~= meshes);
    }
}

/// The mesh table lays the meshes out back to back: the first mesh starts
/// at vertex 0 and index 0, and each next mesh starts where the previous one
/// ends, after its vertices and its indices; every description keeps the
/// index count of its mesh.
pub proof fn lemma_mesh_table_back_to_back(meshes: Seq<MeshCounts>)
    requires
        vertex_total(meshes) <= i32::MAX,
        index_total(meshes) <= u32::MAX,
    ensures
        meshes.len() > 0 ==> described_mesh(meshes, 0).base_vertex == 0 && described_mesh(meshes, 0).first_index == 0,
        forall|i: int|
            0 <= i < meshes.len() ==> (#[trigger] described_mesh(meshes, i)).index_count == meshes[i].index_count,
        forall|i: int|
            0 <= i < meshes.len() - 1 ==> {
                &&& (#[trigger] described_mesh(meshes, i + 1)).base_vertex == described_mesh(meshes, i).base_vertex
                    + meshes[i].vertex_count
                &&& described_mesh(meshes, i + 1).first_index == described_mesh(meshes, i).first_index
                    + meshes[i].index_count
            },
{
    assert(meshes.take(0) =~= Seq::<MeshCounts>::empty());
    assert forall|i: int| 0 <= i < meshes.len() implies (#[trigger] described_mesh(meshes, i)).index_count
        == meshes[i].index_count by {
        lemma_totals_prefix(meshes, i + 1);
        assert(meshes.take(i + 1).drop_last() =~= meshes.take(i));
        assert(meshes.take(i + 1).last() == meshes[i]);
    }
    assert forall|i: int| 0 <= i < meshes.len() - 1 implies {
        &&& (#[trigger] described_mesh(meshes, i + 1)).base_vertex == described_mesh(meshes, i).base_vertex
            + meshes[i].vertex_count
        &&& described_mesh(meshes, i + 1).first_index == described_mesh(meshes, i).first_index + meshes[i].index_count
    } by {
        lemma_totals_prefix(meshes, i + 1);
        lemma_totals_prefix(meshes, i);
        assert(meshes.take(i + 1).drop_last() =~= meshes.take(i));
        assert(meshes.take(i + 1).last() == meshes[i]);
    }
}

/// Index count of the mesh each instance draws.
pub open spec fn instance_counts(mesh_ids: Seq<u32>, descriptions: Seq<MeshDescription>) -> Seq<u32> {
    mesh_ids.map_values(|id: u32| descriptions[id as int].index_count)
}

pub open spec fn count_total(counts: Seq<u32>) -> nat
    decreases counts.len(),
{
    if counts.len() == 0 {
        0
    } else {
        count_total(counts.drop_last()) + counts.last() as nat
    }
}

/// Lookup entries of instances `0..n`.
pub open spec fn instance_lookups(counts: Seq<u32>) -> Seq<InstanceLookup>
    decreases counts.len(),
{
    if counts.len() == 0 {
        Seq::empty()
    } else {
        let n = counts.len() - 1;
        instance_lookups(counts.drop_last()) + Seq::new(
            counts.last() as nat,
            |j: int| InstanceLookup { instance_id: n as u32, first_vertex_of_instance: count_total(counts.drop_last()) as u32 },
        )
    }
}

/// The frame's lookups hold one entry per pulled vertex, in instance order:
/// the entries of instance `k` follow those of the instances before it, and
/// each of them names instance `k` and the first vertex pulled for it, which
/// is the number of vertices pulled for the instances before it.
pub proof fn lemma_instance_lookups_per_vertex(counts: Seq<u32>)
    ensures
        instance_lookups(counts).len() == count_total(counts),
        forall|k: int, j: int|
            0 <= k < counts.len() && 0 <= j < #[trigger] counts[k] ==> #[trigger] instance_lookups(
                counts,
            )[count_total(counts.take(k)) + j] == (InstanceLookup {
                instance_id: k as u32,
                first_vertex_of_instance: count_total(counts.take(k)) as u32,
            }),
    decreases counts.len(),
{
    if counts.len() > 0 {
        let rest = counts.drop_last();
        let n = counts.len() - 1;
        lemma_instance_lookups_per_vertex(rest);
        assert(counts.take(n) =~= rest);
        assert forall|k: int, j: int|
            0 <= k < counts.len() && 0 <= j < #[trigger] counts[k] implies #[trigger] instance_lookups(
                counts,
            )[count_total(counts.take(k)) + j] == (InstanceLookup {
                instance_id: k as u32,
                first_vertex_of_instance: count_total(counts.take(k)) as u32,
            }) by {
            if k < n {
                assert(counts.take(k) =~= rest.take(k));
                assert(rest[k] == counts[k]);
                lemma_count_total_prefix(rest, k + 1);
                assert(rest.take(k + 1).drop_last() =~= rest.take(k));
                assert(rest.take(k + 1).last() == rest[k]);
            }
        }
    }
}

/// Lookup data of one frame.
pub struct FrameLookups {
    pub instance_lookups: Vec<InstanceLookup>,
    pub total_vertices_to_draw: u32,
}

/// Builds the frame's lookup entries for instances drawing the given meshes;
/// `None` when there is nothing to draw.
pub fn build_frame_lookups(mesh_ids: &Vec<u32>, table: &StaticMeshTable) -> (r: Option<FrameLookups>)
    requires
        forall|i: int| 0 <= i < mesh_ids@.len() ==> (#[trigger] mesh_ids@[i]) < table.mesh_descriptions@.len(),
        mesh_ids@.len() <= u32::MAX + 1,
        count_total(instance_counts(mesh_ids@, table.mesh_descriptions@)) <= u32::MAX,
    ensures
        match r {
            None => count_total(instance_counts(mesh_ids@, table.mesh_descriptions@)) == 0,
            Some(f) => {
                &&& count_total(instance_counts(mesh_ids@, table.mesh_descriptions@)) > 0
                &&& f.total_vertices_to_draw == count_total(instance_counts(mesh_ids@, table.mesh_descriptions@))
                &&& f.instance_lookups@ == instance_lookups(instance_counts(mesh_ids@, table.mesh_descriptions@))
            },
        },
{
    let ghost counts = instance_counts(mesh_ids@, table.mesh_descriptions@);
    let mut lookups: Vec<InstanceLookup> = Vec::new();
    let mut total: u32 = 0;
    let mut i: usize = 0;
    while i < mesh_ids.len()
        invariant
            i <= mesh_ids@.len(),
            counts == instance_counts(mesh_ids@, table.mesh_descriptions@),
            forall|k: int| 0 <= k < mesh_ids@.len() ==> (#[trigger] mesh_ids@[k]) < table.mesh_descriptions@.len(),
            mesh_ids@.len() <= u32::MAX + 1,
            count_total(counts) <= u32::MAX,
            total == count_total(counts.take(i as int)),
            lookups@ == instance_lookups(counts.take(i as int)),
        decreases mesh_ids@.len() - i,
    {
        proof {
            lemma_count_total_prefix(counts, i as int + 1);
            assert(counts.take(i as int + 1).drop_last() =~= counts.take(i as int));
        }
        let count = table.mesh_descriptions[mesh_ids[i] as usize].index_count;
        let first_vertex_of_instance = total;
        let ghost base = lookups@;
        let mut c: u32 = 0;
        while c < count
            invariant
                c <= count,
                i < mesh_ids@.len(),
                mesh_ids@.len() <= u32::MAX + 1,
                lookups@ == base + Seq::new(
                    c as nat,
                    |j: int| InstanceLookup { instance_id: i as u32, first_vertex_of_instance },
                ),
            decreases count - c,
        {
            lookups.push(InstanceLookup { instance_id: i as u32, first_vertex_of_instance });
            assert(lookups@ =~= base + Seq::new(
                (c + 1) as nat,
                |j: int| InstanceLookup { instance_id: i as u32, first_vertex_of_instance },
            ));
            c = c + 1;
        }
        proof {
            assert(counts.take(i as int + 1).last() == count);
            assert(lookups@ =~= instance_lookups(counts.take(i as int + 1)));
        }
        total = total + count;
        i = i + 1;
    }
    assert(counts.take(i as int) =~= counts);
    if mesh_ids.len() == 0 || total == 0 {
        return None;
    }
    Some(FrameLookups { instance_lookups: lookups, total_vertices_to_draw: total })
}

proof fn lemma_count_total_prefix(counts: Seq<u32>, n: int)
    requires
        0 <= n <= counts.len(),
    ensures
        count_total(counts.take(n)) <= count_total(counts),
    decreases counts.len() - n,
{
    if n < counts.len() {
        lemma_count_total_prefix(counts, n + 1);
        assert(counts.take(n + 1).drop_last() =~= counts.take(n));
    } else {
        assert(counts.take(n) =~= counts);
    }
}

/// One lookup per pulled vertex, each naming an instance of the frame and
/// that instance's first pulled vertex.
pub proof fn lemma_instance_lookups_cover(counts: Seq<u32>)
    requires
        counts.len() <= u32::MAX + 1,
        count_total(counts) <= u32::MAX,
    ensures
        instance_lookups(counts).len() == count_total(counts),
        forall|k: int|
            0 <= k < instance_lookups(counts).len() ==> {
                let l = #[trigger] instance_lookups(counts)[k];
                &&& l.instance_id < counts.len()
                &&& l.first_vertex_of_instance == count_total(counts.take(l.instance_id as int))
            },
    decreases counts.len(),
{
    if counts.len() > 0 {
        let rest = counts.drop_last();
        assert(count_total(rest) <= count_total(counts));
        lemma_instance_lookups_cover(rest);
        let n = counts.len() - 1;
        let tail = Seq::new(
            counts.last() as nat,
            |j: int| InstanceLookup { instance_id: n as u32, first_vertex_of_instance: count_total(rest) as u32 },
        );
        assert(instance_lookups(counts) == instance_lookups(rest) + tail);
        assert(counts.take(n) =~= rest);
        assert forall|k: int| 0 <= k < instance_lookups(counts).len() implies {
            let l = #[trigger] instance_lookups(counts)[k];
            &&& l.instance_id < counts.len()
            &&& l.first_vertex_of_instance == count_total(counts.take(l.instance_id as int))
        } by {
            if k < instance_lookups(rest).len() {
                let l = instance_lookups(rest)[k];
                assert(instance_lookups(counts)[k] == l);
                assert(counts.take(l.instance_id as int) =~= rest.take(l.instance_id as int));
            } else {
                let j = k - instance_lookups(rest).len();
                assert(instance_lookups(counts)[k] == tail[j]);
            }
        }
    }
}

} // verus!
