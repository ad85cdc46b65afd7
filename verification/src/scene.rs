//! Per-frame scene preparation for the single-pass, vertex-pulling renderer:
//! the loaded meshes are put in ascending id order, every instance that is
//! ready to draw is re-pointed at the dense position of its mesh, and one
//! lookup entry is made for every index the draw call will pull.
use vstd::prelude::*;

verus! {

/// The integer part of an instance's GPU record (its model matrix stays with
/// the caller, found again through the instance's source position).
#[derive(Clone, Copy, Debug, PartialEq, Eq)]
pub struct InstanceData {
    pub mesh_id: u32,
    pub texture_id: u32,
    pub texture_array_index: u32,
    pub index_count: u32,
}

/// Where a loaded mesh lives in the shared GPU buffers.
#[derive(Clone, Copy, Debug, PartialEq, Eq)]
pub struct GpuMeshInfo {
    pub index_count: u32,
    pub index_buffer_offset: u64,
    pub vertex_buffer_offset: u64,
}

/// Per-mesh record read by the shader.
#[derive(Clone, Copy, Debug, PartialEq, Eq)]
pub struct MeshDescription {
    pub index_count: u32,
    pub first_index: u32,
    pub base_vertex: i32,
    pub _padding: u32,
}

/// Maps one pulled vertex to its instance and to its position in the
/// instance's index range.
#[derive(Clone, Copy, Debug, PartialEq, Eq)]
pub struct InstanceLookup {
    pub instance_id: u32,
    pub local_vertex_index: u32,
}

/// Size in bytes of one vertex of the shared vertex buffer.
pub const VERTEX_SIZE: u64 = 48;

/// Size in bytes of one index of the shared index buffer.
pub const INDEX_SIZE: u64 = 4;

/// Everything the frame's single draw call needs.
pub struct SceneFrame {
    /// Mesh ids in ascending order; position = dense mesh index.
    pub mesh_ids: Vec<u64>,
    pub mesh_descriptions: Vec<MeshDescription>,
    /// Instances to draw, with dense mesh indices.
    pub instances: Vec<InstanceData>,
    /// For each instance to draw, its position in the input.
    pub source_indices: Vec<usize>,
    pub instance_lookups: Vec<InstanceLookup>,
    pub total_indices_to_draw: u32,
}

pub open spec fn mesh_description(info: GpuMeshInfo) -> MeshDescription {
    MeshDescription {
        index_count: info.index_count,
        first_index: (info.index_buffer_offset / INDEX_SIZE) as u32,
        base_vertex: (info.vertex_buffer_offset / VERTEX_SIZE) as i32,
        _padding: 0,
    }
}

pub open spec fn keys_of(meshes: Seq<(u64, GpuMeshInfo)>) -> Seq<u64> {
    meshes.map_values(|p: (u64, GpuMeshInfo)| p.0)
}

pub open spec fn distinct_keys(meshes: Seq<(u64, GpuMeshInfo)>) -> bool {
    forall|i: int, j: int| 0 <= i < j < meshes.len() ==> #[trigger] meshes[i].0 != #[trigger] meshes[j].0
}

pub open spec fn strictly_ascending(s: Seq<u64>) -> bool {
    forall|i: int, j: int| 0 <= i < j < s.len() ==> #[trigger] s[i] < #[trigger] s[j]
}

/// An instance is drawn when it has an index count other than `u32::MAX`
/// and its mesh is loaded.
pub open spec fn drawable(x: InstanceData, ids: Seq<u64>) -> bool {
    x.index_count != u32::MAX && ids.contains(x.mesh_id as u64)
}

/// The instances to draw, with their source positions and dense mesh ids.
pub open spec fn remapped(instances: Seq<InstanceData>, ids: Seq<u64>) -> Seq<(int, InstanceData)>
    decreases instances.len(),
{
    if instances.len() == 0 {
        Seq::empty()
    } else {
        let prev = remapped(instances.drop_last(), ids);
        let x = instances.last();
        if drawable(x, ids) {
            prev.push((instances.len() - 1, InstanceData { mesh_id: ids.index_of(x.mesh_id as u64) as u32, ..x }))
        } else {
            prev
        }
    }
}

/// The instances to draw are exactly the instances with a usable index
/// count whose mesh is loaded, each once, in input order; each keeps every
/// field of its source instance except the mesh id, which becomes the dense
/// position of that mesh among the loaded ids.
pub proof fn lemma_remapped_instances(instances: Seq<InstanceData>, ids: Seq<u64>)
    requires
        ids.len() <= u32::MAX + 1,
    ensures
        forall|k: int|
            0 <= k < remapped(instances, ids).len() ==> {
                let src = (#[trigger] remapped(instances, ids)[k]).0;
                let y = remapped(instances, ids)[k].1;
                &&& 0 <= src < instances.len()
                &&& instances[src].index_count != u32::MAX
                &&& ids.contains(instances[src].mesh_id as u64)
                &&& y.texture_id == instances[src].texture_id
                &&& y.texture_array_index == instances[src].texture_array_index
                &&& y.index_count == instances[src].index_count
                &&& (y.mesh_id as int) < ids.len()
                &&& ids[y.mesh_id as int] == instances[src].mesh_id as u64
            },
        forall|k1: int, k2: int|
            0 <= k1 < k2 < remapped(instances, ids).len() ==> (#[trigger] remapped(instances, ids)[k1]).0
                < (#[trigger] remapped(instances, ids)[k2]).0,
        forall|i: int|
            0 <= i < instances.len() && (#[trigger] instances[i]).index_count != u32::MAX && ids.contains(
                instances[i].mesh_id as u64,
            ) ==> exists|k: int| 0 <= k < remapped(instances, ids).len() && #[trigger] remapped(instances, ids)[k].0 == i,
    decreases instances.len(),
{
    if instances.len() > 0 {
        let rest = instances.drop_last();
        lemma_remapped_instances(rest, ids);
        let prev = remapped(rest, ids);
        let rem = remapped(instances, ids);
        let n = instances.len() - 1;
        let x = instances.last();
        assert forall|k: int| 0 <= k < prev.len() implies rem[k] == prev[k] && (#[trigger] prev[k]).0 < n
            && instances[prev[k].0] == rest[prev[k].0] by {}
        if drawable(x, ids) {
            let d = ids.index_of(x.mesh_id as u64);
            assert(0 <= d < ids.len() && ids[d] == x.mesh_id as u64);
            assert(rem[prev.len() as int].0 == n);
            assert(x == instances[n]);
        }
        assert forall|i: int|
            0 <= i < instances.len() && (#[trigger] instances[i]).index_count != u32::MAX && ids.contains(
                instances[i].mesh_id as u64,
            ) implies exists|k: int| 0 <= k < rem.len() && #[trigger] rem[k].0 == i by {
            if i < n {
                assert(rest[i] == instances[i]);
                let k = choose|k: int| 0 <= k < prev.len() && #[trigger] prev[k].0 == i;
                assert(rem[k].0 == i);
            } else {
                assert(rem[prev.len() as int].0 == i);
            }
        }
    }
}

/// One lookup per index of every instance, in instance order.
pub open spec fn lookups(instances: Seq<InstanceData>) -> Seq<InstanceLookup>
    decreases instances.len(),
{
    if instances.len() == 0 {
        Seq::empty()
    } else {
        lookups(instances.drop_last()) + Seq::new(
            instances.last().index_count as nat,
            |j: int| InstanceLookup { instance_id: (instances.len() - 1) as u32, local_vertex_index: j as u32 },
        )
    }
}

/// Sum of the index counts.
pub open spec fn index_total(instances: Seq<InstanceData>) -> nat
    decreases instances.len(),
{
    if instances.len() == 0 {
        0
    } else {
        index_total(instances.drop_last()) + instances.last().index_count as nat
    }
}

/// The lookups hold one entry per index of every instance, in instance
/// order: the entries of instance `k` follow those of the instances before
/// it, and its `j`-th entry names instance `k` and local index `j`.
pub proof fn lemma_lookups_per_index(instances: Seq<InstanceData>)
    ensures
        lookups(instances).len() == index_total(instances),
        forall|k: int, j: int|
            0 <= k < instances.len() && 0 <= j < (#[trigger] instances[k]).index_count ==> #[trigger] lookups(
                instances,
            )[index_total(instances.take(k)) + j] == (InstanceLookup { instance_id: k as u32, local_vertex_index: j as u32 }),
    decreases instances.len(),
{
    if instances.len() > 0 {
        let rest = instances.drop_last();
        let n = instances.len() - 1;
        lemma_lookups_per_index(rest);
        assert(instances.take(n) =~= rest);
        assert forall|k: int, j: int|
            0 <= k < instances.len() && 0 <= j < (#[trigger] instances[k]).index_count implies #[trigger] lookups(
                instances,
            )[index_total(instances.take(k)) + j] == (InstanceLookup { instance_id: k as u32, local_vertex_index: j as u32 }) by {
            if k < n {
                assert(instances.take(k) =~= rest.take(k));
                assert(rest[k] == instances[k]);
                lemma_index_total_prefix(rest, k + 1);
                assert(rest.take(k + 1).drop_last() =~= rest.take(k));
                assert(rest.take(k + 1).last() == rest[k]);
            }
        }
    }
}

pub open spec fn second<A, B>(p: (A, B)) -> B {
    p.1
}

pub open spec fn first<A, B>(p: (A, B)) -> A {
    p.0
}

/// The ids of the loaded meshes sorted ascending.
pub open spec fn is_sorted_ids(ids: Seq<u64>, meshes: Seq<(u64, GpuMeshInfo)>) -> bool {
    &&& strictly_ascending(ids)
    &&& ids.len() == meshes.len()
    &&& forall|k: u64| #[trigger] ids.contains(k) <==> keys_of(meshes).contains(k)
}

/// Sorts the loaded meshes by id (ids are distinct).
fn sort_meshes(meshes: &Vec<(u64, GpuMeshInfo)>) -> (r: Vec<(u64, GpuMeshInfo)>)
    requires
        distinct_keys(meshes@),
    ensures
        is_sorted_ids(keys_of(r@), meshes@),
        forall|j: int| 0 <= j < r@.len() ==> meshes@.contains(#[trigger] r@[j]),
{
    let mut r: Vec<(u64, GpuMeshInfo)> = Vec::new();
    let mut i: usize = 0;
    while i < meshes.len()
        invariant
            i <= meshes@.len(),
            distinct_keys(meshes@),
            r@.len() == i,
            strictly_ascending(keys_of(r@)),
            forall|k: u64| #[trigger] keys_of(r@).contains(k) <==> keys_of(meshes@.take(i as int)).contains(k),
            forall|j: int| 0 <= j < r@.len() ==> meshes@.contains(#[trigger] r@[j]),
        decreases meshes@.len() - i,
    {
        let (key, info) = meshes[i];
        let mut p: usize = 0;
        while p < r.len() && r[p].0 < key
            invariant
                p <= r@.len(),
                forall|q: int| 0 <= q < p ==> (#[trigger] r@[q]).0 < key,
            decreases r@.len() - p,
        {
            p = p + 1;
        }
        proof {
            // The new key differs from all keys already placed.
            assert forall|q: int| 0 <= q < r@.len() implies (#[trigger] r@[q]).0 != key by {
                assert(keys_of(r@)[q] == r@[q].0);
                assert(keys_of(r@).contains(r@[q].0));
                let m = choose|m: int| 0 <= m < i && #[trigger] keys_of(meshes@.take(i as int))[m] == r@[q].0;
                assert(meshes@[m].0 == r@[q].0);
            }
        }
        let ghost old_r = r@;
        r.insert(p, (key, info));
        proof {
            let ko = keys_of(old_r);
            let kn = keys_of(r@);
            assert(kn =~= ko.insert(p as int, key));
            assert(forall|q: int| 0 <= q < ko.len() ==> ko[q] != key);
            assert forall|x: int| 0 <= x < kn.len() implies #[trigger] kn[x] == (if x < p {
                ko[x]
            } else if x == p {
                key
            } else {
                ko[x - 1]
            }) by {}
            if p < old_r.len() {
                assert(ko[p as int] >= key);
                assert(ko[p as int] != key);
            }
            assert forall|a: int, b: int| 0 <= a < b < kn.len() implies #[trigger] kn[a] < #[trigger] kn[b] by {
                if a < p && b > p {
                    assert(ko[a] < key);
                    assert(ko[p as int] <= ko[b - 1]);
                } else if a == p && b > p {
                    assert(ko[p as int] <= ko[b - 1]);
                }
            }
            assert(meshes@.take(i as int + 1) =~= meshes@.take(i as int).push(meshes@[i as int]));
            assert(keys_of(meshes@.take(i as int + 1)) =~= keys_of(meshes@.take(i as int)).push(key));
            assert forall|k: u64| #[trigger] kn.contains(k) <==> keys_of(meshes@.take(i as int + 1)).contains(k) by {
                if kn.contains(k) && k != key {
                    let a = choose|a: int| 0 <= a < kn.len() && #[trigger] kn[a] == k;
                    if a < p {
                        assert(ko[a] == k);
                    } else {
                        assert(ko[a - 1] == k);
                    }
                    assert(ko.contains(k));
                    assert(keys_of(meshes@.take(i as int)).contains(k));
                    let b = choose|b: int| 0 <= b < i && #[trigger] keys_of(meshes@.take(i as int))[b] == k;
                    assert(keys_of(meshes@.take(i as int + 1))[b] == k);
                }
                if keys_of(meshes@.take(i as int + 1)).contains(k) && k != key {
                    let a = choose|a: int| 0 <= a < i + 1 && #[trigger] keys_of(meshes@.take(i as int + 1))[a] == k;
                    assert(keys_of(meshes@.take(i as int))[a] == k);
                    assert(ko.contains(k));
                    let b = choose|b: int| 0 <= b < old_r.len() && #[trigger] ko[b] == k;
                    if b < p {
                        assert(kn[b] == k);
                    } else {
                        assert(kn[b + 1] == k);
                    }
                }
                if k == key {
                    assert(kn[p as int] == key);
                    assert(keys_of(meshes@.take(i as int + 1))[i as int] == key);
                }
            }
            assert forall|j: int| 0 <= j < r@.len() implies meshes@.contains(#[trigger] r@[j]) by {
                if j < p {
                    assert(r@[j] == old_r[j]);
                } else if j > p {
                    assert(r@[j] == old_r[j - 1]);
                } else {
                    assert(meshes@[i as int] == r@[j]);
                }
            }
        }
        i = i + 1;
    }
    assert(meshes@.take(i as int) =~= meshes@);
    r
}

/// Position of `key` in an ascending id list.
fn find_sorted(ids: &Vec<u64>, key: u64) -> (r: Option<usize>)
    requires
        strictly_ascending(ids@),
    ensures
        match r {
            Some(i) => ids@.contains(key) && i as int == ids@.index_of(key),
            None => !ids@.contains(key),
        },
{
    let mut lo: usize = 0;
    let mut hi: usize = ids.len();
    while lo < hi
        invariant
            strictly_ascending(ids@),
            lo <= hi <= ids@.len(),
            forall|q: int| 0 <= q < lo ==> ids@[q] < key,
            forall|q: int| hi <= q < ids@.len() ==> ids@[q] > key,
        decreases hi - lo,
    {
        let mid = lo + (hi - lo) / 2;
        if ids[mid] < key {
            lo = mid + 1;
        } else if ids[mid] > key {
            hi = mid;
        } else {
            proof {
                ids@.index_of_first_ensures(key);
                assert(ids@.contains(key));
                lemma_index_of_unique(ids@, key, mid as int);
            }
            return Some(mid);
        }
    }
    proof {
        assert(!ids@.contains(key)) by {
            if ids@.contains(key) {
                let q = choose|q: int| 0 <= q < ids@.len() && ids@[q] == key;
                assert(ids@[q] == key);
            }
        }
    }
    None
}

proof fn lemma_index_of_unique(s: Seq<u64>, key: u64, q: int)
    requires
        strictly_ascending(s),
        0 <= q < s.len(),
        s[q] == key,
    ensures
        s.contains(key),
        s.index_of(key) == q,
{
    assert(s.contains(key));
    let p = s.index_of(key);
    s.index_of_first_ensures(key);
    if p != q {
        if p < q {
            assert(s[p] < s[q]);
        } else {
            assert(s[q] < s[p]);
        }
    }
}

/// Each mesh's description sits at the dense position of its id.
pub open spec fn descriptions_match(ids: Seq<u64>, descriptions: Seq<MeshDescription>, meshes: Seq<(u64, GpuMeshInfo)>) -> bool {
    &&& descriptions.len() == ids.len()
    &&& forall|m: int|
        0 <= m < meshes.len() ==> #[trigger] descriptions[ids.index_of(meshes[m].0)] == mesh_description(meshes[m].1)
}

/// Prepares the frame's draw data.  Returns `None` when nothing is to be
/// drawn: no instance has a usable index count and a loaded mesh.
pub fn prepare_scene_frame(instances: &Vec<InstanceData>, meshes: &Vec<(u64, GpuMeshInfo)>) -> (r: Option<SceneFrame>)
    requires
        distinct_keys(meshes@),
        instances@.len() <= u32::MAX + 1,
        forall|ids: Seq<u64>|
            #![trigger is_sorted_ids(ids, meshes@)]
            is_sorted_ids(ids, meshes@) ==> index_total(remapped(instances@, ids).map_values(|p: (int, InstanceData)| p.1))
                <= u32::MAX,
    ensures
        match r {
            None => forall|ids: Seq<u64>|
                #![trigger is_sorted_ids(ids, meshes@)]
                is_sorted_ids(ids, meshes@) ==> remapped(instances@, ids).len() == 0,
            Some(f) => {
                let rem = remapped(instances@, f.mesh_ids@);
                let drawn = rem.map_values(|p: (int, InstanceData)| p.1);
                &&& is_sorted_ids(f.mesh_ids@, meshes@)
                &&& descriptions_match(f.mesh_ids@, f.mesh_descriptions@, meshes@)
                &&& rem.len() > 0
                &&& f.instances@ == drawn
                &&& f.source_indices@ == rem.map_values(|p: (int, InstanceData)| p.0 as usize)
                &&& f.instance_lookups@ == lookups(drawn)
                &&& f.total_indices_to_draw == index_total(drawn)
            },
        },
{
    let sorted = sort_meshes(meshes);
    let mut mesh_ids: Vec<u64> = Vec::new();
    let mut mesh_descriptions: Vec<MeshDescription> = Vec::new();
    let mut j: usize = 0;
    while j < sorted.len()
        invariant
            j <= sorted@.len(),
            mesh_ids@ == keys_of(sorted@).take(j as int),
            mesh_descriptions@.len() == j,
            forall|q: int|
                0 <= q < j ==> #[trigger] mesh_descriptions@[q] == mesh_description(sorted@[q].1),
        decreases sorted@.len() - j,
    {
        let (id, info) = sorted[j];
        mesh_ids.push(id);
        #[verifier::truncate]
        let first_index = (info.index_buffer_offset / INDEX_SIZE) as u32;
        #[verifier::truncate]
        let base_vertex = (info.vertex_buffer_offset / VERTEX_SIZE) as i32;
        mesh_descriptions.push(MeshDescription { index_count: info.index_count, first_index, base_vertex, _padding: 0 });
        assert(mesh_ids@ =~= keys_of(sorted@).take(j as int + 1));
        j = j + 1;
    }
    assert(mesh_ids@ =~= keys_of(sorted@));
    let mesh_ids = mesh_ids;
    let mesh_descriptions = mesh_descriptions;
    let ghost ids = mesh_ids@;
    proof {
        assert forall|m: int| 0 <= m < meshes@.len() implies #[trigger] mesh_descriptions@[ids.index_of(meshes@[m].0)]
            == mesh_description(meshes@[m].1) by {
            let key = meshes@[m].0;
            assert(keys_of(meshes@)[m] == key);
            assert(ids.contains(key));
            let q = choose|q: int| 0 <= q < ids.len() && ids[q] == key;
            lemma_index_of_unique(ids, key, q);
            assert(keys_of(sorted@)[q] == sorted@[q].0);
            assert(meshes@.contains(sorted@[q]));
            let m2 = choose|m2: int| 0 <= m2 < meshes@.len() && meshes@[m2] == sorted@[q];
            if m2 != m {
                if m2 < m {
                    assert(meshes@[m2].0 != meshes@[m].0);
                } else {
                    assert(meshes@[m].0 != meshes@[m2].0);
                }
            }
        }
        assert(mesh_descriptions@.len() == ids.len());
        assert(descriptions_match(ids, mesh_descriptions@, meshes@));
    }

    let mut drawn: Vec<InstanceData> = Vec::new();
    let mut source_indices: Vec<usize> = Vec::new();
    let mut i: usize = 0;
    while i < instances.len()
        invariant
            i <= instances@.len(),
            instances@.len() <= u32::MAX + 1,
            mesh_ids@ == ids,
            strictly_ascending(ids),
            is_sorted_ids(ids, meshes@),
            descriptions_match(ids, mesh_descriptions@, meshes@),
            drawn@ == remapped(instances@.take(i as int), ids).map_values(|p: (int, InstanceData)| p.1),
            source_indices@ == remapped(instances@.take(i as int), ids).map_values(|p: (int, InstanceData)| p.0 as usize),
        decreases instances@.len() - i,
    {
        let x = instances[i];
        proof {
            assert(instances@.take(i as int + 1).drop_last() =~= instances@.take(i as int));
            assert(instances@.take(i as int + 1).last() == x);
        }
        let ghost prev = remapped(instances@.take(i as int), ids);
        proof {
            assert(remapped(instances@.take(i as int + 1), ids) == (if drawable(x, ids) {
                prev.push((i as int, InstanceData { mesh_id: ids.index_of(x.mesh_id as u64) as u32, ..x }))
            } else {
                prev
            }));
        }
        if x.index_count != u32::MAX {
            match find_sorted(&mesh_ids, x.mesh_id as u64) {
                Some(dense) => {
                    let y = InstanceData { mesh_id: dense as u32, ..x };
                    drawn.push(y);
                    source_indices.push(i);
                    proof {
                        assert(drawable(x, ids));
                        assert(dense as int == ids.index_of(x.mesh_id as u64));
                        let pair = (i as int, InstanceData { mesh_id: ids.index_of(x.mesh_id as u64) as u32, ..x });
                        assert(pair.1 == y);
                        assert(prev.push(pair).map_values(|p: (int, InstanceData)| p.1) =~= prev.map_values(
                            |p: (int, InstanceData)| p.1,
                        ).push(y));
                        assert(prev.push(pair).map_values(|p: (int, InstanceData)| p.0 as usize) =~= prev.map_values(
                            |p: (int, InstanceData)| p.0 as usize,
                        ).push(i));
                        assert(drawn@ =~= remapped(instances@.take(i as int + 1), ids).map_values(|p: (int, InstanceData)| p.1));
                        assert(source_indices@ =~= remapped(instances@.take(i as int + 1), ids).map_values(
                            |p: (int, InstanceData)| p.0 as usize,
                        ));
                    }
                },
                None => {},
            }
        }
        i = i + 1;
    }
    assert(instances@.take(i as int) =~= instances@);
    proof {
        assert(is_sorted_ids(ids, meshes@));
        lemma_remapped_len(instances@, ids);
    }
    if drawn.len() == 0 {
        proof {
            lemma_sorted_ids_unique(ids, meshes@);
        }
        return None;
    }
    let mut instance_lookups: Vec<InstanceLookup> = Vec::new();
    let mut total: u32 = 0;
    let mut k: usize = 0;
    while k < drawn.len()
        invariant
            k <= drawn@.len(),
            drawn@.len() <= instances@.len(),
            instances@.len() <= u32::MAX + 1,
            index_total(drawn@) <= u32::MAX,
            is_sorted_ids(mesh_ids@, meshes@),
            descriptions_match(mesh_ids@, mesh_descriptions@, meshes@),
            drawn@ == remapped(instances@, mesh_ids@).map_values(|p: (int, InstanceData)| p.1),
            source_indices@ == remapped(instances@, mesh_ids@).map_values(|p: (int, InstanceData)| p.0 as usize),
            instance_lookups@ == lookups(drawn@.take(k as int)),
            total == index_total(drawn@.take(k as int)),
        decreases drawn@.len() - k,
    {
        let count = drawn[k].index_count;
        let mut c: u32 = 0;
        let ghost base = instance_lookups@;
        while c < count
            invariant
                c <= count,
                k < drawn@.len(),
                drawn@.len() <= u32::MAX + 1,
                instance_lookups@ == base + Seq::new(
                    c as nat,
                    |j: int| InstanceLookup { instance_id: k as u32, local_vertex_index: j as u32 },
                ),
            decreases count - c,
        {
            instance_lookups.push(InstanceLookup { instance_id: k as u32, local_vertex_index: c });
            assert(instance_lookups@ =~= base + Seq::new(
                (c + 1) as nat,
                |j: int| InstanceLookup { instance_id: k as u32, local_vertex_index: j as u32 },
            ));
            c = c + 1;
        }
        proof {
            assert(drawn@.take(k as int + 1).drop_last() =~= drawn@.take(k as int));
            assert(drawn@.take(k as int + 1).last() == drawn@[k as int]);
            lemma_index_total_prefix(drawn@, k as int + 1);
        }
        total = total + count;
        k = k + 1;
    }
    assert(drawn@.take(k as int) =~= drawn@);
    let ghost rem = remapped(instances@, mesh_ids@);
    assert(is_sorted_ids(mesh_ids@, meshes@));
    assert(rem.len() > 0);
    assert(drawn@ == rem.map_values(|p: (int, InstanceData)| p.1));
    assert(instance_lookups@ == lookups(drawn@));
    assert(total == index_total(drawn@));
    Some(SceneFrame { mesh_ids, mesh_descriptions, instances: drawn, source_indices, instance_lookups, total_indices_to_draw: total })
}

proof fn lemma_remapped_len(instances: Seq<InstanceData>, ids: Seq<u64>)
    ensures
        remapped(instances, ids).len() <= instances.len(),
    decreases instances.len(),
{
    if instances.len() > 0 {
        lemma_remapped_len(instances.drop_last(), ids);
    }
}

/// Sums over a prefix never exceed the sum over the whole list.
pub proof fn lemma_index_total_prefix(s: Seq<InstanceData>, n: int)
    requires
        0 <= n <= s.len(),
    ensures
        index_total(s.take(n)) <= index_total(s),
    decreases s.len() - n,
{
    if n < s.len() {
        lemma_index_total_prefix(s, n + 1);
        assert(s.take(n + 1).drop_last() =~= s.take(n));
    } else {
        assert(s.take(n) =~= s);
    }
}

/// The ascending id list of a set of distinct keys is unique.
pub proof fn lemma_sorted_ids_unique(ids: Seq<u64>, meshes: Seq<(u64, GpuMeshInfo)>)
    requires
        is_sorted_ids(ids, meshes),
    ensures
        forall|other: Seq<u64>| #![trigger is_sorted_ids(other, meshes)] is_sorted_ids(other, meshes) ==> other == ids,
{
    assert forall|other: Seq<u64>| #![trigger is_sorted_ids(other, meshes)] is_sorted_ids(other, meshes) implies other
        == ids by {
        lemma_ascending_same_elements(ids, other);
    }
}

proof fn lemma_ascending_same_elements(a: Seq<u64>, b: Seq<u64>)
    requires
        strictly_ascending(a),
        strictly_ascending(b),
        a.len() == b.len(),
        forall|k: u64| #[trigger] a.contains(k) <==> b.contains(k),
    ensures
        a == b,
    decreases a.len(),
{
    if a.len() > 0 {
        let n = a.len() - 1;
        // The largest elements agree.
        assert(a.contains(a[n]));
        assert(b.contains(b[n]));
        assert(b.contains(a[n]));
        assert(a.contains(b[n]));
        let p = choose|p: int| 0 <= p < b.len() && b[p] == a[n];
        let q = choose|q: int| 0 <= q < a.len() && a[q] == b[n];
        if p < n {
            assert(b[p] < b[n]);
            assert(a[q] <= a[n]);
        }
        assert(a[n] == b[n]);
        assert forall|k: u64| #[trigger] a.drop_last().contains(k) <==> b.drop_last().contains(k) by {
            if a.drop_last().contains(k) {
                let i = choose|i: int| 0 <= i < n && a.drop_last()[i] == k;
                assert(a[i] < a[n]);
                assert(a.contains(a[i]));
                assert(b.contains(k));
                let j = choose|j: int| 0 <= j < b.len() && b[j] == k;
                if j == n {
                    assert(false);
                }
                assert(b.drop_last()[j] == k);
            }
            if b.drop_last().contains(k) {
                let i = choose|i: int| 0 <= i < n && b.drop_last()[i] == k;
                assert(b[i] < b[n]);
                assert(b.contains(b[i]));
                assert(a.contains(k));
                let j = choose|j: int| 0 <= j < a.len() && a[j] == k;
                if j == n {
                    assert(false);
                }
                assert(a.drop_last()[j] == k);
            }
        }
        lemma_ascending_same_elements(a.drop_last(), b.drop_last());
        assert(a =~= a.drop_last().push(a[n]));
        assert(b =~= b.drop_last().push(b[n]));
    } else {
        assert(a =~= b);
    }
}

/// Every pulled vertex of the frame is accounted for: there is one lookup
/// per index of the instances drawn, and each names a drawn instance and a
/// position inside that instance's index range.
pub proof fn lemma_lookups_cover_draws(instances: Seq<InstanceData>)
    requires
        instances.len() <= u32::MAX + 1,
    ensures
        lookups(instances).len() == index_total(instances),
        forall|k: int|
            0 <= k < lookups(instances).len() ==> {
                let l = #[trigger] lookups(instances)[k];
                &&& l.instance_id < instances.len()
                &&& l.local_vertex_index < instances[l.instance_id as int].index_count
            },
    decreases instances.len(),
{
    if instances.len() > 0 {
        let rest = instances.drop_last();
        lemma_lookups_cover_draws(rest);
        let n = instances.len() - 1;
        let tail = Seq::new(
            instances.last().index_count as nat,
            |j: int| InstanceLookup { instance_id: n as u32, local_vertex_index: j as u32 },
        );
        assert(lookups(instances) == lookups(rest) + tail);
        assert forall|k: int| 0 <= k < lookups(instances).len() implies {
            let l = #[trigger] lookups(instances)[k];
            &&& l.instance_id < instances.len()
            &&& l.local_vertex_index < instances[l.instance_id as int].index_count
        } by {
            if k < lookups(rest).len() {
                let l = lookups(rest)[k];
                assert(lookups(instances)[k] == l);
                assert(instances[l.instance_id as int] == rest[l.instance_id as int]);
            } else {
                let j = k - lookups(rest).len();
                assert(lookups(instances)[k] == tail[j]);
                assert(instances[n] == instances.last());
            }
        }
    }
}

} // verus!
