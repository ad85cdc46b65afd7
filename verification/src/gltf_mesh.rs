//! Decisions of the glTF importer that do not depend on floating point:
//! vertex de-duplication by index, RGB to RGBA pixel expansion, the parent
//! of each skeleton joint, the root nodes of a scene-less document, and which
//! animation channels target a bone; whether a document is imported as an
//! animated model, the skin its skeleton comes from, and the errors of that
//! import.
use vstd::hash_map::HashMapWithView;
use crate::gltf_textures::{decimal, push_decimal};
use vstd::prelude::*;

verus! {

/// Distinct values of `s` in order of first occurrence.
pub open spec fn first_occurrences(s: Seq<u32>) -> Seq<u32>
    decreases s.len(),
{
    if s.len() == 0 {
        Seq::empty()
    } else {
        let d = first_occurrences(s.drop_last());
        if d.contains(s.last()) {
            d
        } else {
            d.push(s.last())
        }
    }
}

pub open spec fn no_duplicates(s: Seq<u32>) -> bool {
    forall|i: int, j: int| 0 <= i < j < s.len() ==> s[i] != s[j]
}

/// Source positions of the de-duplicated vertices, and the index list
/// rewritten to point at them.
pub struct DedupIndices {
    pub unique_sources: Vec<u32>,
    pub remapped: Vec<u32>,
}

proof fn lemma_push_contains(s: Seq<u32>, v: u32, x: u32)
    ensures
        s.push(v).contains(x) <==> (s.contains(x) || x == v),
{
    if s.contains(x) {
        let i = choose|i: int| 0 <= i < s.len() && s[i] == x;
        assert(s.push(v)[i] == x);
    }
    if x == v {
        assert(s.push(v)[s.len() as int] == x);
    }
    if s.push(v).contains(x) && x != v {
        let i = choose|i: int| 0 <= i < s.len() + 1 && s.push(v)[i] == x;
        assert(s[i] == x);
    }
}

proof fn lemma_first_occurrences(s: Seq<u32>)
    ensures
        no_duplicates(first_occurrences(s)),
        forall|x: u32| #[trigger] first_occurrences(s).contains(x) <==> s.contains(x),
    decreases s.len(),
{
    if s.len() > 0 {
        let t = s.drop_last();
        let l = s.last();
        lemma_first_occurrences(t);
        let d = first_occurrences(t);
        assert(s =~= t.push(l));
        assert forall|x: u32| #[trigger] first_occurrences(s).contains(x) <==> s.contains(x) by {
            lemma_push_contains(t, l, x);
            lemma_push_contains(d, l, x);
        }
        if !d.contains(l) {
            assert forall|i: int, j: int| 0 <= i < j < d.len() + 1 implies d.push(l)[i] != d.push(l)[j] by {
                if j == d.len() {
                    assert(d.push(l)[i] == d[i]);
                    if d[i] == l {
                        assert(d.contains(l));
                    }
                }
            }
        }
    }
}


/// Distinct `u32` values number at most 2^32.
proof fn lemma_distinct_u32_bound(s: Seq<u32>)
    requires
        no_duplicates(s),
    ensures
        s.len() <= 0x1_0000_0000,
{
    let m = s.map_values(|x: u32| x as int);
    assert(m.no_duplicates()) by {
        assert forall|i: int, j: int| 0 <= i < m.len() && 0 <= j < m.len() && i != j implies m[i] != m[j] by {
            if i < j {
                assert(s[i] != s[j]);
            } else {
                assert(s[j] != s[i]);
            }
        }
    }
    m.unique_seq_to_set();
    let range = vstd::set_lib::set_int_range(0, 0x1_0000_0000);
    vstd::set_lib::lemma_int_range(0, 0x1_0000_0000);
    assert(m.to_set().subset_of(range)) by {
        assert forall|v: int| m.to_set().contains(v) implies range.contains(v) by {
            let k = choose|k: int| 0 <= k < m.len() && m[k] == v;
            assert(m[k] == s[k] as int);
        }
    }
    vstd::set_lib::lemma_len_subset(m.to_set(), range);
}

/// Rewrites an index list so that each distinct index becomes one vertex,
/// numbered in order of first use, the way the importer's vertex map does.
/// (The skinned importer keys its map by index, joints and quantized weights,
/// but joints and weights are read at that same index, so the key is the
/// index.)
pub fn dedup_indices(indices: &Vec<u32>) -> (r: DedupIndices)
    ensures
        r.unique_sources@ == first_occurrences(indices@),
        r.remapped@.len() == indices@.len(),
        forall|i: int|
            0 <= i < indices@.len() ==> #[trigger] r.remapped@[i] as int == first_occurrences(indices@).index_of(
                indices@[i],
            ),
{
    broadcast use vstd::std_specs::hash::group_hash_axioms;

    let mut map: HashMapWithView<u32, u32> = HashMapWithView::new();
    let mut unique: Vec<u32> = Vec::new();
    let mut remapped: Vec<u32> = Vec::new();
    let mut i: usize = 0;
    while i < indices.len()
        invariant
            i <= indices@.len(),
            unique@ == first_occurrences(indices@.take(i as int)),
            no_duplicates(unique@),
            unique@.len() <= i,
            forall|x: u32| #[trigger] map@.contains_key(x) <==> unique@.contains(x),
            forall|k: int| 0 <= k < unique@.len() ==> map@[#[trigger] unique@[k]] == k,
            remapped@.len() == i,
            forall|j: int| 0 <= j < i ==> #[trigger] remapped@[j] as int == unique@.index_of(indices@[j]),
        decreases indices@.len() - i,
    {
        let idx = indices[i];
        proof {
            assert(indices@.take(i as int + 1).drop_last() =~= indices@.take(i as int));
            assert(indices@.take(i as int + 1).last() == idx);
            lemma_first_occurrences(indices@.take(i as int));
        }
        let ghost old_unique = unique@;
        match map.get(&idx) {
            Some(v) => {
                let v = *v;
                proof {
                    assert(unique@.contains(idx));
                    let k = choose|k: int| 0 <= k < unique@.len() && unique@[k] == idx;
                    assert(map@[unique@[k]] == k);
                    lemma_index_of_distinct(unique@, idx, k);
                }
                remapped.push(v);
            },
            None => {
                proof {
                    assert(!unique@.contains(idx));
                    let ext = unique@.push(idx);
                    assert forall|a: int, b: int| 0 <= a < b < ext.len() implies ext[a] != ext[b] by {
                        if b == ext.len() - 1 {
                            if ext[a] == idx {
                                assert(unique@[a] == idx);
                            }
                        } else {
                            assert(ext[a] == unique@[a] && ext[b] == unique@[b]);
                        }
                    }
                    lemma_distinct_u32_bound(ext);
                }
                let id = unique.len() as u32;
                unique.push(idx);
                map.insert(idx, id);
                proof {
                    assert(!old_unique.contains(idx));
                    assert forall|a: int, b: int| 0 <= a < b < unique@.len() implies unique@[a] != unique@[b] by {
                        if b == unique@.len() - 1 {
                            assert(old_unique.contains(unique@[a]) || a >= old_unique.len());
                            if unique@[a] == idx {
                                assert(old_unique[a] == idx);
                            }
                        }
                    }
                    assert forall|x: u32| #[trigger] map@.contains_key(x) <==> unique@.contains(x) by {
                        if x == idx {
                            assert(unique@[unique@.len() - 1] == idx);
                        } else if unique@.contains(x) {
                            let k = choose|k: int| 0 <= k < unique@.len() && unique@[k] == x;
                            assert(old_unique[k] == x);
                        } else if old_unique.contains(x) {
                            let k = choose|k: int| 0 <= k < old_unique.len() && old_unique[k] == x;
                            assert(unique@[k] == x);
                        }
                    }
                    assert forall|k: int| 0 <= k < unique@.len() implies map@[#[trigger] unique@[k]] == k by {
                        if k < old_unique.len() {
                            assert(unique@[k] == old_unique[k]);
                            assert(old_unique[k] != idx) by {
                                if old_unique[k] == idx {
                                    assert(old_unique.contains(idx));
                                }
                            }
                            assert(map@[old_unique[k]] == k);
                        }
                    }
                    lemma_index_of_distinct(unique@, idx, unique@.len() - 1);
                    assert forall|j: int| 0 <= j < i implies #[trigger] remapped@[j] as int == unique@.index_of(
                        indices@[j],
                    ) by {
                        let x = indices@[j];
                        assert(indices@.take(i as int)[j] == x);
                        assert(indices@.take(i as int).contains(x));
                        assert(old_unique.contains(x));
                        let k = choose|k: int| 0 <= k < old_unique.len() && old_unique[k] == x;
                        lemma_index_of_distinct(old_unique, x, k);
                        assert(unique@[k] == x);
                        lemma_index_of_distinct(unique@, x, k);
                    }
                }
                remapped.push(id);
            },
        }
        i = i + 1;
    }
    assert(indices@.take(i as int) =~= indices@);
    DedupIndices { unique_sources: unique, remapped }
}

proof fn lemma_index_of_distinct(s: Seq<u32>, x: u32, k: int)
    requires
        no_duplicates(s),
        0 <= k < s.len(),
        s[k] == x,
    ensures
        s.contains(x),
        s.index_of(x) == k,
{
    assert(s.contains(x));
    s.index_of_first_ensures(x);
    let p = s.index_of(x);
    if p != k {
        if p < k {
            assert(s[p] != s[k]);
        } else {
            assert(s[k] != s[p]);
        }
    }
}

/// De-duplication loses nothing: every rewritten index selects a vertex made
/// from the index it replaces, and no source index is used twice.
pub proof fn lemma_dedup_round_trip(indices: Seq<u32>, unique: Seq<u32>, remapped: Seq<u32>)
    requires
        unique == first_occurrences(indices),
        remapped.len() == indices.len(),
        forall|i: int| 0 <= i < indices.len() ==> #[trigger] remapped[i] as int == first_occurrences(indices).index_of(indices[i]),
    ensures
        no_duplicates(unique),
        forall|i: int| 0 <= i < indices.len() ==> (#[trigger] remapped[i]) < unique.len() && unique[remapped[i] as int] == indices[i],
{
    lemma_first_occurrences(indices);
    assert forall|i: int| 0 <= i < indices.len() implies (#[trigger] remapped[i]) < unique.len() && unique[remapped[i] as int]
        == indices[i] by {
        assert(indices.contains(indices[i]));
        assert(unique.contains(indices[i]));
        unique.index_of_first_ensures(indices[i]);
    }
}

/// RGBA pixels from RGB ones: each group of three bytes (the last group may
/// be shorter) is followed by an opaque alpha byte.
pub open spec fn rgba_from_rgb(p: Seq<u8>) -> Seq<u8>
    decreases p.len(),
{
    if p.len() == 0 {
        Seq::empty()
    } else if p.len() <= 3 {
        p.push(255u8)
    } else {
        p.take(3).push(255u8) + rgba_from_rgb(p.skip(3))
    }
}

proof fn lemma_rgba_append(a: Seq<u8>, b: Seq<u8>)
    requires
        a.len() % 3 == 0,
    ensures
        rgba_from_rgb(a + b) == rgba_from_rgb(a) + rgba_from_rgb(b),
    decreases a.len(),
{
    if a.len() == 0 {
        assert(a + b =~= b);
        assert(rgba_from_rgb(a) =~= Seq::<u8>::empty());
        assert(rgba_from_rgb(a) + rgba_from_rgb(b) =~= rgba_from_rgb(b));
    } else {
        lemma_rgba_append(a.skip(3), b);
        assert((a + b).skip(3) =~= a.skip(3) + b);
        assert((a + b).take(3) =~= a.take(3));
        if a.len() == 3 {
            assert(a.skip(3) =~= Seq::<u8>::empty());
            assert(a.skip(3) + b =~= b);
            assert(a.take(3) =~= a);
            if b.len() == 0 {
                assert(a + b =~= a);
                assert(rgba_from_rgb(b) =~= Seq::<u8>::empty());
                assert(rgba_from_rgb(a) + rgba_from_rgb(b) =~= rgba_from_rgb(a));
            } else {
                assert(rgba_from_rgb(a) == a.take(3).push(255u8) + rgba_from_rgb(a.skip(3))) by {
                    assert(rgba_from_rgb(a.skip(3)) =~= Seq::<u8>::empty());
                    assert(a.take(3).push(255u8) + Seq::<u8>::empty() =~= a.take(3).push(255u8));
                }
            }
        }
        assert(rgba_from_rgb(a) + rgba_from_rgb(b) =~= a.take(3).push(255u8) + (rgba_from_rgb(a.skip(3)) + rgba_from_rgb(b)));
    }
}

/// Expands RGB pixels to RGBA: an opaque alpha byte after every three bytes
/// (and after a shorter last group).
pub fn rgb_to_rgba(pixels: &Vec<u8>) -> (r: Vec<u8>)
    ensures
        r@ == rgba_from_rgb(pixels@),
{
    let mut out: Vec<u8> = Vec::new();
    let n = pixels.len();
    let mut i: usize = 0;
    while i < n
        invariant
            n == pixels@.len(),
            i <= n,
            i % 3 == 0 || i == n,
            out@ == rgba_from_rgb(pixels@.take(i as int)),
        decreases n - i,
    {
        let end = if n - i >= 3 {
            i + 3
        } else {
            n
        };
        let ghost before = out@;
        let mut k = i;
        while k < end
            invariant
                i <= k <= end <= n,
                n == pixels@.len(),
                out@ == before + pixels@.subrange(i as int, k as int),
            decreases end - k,
        {
            out.push(pixels[k]);
            assert(out@ =~= before + pixels@.subrange(i as int, k as int + 1));
            k = k + 1;
        }
        out.push(255u8);
        proof {
            let chunk = pixels@.subrange(i as int, end as int);
            assert(pixels@.take(end as int) =~= pixels@.take(i as int) + chunk);
            lemma_rgba_append(pixels@.take(i as int), chunk);
            assert(rgba_from_rgb(chunk) == chunk.push(255u8));
            assert(out@ =~= before + chunk.push(255u8));
        }
        i = end;
    }
    assert(pixels@.take(n as int) =~= pixels@);
    out
}

/// The parent of joint `i`: the first joint (in joint order) that lists the
/// node of joint `i` among its children.
pub open spec fn parent_of(joint_nodes: Seq<usize>, children: Seq<Seq<usize>>, i: int) -> Option<usize> {
    if exists|p: int| 0 <= p < children.len() && #[trigger] children[p].contains(joint_nodes[i]) {
        Some(
            (choose|p: int|
                0 <= p < children.len() && #[trigger] children[p].contains(joint_nodes[i]) && forall|q: int|
                    0 <= q < p ==> !children[q].contains(joint_nodes[i])) as usize,
        )
    } else {
        None
    }
}

/// Links each joint of a skin to its parent joint.  `joint_nodes[i]` is the
/// node of joint `i`; `children[p]` lists the child nodes of joint `p`.
pub fn assign_parent_indices(joint_nodes: &Vec<usize>, children: &Vec<Vec<usize>>) -> (r: Vec<Option<usize>>)
    requires
        children@.len() == joint_nodes@.len(),
    ensures
        r@.len() == joint_nodes@.len(),
        forall|i: int|
            0 <= i < r@.len() ==> match #[trigger] r@[i] {
                Some(p) => p < children@.len() && children@[p as int]@.contains(joint_nodes@[i]) && forall|q: int|
                    0 <= q < p ==> !children@[q]@.contains(joint_nodes@[i]),
                None => forall|q: int| 0 <= q < children@.len() ==> !children@[q]@.contains(joint_nodes@[i]),
            },
{
    let mut r: Vec<Option<usize>> = Vec::new();
    let mut i: usize = 0;
    while i < joint_nodes.len()
        invariant
            i <= joint_nodes@.len(),
            children@.len() == joint_nodes@.len(),
            r@.len() == i,
            forall|j: int|
                0 <= j < i ==> match #[trigger] r@[j] {
                    Some(p) => p < children@.len() && children@[p as int]@.contains(joint_nodes@[j]) && forall|q: int|
                        0 <= q < p ==> !children@[q]@.contains(joint_nodes@[j]),
                    None => forall|q: int| 0 <= q < children@.len() ==> !children@[q]@.contains(joint_nodes@[j]),
                },
        decreases joint_nodes@.len() - i,
    {
        let node = joint_nodes[i];
        let mut hit = false;
        let mut p: usize = 0;
        while p < children.len() && !hit
            invariant
                p <= children@.len(),
                hit ==> p < children@.len() && children@[p as int]@.contains(node),
                forall|q: int| 0 <= q < p ==> !children@[q]@.contains(node),
            decreases children@.len() - p + (if hit { 0int } else { 1int }),
        {
            if contains_usize(&children[p], node) {
                hit = true;
            } else {
                p = p + 1;
            }
        }
        let found = if hit {
            Some(p)
        } else {
            None
        };
        r.push(found);
        i = i + 1;
    }
    r
}

fn contains_usize(v: &Vec<usize>, x: usize) -> (r: bool)
    ensures
        r == v@.contains(x),
{
    let mut k: usize = 0;
    while k < v.len()
        invariant
            k <= v@.len(),
            forall|q: int| 0 <= q < k ==> v@[q] != x,
        decreases v@.len() - k,
    {
        if v[k] == x {
            assert(v@[k as int] == x);
            return true;
        }
        k = k + 1;
    }
    false
}

/// Nodes that are nobody's child, in node order.  `children[n]` lists the
/// child nodes of node `n`.
pub fn root_nodes(children: &Vec<Vec<usize>>) -> (r: Vec<usize>)
    ensures
        r@ == Seq::new(children@.len(), |n: int| n as usize).filter(
            |n: usize| forall|m: int| 0 <= m < children@.len() ==> !(#[trigger] children@[m]@).contains(n),
        ),
{
    let ghost all = Seq::new(children@.len(), |n: int| n as usize);
    let ghost pred = |n: usize| forall|m: int| 0 <= m < children@.len() ==> !(#[trigger] children@[m]@).contains(n);
    let mut r: Vec<usize> = Vec::new();
    let mut n: usize = 0;
    while n < children.len()
        invariant
            n <= children@.len(),
            all == Seq::new(children@.len(), |n: int| n as usize),
            pred == (|n: usize| forall|m: int| 0 <= m < children@.len() ==> !(#[trigger] children@[m]@).contains(n)),
            r@ == all.take(n as int).filter(pred),
        decreases children@.len() - n,
    {
        let mut has_parent = false;
        let mut m: usize = 0;
        while m < children.len() && !has_parent
            invariant
                m <= children@.len(),
                has_parent ==> m < children@.len() && children@[m as int]@.contains(n),
                forall|q: int| 0 <= q < m ==> !children@[q]@.contains(n),
            decreases children@.len() - m + (if has_parent { 0int } else { 1int }),
        {
            if contains_usize(&children[m], n) {
                has_parent = true;
            } else {
                m = m + 1;
            }
        }
        proof {
            assert(pred(n) == !has_parent);
        }
        proof {
            reveal_with_fuel(Seq::filter, 1);
            assert(all.take(n as int + 1).drop_last() =~= all.take(n as int));
            assert(all.take(n as int + 1).last() == n);
        }
        if !has_parent {
            r.push(n);
        }
        n = n + 1;
    }
    assert(all.take(n as int) =~= all);
    r
}

/// The scene an importer traverses: the document's default scene, else its
/// first scene, else none.
pub fn choose_scene(default_scene: Option<usize>, scene_count: usize) -> (r: Option<usize>)
    ensures
        r == match default_scene {
            Some(s) => Some(s),
            None => if scene_count > 0 {
                Some(0usize)
            } else {
                None
            },
        },
{
    match default_scene {
        Some(s) => Some(s),
        None => if scene_count > 0 {
            Some(0)
        } else {
            None
        },
    }
}

/// The joint recorded last for a node: the importer maps node indices to
/// joints with a map in which a later joint replaces an earlier one.
pub open spec fn joint_of_node(joint_nodes: Seq<usize>, node: usize) -> Option<int>
    decreases joint_nodes.len(),
{
    if joint_nodes.len() == 0 {
        None
    } else if joint_nodes.last() == node {
        Some(joint_nodes.len() - 1)
    } else {
        joint_of_node(joint_nodes.drop_last(), node)
    }
}

/// The joint recorded for a node is the last joint at that node, whichever
/// joint it is (the first one included), and a node that is no joint has
/// none.  An animation channel targeting such a joint drives that joint's
/// bone.
pub proof fn lemma_joint_of_node_is_last_match(
    joint_nodes: Seq<usize>,
    node: usize,
    node_name: Option<Seq<char>>,
    bone_names: Seq<Seq<char>>,
)
    ensures
        forall|j: int|
            0 <= j < joint_nodes.len() && #[trigger] joint_nodes[j] == node && (forall|l: int|
                j < l < joint_nodes.len() ==> joint_nodes[l] != node) ==> {
                &&& joint_of_node(joint_nodes, node) == Some(j)
                &&& channel_bone(node, node_name, joint_nodes, bone_names) == Some(bone_names[j])
            },
        !joint_nodes.contains(node) ==> joint_of_node(joint_nodes, node) is None,
        joint_of_node(joint_nodes, node) matches Some(j) ==> 0 <= j < joint_nodes.len() && joint_nodes[j] == node,
    decreases joint_nodes.len(),
{
    if joint_nodes.len() > 0 {
        let rest = joint_nodes.drop_last();
        lemma_joint_of_node_is_last_match(rest, node, node_name, bone_names);
        assert forall|j: int|
            0 <= j < joint_nodes.len() && #[trigger] joint_nodes[j] == node && (forall|l: int|
                j < l < joint_nodes.len() ==> joint_nodes[l] != node) implies {
            &&& joint_of_node(joint_nodes, node) == Some(j)
            &&& channel_bone(node, node_name, joint_nodes, bone_names) == Some(bone_names[j])
        } by {
            if j < joint_nodes.len() - 1 {
                assert(joint_nodes[joint_nodes.len() - 1] != node);
                assert(rest[j] == node);
                assert forall|l: int| j < l < rest.len() implies rest[l] != node by {
                    assert(joint_nodes[l] != node);
                }
            }
        }
        if !joint_nodes.contains(node) {
            assert(joint_nodes[joint_nodes.len() - 1] != node);
            assert(!rest.contains(node)) by {
                if rest.contains(node) {
                    let q = choose|q: int| 0 <= q < rest.len() && rest[q] == node;
                    assert(joint_nodes[q] == node);
                }
            }
        }
    }
}

/// A channel drives a bone of the skeleton or nothing; a channel on a node
/// that is no joint drives the bone named like the node, if there is one.
pub proof fn lemma_channel_bone_is_a_bone(
    joint_nodes: Seq<usize>,
    node: usize,
    node_name: Option<Seq<char>>,
    bone_names: Seq<Seq<char>>,
)
    requires
        joint_nodes.len() == bone_names.len(),
    ensures
        channel_bone(node, node_name, joint_nodes, bone_names) matches Some(b) ==> bone_names.contains(b),
        !joint_nodes.contains(node) ==> (node_name matches Some(n) ==> channel_bone(
            node,
            node_name,
            joint_nodes,
            bone_names,
        ) == if bone_names.contains(n) {
            Some(n)
        } else {
            None
        }),
{
    lemma_joint_of_node_is_last_match(joint_nodes, node, node_name, bone_names);
    if let Some(j) = joint_of_node(joint_nodes, node) {
        assert(bone_names[j] == bone_names[j]);
        assert(bone_names.contains(bone_names[j]));
    }
}

/// The name given to a node that has none.
pub open spec fn default_node_name(node_index: nat) -> Seq<char> {
    seq!['N', 'o', 'd', 'e', '_'] + decimal(node_index)
}

/// The bone an animation channel drives: the bone of the joint at its target
/// node; failing that, the bone named like the node (its own name, or the
/// default name); failing that, none, and the channel is skipped.
pub open spec fn channel_bone(
    node_index: usize,
    node_name: Option<Seq<char>>,
    joint_nodes: Seq<usize>,
    bone_names: Seq<Seq<char>>,
) -> Option<Seq<char>> {
    match joint_of_node(joint_nodes, node_index) {
        Some(j) => Some(bone_names[j]),
        None => {
            let n = match node_name {
                Some(s) => s,
                None => default_node_name(node_index as nat),
            };
            if bone_names.contains(n) {
                Some(n)
            } else {
                None
            }
        },
    }
}

/// The default name `Node_{node_index}`.
fn node_name_for_index(node_index: usize) -> (r: String)
    ensures
        r@ == default_node_name(node_index as nat),
{
    proof {
        reveal_strlit("Node_");
        assert("Node_"@ =~= seq!['N', 'o', 'd', 'e', '_']);
    }
    let mut name = String::from_str("Node_");
    push_decimal(&mut name, node_index);
    name
}

pub open spec fn bone_names_view(names: Seq<String>) -> Seq<Seq<char>> {
    names.map_values(|s: String| s@)
}

pub open spec fn opt_name_view(s: Option<String>) -> Option<Seq<char>> {
    match s {
        Some(x) => Some(x@),
        None => None,
    }
}

/// Resolves the bone that an animation channel targeting `node_index`
/// drives, given the node of each joint and the bone name of each joint.
pub fn channel_bone_name(
    node_index: usize,
    node_name: Option<String>,
    joint_nodes: &Vec<usize>,
    bone_names: &Vec<String>,
) -> (r: Option<String>)
    requires
        joint_nodes@.len() == bone_names@.len(),
    ensures
        opt_name_view(r) == channel_bone(
            node_index,
            opt_name_view(node_name),
            joint_nodes@,
            bone_names_view(bone_names@),
        ),
{
    let ghost names = bone_names_view(bone_names@);
    let mut k: usize = joint_nodes.len();
    assert(joint_nodes@.take(k as int) =~= joint_nodes@);
    while k > 0
        invariant
            k <= joint_nodes@.len(),
            joint_nodes@.len() == bone_names@.len(),
            names == bone_names_view(bone_names@),
            joint_of_node(joint_nodes@, node_index) == joint_of_node(joint_nodes@.take(k as int), node_index),
        decreases k,
    {
        proof {
            assert(joint_nodes@.take(k as int).drop_last() =~= joint_nodes@.take(k as int - 1));
        }
        if joint_nodes[k - 1] == node_index {
            return Some(bone_names[k - 1].clone());
        }
        k = k - 1;
    }
    assert(joint_nodes@.take(0) =~= Seq::<usize>::empty());
    let name = match node_name {
        Some(s) => s,
        None => node_name_for_index(node_index),
    };
    let mut i: usize = 0;
    while i < bone_names.len()
        invariant
            i <= bone_names@.len(),
            names == bone_names_view(bone_names@),
            joint_of_node(joint_nodes@, node_index) is None,
            name@ == (match node_name {
                Some(s) => s@,
                None => default_node_name(node_index as nat),
            }),
            forall|j: int| 0 <= j < i ==> names[j] != name@,
        decreases bone_names@.len() - i,
    {
        if bone_names[i] == name {
            assert(names[i as int] == name@);
            assert(names.contains(name@));
            return Some(name);
        }
        i = i + 1;
    }
    assert(!names.contains(name@));
    None
}

/// How an imported document is processed.
#[derive(Clone, Copy, Debug, PartialEq, Eq, Structural)]
pub enum ModelKind {
    Static,
    Animated,
}

/// A document with at least one animation or one skin is imported as an
/// animated model; any other as a static one.
pub fn model_kind(animation_count: usize, skin_count: usize) -> (r: ModelKind)
    ensures
        r == (if animation_count > 0 || skin_count > 0 {
            ModelKind::Animated
        } else {
            ModelKind::Static
        }),
{
    if animation_count > 0 || skin_count > 0 {
        ModelKind::Animated
    } else {
        ModelKind::Static
    }
}

/// Why the import of an animated model fails.
#[derive(Clone, Copy, Debug, PartialEq, Eq, Structural)]
pub enum AnimatedImportError {
    /// The document has no skin to build the skeleton from.
    NoSkin,
    /// An animation channel has no key times.
    NoInputTimes,
}

impl AnimatedImportError {
    pub open spec fn spec_message(self) -> Seq<char> {
        match self {
            AnimatedImportError::NoSkin => "Animated model has no skin"@,
            AnimatedImportError::NoInputTimes => "Animation channel has no input times"@,
        }
    }

    /// The text the importer reports for the error.
    pub fn message(&self) -> (r: String)
        ensures
            r@ == self.spec_message(),
    {
        match self {
            AnimatedImportError::NoSkin => String::from_str("Animated model has no skin"),
            AnimatedImportError::NoInputTimes => String::from_str("Animation channel has no input times"),
        }
    }
}

/// The skin the skeleton of an animated model is built from: the first one;
/// a document without skins cannot be imported as an animated model.
pub fn skeleton_skin(skin_count: usize) -> (r: Result<usize, AnimatedImportError>)
    ensures
        skin_count > 0 ==> r == Ok::<usize, AnimatedImportError>(0),
        skin_count == 0 ==> r == Err::<usize, AnimatedImportError>(AnimatedImportError::NoSkin),
{
    if skin_count > 0 {
        Ok(0)
    } else {
        Err(AnimatedImportError::NoSkin)
    }
}

/// The key times of an animation channel; a channel without them fails the
/// import of its animation.
pub fn channel_key_times<T>(times: Option<Vec<T>>) -> (r: Result<Vec<T>, AnimatedImportError>)
    ensures
        r == (match times {
            Some(t) => Ok::<Vec<T>, AnimatedImportError>(t),
            None => Err::<Vec<T>, AnimatedImportError>(AnimatedImportError::NoInputTimes),
        }),
{
    match times {
        Some(t) => Ok(t),
        None => Err(AnimatedImportError::NoInputTimes),
    }
}

} // verus!
