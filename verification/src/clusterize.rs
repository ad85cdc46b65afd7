//! Splitting an indexed mesh into meshlets with meshoptimizer's clusterizer.
//! Vertices are handed over as raw bytes (one fixed-size record per vertex,
//! the position as three little-endian `f32` at the start of each record).
use crate::meshlet::{Meshlet, Meshlets, MeshletsView};
use vstd::prelude::*;

verus! {

/// Most vertices one meshlet may reference.
pub const MAX_VERTICES: usize = 64;

/// Most triangles one meshlet may hold.
pub const MAX_TRIANGLES: usize = 128;

/// Size in bytes of one static vertex record (position, normal, uv, padding).
pub const VERTEX_STRIDE: usize = 48;

/// Size in bytes of one skinned vertex record (a static record followed by
/// four bone indices and four bone weights).
pub const SKINNED_VERTEX_STRIDE: usize = 80;

/// The meshlets that meshoptimizer's `build_meshlets` computes for the given
/// vertex bytes, vertex stride, index list and per-meshlet limits, with a cone
/// weight of zero.
pub uninterp spec fn meshopt_clusters(
    vertex_bytes: Seq<u8>,
    vertex_stride: usize,
    indices: Seq<u32>,
    max_vertices: usize,
    max_triangles: usize,
) -> MeshletsView;

/// The inputs on which the clusterizer is defined: whole vertex records of a
/// stride it accepts, whole triangles whose corners name existing vertices,
/// and per-meshlet limits within its bounds.
pub open spec fn clusterable(
    byte_len: int,
    vertex_stride: int,
    indices: Seq<u32>,
    max_vertices: int,
    max_triangles: int,
) -> bool {
    &&& 12 <= vertex_stride <= 256
    &&& vertex_stride % 4 == 0
    &&& byte_len % vertex_stride == 0
    &&& indices.len() % 3 == 0
    &&& forall|i: int| 0 <= i < indices.len() ==> (#[trigger] indices[i] as int) < byte_len / vertex_stride
    &&& 3 <= max_vertices <= 256
    &&& 1 <= max_triangles <= 512
    &&& max_triangles % 4 == 0
}

/// Every meshlet keeps to the per-meshlet limits.
pub open spec fn within_limits(m: MeshletsView, max_vertices: int, max_triangles: int) -> bool {
    forall|i: int|
        0 <= i < m.meshlets.len() ==> (#[trigger] m.meshlets[i]).vertex_count <= max_vertices
            && m.meshlets[i].triangle_count <= max_triangles
}

/// The view of an optional meshlet set.
pub open spec fn opt_meshlets_view(m: Option<Meshlets>) -> Option<MeshletsView> {
    match m {
        Some(x) => Some(x@),
        None => None,
    }
}

/// A meshlet set, or nothing when it holds no meshlet.
pub open spec fn nonempty(m: MeshletsView) -> Option<MeshletsView> {
    if m.meshlets.len() == 0 {
        None
    } else {
        Some(m)
    }
}

/// Calls `meshopt::build_meshlets` on a `VertexDataAdapter` over the vertex
/// bytes (positions at offset 0) with a cone weight of zero, and copies the
/// resulting meshlet records field by field.  Its contract claims that the
/// result is the named clusterization of exactly these arguments, that an
/// empty index list gives no meshlet (the clusterizer returns at once then),
/// and that no meshlet holds more than `max_vertices` vertices or
/// `max_triangles` triangles (the clusterizer closes a meshlet before a
/// triangle would exceed either limit).
#[verifier::external_body]
fn meshopt_build_meshlets(
    vertex_bytes: &[u8],
    vertex_stride: usize,
    indices: &[u32],
    max_vertices: usize,
    max_triangles: usize,
) -> (r: Meshlets)
    requires
        clusterable(
            vertex_bytes@.len() as int,
            vertex_stride as int,
            indices@,
            max_vertices as int,
            max_triangles as int,
        ),
    ensures
        r@ == meshopt_clusters(vertex_bytes@, vertex_stride, indices@, max_vertices, max_triangles),
        indices@.len() == 0 ==> r.meshlets@.len() == 0,
        within_limits(r@, max_vertices as int, max_triangles as int),
{
    let adapter = meshopt::VertexDataAdapter::new(vertex_bytes, vertex_stride, 0).unwrap();
    let built = meshopt::build_meshlets(indices, &adapter, max_vertices, max_triangles, Default::default());
    let meshlets = built.meshlets.iter().map(|m| Meshlet {
        vertex_offset: m.vertex_offset,
        triangle_offset: m.triangle_offset,
        vertex_count: m.vertex_count,
        triangle_count: m.triangle_count,
    }).collect();
    Meshlets { meshlets, vertices: built.vertices, triangles: built.triangles }
}

/// Keeps a clusterization only if it produced at least one meshlet.
pub fn keep_nonempty_meshlets(clusters: Meshlets) -> (r: Option<Meshlets>)
    ensures
        opt_meshlets_view(r) == nonempty(clusters@),
{
    if clusters.meshlets.len() == 0 {
        None
    } else {
        Some(clusters)
    }
}

/// Clusterizes a mesh with records of `vertex_stride` bytes into meshlets of
/// at most [`MAX_VERTICES`] vertices and [`MAX_TRIANGLES`] triangles; `None`
/// when no meshlet comes out (in particular for an empty index list).
pub fn cluster_vertices(vertex_bytes: &[u8], vertex_stride: usize, indices: &[u32]) -> (r: Option<Meshlets>)
    requires
        clusterable(
            vertex_bytes@.len() as int,
            vertex_stride as int,
            indices@,
            MAX_VERTICES as int,
            MAX_TRIANGLES as int,
        ),
    ensures
        opt_meshlets_view(r) == nonempty(
            meshopt_clusters(vertex_bytes@, vertex_stride, indices@, MAX_VERTICES, MAX_TRIANGLES),
        ),
        indices@.len() == 0 ==> r is None,
        r matches Some(m) ==> within_limits(m@, MAX_VERTICES as int, MAX_TRIANGLES as int),
{
    let clusters = meshopt_build_meshlets(vertex_bytes, vertex_stride, indices, MAX_VERTICES, MAX_TRIANGLES);
    keep_nonempty_meshlets(clusters)
}

/// Meshlets of a static mesh given as [`VERTEX_STRIDE`]-byte records.
pub fn build_meshlets_for_vertices(vertex_bytes: &[u8], indices: &[u32]) -> (r: Option<Meshlets>)
    requires
        clusterable(
            vertex_bytes@.len() as int,
            VERTEX_STRIDE as int,
            indices@,
            MAX_VERTICES as int,
            MAX_TRIANGLES as int,
        ),
    ensures
        opt_meshlets_view(r) == nonempty(
            meshopt_clusters(vertex_bytes@, VERTEX_STRIDE, indices@, MAX_VERTICES, MAX_TRIANGLES),
        ),
        indices@.len() == 0 ==> r is None,
        r matches Some(m) ==> within_limits(m@, MAX_VERTICES as int, MAX_TRIANGLES as int),
{
    cluster_vertices(vertex_bytes, VERTEX_STRIDE, indices)
}

/// Meshlets of a skinned mesh given as [`SKINNED_VERTEX_STRIDE`]-byte
/// records; the result is kept even when it holds no meshlet.
pub fn build_meshlets_for_skinned_vertices(vertex_bytes: &[u8], indices: &[u32]) -> (r: Option<Meshlets>)
    requires
        clusterable(
            vertex_bytes@.len() as int,
            SKINNED_VERTEX_STRIDE as int,
            indices@,
            MAX_VERTICES as int,
            MAX_TRIANGLES as int,
        ),
    ensures
        opt_meshlets_view(r) == Some(
            meshopt_clusters(vertex_bytes@, SKINNED_VERTEX_STRIDE, indices@, MAX_VERTICES, MAX_TRIANGLES),
        ),
        indices@.len() == 0 ==> (r matches Some(m) && m.meshlets@.len() == 0),
        r matches Some(m) ==> within_limits(m@, MAX_VERTICES as int, MAX_TRIANGLES as int),
{
    Some(meshopt_build_meshlets(vertex_bytes, SKINNED_VERTEX_STRIDE, indices, MAX_VERTICES, MAX_TRIANGLES))
}

} // verus!
