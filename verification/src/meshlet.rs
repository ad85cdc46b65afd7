//! Meshlet data as produced by the clusterizer and as laid out in the global
//! GPU buffers: per-mesh clusters, their global descriptions and draw commands.
use vstd::prelude::*;

verus! {

/// One cluster of a mesh: a window into the mesh's meshlet vertex list
/// (`vertex_offset`, `vertex_count`) and into its micro index list
/// (`triangle_offset`, `triangle_count` triangles of three bytes each).
#[derive(Clone, Copy, Debug, PartialEq, Eq)]
pub struct Meshlet {
    pub vertex_offset: u32,
    pub triangle_offset: u32,
    pub vertex_count: u32,
    pub triangle_count: u32,
}

/// The clusters of one mesh.  `vertices` holds indices into the mesh's own
/// vertex buffer; `triangles` holds three bytes per triangle, each an index
/// into the meshlet's window of `vertices`.
#[derive(Clone, Debug)]
pub struct Meshlets {
    pub meshlets: Vec<Meshlet>,
    pub vertices: Vec<u32>,
    pub triangles: Vec<u8>,
}

/// Mathematical content of a [`Meshlets`].
pub ghost struct MeshletsView {
    pub meshlets: Seq<Meshlet>,
    pub vertices: Seq<u32>,
    pub triangles: Seq<u8>,
}

impl View for Meshlets {
    type V = MeshletsView;

    open spec fn view(&self) -> MeshletsView {
        MeshletsView {
            meshlets: self.meshlets@,
            vertices: self.vertices@,
            triangles: self.triangles@,
        }
    }
}

/// Static asset data describing one meshlet inside the global geometry buffers.
#[derive(Clone, Copy, Debug, PartialEq, Eq)]
pub struct MeshletDescription {
    pub vertex_list_offset: u32,
    pub triangle_list_offset: u32,
    pub triangle_count: u32,
    pub vertex_count: u32,
}

/// One indirect draw: which meshlet, with which model transform and texture layer.
#[derive(Clone, Copy, Debug, PartialEq, Eq)]
pub struct DrawCommand {
    pub meshlet_id: u32,
    pub transform_id: u32,
    pub texture_id: u32,
    pub _padding: u32,
}

/// The meshlets that belong to one mesh of a model, as indices into the global
/// meshlet array, together with the mesh's texture layer.
#[derive(Clone, Debug)]
pub struct ModelMeshlets {
    pub meshlet_indices: Vec<u32>,
    pub texture_id: u32,
}

pub ghost struct ModelMeshletsView {
    pub meshlet_indices: Seq<u32>,
    pub texture_id: u32,
}

impl View for ModelMeshlets {
    type V = ModelMeshletsView;

    open spec fn view(&self) -> ModelMeshletsView {
        ModelMeshletsView { meshlet_indices: self.meshlet_indices@, texture_id: self.texture_id }
    }
}

/// Every meshlet window lies inside the vertex and triangle lists, and every
/// micro index selects a vertex of its own window.
pub open spec fn meshlets_well_formed(m: MeshletsView) -> bool {
    forall|i: int|
        0 <= i < m.meshlets.len() ==> {
            let d = #[trigger] m.meshlets[i];
            &&& d.vertex_offset + d.vertex_count <= m.vertices.len()
            &&& d.triangle_offset + 3 * d.triangle_count <= m.triangles.len()
            &&& forall|t: int|
                d.triangle_offset <= t < d.triangle_offset + 3 * d.triangle_count ==> (
                #[trigger] m.triangles[t]) < d.vertex_count
        }
}

} // verus!
