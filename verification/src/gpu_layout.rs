//! What the GPU side is made of: buffers with their sizes and usages, bind
//! groups with their bindings, and render pipelines with their fixed state.

use vstd::prelude::*;

use crate::cascade::{V3_MAX_PROBE_SLOTS, V3_PROBE_PAYLOAD_BUF_BYTES};
use crate::frame::{CASCADE_UNIFORM_ALIGNED_SIZE, N_CASCADES};
use crate::pool::{
    AABB_BYTES, COORD_BYTES, DRAW_META_BYTES, FLAGS_BYTES, MAX_SLOTS, MESH_COUNTS_ENTRY_BYTES,
    MESH_OFFSET_ENTRY_BYTES, SUMMARY_BYTES_PER_SLOT, TOTAL_INDEX_BUF_BYTES, TOTAL_INDEX_BYTES,
    TOTAL_INDIRECT_BYTES, TOTAL_MATERIAL_BYTES, TOTAL_OCCUPANCY_BYTES, TOTAL_PALETTE_BYTES,
    TOTAL_PALETTE_META_BYTES, TOTAL_VERTEX_BYTES, TOTAL_WIRE_INDEX_BYTES, VERSION_BYTES,
};

verus! {

/// A GPU buffer.
#[derive(Debug, Clone, Copy, PartialEq, Eq, Structural)]
pub enum GpuBuffer {
    /// Occupancy bit columns of all slots.
    OccupancyAtlas,
    /// Palettes of all slots.
    Palette,
    /// Chunk coordinate of each slot.
    Coord,
    /// Version of each slot; zero marks it invalid.
    Version,
    /// Flags of each slot.
    Flags,
    /// Bricklet summary of each slot.
    Summary,
    /// Bounding box of each slot.
    Aabb,
    /// Draw metadata of each slot.
    DrawMeta,
    /// Vertices of all meshes.
    VertexPool,
    /// Indices of all meshes.
    IndexPool,
    /// Quad count of each slot.
    MeshCounts,
    /// Mesh offsets of each slot.
    MeshOffsets,
    /// Total vertices and indices.
    MeshTotal,
    /// Wireframe indices.
    WireIndexPool,
    /// Wireframe draw arguments.
    WireIndirect,
    /// Per-voxel palette indices of all slots.
    IndexBufPool,
    /// Palette size and index width of each slot.
    PaletteMeta,
    /// Visibility of each slot.
    Visibility,
    /// Visibility of each slot after the first pass.
    FirstPassVisibility,
    /// Grid origin and voxel size.
    SceneParams,
    /// Material table.
    MaterialTable,
    /// Draw arguments of each slot.
    IndirectDraw,
    /// Slot of each chunk near the scene's centre.
    SlotTable,
    /// Origin and dimension of the slot table.
    SlotTableParams,
    /// Radiance of all probes.
    ProbePayload,
    /// Probe slot of each chunk slot.
    ProbeSlotTable,
    /// Chunk of each probe slot.
    ActiveProbeChunks,
    /// World-space cascade parameters.
    CascadeParams,
    /// Screen-space cascade parameters, one record per level.
    CascadeUniforms,
    /// View-projection matrix and camera position.
    Camera,
    /// Occlusion cull parameters.
    CullParams,
    /// Level sizes of one depth-pyramid step.
    HizParams,
    /// Placeholder bound when there is no indirect light.
    NullGi,
}

/// What a buffer may be used for.
#[derive(Debug, Clone, Copy, PartialEq, Eq, Structural)]
pub struct BufferUsage {
    pub storage: bool,
    pub uniform: bool,
    pub index: bool,
    pub indirect: bool,
    pub copy_src: bool,
    pub copy_dst: bool,
}

/// Number of entries of a cubic slot table.
pub open spec fn table_entries(dim: u32) -> int {
    dim * dim * dim
}

/// Size of a buffer in bytes.
pub open spec fn buffer_bytes(b: GpuBuffer, table_dim: u32) -> int {
    match b {
        GpuBuffer::OccupancyAtlas => TOTAL_OCCUPANCY_BYTES as int,
        GpuBuffer::Palette => TOTAL_PALETTE_BYTES as int,
        GpuBuffer::Coord => COORD_BYTES * MAX_SLOTS,
        GpuBuffer::Version => VERSION_BYTES * MAX_SLOTS,
        GpuBuffer::Flags => FLAGS_BYTES * MAX_SLOTS,
        GpuBuffer::Summary => SUMMARY_BYTES_PER_SLOT * MAX_SLOTS,
        GpuBuffer::Aabb => AABB_BYTES * MAX_SLOTS,
        GpuBuffer::DrawMeta => DRAW_META_BYTES * MAX_SLOTS,
        GpuBuffer::VertexPool => TOTAL_VERTEX_BYTES as int,
        GpuBuffer::IndexPool => TOTAL_INDEX_BYTES as int,
        GpuBuffer::MeshCounts => MESH_COUNTS_ENTRY_BYTES * MAX_SLOTS,
        GpuBuffer::MeshOffsets => MESH_OFFSET_ENTRY_BYTES * MAX_SLOTS,
        GpuBuffer::MeshTotal => 8,
        GpuBuffer::WireIndexPool => TOTAL_WIRE_INDEX_BYTES as int,
        GpuBuffer::WireIndirect => TOTAL_INDIRECT_BYTES as int,
        GpuBuffer::IndexBufPool => TOTAL_INDEX_BUF_BYTES as int,
        GpuBuffer::PaletteMeta => TOTAL_PALETTE_META_BYTES as int,
        GpuBuffer::Visibility => 4 * MAX_SLOTS as int,
        GpuBuffer::FirstPassVisibility => 4 * MAX_SLOTS as int,
        GpuBuffer::SceneParams => 16,
        GpuBuffer::MaterialTable => TOTAL_MATERIAL_BYTES as int,
        GpuBuffer::IndirectDraw => TOTAL_INDIRECT_BYTES as int,
        GpuBuffer::SlotTable => 4 * table_entries(table_dim),
        GpuBuffer::SlotTableParams => 16,
        GpuBuffer::ProbePayload => V3_PROBE_PAYLOAD_BUF_BYTES as int,
        GpuBuffer::ProbeSlotTable => 4 * MAX_SLOTS as int,
        GpuBuffer::ActiveProbeChunks => 16 * V3_MAX_PROBE_SLOTS as int,
        GpuBuffer::CascadeParams => 64,
        GpuBuffer::CascadeUniforms => N_CASCADES * CASCADE_UNIFORM_ALIGNED_SIZE,
        GpuBuffer::Camera => 80,
        GpuBuffer::CullParams => 16,
        GpuBuffer::HizParams => 16,
        GpuBuffer::NullGi => 16,
    }
}

/// Usage of a buffer.
pub open spec fn buffer_usage(b: GpuBuffer) -> BufferUsage {
    match b {
        GpuBuffer::OccupancyAtlas
        | GpuBuffer::Palette
        | GpuBuffer::Coord
        | GpuBuffer::Version
        | GpuBuffer::Flags
        | GpuBuffer::MeshCounts
        | GpuBuffer::MeshOffsets
        | GpuBuffer::MeshTotal
        | GpuBuffer::IndexBufPool
        | GpuBuffer::PaletteMeta
        | GpuBuffer::Visibility
        | GpuBuffer::MaterialTable
        | GpuBuffer::SlotTable
        | GpuBuffer::ProbePayload
        | GpuBuffer::ProbeSlotTable
        | GpuBuffer::ActiveProbeChunks => BufferUsage {
            storage: true,
            uniform: false,
            index: false,
            indirect: false,
            copy_src: false,
            copy_dst: true,
        },
        GpuBuffer::Summary
        | GpuBuffer::Aabb => BufferUsage {
            storage: true,
            uniform: false,
            index: false,
            indirect: false,
            copy_src: false,
            copy_dst: false,
        },
        GpuBuffer::DrawMeta
        | GpuBuffer::VertexPool
        | GpuBuffer::FirstPassVisibility => BufferUsage {
            storage: true,
            uniform: false,
            index: false,
            indirect: false,
            copy_src: true,
            copy_dst: true,
        },
        GpuBuffer::IndexPool => BufferUsage {
            storage: true,
            uniform: false,
            index: true,
            indirect: false,
            copy_src: true,
            copy_dst: true,
        },
        GpuBuffer::WireIndexPool => BufferUsage {
            storage: true,
            uniform: false,
            index: true,
            indirect: false,
            copy_src: false,
            copy_dst: false,
        },
        GpuBuffer::WireIndirect => BufferUsage {
            storage: true,
            uniform: false,
            index: false,
            indirect: true,
            copy_src: false,
            copy_dst: false,
        },
        GpuBuffer::SceneParams
        | GpuBuffer::SlotTableParams
        | GpuBuffer::CascadeParams
        | GpuBuffer::CascadeUniforms
        | GpuBuffer::Camera => BufferUsage {
            storage: false,
            uniform: true,
            index: false,
            indirect: false,
            copy_src: false,
            copy_dst: true,
        },
        GpuBuffer::IndirectDraw => BufferUsage {
            storage: true,
            uniform: false,
            index: false,
            indirect: true,
            copy_src: false,
            copy_dst: true,
        },
        GpuBuffer::CullParams
        | GpuBuffer::HizParams
        | GpuBuffer::NullGi => BufferUsage {
            storage: false,
            uniform: true,
            index: false,
            indirect: false,
            copy_src: false,
            copy_dst: false,
        },
    }
}

/// Size of a buffer in bytes. The slot table is a cube of `table_dim` entries a
/// side.
pub fn buffer_size(b: GpuBuffer, table_dim: u32) -> (n: u64)
    requires
        table_dim <= 1024,
    ensures
        n == buffer_bytes(b, table_dim),
{
    proof {
        lemma_cube(table_dim);
    }
    match b {
        GpuBuffer::OccupancyAtlas => TOTAL_OCCUPANCY_BYTES,
        GpuBuffer::Palette => TOTAL_PALETTE_BYTES,
        GpuBuffer::Coord => (COORD_BYTES * MAX_SLOTS) as u64,
        GpuBuffer::Version => (VERSION_BYTES * MAX_SLOTS) as u64,
        GpuBuffer::Flags => (FLAGS_BYTES * MAX_SLOTS) as u64,
        GpuBuffer::Summary => (SUMMARY_BYTES_PER_SLOT * MAX_SLOTS) as u64,
        GpuBuffer::Aabb => (AABB_BYTES * MAX_SLOTS) as u64,
        GpuBuffer::DrawMeta => (DRAW_META_BYTES * MAX_SLOTS) as u64,
        GpuBuffer::VertexPool => TOTAL_VERTEX_BYTES,
        GpuBuffer::IndexPool => TOTAL_INDEX_BYTES,
        GpuBuffer::MeshCounts => (MESH_COUNTS_ENTRY_BYTES * MAX_SLOTS) as u64,
        GpuBuffer::MeshOffsets => (MESH_OFFSET_ENTRY_BYTES * MAX_SLOTS) as u64,
        GpuBuffer::MeshTotal => 8,
        GpuBuffer::WireIndexPool => TOTAL_WIRE_INDEX_BYTES,
        GpuBuffer::WireIndirect => TOTAL_INDIRECT_BYTES,
        GpuBuffer::IndexBufPool => TOTAL_INDEX_BUF_BYTES,
        GpuBuffer::PaletteMeta => TOTAL_PALETTE_META_BYTES,
        GpuBuffer::Visibility => 4 * MAX_SLOTS as u64,
        GpuBuffer::FirstPassVisibility => 4 * MAX_SLOTS as u64,
        GpuBuffer::SceneParams => 16,
        GpuBuffer::MaterialTable => TOTAL_MATERIAL_BYTES,
        GpuBuffer::IndirectDraw => TOTAL_INDIRECT_BYTES,
        GpuBuffer::SlotTable => 4 * (table_dim as u64 * table_dim as u64 * table_dim as u64),
        GpuBuffer::SlotTableParams => 16,
        GpuBuffer::ProbePayload => V3_PROBE_PAYLOAD_BUF_BYTES,
        GpuBuffer::ProbeSlotTable => 4 * MAX_SLOTS as u64,
        GpuBuffer::ActiveProbeChunks => 16 * V3_MAX_PROBE_SLOTS as u64,
        GpuBuffer::CascadeParams => 64,
        GpuBuffer::CascadeUniforms => N_CASCADES as u64 * CASCADE_UNIFORM_ALIGNED_SIZE,
        GpuBuffer::Camera => 80,
        GpuBuffer::CullParams => 16,
        GpuBuffer::HizParams => 16,
        GpuBuffer::NullGi => 16,
    }
}

/// Products of the slot table's size stay small.
proof fn lemma_cube(d: u32)
    requires
        d <= 1024,
    ensures
        0 <= d * d <= 1_048_576,
        0 <= d * d * d <= 1_073_741_824,
{
    assert(0 <= d * d <= 1_048_576) by (nonlinear_arith)
        requires
            0 <= d <= 1024,
    ;
    assert(0 <= d * d * d <= 1_073_741_824) by (nonlinear_arith)
        requires
            0 <= d * d <= 1_048_576,
            0 <= d <= 1024,
    ;
}

/// Usage of a buffer.
pub fn usage(b: GpuBuffer) -> (u: BufferUsage)
    ensures
        u == buffer_usage(b),
{
    match b {
        GpuBuffer::OccupancyAtlas
        | GpuBuffer::Palette
        | GpuBuffer::Coord
        | GpuBuffer::Version
        | GpuBuffer::Flags
        | GpuBuffer::MeshCounts
        | GpuBuffer::MeshOffsets
        | GpuBuffer::MeshTotal
        | GpuBuffer::IndexBufPool
        | GpuBuffer::PaletteMeta
        | GpuBuffer::Visibility
        | GpuBuffer::MaterialTable
        | GpuBuffer::SlotTable
        | GpuBuffer::ProbePayload
        | GpuBuffer::ProbeSlotTable
        | GpuBuffer::ActiveProbeChunks => BufferUsage {
            storage: true,
            uniform: false,
            index: false,
            indirect: false,
            copy_src: false,
            copy_dst: true,
        },
        GpuBuffer::Summary
        | GpuBuffer::Aabb => BufferUsage {
            storage: true,
            uniform: false,
            index: false,
            indirect: false,
            copy_src: false,
            copy_dst: false,
        },
        GpuBuffer::DrawMeta
        | GpuBuffer::VertexPool
        | GpuBuffer::FirstPassVisibility => BufferUsage {
            storage: true,
            uniform: false,
            index: false,
            indirect: false,
            copy_src: true,
            copy_dst: true,
        },
        GpuBuffer::IndexPool => BufferUsage {
            storage: true,
            uniform: false,
            index: true,
            indirect: false,
            copy_src: true,
            copy_dst: true,
        },
        GpuBuffer::WireIndexPool => BufferUsage {
            storage: true,
            uniform: false,
            index: true,
            indirect: false,
            copy_src: false,
            copy_dst: false,
        },
        GpuBuffer::WireIndirect => BufferUsage {
            storage: true,
            uniform: false,
            index: false,
            indirect: true,
            copy_src: false,
            copy_dst: false,
        },
        GpuBuffer::SceneParams
        | GpuBuffer::SlotTableParams
        | GpuBuffer::CascadeParams
        | GpuBuffer::CascadeUniforms
        | GpuBuffer::Camera => BufferUsage {
            storage: false,
            uniform: true,
            index: false,
            indirect: false,
            copy_src: false,
            copy_dst: true,
        },
        GpuBuffer::IndirectDraw => BufferUsage {
            storage: true,
            uniform: false,
            index: false,
            indirect: true,
            copy_src: false,
            copy_dst: true,
        },
        GpuBuffer::CullParams
        | GpuBuffer::HizParams
        | GpuBuffer::NullGi => BufferUsage {
            storage: false,
            uniform: true,
            index: false,
            indirect: false,
            copy_src: false,
            copy_dst: false,
        },
    }
}

/// Label under which a buffer is created.
pub fn buffer_label(b: GpuBuffer) -> (label: &'static str)
    ensures
        label@ == buffer_name(b),
{
    match b {
        GpuBuffer::OccupancyAtlas => "chunk-occupancy-atlas",
        GpuBuffer::Palette => "chunk-palette",
        GpuBuffer::Coord => "chunk-coord",
        GpuBuffer::Version => "chunk-version",
        GpuBuffer::Flags => "chunk-flags",
        GpuBuffer::Summary => "chunk-summary",
        GpuBuffer::Aabb => "chunk-aabb",
        GpuBuffer::DrawMeta => "chunk-draw-meta",
        GpuBuffer::VertexPool => "vertex-pool",
        GpuBuffer::IndexPool => "index-pool",
        GpuBuffer::MeshCounts => "mesh-counts",
        GpuBuffer::MeshOffsets => "mesh-offset-table",
        GpuBuffer::MeshTotal => "mesh-total",
        GpuBuffer::WireIndexPool => "wire-index-pool",
        GpuBuffer::WireIndirect => "wire-indirect",
        GpuBuffer::IndexBufPool => "chunk-index-buf-pool",
        GpuBuffer::PaletteMeta => "palette-meta",
        GpuBuffer::Visibility => "visibility",
        GpuBuffer::FirstPassVisibility => "pass1-visibility",
        GpuBuffer::SceneParams => "scene-params",
        GpuBuffer::MaterialTable => "material-table",
        GpuBuffer::IndirectDraw => "indirect-draw",
        GpuBuffer::SlotTable => "slot-table",
        GpuBuffer::SlotTableParams => "slot-table-params",
        GpuBuffer::ProbePayload => "v3-probe-payload",
        GpuBuffer::ProbeSlotTable => "v3-probe-slot-table",
        GpuBuffer::ActiveProbeChunks => "v3-active-probe-chunks",
        GpuBuffer::CascadeParams => "v3-cascade-params",
        GpuBuffer::CascadeUniforms => "v2-cascade-uniforms",
        GpuBuffer::Camera => "camera-uniform",
        GpuBuffer::CullParams => "cull-params",
        GpuBuffer::HizParams => "hiz-params",
        GpuBuffer::NullGi => "gi-null-dummy",
    }
}

/// Label under which a buffer is created.
pub open spec fn buffer_name(b: GpuBuffer) -> Seq<char> {
    match b {
        GpuBuffer::OccupancyAtlas => "chunk-occupancy-atlas"@,
        GpuBuffer::Palette => "chunk-palette"@,
        GpuBuffer::Coord => "chunk-coord"@,
        GpuBuffer::Version => "chunk-version"@,
        GpuBuffer::Flags => "chunk-flags"@,
        GpuBuffer::Summary => "chunk-summary"@,
        GpuBuffer::Aabb => "chunk-aabb"@,
        GpuBuffer::DrawMeta => "chunk-draw-meta"@,
        GpuBuffer::VertexPool => "vertex-pool"@,
        GpuBuffer::IndexPool => "index-pool"@,
        GpuBuffer::MeshCounts => "mesh-counts"@,
        GpuBuffer::MeshOffsets => "mesh-offset-table"@,
        GpuBuffer::MeshTotal => "mesh-total"@,
        GpuBuffer::WireIndexPool => "wire-index-pool"@,
        GpuBuffer::WireIndirect => "wire-indirect"@,
        GpuBuffer::IndexBufPool => "chunk-index-buf-pool"@,
        GpuBuffer::PaletteMeta => "palette-meta"@,
        GpuBuffer::Visibility => "visibility"@,
        GpuBuffer::FirstPassVisibility => "pass1-visibility"@,
        GpuBuffer::SceneParams => "scene-params"@,
        GpuBuffer::MaterialTable => "material-table"@,
        GpuBuffer::IndirectDraw => "indirect-draw"@,
        GpuBuffer::SlotTable => "slot-table"@,
        GpuBuffer::SlotTableParams => "slot-table-params"@,
        GpuBuffer::ProbePayload => "v3-probe-payload"@,
        GpuBuffer::ProbeSlotTable => "v3-probe-slot-table"@,
        GpuBuffer::ActiveProbeChunks => "v3-active-probe-chunks"@,
        GpuBuffer::CascadeParams => "v3-cascade-params"@,
        GpuBuffer::CascadeUniforms => "v2-cascade-uniforms"@,
        GpuBuffer::Camera => "camera-uniform"@,
        GpuBuffer::CullParams => "cull-params"@,
        GpuBuffer::HizParams => "hiz-params"@,
        GpuBuffer::NullGi => "gi-null-dummy"@,
    }
}

/// Shader stages that see a binding.
#[derive(Debug, Clone, Copy, PartialEq, Eq, Structural)]
pub enum Stages {
    Compute,
    Vertex,
    Fragment,
    VertexFragment,
    All,
}

/// What a binding holds.
#[derive(Debug, Clone, Copy, PartialEq, Eq, Structural)]
pub enum BindingKind {
    /// A storage buffer that is only read.
    ReadStorage(GpuBuffer),
    /// A storage buffer that is written too.
    WriteStorage(GpuBuffer),
    /// A uniform buffer.
    Uniform(GpuBuffer),
    /// A uniform buffer with an offset given at each dispatch.
    DynamicUniform(GpuBuffer),
    /// A depth texture.
    DepthTexture,
    /// A texture of floats that is not filtered.
    FloatTexture,
    /// A write-only storage texture with one 32-bit float a texel.
    WriteTextureR32,
    /// A write-only storage texture with four 16-bit floats a texel.
    WriteTextureRgba16,
    /// A sampler that does not filter.
    Sampler,
}

/// One entry of a bind group layout; its binding number is its place in the
/// table.
#[derive(Debug, Clone, Copy, PartialEq, Eq, Structural)]
pub struct Binding {
    pub kind: BindingKind,
    pub stages: Stages,
}

/// A bind group.
#[derive(Debug, Clone, Copy, PartialEq, Eq, Structural)]
pub enum Group {
    /// Chunk metadata, read by render stages.
    ChunkMeta,
    /// Meshes and draws, read by render stages.
    MeshDraw,
    /// Scene-global data.
    SceneGlobal,
    /// Summary rebuild.
    SummaryCompute,
    /// Quad count of each slot.
    MeshCount,
    /// Mesh offsets from quad counts.
    PrefixSum,
    /// Mesh write.
    MeshCompute,
    /// Wireframe indices from triangle indices.
    BuildWireframe,
    /// Occlusion cull against the depth pyramid.
    OcclusionCull,
    /// Depth buffer to the pyramid's first level.
    HizFirst,
    /// One pyramid level to the next.
    HizDownsample,
    /// Camera.
    CameraGroup,
    /// Vertex pulling.
    VertexRead,
    /// Depth visualization.
    DepthViz,
    /// Shading without indirect light.
    NullConsumer,
    /// Shading from the screen-space cascade atlas.
    AtlasConsumer,
    /// Shading from world-space probes.
    ProbeConsumer,
    /// What cascade build passes trace rays against.
    WorldData,
    /// One screen-space cascade pass.
    AtlasPass,
    /// World-space probe build.
    ProbeBuild,
    /// Screen-space cascade debug views.
    AtlasDebug,
}

/// An entry of a bind group layout.
pub open spec fn entry(kind: BindingKind, stages: Stages) -> Binding {
    Binding { kind, stages }
}

fn bind(kind: BindingKind, stages: Stages) -> (b: Binding)
    ensures
        b == entry(kind, stages),
{
    Binding { kind, stages }
}

/// The bindings of a group, in order.
pub open spec fn group_bindings(g: Group) -> Seq<Binding> {
    match g {
        Group::ChunkMeta => seq![
            entry(BindingKind::ReadStorage(GpuBuffer::OccupancyAtlas), Stages::All),
            entry(BindingKind::ReadStorage(GpuBuffer::Palette), Stages::All),
            entry(BindingKind::ReadStorage(GpuBuffer::Coord), Stages::All),
            entry(BindingKind::ReadStorage(GpuBuffer::Version), Stages::All),
            entry(BindingKind::ReadStorage(GpuBuffer::Flags), Stages::All),
            entry(BindingKind::ReadStorage(GpuBuffer::Summary), Stages::All),
            entry(BindingKind::ReadStorage(GpuBuffer::Aabb), Stages::All),
        ],
        Group::MeshDraw => seq![
            entry(BindingKind::ReadStorage(GpuBuffer::VertexPool), Stages::All),
            entry(BindingKind::ReadStorage(GpuBuffer::IndexPool), Stages::All),
            entry(BindingKind::ReadStorage(GpuBuffer::DrawMeta), Stages::All),
            entry(BindingKind::ReadStorage(GpuBuffer::IndirectDraw), Stages::All),
        ],
        Group::SceneGlobal => seq![
            entry(BindingKind::ReadStorage(GpuBuffer::MaterialTable), Stages::All),
        ],
        Group::SummaryCompute => seq![
            entry(BindingKind::ReadStorage(GpuBuffer::OccupancyAtlas), Stages::Compute),
            entry(BindingKind::ReadStorage(GpuBuffer::Palette), Stages::Compute),
            entry(BindingKind::ReadStorage(GpuBuffer::Coord), Stages::Compute),
            entry(BindingKind::ReadStorage(GpuBuffer::MaterialTable), Stages::Compute),
            entry(BindingKind::WriteStorage(GpuBuffer::Summary), Stages::Compute),
            entry(BindingKind::WriteStorage(GpuBuffer::Flags), Stages::Compute),
            entry(BindingKind::WriteStorage(GpuBuffer::Aabb), Stages::Compute),
            entry(BindingKind::Uniform(GpuBuffer::SceneParams), Stages::Compute),
        ],
        Group::MeshCount => seq![
            entry(BindingKind::ReadStorage(GpuBuffer::OccupancyAtlas), Stages::Compute),
            entry(BindingKind::ReadStorage(GpuBuffer::Palette), Stages::Compute),
            entry(BindingKind::ReadStorage(GpuBuffer::Coord), Stages::Compute),
            entry(BindingKind::WriteStorage(GpuBuffer::MeshCounts), Stages::Compute),
            entry(BindingKind::ReadStorage(GpuBuffer::IndexBufPool), Stages::Compute),
            entry(BindingKind::ReadStorage(GpuBuffer::PaletteMeta), Stages::Compute),
        ],
        Group::PrefixSum => seq![
            entry(BindingKind::ReadStorage(GpuBuffer::MeshCounts), Stages::Compute),
            entry(BindingKind::WriteStorage(GpuBuffer::MeshOffsets), Stages::Compute),
            entry(BindingKind::WriteStorage(GpuBuffer::MeshTotal), Stages::Compute),
        ],
        Group::MeshCompute => seq![
            entry(BindingKind::ReadStorage(GpuBuffer::OccupancyAtlas), Stages::Compute),
            entry(BindingKind::ReadStorage(GpuBuffer::Palette), Stages::Compute),
            entry(BindingKind::ReadStorage(GpuBuffer::Coord), Stages::Compute),
            entry(BindingKind::WriteStorage(GpuBuffer::VertexPool), Stages::Compute),
            entry(BindingKind::WriteStorage(GpuBuffer::IndexPool), Stages::Compute),
            entry(BindingKind::WriteStorage(GpuBuffer::MeshOffsets), Stages::Compute),
            entry(BindingKind::ReadStorage(GpuBuffer::IndexBufPool), Stages::Compute),
            entry(BindingKind::ReadStorage(GpuBuffer::PaletteMeta), Stages::Compute),
            entry(BindingKind::Uniform(GpuBuffer::SceneParams), Stages::Compute),
        ],
        Group::BuildWireframe => seq![
            entry(BindingKind::ReadStorage(GpuBuffer::IndexPool), Stages::Compute),
            entry(BindingKind::ReadStorage(GpuBuffer::MeshOffsets), Stages::Compute),
            entry(BindingKind::WriteStorage(GpuBuffer::WireIndexPool), Stages::Compute),
            entry(BindingKind::WriteStorage(GpuBuffer::WireIndirect), Stages::Compute),
        ],
        Group::OcclusionCull => seq![
            entry(BindingKind::Uniform(GpuBuffer::Camera), Stages::Compute),
            entry(BindingKind::ReadStorage(GpuBuffer::Aabb), Stages::Compute),
            entry(BindingKind::ReadStorage(GpuBuffer::Flags), Stages::Compute),
            entry(BindingKind::FloatTexture, Stages::Compute),
            entry(BindingKind::WriteStorage(GpuBuffer::Visibility), Stages::Compute),
            entry(BindingKind::Uniform(GpuBuffer::CullParams), Stages::Compute),
        ],
        Group::HizFirst => seq![
            entry(BindingKind::DepthTexture, Stages::Compute),
            entry(BindingKind::WriteTextureR32, Stages::Compute),
            entry(BindingKind::Uniform(GpuBuffer::HizParams), Stages::Compute),
        ],
        Group::HizDownsample => seq![
            entry(BindingKind::FloatTexture, Stages::Compute),
            entry(BindingKind::WriteTextureR32, Stages::Compute),
            entry(BindingKind::Uniform(GpuBuffer::HizParams), Stages::Compute),
        ],
        Group::CameraGroup => seq![
            entry(BindingKind::Uniform(GpuBuffer::Camera), Stages::VertexFragment),
        ],
        Group::VertexRead => seq![
            entry(BindingKind::ReadStorage(GpuBuffer::VertexPool), Stages::Vertex),
        ],
        Group::DepthViz => seq![
            entry(BindingKind::DepthTexture, Stages::Fragment),
            entry(BindingKind::Sampler, Stages::Fragment),
        ],
        Group::NullConsumer => seq![
            entry(BindingKind::Uniform(GpuBuffer::NullGi), Stages::Fragment),
        ],
        Group::AtlasConsumer => seq![
            entry(BindingKind::FloatTexture, Stages::Fragment),
        ],
        Group::ProbeConsumer => seq![
            entry(BindingKind::ReadStorage(GpuBuffer::SlotTable), Stages::Fragment),
            entry(BindingKind::Uniform(GpuBuffer::SlotTableParams), Stages::Fragment),
            entry(BindingKind::ReadStorage(GpuBuffer::ProbePayload), Stages::Fragment),
            entry(BindingKind::ReadStorage(GpuBuffer::ProbeSlotTable), Stages::Fragment),
            entry(BindingKind::Uniform(GpuBuffer::CascadeParams), Stages::Fragment),
        ],
        Group::WorldData => seq![
            entry(BindingKind::ReadStorage(GpuBuffer::OccupancyAtlas), Stages::Compute),
            entry(BindingKind::ReadStorage(GpuBuffer::Flags), Stages::Compute),
            entry(BindingKind::ReadStorage(GpuBuffer::SlotTable), Stages::Compute),
            entry(BindingKind::ReadStorage(GpuBuffer::MaterialTable), Stages::Compute),
            entry(BindingKind::ReadStorage(GpuBuffer::Palette), Stages::Compute),
            entry(BindingKind::ReadStorage(GpuBuffer::PaletteMeta), Stages::Compute),
            entry(BindingKind::ReadStorage(GpuBuffer::IndexBufPool), Stages::Compute),
            entry(BindingKind::Uniform(GpuBuffer::SlotTableParams), Stages::Compute),
        ],
        Group::AtlasPass => seq![
            entry(BindingKind::DynamicUniform(GpuBuffer::CascadeUniforms), Stages::Compute),
            entry(BindingKind::DepthTexture, Stages::Compute),
            entry(BindingKind::WriteTextureRgba16, Stages::Compute),
            entry(BindingKind::FloatTexture, Stages::Compute),
            entry(BindingKind::FloatTexture, Stages::Compute),
            entry(BindingKind::FloatTexture, Stages::Compute),
        ],
        Group::ProbeBuild => seq![
            entry(BindingKind::WriteStorage(GpuBuffer::ProbePayload), Stages::Compute),
            entry(BindingKind::ReadStorage(GpuBuffer::ProbeSlotTable), Stages::Compute),
            entry(BindingKind::Uniform(GpuBuffer::CascadeParams), Stages::Compute),
            entry(BindingKind::ReadStorage(GpuBuffer::ActiveProbeChunks), Stages::Compute),
        ],
        Group::AtlasDebug => seq![
            entry(BindingKind::FloatTexture, Stages::Fragment),
            entry(BindingKind::FloatTexture, Stages::Fragment),
            entry(BindingKind::DepthTexture, Stages::Fragment),
            entry(BindingKind::Uniform(GpuBuffer::CascadeUniforms), Stages::Fragment),
            entry(BindingKind::FloatTexture, Stages::Fragment),
        ],
    }
}

/// The bindings of a group, in order.
pub fn bindings(g: Group) -> (v: Vec<Binding>)
    ensures
        v@ == group_bindings(g),
{
    match g {
        Group::ChunkMeta => vec![
            bind(BindingKind::ReadStorage(GpuBuffer::OccupancyAtlas), Stages::All),
            bind(BindingKind::ReadStorage(GpuBuffer::Palette), Stages::All),
            bind(BindingKind::ReadStorage(GpuBuffer::Coord), Stages::All),
            bind(BindingKind::ReadStorage(GpuBuffer::Version), Stages::All),
            bind(BindingKind::ReadStorage(GpuBuffer::Flags), Stages::All),
            bind(BindingKind::ReadStorage(GpuBuffer::Summary), Stages::All),
            bind(BindingKind::ReadStorage(GpuBuffer::Aabb), Stages::All),
        ],
        Group::MeshDraw => vec![
            bind(BindingKind::ReadStorage(GpuBuffer::VertexPool), Stages::All),
            bind(BindingKind::ReadStorage(GpuBuffer::IndexPool), Stages::All),
            bind(BindingKind::ReadStorage(GpuBuffer::DrawMeta), Stages::All),
            bind(BindingKind::ReadStorage(GpuBuffer::IndirectDraw), Stages::All),
        ],
        Group::SceneGlobal => vec![
            bind(BindingKind::ReadStorage(GpuBuffer::MaterialTable), Stages::All),
        ],
        Group::SummaryCompute => vec![
            bind(BindingKind::ReadStorage(GpuBuffer::OccupancyAtlas), Stages::Compute),
            bind(BindingKind::ReadStorage(GpuBuffer::Palette), Stages::Compute),
            bind(BindingKind::ReadStorage(GpuBuffer::Coord), Stages::Compute),
            bind(BindingKind::ReadStorage(GpuBuffer::MaterialTable), Stages::Compute),
            bind(BindingKind::WriteStorage(GpuBuffer::Summary), Stages::Compute),
            bind(BindingKind::WriteStorage(GpuBuffer::Flags), Stages::Compute),
            bind(BindingKind::WriteStorage(GpuBuffer::Aabb), Stages::Compute),
            bind(BindingKind::Uniform(GpuBuffer::SceneParams), Stages::Compute),
        ],
        Group::MeshCount => vec![
            bind(BindingKind::ReadStorage(GpuBuffer::OccupancyAtlas), Stages::Compute),
            bind(BindingKind::ReadStorage(GpuBuffer::Palette), Stages::Compute),
            bind(BindingKind::ReadStorage(GpuBuffer::Coord), Stages::Compute),
            bind(BindingKind::WriteStorage(GpuBuffer::MeshCounts), Stages::Compute),
            bind(BindingKind::ReadStorage(GpuBuffer::IndexBufPool), Stages::Compute),
            bind(BindingKind::ReadStorage(GpuBuffer::PaletteMeta), Stages::Compute),
        ],
        Group::PrefixSum => vec![
            bind(BindingKind::ReadStorage(GpuBuffer::MeshCounts), Stages::Compute),
            bind(BindingKind::WriteStorage(GpuBuffer::MeshOffsets), Stages::Compute),
            bind(BindingKind::WriteStorage(GpuBuffer::MeshTotal), Stages::Compute),
        ],
        Group::MeshCompute => vec![
            bind(BindingKind::ReadStorage(GpuBuffer::OccupancyAtlas), Stages::Compute),
            bind(BindingKind::ReadStorage(GpuBuffer::Palette), Stages::Compute),
            bind(BindingKind::ReadStorage(GpuBuffer::Coord), Stages::Compute),
            bind(BindingKind::WriteStorage(GpuBuffer::VertexPool), Stages::Compute),
            bind(BindingKind::WriteStorage(GpuBuffer::IndexPool), Stages::Compute),
            bind(BindingKind::WriteStorage(GpuBuffer::MeshOffsets), Stages::Compute),
            bind(BindingKind::ReadStorage(GpuBuffer::IndexBufPool), Stages::Compute),
            bind(BindingKind::ReadStorage(GpuBuffer::PaletteMeta), Stages::Compute),
            bind(BindingKind::Uniform(GpuBuffer::SceneParams), Stages::Compute),
        ],
        Group::BuildWireframe => vec![
            bind(BindingKind::ReadStorage(GpuBuffer::IndexPool), Stages::Compute),
            bind(BindingKind::ReadStorage(GpuBuffer::MeshOffsets), Stages::Compute),
            bind(BindingKind::WriteStorage(GpuBuffer::WireIndexPool), Stages::Compute),
            bind(BindingKind::WriteStorage(GpuBuffer::WireIndirect), Stages::Compute),
        ],
        Group::OcclusionCull => vec![
            bind(BindingKind::Uniform(GpuBuffer::Camera), Stages::Compute),
            bind(BindingKind::ReadStorage(GpuBuffer::Aabb), Stages::Compute),
            bind(BindingKind::ReadStorage(GpuBuffer::Flags), Stages::Compute),
            bind(BindingKind::FloatTexture, Stages::Compute),
            bind(BindingKind::WriteStorage(GpuBuffer::Visibility), Stages::Compute),
            bind(BindingKind::Uniform(GpuBuffer::CullParams), Stages::Compute),
        ],
        Group::HizFirst => vec![
            bind(BindingKind::DepthTexture, Stages::Compute),
            bind(BindingKind::WriteTextureR32, Stages::Compute),
            bind(BindingKind::Uniform(GpuBuffer::HizParams), Stages::Compute),
        ],
        Group::HizDownsample => vec![
            bind(BindingKind::FloatTexture, Stages::Compute),
            bind(BindingKind::WriteTextureR32, Stages::Compute),
            bind(BindingKind::Uniform(GpuBuffer::HizParams), Stages::Compute),
        ],
        Group::CameraGroup => vec![
            bind(BindingKind::Uniform(GpuBuffer::Camera), Stages::VertexFragment),
        ],
        Group::VertexRead => vec![
            bind(BindingKind::ReadStorage(GpuBuffer::VertexPool), Stages::Vertex),
        ],
        Group::DepthViz => vec![
            bind(BindingKind::DepthTexture, Stages::Fragment),
            bind(BindingKind::Sampler, Stages::Fragment),
        ],
        Group::NullConsumer => vec![
            bind(BindingKind::Uniform(GpuBuffer::NullGi), Stages::Fragment),
        ],
        Group::AtlasConsumer => vec![
            bind(BindingKind::FloatTexture, Stages::Fragment),
        ],
        Group::ProbeConsumer => vec![
            bind(BindingKind::ReadStorage(GpuBuffer::SlotTable), Stages::Fragment),
            bind(BindingKind::Uniform(GpuBuffer::SlotTableParams), Stages::Fragment),
            bind(BindingKind::ReadStorage(GpuBuffer::ProbePayload), Stages::Fragment),
            bind(BindingKind::ReadStorage(GpuBuffer::ProbeSlotTable), Stages::Fragment),
            bind(BindingKind::Uniform(GpuBuffer::CascadeParams), Stages::Fragment),
        ],
        Group::WorldData => vec![
            bind(BindingKind::ReadStorage(GpuBuffer::OccupancyAtlas), Stages::Compute),
            bind(BindingKind::ReadStorage(GpuBuffer::Flags), Stages::Compute),
            bind(BindingKind::ReadStorage(GpuBuffer::SlotTable), Stages::Compute),
            bind(BindingKind::ReadStorage(GpuBuffer::MaterialTable), Stages::Compute),
            bind(BindingKind::ReadStorage(GpuBuffer::Palette), Stages::Compute),
            bind(BindingKind::ReadStorage(GpuBuffer::PaletteMeta), Stages::Compute),
            bind(BindingKind::ReadStorage(GpuBuffer::IndexBufPool), Stages::Compute),
            bind(BindingKind::Uniform(GpuBuffer::SlotTableParams), Stages::Compute),
        ],
        Group::AtlasPass => vec![
            bind(BindingKind::DynamicUniform(GpuBuffer::CascadeUniforms), Stages::Compute),
            bind(BindingKind::DepthTexture, Stages::Compute),
            bind(BindingKind::WriteTextureRgba16, Stages::Compute),
            bind(BindingKind::FloatTexture, Stages::Compute),
            bind(BindingKind::FloatTexture, Stages::Compute),
            bind(BindingKind::FloatTexture, Stages::Compute),
        ],
        Group::ProbeBuild => vec![
            bind(BindingKind::WriteStorage(GpuBuffer::ProbePayload), Stages::Compute),
            bind(BindingKind::ReadStorage(GpuBuffer::ProbeSlotTable), Stages::Compute),
            bind(BindingKind::Uniform(GpuBuffer::CascadeParams), Stages::Compute),
            bind(BindingKind::ReadStorage(GpuBuffer::ActiveProbeChunks), Stages::Compute),
        ],
        Group::AtlasDebug => vec![
            bind(BindingKind::FloatTexture, Stages::Fragment),
            bind(BindingKind::FloatTexture, Stages::Fragment),
            bind(BindingKind::DepthTexture, Stages::Fragment),
            bind(BindingKind::Uniform(GpuBuffer::CascadeUniforms), Stages::Fragment),
            bind(BindingKind::FloatTexture, Stages::Fragment),
        ],
    }
}

/// Whether the buffer behind a binding was made for it.
pub open spec fn usage_allows(b: Binding) -> bool {
    match b.kind {
        BindingKind::ReadStorage(buf) => buffer_usage(buf).storage,
        BindingKind::WriteStorage(buf) => buffer_usage(buf).storage,
        BindingKind::Uniform(buf) => buffer_usage(buf).uniform,
        BindingKind::DynamicUniform(buf) => buffer_usage(buf).uniform,
        _ => true,
    }
}

/// Whether the stages that see a binding may use it as declared: only compute
/// shaders write.
pub open spec fn stages_allow(b: Binding) -> bool {
    match b.kind {
        BindingKind::WriteStorage(_) => b.stages == Stages::Compute,
        BindingKind::WriteTextureR32 => b.stages == Stages::Compute,
        BindingKind::WriteTextureRgba16 => b.stages == Stages::Compute,
        _ => true,
    }
}

/// Whether a binding is a storage buffer.
pub open spec fn is_storage(b: Binding) -> bool {
    b.kind is ReadStorage || b.kind is WriteStorage
}

/// Every binding of every group has a buffer that was made for it, and nothing
/// but a compute shader writes.
pub proof fn bindings_are_allowed(g: Group, i: int)
    requires
        0 <= i < group_bindings(g).len(),
    ensures
        usage_allows(group_bindings(g)[i]),
        stages_allow(group_bindings(g)[i]),
{
}

/// No group binds more than eight storage buffers: a group holds at most nine
/// bindings, and one of nine is a uniform.
pub proof fn storage_bindings_fit(g: Group)
    ensures
        1 <= group_bindings(g).len() <= 9,
        group_bindings(g).len() == 9 ==> !is_storage(group_bindings(g)[8]),
{
}

/// No compute pass reads and writes one buffer through two bindings.
pub proof fn written_buffers_are_bound_once(g: Group, i: int, j: int, b: GpuBuffer)
    requires
        0 <= i < group_bindings(g).len(),
        0 <= j < group_bindings(g).len(),
        i != j,
        group_bindings(g)[i].kind == BindingKind::WriteStorage(b),
    ensures
        group_bindings(g)[j].kind != BindingKind::WriteStorage(b),
        group_bindings(g)[j].kind != BindingKind::ReadStorage(b),
{
}

/// Bytes that the chunk pool takes at start, as it reports them.
pub open spec fn pool_bytes() -> int {
    TOTAL_OCCUPANCY_BYTES + TOTAL_PALETTE_BYTES + TOTAL_INDEX_BUF_BYTES
        + TOTAL_PALETTE_META_BYTES + COORD_BYTES * MAX_SLOTS + VERSION_BYTES * MAX_SLOTS
        + FLAGS_BYTES * MAX_SLOTS + SUMMARY_BYTES_PER_SLOT * MAX_SLOTS + AABB_BYTES * MAX_SLOTS
        + DRAW_META_BYTES * MAX_SLOTS + TOTAL_VERTEX_BYTES + TOTAL_INDEX_BYTES
        + MESH_COUNTS_ENTRY_BYTES * MAX_SLOTS + MESH_OFFSET_ENTRY_BYTES * MAX_SLOTS + 8
        + TOTAL_MATERIAL_BYTES + TOTAL_INDIRECT_BYTES
}

/// Bytes that the chunk pool takes at start, as it reports them.
pub fn pool_size() -> (n: u64)
    ensures
        n == pool_bytes(),
{
    TOTAL_OCCUPANCY_BYTES + TOTAL_PALETTE_BYTES + TOTAL_INDEX_BUF_BYTES
        + TOTAL_PALETTE_META_BYTES
        + (COORD_BYTES * MAX_SLOTS) as u64
        + (VERSION_BYTES * MAX_SLOTS) as u64
        + (FLAGS_BYTES * MAX_SLOTS) as u64
        + (SUMMARY_BYTES_PER_SLOT * MAX_SLOTS) as u64
        + (AABB_BYTES * MAX_SLOTS) as u64
        + (DRAW_META_BYTES * MAX_SLOTS) as u64
        + TOTAL_VERTEX_BYTES
        + TOTAL_INDEX_BYTES
        + (MESH_COUNTS_ENTRY_BYTES * MAX_SLOTS) as u64
        + (MESH_OFFSET_ENTRY_BYTES * MAX_SLOTS) as u64
        + 8
        + TOTAL_MATERIAL_BYTES + TOTAL_INDIRECT_BYTES
}

/// A render pipeline.
#[derive(Debug, Clone, Copy, PartialEq, Eq, Structural)]
pub enum Pipeline {
    /// Depth and normals of all geometry.
    DepthPrepass,
    /// Shaded geometry.
    Color,
    /// Normals as colors.
    Normals,
    /// Quad edges.
    Wireframe,
    /// The depth buffer, fullscreen.
    DepthViz,
}

/// What a pipeline draws.
#[derive(Debug, Clone, Copy, PartialEq, Eq, Structural)]
pub enum Topology {
    Triangles,
    Lines,
}

/// How a pipeline uses the depth buffer.
#[derive(Debug, Clone, Copy, PartialEq, Eq, Structural)]
pub enum DepthUse {
    /// No depth attachment.
    NoDepth,
    /// Passes what is nearer, and writes it.
    WriteIfLess,
    /// Passes what is not behind, and writes nothing.
    ReadIfLessOrEqual,
}

/// The bind group that a pipeline expects at one place.
#[derive(Debug, Clone, Copy, PartialEq, Eq, Structural)]
pub enum PipelineGroup {
    Fixed(Group),
    /// The consumer group of the active indirect light.
    Consumer,
}

/// Fixed state of a render pipeline.
#[derive(Debug, Clone, Copy, PartialEq, Eq, Structural)]
pub struct PipelineState {
    pub topology: Topology,
    pub cull_back: bool,
    pub depth: DepthUse,
    /// Whether the target is the normal buffer, which is not blended; else it
    /// is the screen, which is replaced.
    pub writes_normals: bool,
}

/// Fixed state of a render pipeline.
pub open spec fn pipeline_state_of(p: Pipeline) -> PipelineState {
    PipelineState {
        topology: if p == Pipeline::Wireframe {
            Topology::Lines
        } else {
            Topology::Triangles
        },
        cull_back: p == Pipeline::DepthPrepass || p == Pipeline::Color || p == Pipeline::Normals,
        depth: match p {
            Pipeline::DepthPrepass => DepthUse::WriteIfLess,
            Pipeline::Wireframe => DepthUse::WriteIfLess,
            Pipeline::Color => DepthUse::ReadIfLessOrEqual,
            Pipeline::Normals => DepthUse::ReadIfLessOrEqual,
            Pipeline::DepthViz => DepthUse::NoDepth,
        },
        writes_normals: p == Pipeline::DepthPrepass,
    }
}

/// Fixed state of a render pipeline.
pub fn pipeline_state(p: Pipeline) -> (s: PipelineState)
    ensures
        s == pipeline_state_of(p),
{
    match p {
        Pipeline::DepthPrepass => PipelineState {
            topology: Topology::Triangles,
            cull_back: true,
            depth: DepthUse::WriteIfLess,
            writes_normals: true,
        },
        Pipeline::Color => PipelineState {
            topology: Topology::Triangles,
            cull_back: true,
            depth: DepthUse::ReadIfLessOrEqual,
            writes_normals: false,
        },
        Pipeline::Normals => PipelineState {
            topology: Topology::Triangles,
            cull_back: true,
            depth: DepthUse::ReadIfLessOrEqual,
            writes_normals: false,
        },
        Pipeline::Wireframe => PipelineState {
            topology: Topology::Lines,
            cull_back: false,
            depth: DepthUse::WriteIfLess,
            writes_normals: false,
        },
        Pipeline::DepthViz => PipelineState {
            topology: Topology::Triangles,
            cull_back: false,
            depth: DepthUse::NoDepth,
            writes_normals: false,
        },
    }
}

/// The bind groups of a render pipeline, in order.
pub open spec fn pipeline_groups_of(p: Pipeline) -> Seq<PipelineGroup> {
    match p {
        Pipeline::DepthPrepass | Pipeline::Wireframe => seq![
            PipelineGroup::Fixed(Group::CameraGroup),
            PipelineGroup::Fixed(Group::VertexRead),
        ],
        Pipeline::Color | Pipeline::Normals => seq![
            PipelineGroup::Fixed(Group::CameraGroup),
            PipelineGroup::Fixed(Group::VertexRead),
            PipelineGroup::Fixed(Group::SceneGlobal),
            PipelineGroup::Consumer,
        ],
        Pipeline::DepthViz => seq![
            PipelineGroup::Fixed(Group::CameraGroup),
            PipelineGroup::Fixed(Group::DepthViz),
        ],
    }
}

/// The bind groups of a render pipeline, in order.
pub fn pipeline_groups(p: Pipeline) -> (v: Vec<PipelineGroup>)
    ensures
        v@ == pipeline_groups_of(p),
{
    match p {
        Pipeline::DepthPrepass | Pipeline::Wireframe => vec![
            PipelineGroup::Fixed(Group::CameraGroup),
            PipelineGroup::Fixed(Group::VertexRead),
        ],
        Pipeline::Color | Pipeline::Normals => vec![
            PipelineGroup::Fixed(Group::CameraGroup),
            PipelineGroup::Fixed(Group::VertexRead),
            PipelineGroup::Fixed(Group::SceneGlobal),
            PipelineGroup::Consumer,
        ],
        Pipeline::DepthViz => vec![
            PipelineGroup::Fixed(Group::CameraGroup),
            PipelineGroup::Fixed(Group::DepthViz),
        ],
    }
}

/// Entry point of a pipeline's vertex shader.
pub open spec fn vertex_entry_of(p: Pipeline) -> Seq<char> {
    match p {
        Pipeline::DepthPrepass => "vs_depth"@,
        Pipeline::Color => "vs_main"@,
        Pipeline::Normals => "vs_main"@,
        Pipeline::Wireframe => "vs_wire"@,
        Pipeline::DepthViz => "vs_fullscreen"@,
    }
}

/// Entry point of a pipeline's vertex shader.
pub fn vertex_entry(p: Pipeline) -> (name: &'static str)
    ensures
        name@ == vertex_entry_of(p),
{
    match p {
        Pipeline::DepthPrepass => "vs_depth",
        Pipeline::Color => "vs_main",
        Pipeline::Normals => "vs_main",
        Pipeline::Wireframe => "vs_wire",
        Pipeline::DepthViz => "vs_fullscreen",
    }
}

/// Entry point of a pipeline's fragment shader.
pub open spec fn fragment_entry_of(p: Pipeline) -> Seq<char> {
    match p {
        Pipeline::DepthPrepass => "fs_depth"@,
        Pipeline::Color => "fs_main"@,
        Pipeline::Normals => "fs_normals"@,
        Pipeline::Wireframe => "fs_wire"@,
        Pipeline::DepthViz => "fs_depth_viz"@,
    }
}

/// Entry point of a pipeline's fragment shader.
pub fn fragment_entry(p: Pipeline) -> (name: &'static str)
    ensures
        name@ == fragment_entry_of(p),
{
    match p {
        Pipeline::DepthPrepass => "fs_depth",
        Pipeline::Color => "fs_main",
        Pipeline::Normals => "fs_normals",
        Pipeline::Wireframe => "fs_wire",
        Pipeline::DepthViz => "fs_depth_viz",
    }
}

/// Number of screen-space cascade debug views.
pub const N_DEBUG_VIEWS: usize = 8;

/// Fragment entry point of a screen-space cascade debug view.
pub open spec fn debug_entry_of(mode: int) -> Option<Seq<char>> {
    if mode == 0 {
        Some("fs_cascade_raw"@)
    } else if mode == 1 {
        Some("fs_opacity_map"@)
    } else if mode == 2 {
        Some("fs_gi_only"@)
    } else if mode == 3 {
        Some("fs_atlas_b"@)
    } else if mode == 4 {
        Some("fs_depth_normals"@)
    } else if mode == 5 {
        Some("fs_world_pos"@)
    } else if mode == 6 {
        Some("fs_raw_texel"@)
    } else if mode == 7 {
        Some("fs_single_dir"@)
    } else {
        None
    }
}

/// Fragment entry point of a screen-space cascade debug view; other modes draw
/// nothing.
pub fn debug_entry(mode: u8) -> (name: Option<&'static str>)
    ensures
        match name {
            Some(s) => debug_entry_of(mode as int) == Some(s@),
            None => debug_entry_of(mode as int) is None,
        },
{
    match mode {
        0 => Some("fs_cascade_raw"),
        1 => Some("fs_opacity_map"),
        2 => Some("fs_gi_only"),
        3 => Some("fs_atlas_b"),
        4 => Some("fs_depth_normals"),
        5 => Some("fs_world_pos"),
        6 => Some("fs_raw_texel"),
        7 => Some("fs_single_dir"),
        _ => None,
    }
}

/// Everything that a frame draws through a pipeline fits its depth use: what
/// the prepass wrote is what the shaded pipelines compare with.
pub proof fn shading_keeps_prepass_depth(p: Pipeline)
    requires
        p == Pipeline::Color || p == Pipeline::Normals,
    ensures
        pipeline_state_of(Pipeline::DepthPrepass).depth == DepthUse::WriteIfLess,
        pipeline_state_of(p).depth == DepthUse::ReadIfLessOrEqual,
        pipeline_state_of(p).topology == pipeline_state_of(Pipeline::DepthPrepass).topology,
        pipeline_state_of(p).cull_back == pipeline_state_of(Pipeline::DepthPrepass).cull_back,
{
}

} // verus!
