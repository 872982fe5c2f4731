//! What shaders find where: binding numbers by buffer, who writes, and what buffers
//! are made for.

use vstd::prelude::*;

use crate::gpu_layout;
use crate::gpu_layout::{
    Binding, BindingKind, DepthUse, GpuBuffer, Group, Pipeline, PipelineGroup, Stages, Topology,
};

verus! {

/// The buffer that a binding holds, if it holds one.
pub open spec fn buffer_of(b: Binding) -> Option<GpuBuffer> {
    match b.kind {
        BindingKind::ReadStorage(x) => Some(x),
        BindingKind::WriteStorage(x) => Some(x),
        BindingKind::Uniform(x) => Some(x),
        BindingKind::DynamicUniform(x) => Some(x),
        _ => None,
    }
}

/// The binding number at which the shaders of a group find a buffer; negative where
/// they do not use it.
pub open spec fn binding_number(b: GpuBuffer, g: Group) -> int {
    match b {
        GpuBuffer::OccupancyAtlas => match g {
            Group::ChunkMeta => 0,
            Group::SummaryCompute => 0,
            Group::MeshCount => 0,
            Group::MeshCompute => 0,
            Group::WorldData => 0,
            _ => -1,
        },
        GpuBuffer::Palette => match g {
            Group::ChunkMeta => 1,
            Group::SummaryCompute => 1,
            Group::MeshCount => 1,
            Group::MeshCompute => 1,
            Group::WorldData => 4,
            _ => -1,
        },
        GpuBuffer::Coord => match g {
            Group::ChunkMeta => 2,
            Group::SummaryCompute => 2,
            Group::MeshCount => 2,
            Group::MeshCompute => 2,
            _ => -1,
        },
        GpuBuffer::Version => if g == Group::ChunkMeta {
            3
        } else {
            -1
        },
        GpuBuffer::Flags => match g {
            Group::ChunkMeta => 4,
            Group::SummaryCompute => 5,
            Group::OcclusionCull => 2,
            Group::WorldData => 1,
            _ => -1,
        },
        GpuBuffer::Summary => match g {
            Group::ChunkMeta => 5,
            Group::SummaryCompute => 4,
            _ => -1,
        },
        GpuBuffer::Aabb => match g {
            Group::ChunkMeta => 6,
            Group::SummaryCompute => 6,
            Group::OcclusionCull => 1,
            _ => -1,
        },
        GpuBuffer::VertexPool => match g {
            Group::MeshDraw => 0,
            Group::MeshCompute => 3,
            Group::VertexRead => 0,
            _ => -1,
        },
        GpuBuffer::IndexPool => match g {
            Group::MeshDraw => 1,
            Group::MeshCompute => 4,
            Group::BuildWireframe => 0,
            _ => -1,
        },
        GpuBuffer::DrawMeta => if g == Group::MeshDraw {
            2
        } else {
            -1
        },
        GpuBuffer::IndirectDraw => if g == Group::MeshDraw {
            3
        } else {
            -1
        },
        GpuBuffer::MaterialTable => match g {
            Group::SceneGlobal => 0,
            Group::SummaryCompute => 3,
            Group::WorldData => 3,
            _ => -1,
        },
        GpuBuffer::SceneParams => match g {
            Group::SummaryCompute => 7,
            Group::MeshCompute => 8,
            _ => -1,
        },
        GpuBuffer::MeshCounts => match g {
            Group::MeshCount => 3,
            Group::PrefixSum => 0,
            _ => -1,
        },
        GpuBuffer::IndexBufPool => match g {
            Group::MeshCount => 4,
            Group::MeshCompute => 6,
            Group::WorldData => 6,
            _ => -1,
        },
        GpuBuffer::PaletteMeta => match g {
            Group::MeshCount => 5,
            Group::MeshCompute => 7,
            Group::WorldData => 5,
            _ => -1,
        },
        GpuBuffer::MeshOffsets => match g {
            Group::PrefixSum => 1,
            Group::MeshCompute => 5,
            Group::BuildWireframe => 1,
            _ => -1,
        },
        GpuBuffer::MeshTotal => if g == Group::PrefixSum {
            2
        } else {
            -1
        },
        GpuBuffer::WireIndexPool => if g == Group::BuildWireframe {
            2
        } else {
            -1
        },
        GpuBuffer::WireIndirect => if g == Group::BuildWireframe {
            3
        } else {
            -1
        },
        GpuBuffer::Camera => match g {
            Group::OcclusionCull => 0,
            Group::CameraGroup => 0,
            _ => -1,
        },
        GpuBuffer::Visibility => if g == Group::OcclusionCull {
            4
        } else {
            -1
        },
        GpuBuffer::CullParams => if g == Group::OcclusionCull {
            5
        } else {
            -1
        },
        GpuBuffer::HizParams => match g {
            Group::HizFirst => 2,
            Group::HizDownsample => 2,
            _ => -1,
        },
        GpuBuffer::NullGi => if g == Group::NullConsumer {
            0
        } else {
            -1
        },
        GpuBuffer::SlotTable => match g {
            Group::ProbeConsumer => 0,
            Group::WorldData => 2,
            _ => -1,
        },
        GpuBuffer::SlotTableParams => match g {
            Group::ProbeConsumer => 1,
            Group::WorldData => 7,
            _ => -1,
        },
        GpuBuffer::ProbePayload => match g {
            Group::ProbeConsumer => 2,
            Group::ProbeBuild => 0,
            _ => -1,
        },
        GpuBuffer::ProbeSlotTable => match g {
            Group::ProbeConsumer => 3,
            Group::ProbeBuild => 1,
            _ => -1,
        },
        GpuBuffer::CascadeParams => match g {
            Group::ProbeConsumer => 4,
            Group::ProbeBuild => 2,
            _ => -1,
        },
        GpuBuffer::ActiveProbeChunks => if g == Group::ProbeBuild {
            3
        } else {
            -1
        },
        GpuBuffer::CascadeUniforms => match g {
            Group::AtlasPass => 0,
            Group::AtlasDebug => 3,
            _ => -1,
        },
        GpuBuffer::FirstPassVisibility => -1,
    }
}

/// Each group binds each buffer at its number, and nowhere else.
pub proof fn buffers_are_bound_at_their_number(g: Group, b: GpuBuffer, i: int)
    requires
        0 <= i < gpu_layout::group_bindings(g).len(),
    ensures
        buffer_of(gpu_layout::group_bindings(g)[i]) == Some(b) <==> binding_number(b, g) == i,
        binding_number(b, g) < gpu_layout::group_bindings(g).len(),
{
}

/// Whether the shaders of a group write a buffer.
pub open spec fn is_written(b: GpuBuffer, g: Group) -> bool {
    match g {
        Group::SummaryCompute => b == GpuBuffer::Summary || b == GpuBuffer::Flags || b
            == GpuBuffer::Aabb,
        Group::MeshCount => b == GpuBuffer::MeshCounts,
        Group::PrefixSum => b == GpuBuffer::MeshOffsets || b == GpuBuffer::MeshTotal,
        Group::MeshCompute => b == GpuBuffer::VertexPool || b == GpuBuffer::IndexPool || b
            == GpuBuffer::MeshOffsets,
        Group::BuildWireframe => b == GpuBuffer::WireIndexPool || b == GpuBuffer::WireIndirect,
        Group::OcclusionCull => b == GpuBuffer::Visibility,
        Group::ProbeBuild => b == GpuBuffer::ProbePayload,
        _ => false,
    }
}

/// A bound buffer is writable exactly where the group writes it. Parameter records
/// are uniforms, one of them with an offset for each dispatch, and all else is storage.
pub proof fn bound_buffers_have_their_kind(g: Group, b: GpuBuffer)
    requires
        binding_number(b, g) >= 0,
    ensures
        ({
            let k = gpu_layout::group_bindings(g)[binding_number(b, g)].kind;
            let params = b == GpuBuffer::SceneParams || b == GpuBuffer::SlotTableParams || b
                == GpuBuffer::CascadeParams || b == GpuBuffer::CascadeUniforms || b
                == GpuBuffer::Camera || b == GpuBuffer::CullParams || b == GpuBuffer::HizParams || b
                == GpuBuffer::NullGi;
            &&& k is WriteStorage <==> is_written(b, g)
            &&& k is ReadStorage <==> !is_written(b, g) && !params
            &&& k is DynamicUniform <==> g == Group::AtlasPass
        }),
{
}

/// The textures and samplers of the groups, by number: those without a buffer.
pub proof fn textures_are_bound_at_their_number(g: Group, i: int)
    requires
        0 <= i < gpu_layout::group_bindings(g).len(),
    ensures
        ({
            let k = gpu_layout::group_bindings(g)[i].kind;
            &&& k == BindingKind::DepthTexture <==> (g == Group::HizFirst && i == 0) || (g
                == Group::DepthViz && i == 0) || (g == Group::AtlasPass && i == 1) || (g
                == Group::AtlasDebug && i == 2)
            &&& k == BindingKind::FloatTexture <==> (g == Group::OcclusionCull && i == 3) || (g
                == Group::HizDownsample && i == 0) || g == Group::AtlasConsumer || (g
                == Group::AtlasPass && i >= 3) || (g == Group::AtlasDebug && (i == 0 || i == 1 || i
                == 4))
            &&& k == BindingKind::WriteTextureR32 <==> (g == Group::HizFirst || g
                == Group::HizDownsample) && i == 1
            &&& k == BindingKind::WriteTextureRgba16 <==> g == Group::AtlasPass && i == 2
            &&& k == BindingKind::Sampler <==> g == Group::DepthViz && i == 1
        }),
{
}

/// The stages that see a group: all of them for what describes chunks, meshes and
/// materials, the render stages for cameras, vertices and consumers of light, and
/// compute for the rest.
pub proof fn groups_are_seen_by_their_stages(g: Group, i: int)
    requires
        0 <= i < gpu_layout::group_bindings(g).len(),
    ensures
        ({
            let s = gpu_layout::group_bindings(g)[i].stages;
            &&& s == Stages::All <==> g == Group::ChunkMeta || g == Group::MeshDraw || g
                == Group::SceneGlobal
            &&& s == Stages::VertexFragment <==> g == Group::CameraGroup
            &&& s == Stages::Vertex <==> g == Group::VertexRead
            &&& s == Stages::Fragment <==> g == Group::DepthViz || g == Group::NullConsumer || g
                == Group::AtlasConsumer || g == Group::ProbeConsumer || g == Group::AtlasDebug
        }),
{
}

/// What each buffer is made for, by use: two hold indices, two hold draw arguments;
/// parameter records are uniforms; only what the device computes and nobody copies is
/// not filled from outside; and what is read back can be copied from.
pub proof fn buffers_are_made_for_their_use(b: GpuBuffer)
    ensures
        ({
            let u = gpu_layout::buffer_usage(b);
            &&& u.index <==> b == GpuBuffer::IndexPool || b == GpuBuffer::WireIndexPool
            &&& u.indirect <==> b == GpuBuffer::IndirectDraw || b == GpuBuffer::WireIndirect
            &&& u.uniform <==> b == GpuBuffer::SceneParams || b == GpuBuffer::SlotTableParams || b
                == GpuBuffer::CascadeParams || b == GpuBuffer::CascadeUniforms || b
                == GpuBuffer::Camera || b == GpuBuffer::CullParams || b == GpuBuffer::HizParams || b
                == GpuBuffer::NullGi
            &&& u.storage <==> !u.uniform
            &&& u.copy_src <==> b == GpuBuffer::DrawMeta || b == GpuBuffer::VertexPool || b
                == GpuBuffer::FirstPassVisibility || b == GpuBuffer::IndexPool
            &&& !u.copy_dst <==> b == GpuBuffer::Summary || b == GpuBuffer::Aabb || b
                == GpuBuffer::WireIndexPool || b == GpuBuffer::WireIndirect || b
                == GpuBuffer::CullParams || b == GpuBuffer::HizParams || b == GpuBuffer::NullGi
        }),
{
}

/// Bytes of a buffer for each of the 4096 chunk slots; zero for buffers that have no
/// part for each slot.
pub open spec fn slot_bytes(b: GpuBuffer) -> int {
    match b {
        GpuBuffer::OccupancyAtlas => 64int * 64 * 8,
        GpuBuffer::Palette => 16int * 2,
        GpuBuffer::Coord => 4int * 4,
        GpuBuffer::Version => 4,
        GpuBuffer::Flags => 4,
        GpuBuffer::Summary => 512int / 8,
        GpuBuffer::Aabb => 8int * 4,
        GpuBuffer::DrawMeta => 8int * 4,
        GpuBuffer::MeshCounts => 4,
        GpuBuffer::MeshOffsets => 5int * 4,
        GpuBuffer::WireIndexPool => 32_768int * 4,
        GpuBuffer::WireIndirect => 5int * 4,
        GpuBuffer::IndexBufPool => 64int * 64 * 64 / 2,
        GpuBuffer::PaletteMeta => 4,
        GpuBuffer::Visibility => 4,
        GpuBuffer::FirstPassVisibility => 4,
        GpuBuffer::IndirectDraw => 5int * 4,
        GpuBuffer::ProbeSlotTable => 4,
        _ => 0,
    }
}

/// Buffers with a part for each slot are as large as all the parts.
pub proof fn slots_fill_their_buffers(b: GpuBuffer, dim: u32)
    requires
        slot_bytes(b) > 0,
    ensures
        gpu_layout::buffer_bytes(b, dim) == 4096 * slot_bytes(b),
{
}

/// The chunk pool reports the sizes of the buffers that it makes at start: everything
/// but what belongs to indirect light, visibility, wireframes and parameters.
pub proof fn pool_reports_its_buffers()
    ensures
        gpu_layout::pool_bytes() == 4096 * (slot_bytes(GpuBuffer::OccupancyAtlas) + slot_bytes(
            GpuBuffer::Palette,
        ) + slot_bytes(GpuBuffer::IndexBufPool) + slot_bytes(GpuBuffer::PaletteMeta) + slot_bytes(
            GpuBuffer::Coord,
        ) + slot_bytes(GpuBuffer::Version) + slot_bytes(GpuBuffer::Flags) + slot_bytes(
            GpuBuffer::Summary,
        ) + slot_bytes(GpuBuffer::Aabb) + slot_bytes(GpuBuffer::DrawMeta) + slot_bytes(GpuBuffer::MeshCounts) + slot_bytes(
            GpuBuffer::MeshOffsets,
        ) + slot_bytes(GpuBuffer::IndirectDraw)) + gpu_layout::buffer_bytes(
            GpuBuffer::MeshTotal,
            0,
        ) + gpu_layout::buffer_bytes(GpuBuffer::MaterialTable, 0) + gpu_layout::buffer_bytes(
            GpuBuffer::VertexPool,
            0,
        ) + gpu_layout::buffer_bytes(GpuBuffer::IndexPool, 0),
        gpu_layout::buffer_bytes(GpuBuffer::VertexPool, 0) == 64 * 1_048_576,
        gpu_layout::buffer_bytes(GpuBuffer::IndexPool, 0) == 24 * 1_048_576,
        gpu_layout::buffer_bytes(GpuBuffer::MeshTotal, 0) == 2 * 4,
        gpu_layout::buffer_bytes(GpuBuffer::MaterialTable, 0) == 4096 * (4 * 4),
{
}

/// Pipelines: only wireframes draw lines; what is shaded culls back faces, as the
/// prepass does; wireframes and the prepass write depth, and the depth view has none;
/// only the prepass writes normals.
pub proof fn pipelines_differ_where_they_should(p: Pipeline)
    ensures
        ({
            let s = gpu_layout::pipeline_state_of(p);
            let shaded = p == Pipeline::Color || p == Pipeline::Normals;
            &&& s.topology == Topology::Lines <==> p == Pipeline::Wireframe
            &&& s.cull_back <==> shaded || p == Pipeline::DepthPrepass
            &&& s.depth == DepthUse::ReadIfLessOrEqual <==> shaded
            &&& s.depth == DepthUse::NoDepth <==> p == Pipeline::DepthViz
            &&& s.writes_normals <==> p == Pipeline::DepthPrepass
        }),
{
}

/// Every pipeline has the camera first. What draws geometry pulls vertices through
/// the second group; what shades it reads materials and light behind that.
pub proof fn pipelines_share_their_groups(p: Pipeline, i: int)
    requires
        0 <= i < gpu_layout::pipeline_groups_of(p).len(),
    ensures
        ({
            let v = gpu_layout::pipeline_groups_of(p);
            let shaded = p == Pipeline::Color || p == Pipeline::Normals;
            &&& v.len() == (if shaded {
                4int
            } else {
                2
            })
            &&& v[i] == PipelineGroup::Fixed(Group::CameraGroup) <==> i == 0
            &&& v[i] == PipelineGroup::Fixed(Group::VertexRead) <==> i == 1 && p
                != Pipeline::DepthViz
            &&& v[i] == PipelineGroup::Fixed(Group::DepthViz) <==> i == 1 && p == Pipeline::DepthViz
            &&& v[i] == PipelineGroup::Fixed(Group::SceneGlobal) <==> i == 2
            &&& v[i] == PipelineGroup::Consumer <==> i == 3
        }),
{
}

/// The stem of a pipeline's shader names.
pub open spec fn shader_stem(p: Pipeline) -> Seq<char> {
    match p {
        Pipeline::DepthPrepass => seq!['d', 'e', 'p', 't', 'h'],
        Pipeline::Color => seq!['m', 'a', 'i', 'n'],
        Pipeline::Normals => seq!['n', 'o', 'r', 'm', 'a', 'l', 's'],
        Pipeline::Wireframe => seq!['w', 'i', 'r', 'e'],
        Pipeline::DepthViz => seq!['d', 'e', 'p', 't', 'h', '_', 'v', 'i', 'z'],
    }
}

/// A pipeline's shaders have its stem behind `vs_` and `fs_`, but for two vertex
/// shaders: normals are drawn with that of shaded geometry, and the depth view with
/// one that covers the screen.
pub proof fn shaders_share_their_stem(p: Pipeline)
    ensures
        gpu_layout::fragment_entry_of(p) == seq!['f', 's', '_'] + shader_stem(p),
        p != Pipeline::Normals && p != Pipeline::DepthViz ==> gpu_layout::vertex_entry_of(p) == seq![
            'v',
            's',
            '_',
        ] + shader_stem(p),
        gpu_layout::vertex_entry_of(Pipeline::Normals) == gpu_layout::vertex_entry_of(
            Pipeline::Color,
        ),
        gpu_layout::vertex_entry_of(Pipeline::DepthViz) == seq!['v', 's', '_'] + seq!['f', 'u', 'l', 'l', 's', 'c', 'r', 'e', 'e', 'n'],
{
    reveal_strlit("vs_depth");
    reveal_strlit("vs_main");
    reveal_strlit("vs_wire");
    reveal_strlit("vs_fullscreen");
    reveal_strlit("fs_depth");
    reveal_strlit("fs_main");
    reveal_strlit("fs_normals");
    reveal_strlit("fs_wire");
    reveal_strlit("fs_depth_viz");
    assert(gpu_layout::fragment_entry_of(p) =~= seq!['f', 's', '_'] + shader_stem(p));
    if p != Pipeline::Normals && p != Pipeline::DepthViz {
        assert(gpu_layout::vertex_entry_of(p) =~= seq!['v', 's', '_'] + shader_stem(p));
    }
    assert(gpu_layout::vertex_entry_of(Pipeline::DepthViz) =~= seq!['v', 's', '_'] + seq!['f', 'u', 'l', 'l', 's', 'c', 'r', 'e', 'e', 'n']);
}

/// The stems of the debug views' shaders, in order.
pub open spec fn debug_stems() -> Seq<Seq<char>> {
    seq![
        seq!['c', 'a', 's', 'c', 'a', 'd', 'e', '_', 'r', 'a', 'w'],
        seq!['o', 'p', 'a', 'c', 'i', 't', 'y', '_', 'm', 'a', 'p'],
        seq!['g', 'i', '_', 'o', 'n', 'l', 'y'],
        seq!['a', 't', 'l', 'a', 's', '_', 'b'],
        seq!['d', 'e', 'p', 't', 'h', '_', 'n', 'o', 'r', 'm', 'a', 'l', 's'],
        seq!['w', 'o', 'r', 'l', 'd', '_', 'p', 'o', 's'],
        seq!['r', 'a', 'w', '_', 't', 'e', 'x', 'e', 'l'],
        seq!['s', 'i', 'n', 'g', 'l', 'e', '_', 'd', 'i', 'r'],
    ]
}

/// There are eight debug views, each with a fragment shader of its own.
pub proof fn debug_views_are_numbered(mode: int)
    ensures
        debug_stems().len() == 8,
        0 <= mode < 8 ==> gpu_layout::debug_entry_of(mode) == Some(
            seq!['f', 's', '_'] + debug_stems()[mode],
        ),
        !(0 <= mode < 8) ==> gpu_layout::debug_entry_of(mode) is None,
{
    if 0 <= mode < 8 {
        reveal_strlit("fs_cascade_raw");
        reveal_strlit("fs_opacity_map");
        reveal_strlit("fs_gi_only");
        reveal_strlit("fs_atlas_b");
        reveal_strlit("fs_depth_normals");
        reveal_strlit("fs_world_pos");
        reveal_strlit("fs_raw_texel");
        reveal_strlit("fs_single_dir");
        let name = gpu_layout::debug_entry_of(mode)->Some_0;
        assert(name =~= seq!['f', 's', '_'] + debug_stems()[mode]);
    }
}

/// The label of each buffer, letter by letter.
pub open spec fn label_letters(b: GpuBuffer) -> Seq<char> {
    match b {
        GpuBuffer::OccupancyAtlas => seq!['c', 'h', 'u', 'n', 'k', '-', 'o', 'c', 'c', 'u', 'p', 'a', 'n', 'c', 'y', '-', 'a', 't', 'l', 'a', 's'],
        GpuBuffer::Palette => seq!['c', 'h', 'u', 'n', 'k', '-', 'p', 'a', 'l', 'e', 't', 't', 'e'],
        GpuBuffer::Coord => seq!['c', 'h', 'u', 'n', 'k', '-', 'c', 'o', 'o', 'r', 'd'],
        GpuBuffer::Version => seq!['c', 'h', 'u', 'n', 'k', '-', 'v', 'e', 'r', 's', 'i', 'o', 'n'],
        GpuBuffer::Flags => seq!['c', 'h', 'u', 'n', 'k', '-', 'f', 'l', 'a', 'g', 's'],
        GpuBuffer::Summary => seq!['c', 'h', 'u', 'n', 'k', '-', 's', 'u', 'm', 'm', 'a', 'r', 'y'],
        GpuBuffer::Aabb => seq!['c', 'h', 'u', 'n', 'k', '-', 'a', 'a', 'b', 'b'],
        GpuBuffer::DrawMeta => seq!['c', 'h', 'u', 'n', 'k', '-', 'd', 'r', 'a', 'w', '-', 'm', 'e', 't', 'a'],
        GpuBuffer::VertexPool => seq!['v', 'e', 'r', 't', 'e', 'x', '-', 'p', 'o', 'o', 'l'],
        GpuBuffer::IndexPool => seq!['i', 'n', 'd', 'e', 'x', '-', 'p', 'o', 'o', 'l'],
        GpuBuffer::MeshCounts => seq!['m', 'e', 's', 'h', '-', 'c', 'o', 'u', 'n', 't', 's'],
        GpuBuffer::MeshOffsets => seq!['m', 'e', 's', 'h', '-', 'o', 'f', 'f', 's', 'e', 't', '-', 't', 'a', 'b', 'l', 'e'],
        GpuBuffer::MeshTotal => seq!['m', 'e', 's', 'h', '-', 't', 'o', 't', 'a', 'l'],
        GpuBuffer::WireIndexPool => seq!['w', 'i', 'r', 'e', '-', 'i', 'n', 'd', 'e', 'x', '-', 'p', 'o', 'o', 'l'],
        GpuBuffer::WireIndirect => seq!['w', 'i', 'r', 'e', '-', 'i', 'n', 'd', 'i', 'r', 'e', 'c', 't'],
        GpuBuffer::IndexBufPool => seq!['c', 'h', 'u', 'n', 'k', '-', 'i', 'n', 'd', 'e', 'x', '-', 'b', 'u', 'f', '-', 'p', 'o', 'o', 'l'],
        GpuBuffer::PaletteMeta => seq!['p', 'a', 'l', 'e', 't', 't', 'e', '-', 'm', 'e', 't', 'a'],
        GpuBuffer::Visibility => seq!['v', 'i', 's', 'i', 'b', 'i', 'l', 'i', 't', 'y'],
        GpuBuffer::FirstPassVisibility => seq!['p', 'a', 's', 's', '1', '-', 'v', 'i', 's', 'i', 'b', 'i', 'l', 'i', 't', 'y'],
        GpuBuffer::SceneParams => seq!['s', 'c', 'e', 'n', 'e', '-', 'p', 'a', 'r', 'a', 'm', 's'],
        GpuBuffer::MaterialTable => seq!['m', 'a', 't', 'e', 'r', 'i', 'a', 'l', '-', 't', 'a', 'b', 'l', 'e'],
        GpuBuffer::IndirectDraw => seq!['i', 'n', 'd', 'i', 'r', 'e', 'c', 't', '-', 'd', 'r', 'a', 'w'],
        GpuBuffer::SlotTable => seq!['s', 'l', 'o', 't', '-', 't', 'a', 'b', 'l', 'e'],
        GpuBuffer::SlotTableParams => seq!['s', 'l', 'o', 't', '-', 't', 'a', 'b', 'l', 'e', '-', 'p', 'a', 'r', 'a', 'm', 's'],
        GpuBuffer::ProbePayload => seq!['v', '3', '-', 'p', 'r', 'o', 'b', 'e', '-', 'p', 'a', 'y', 'l', 'o', 'a', 'd'],
        GpuBuffer::ProbeSlotTable => seq!['v', '3', '-', 'p', 'r', 'o', 'b', 'e', '-', 's', 'l', 'o', 't', '-', 't', 'a', 'b', 'l', 'e'],
        GpuBuffer::ActiveProbeChunks => seq!['v', '3', '-', 'a', 'c', 't', 'i', 'v', 'e', '-', 'p', 'r', 'o', 'b', 'e', '-', 'c', 'h', 'u', 'n', 'k', 's'],
        GpuBuffer::CascadeParams => seq!['v', '3', '-', 'c', 'a', 's', 'c', 'a', 'd', 'e', '-', 'p', 'a', 'r', 'a', 'm', 's'],
        GpuBuffer::CascadeUniforms => seq!['v', '2', '-', 'c', 'a', 's', 'c', 'a', 'd', 'e', '-', 'u', 'n', 'i', 'f', 'o', 'r', 'm', 's'],
        GpuBuffer::Camera => seq!['c', 'a', 'm', 'e', 'r', 'a', '-', 'u', 'n', 'i', 'f', 'o', 'r', 'm'],
        GpuBuffer::CullParams => seq!['c', 'u', 'l', 'l', '-', 'p', 'a', 'r', 'a', 'm', 's'],
        GpuBuffer::HizParams => seq!['h', 'i', 'z', '-', 'p', 'a', 'r', 'a', 'm', 's'],
        GpuBuffer::NullGi => seq!['g', 'i', '-', 'n', 'u', 'l', 'l', '-', 'd', 'u', 'm', 'm', 'y'],
    }
}

/// Buffers are created under their labels.
pub proof fn labels_spell_their_letters(b: GpuBuffer)
    ensures
        gpu_layout::buffer_name(b) == label_letters(b),
{
    match b {
        GpuBuffer::OccupancyAtlas => {
            reveal_strlit("chunk-occupancy-atlas");
            assert(gpu_layout::buffer_name(b) =~= label_letters(b));
        },
        GpuBuffer::Palette => {
            reveal_strlit("chunk-palette");
            assert(gpu_layout::buffer_name(b) =~= label_letters(b));
        },
        GpuBuffer::Coord => {
            reveal_strlit("chunk-coord");
            assert(gpu_layout::buffer_name(b) =~= label_letters(b));
        },
        GpuBuffer::Version => {
            reveal_strlit("chunk-version");
            assert(gpu_layout::buffer_name(b) =~= label_letters(b));
        },
        GpuBuffer::Flags => {
            reveal_strlit("chunk-flags");
            assert(gpu_layout::buffer_name(b) =~= label_letters(b));
        },
        GpuBuffer::Summary => {
            reveal_strlit("chunk-summary");
            assert(gpu_layout::buffer_name(b) =~= label_letters(b));
        },
        GpuBuffer::Aabb => {
            reveal_strlit("chunk-aabb");
            assert(gpu_layout::buffer_name(b) =~= label_letters(b));
        },
        GpuBuffer::DrawMeta => {
            reveal_strlit("chunk-draw-meta");
            assert(gpu_layout::buffer_name(b) =~= label_letters(b));
        },
        GpuBuffer::VertexPool => {
            reveal_strlit("vertex-pool");
            assert(gpu_layout::buffer_name(b) =~= label_letters(b));
        },
        GpuBuffer::IndexPool => {
            reveal_strlit("index-pool");
            assert(gpu_layout::buffer_name(b) =~= label_letters(b));
        },
        GpuBuffer::MeshCounts => {
            reveal_strlit("mesh-counts");
            assert(gpu_layout::buffer_name(b) =~= label_letters(b));
        },
        GpuBuffer::MeshOffsets => {
            reveal_strlit("mesh-offset-table");
            assert(gpu_layout::buffer_name(b) =~= label_letters(b));
        },
        GpuBuffer::MeshTotal => {
            reveal_strlit("mesh-total");
            assert(gpu_layout::buffer_name(b) =~= label_letters(b));
        },
        GpuBuffer::WireIndexPool => {
            reveal_strlit("wire-index-pool");
            assert(gpu_layout::buffer_name(b) =~= label_letters(b));
        },
        GpuBuffer::WireIndirect => {
            reveal_strlit("wire-indirect");
            assert(gpu_layout::buffer_name(b) =~= label_letters(b));
        },
        GpuBuffer::IndexBufPool => {
            reveal_strlit("chunk-index-buf-pool");
            assert(gpu_layout::buffer_name(b) =~= label_letters(b));
        },
        GpuBuffer::PaletteMeta => {
            reveal_strlit("palette-meta");
            assert(gpu_layout::buffer_name(b) =~= label_letters(b));
        },
        GpuBuffer::Visibility => {
            reveal_strlit("visibility");
            assert(gpu_layout::buffer_name(b) =~= label_letters(b));
        },
        GpuBuffer::FirstPassVisibility => {
            reveal_strlit("pass1-visibility");
            assert(gpu_layout::buffer_name(b) =~= label_letters(b));
        },
        GpuBuffer::SceneParams => {
            reveal_strlit("scene-params");
            assert(gpu_layout::buffer_name(b) =~= label_letters(b));
        },
        GpuBuffer::MaterialTable => {
            reveal_strlit("material-table");
            assert(gpu_layout::buffer_name(b) =~= label_letters(b));
        },
        GpuBuffer::IndirectDraw => {
            reveal_strlit("indirect-draw");
            assert(gpu_layout::buffer_name(b) =~= label_letters(b));
        },
        GpuBuffer::SlotTable => {
            reveal_strlit("slot-table");
            assert(gpu_layout::buffer_name(b) =~= label_letters(b));
        },
        GpuBuffer::SlotTableParams => {
            reveal_strlit("slot-table-params");
            assert(gpu_layout::buffer_name(b) =~= label_letters(b));
        },
        GpuBuffer::ProbePayload => {
            reveal_strlit("v3-probe-payload");
            assert(gpu_layout::buffer_name(b) =~= label_letters(b));
        },
        GpuBuffer::ProbeSlotTable => {
            reveal_strlit("v3-probe-slot-table");
            assert(gpu_layout::buffer_name(b) =~= label_letters(b));
        },
        GpuBuffer::ActiveProbeChunks => {
            reveal_strlit("v3-active-probe-chunks");
            assert(gpu_layout::buffer_name(b) =~= label_letters(b));
        },
        GpuBuffer::CascadeParams => {
            reveal_strlit("v3-cascade-params");
            assert(gpu_layout::buffer_name(b) =~= label_letters(b));
        },
        GpuBuffer::CascadeUniforms => {
            reveal_strlit("v2-cascade-uniforms");
            assert(gpu_layout::buffer_name(b) =~= label_letters(b));
        },
        GpuBuffer::Camera => {
            reveal_strlit("camera-uniform");
            assert(gpu_layout::buffer_name(b) =~= label_letters(b));
        },
        GpuBuffer::CullParams => {
            reveal_strlit("cull-params");
            assert(gpu_layout::buffer_name(b) =~= label_letters(b));
        },
        GpuBuffer::HizParams => {
            reveal_strlit("hiz-params");
            assert(gpu_layout::buffer_name(b) =~= label_letters(b));
        },
        GpuBuffer::NullGi => {
            reveal_strlit("gi-null-dummy");
            assert(gpu_layout::buffer_name(b) =~= label_letters(b));
        },
    }
}

} // verus!
