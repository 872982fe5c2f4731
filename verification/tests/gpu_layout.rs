use gestalt::cascade::V3_PROBE_PAYLOAD_BUF_BYTES;
use gestalt::gpu_layout::{
    bindings, buffer_label, buffer_size, debug_entry, fragment_entry, pipeline_groups,
    pipeline_state, pool_size, usage, vertex_entry, Binding, BindingKind, DepthUse, GpuBuffer,
    Group, Pipeline, PipelineGroup, Stages, Topology,
};

const GROUPS: [Group; 21] = [
    Group::ChunkMeta,
    Group::MeshDraw,
    Group::SceneGlobal,
    Group::SummaryCompute,
    Group::MeshCount,
    Group::PrefixSum,
    Group::MeshCompute,
    Group::BuildWireframe,
    Group::OcclusionCull,
    Group::HizFirst,
    Group::HizDownsample,
    Group::CameraGroup,
    Group::VertexRead,
    Group::DepthViz,
    Group::NullConsumer,
    Group::AtlasConsumer,
    Group::ProbeConsumer,
    Group::WorldData,
    Group::AtlasPass,
    Group::ProbeBuild,
    Group::AtlasDebug,
];

#[test]
fn buffer_sizes() {
    assert_eq!(buffer_size(GpuBuffer::OccupancyAtlas, 0), 134_217_728);
    assert_eq!(buffer_size(GpuBuffer::Palette, 0), 131_072);
    assert_eq!(buffer_size(GpuBuffer::Coord, 0), 65_536);
    assert_eq!(buffer_size(GpuBuffer::MeshOffsets, 0), 81_920);
    assert_eq!(buffer_size(GpuBuffer::IndirectDraw, 0), 81_920);
    assert_eq!(buffer_size(GpuBuffer::SlotTable, 16), 16_384);
    assert_eq!(buffer_size(GpuBuffer::SlotTable, 1024), 4_294_967_296);
    assert_eq!(buffer_size(GpuBuffer::ProbePayload, 0), V3_PROBE_PAYLOAD_BUF_BYTES);
    assert_eq!(buffer_size(GpuBuffer::CascadeUniforms, 0), 1536);
    assert_eq!(buffer_size(GpuBuffer::Camera, 0), 80);
}

#[test]
fn pool_size_is_the_sum_of_its_buffers() {
    let parts = [
        GpuBuffer::OccupancyAtlas,
        GpuBuffer::Palette,
        GpuBuffer::VertexPool,
        GpuBuffer::IndexPool,
    ];
    let some: u64 = parts.iter().map(|b| buffer_size(*b, 0)).sum();
    assert!(pool_size() > some);
}

#[test]
fn buffer_uses() {
    let u = usage(GpuBuffer::IndexPool);
    assert!(u.storage && u.index && u.copy_dst && u.copy_src);
    assert!(!u.uniform && !u.indirect);
    let u = usage(GpuBuffer::SceneParams);
    assert!(u.uniform && u.copy_dst && !u.storage);
    let u = usage(GpuBuffer::IndirectDraw);
    assert!(u.indirect && u.storage && !u.index);
    assert_eq!(buffer_label(GpuBuffer::OccupancyAtlas), "chunk-occupancy-atlas");
    assert_eq!(buffer_label(GpuBuffer::MeshOffsets), "mesh-offset-table");
}

#[test]
fn bindings_fit_the_buffers() {
    for g in GROUPS {
        let v = bindings(g);
        assert!(!v.is_empty());
        for b in &v {
            match b.kind {
                BindingKind::ReadStorage(buffer) | BindingKind::WriteStorage(buffer) => {
                    assert!(usage(buffer).storage)
                }
                BindingKind::Uniform(buffer) | BindingKind::DynamicUniform(buffer) => {
                    assert!(usage(buffer).uniform)
                }
                _ => {}
            }
        }
    }
}

#[test]
fn written_buffers_are_bound_once() {
    for g in GROUPS {
        let mut seen: Vec<GpuBuffer> = Vec::new();
        let v = bindings(g);
        for b in &v {
            if let BindingKind::WriteStorage(buffer) = b.kind {
                seen.push(buffer);
            }
        }
        for buffer in seen {
            let count = v
                .iter()
                .filter(|b| {
                    b.kind == BindingKind::WriteStorage(buffer)
                        || b.kind == BindingKind::ReadStorage(buffer)
                })
                .count();
            assert_eq!(count, 1);
        }
    }
}

#[test]
fn prefix_sum_reads_counts_and_writes_offsets() {
    let entry = |kind: BindingKind| Binding { kind, stages: Stages::Compute };
    assert_eq!(
        bindings(Group::PrefixSum),
        vec![
            entry(BindingKind::ReadStorage(GpuBuffer::MeshCounts)),
            entry(BindingKind::WriteStorage(GpuBuffer::MeshOffsets)),
            entry(BindingKind::WriteStorage(GpuBuffer::MeshTotal)),
        ]
    );
}

#[test]
fn shaded_pipelines_compare_with_the_prepass() {
    assert_eq!(pipeline_state(Pipeline::DepthPrepass).depth, DepthUse::WriteIfLess);
    for p in [Pipeline::Color, Pipeline::Normals] {
        assert_eq!(pipeline_state(p).depth, DepthUse::ReadIfLessOrEqual);
        assert_eq!(pipeline_state(p).topology, Topology::Triangles);
    }
    assert_eq!(pipeline_state(Pipeline::Wireframe).topology, Topology::Lines);
    assert_eq!(pipeline_state(Pipeline::DepthViz).depth, DepthUse::NoDepth);
}

#[test]
fn entry_points() {
    assert_eq!(fragment_entry(Pipeline::Color), "fs_main");
    assert_eq!(fragment_entry(Pipeline::DepthViz), "fs_depth_viz");
    assert!(!vertex_entry(Pipeline::Color).is_empty());
    assert!(pipeline_groups(Pipeline::Color).contains(&PipelineGroup::Consumer));
    assert_eq!(debug_entry(0), Some("fs_cascade_raw"));
    assert_eq!(debug_entry(7), Some("fs_single_dir"));
    assert_eq!(debug_entry(8), None);
}
