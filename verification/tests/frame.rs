use gestalt::frame::{
    gi_debug_view,
    draw_pass, hiz_mip_count, indirect_offset, plan_cascades, plan_frame, plan_hiz,
    plan_probe_build, resized, screen_dispatch, slot_dispatch, surface_action, texture_side,
    CascadePass, DrawPass, FrameStep, GiPipeline, HizLevel, SlotPass, SurfaceAction, SurfaceStatus,
    Workgroups, CLEAR_CASCADE, GI_PIPELINE, MODE_DEPTH, MODE_NORMALS, MODE_WIREFRAME,
};
use gestalt::gpu_layout::Pipeline;

#[test]
fn usable_surfaces_are_drawn_on() {
    assert_eq!(surface_action(SurfaceStatus::Success), SurfaceAction::Draw);
    assert_eq!(surface_action(SurfaceStatus::Suboptimal), SurfaceAction::Draw);
    assert_eq!(surface_action(SurfaceStatus::Timeout), SurfaceAction::Skip);
    assert_eq!(surface_action(SurfaceStatus::Occluded), SurfaceAction::Skip);
    assert_eq!(surface_action(SurfaceStatus::Outdated), SurfaceAction::Reconfigure);
    assert_eq!(surface_action(SurfaceStatus::Lost), SurfaceAction::Reconfigure);
    assert_eq!(surface_action(SurfaceStatus::Validation), SurfaceAction::Reconfigure);
}

#[test]
fn full_frame_culls_between_prepass_and_draw() {
    assert_eq!(
        plan_frame(0, true, 5),
        vec![
            FrameStep::ResetVisibility,
            FrameStep::BuildIndirect,
            FrameStep::DepthPrepass,
            FrameStep::BuildHiz,
            FrameStep::OcclusionCull,
            FrameStep::BuildIndirect,
            FrameStep::Draw(DrawPass {
                pipeline: Pipeline::Color,
                depth_attached: true,
                clear_depth: false,
                draw_slots: true,
                wire: false,
            }),
        ]
    );
}

#[test]
fn empty_scene_still_clears_depth() {
    assert_eq!(
        plan_frame(MODE_NORMALS, true, 0),
        vec![
            FrameStep::DepthPrepass,
            FrameStep::BuildHiz,
            FrameStep::Draw(draw_pass(MODE_NORMALS)),
        ]
    );
    assert_eq!(draw_pass(MODE_NORMALS).pipeline, Pipeline::Normals);
}

#[test]
fn wireframe_skips_depth_passes() {
    assert_eq!(
        plan_frame(MODE_WIREFRAME, true, 9),
        vec![FrameStep::EnsureWireframe, FrameStep::Draw(draw_pass(MODE_WIREFRAME))]
    );
    let d = draw_pass(MODE_WIREFRAME);
    assert_eq!(d.pipeline, Pipeline::Wireframe);
    assert!(d.clear_depth && d.wire && d.draw_slots && d.depth_attached);
}

#[test]
fn frame_without_prepass_only_draws() {
    assert_eq!(plan_frame(0, false, 9), vec![FrameStep::Draw(draw_pass(0))]);
}

#[test]
fn depth_view_draws_one_triangle() {
    let d = draw_pass(MODE_DEPTH);
    assert_eq!(d.pipeline, Pipeline::DepthViz);
    assert!(!d.depth_attached && !d.draw_slots && !d.wire && !d.clear_depth);
}

#[test]
fn draw_arguments_lie_one_after_the_other() {
    assert_eq!(indirect_offset(0), 0);
    assert_eq!(indirect_offset(3), 60);
    assert_eq!(indirect_offset(4095), 81_900);
}

#[test]
fn slot_passes_cover_all_slots() {
    let one = |x: u32, y: u32| Some(Workgroups { x, y, z: 1 });
    assert_eq!(slot_dispatch(SlotPass::Summary, 7), one(7, 1));
    assert_eq!(slot_dispatch(SlotPass::MeshCount, 7), one(7, 6));
    assert_eq!(slot_dispatch(SlotPass::MeshWrite, 7), one(7, 6));
    assert_eq!(slot_dispatch(SlotPass::BuildWireframe, 7), one(7, 1));
    assert_eq!(slot_dispatch(SlotPass::OcclusionCull, 64), one(1, 1));
    assert_eq!(slot_dispatch(SlotPass::OcclusionCull, 65), one(2, 1));
    assert_eq!(slot_dispatch(SlotPass::PrefixSum, 0), one(1, 1));
    assert_eq!(slot_dispatch(SlotPass::Summary, 0), None);
    assert_eq!(slot_dispatch(SlotPass::OcclusionCull, 0), None);
}

#[test]
fn screen_is_covered_by_tiles() {
    assert_eq!(screen_dispatch(1920, 1080), Workgroups { x: 240, y: 135, z: 1 });
    assert_eq!(screen_dispatch(1, 9), Workgroups { x: 1, y: 2, z: 1 });
    assert_eq!(screen_dispatch(0, 8), Workgroups { x: 0, y: 1, z: 1 });
}

#[test]
fn pyramid_levels() {
    assert_eq!(hiz_mip_count(0, 0), 1);
    assert_eq!(hiz_mip_count(1, 1), 1);
    assert_eq!(hiz_mip_count(2, 1), 2);
    assert_eq!(hiz_mip_count(1920, 1080), 11);
    assert_eq!(hiz_mip_count(1023, 1024), 11);
    assert_eq!(hiz_mip_count(u32::MAX, 1), 32);
}

#[test]
fn pyramid_halves_to_one_texel() {
    let levels = plan_hiz(5, 2);
    let level = |src_width: u32, src_height: u32, dst_width: u32, dst_height: u32| HizLevel {
        src_width,
        src_height,
        dst_width,
        dst_height,
    };
    assert_eq!(levels, vec![level(5, 2, 5, 2), level(5, 2, 2, 1), level(2, 1, 1, 1)]);
}

#[test]
fn cascades_run_from_coarse_to_fine() {
    let plan = plan_cascades(true, 1);
    assert!(plan.keep_result);
    let levels: Vec<u32> = plan.passes.iter().map(|p| p.cascade_index).collect();
    assert_eq!(levels, vec![5, 4, 3, 2, 1, 0]);
    let offsets: Vec<u32> = plan.passes.iter().map(|p| p.uniform_offset).collect();
    assert_eq!(offsets, vec![1280, 1024, 768, 512, 256, 0]);
    let ways: Vec<bool> = plan.passes.iter().map(|p| p.a_to_b).collect();
    assert_eq!(ways, vec![true, false, true, false, true, false]);
}

#[test]
fn cascades_clear_where_there_is_no_light() {
    for plan in [plan_cascades(false, 4), plan_cascades(true, 0)] {
        assert!(!plan.keep_result);
        assert_eq!(
            plan.passes,
            vec![CascadePass { cascade_index: CLEAR_CASCADE, uniform_offset: 0, a_to_b: false }]
        );
    }
}

#[test]
fn probes_are_built_for_all_slots() {
    assert_eq!(plan_probe_build(true, 2), Some(Workgroups { x: 16, y: 16, z: 1024 }));
    assert_eq!(plan_probe_build(false, 2), None);
    assert_eq!(plan_probe_build(true, 0), None);
    assert_eq!(GI_PIPELINE, GiPipeline::V3Cascades);
}

#[test]
fn empty_resizes_are_ignored() {
    assert_eq!(resized(640, 480), Some((640, 480)));
    assert_eq!(resized(0, 480), None);
    assert_eq!(resized(640, 0), None);
    assert_eq!(texture_side(0), 1);
    assert_eq!(texture_side(17), 17);
}

#[test]
fn debug_views_have_a_range_of_modes() {
    assert_eq!(gi_debug_view(0x1F), None);
    assert_eq!(gi_debug_view(0x20), Some(0));
    assert_eq!(gi_debug_view(0x27), Some(7));
    assert_eq!(gi_debug_view(0x28), None);
}

#[test]
fn only_culling_rounds_slots_up() {
    let all = u32::MAX;
    assert_eq!(
        slot_dispatch(SlotPass::Summary, all),
        Some(Workgroups { x: all, y: 1, z: 1 })
    );
    assert_eq!(
        slot_dispatch(SlotPass::MeshCount, all),
        Some(Workgroups { x: all, y: 6, z: 1 })
    );
}
