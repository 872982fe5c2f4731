//! What one frame does: which passes run, with how many workgroups, and what
//! they draw.

use vstd::prelude::*;

use crate::cascade::{V3_MAX_PROBE_SLOTS, V3_PROBES_PER_CHUNK_AXIS};
use crate::gpu_layout::Pipeline;
use crate::pool::{DRAW_INDIRECT_BYTES, MAX_SLOTS};

verus! {

/// Render mode: quad edges.
pub const MODE_WIREFRAME: u8 = 0x02;

/// Render mode: normals as colors.
pub const MODE_NORMALS: u8 = 0x04;

/// Render mode: the depth buffer.
pub const MODE_DEPTH: u8 = 0x10;

/// Number of screen-space cascade levels.
pub const N_CASCADES: u32 = 6;

/// Bytes between the uniform records of two cascade levels.
pub const CASCADE_UNIFORM_ALIGNED_SIZE: u64 = 256;

/// Level number that asks the cascade shader to clear its target.
pub const CLEAR_CASCADE: u32 = 0xFFFF_FFFF;

/// State of the surface's next texture.
#[derive(Debug, Clone, Copy, PartialEq, Eq, Structural)]
pub enum SurfaceStatus {
    Success,
    Suboptimal,
    Timeout,
    Occluded,
    Outdated,
    Lost,
    Validation,
}

/// What to do with the surface's next texture.
#[derive(Debug, Clone, Copy, PartialEq, Eq, Structural)]
pub enum SurfaceAction {
    /// Draw a frame on it.
    Draw,
    /// Skip this frame.
    Skip,
    /// Configure the surface again and skip this frame.
    Reconfigure,
}

/// Decide what to do with the surface's next texture.
pub fn surface_action(status: SurfaceStatus) -> (a: SurfaceAction)
    ensures
        a == SurfaceAction::Draw <==> status == SurfaceStatus::Success || status
            == SurfaceStatus::Suboptimal,
        a == SurfaceAction::Skip <==> status == SurfaceStatus::Timeout || status
            == SurfaceStatus::Occluded,
        a == SurfaceAction::Reconfigure <==> status == SurfaceStatus::Outdated || status
            == SurfaceStatus::Lost || status == SurfaceStatus::Validation,
{
    match status {
        SurfaceStatus::Success | SurfaceStatus::Suboptimal => SurfaceAction::Draw,
        SurfaceStatus::Timeout | SurfaceStatus::Occluded => SurfaceAction::Skip,
        SurfaceStatus::Outdated | SurfaceStatus::Lost | SurfaceStatus::Validation => {
            SurfaceAction::Reconfigure
        },
    }
}

/// One step of a frame.
#[derive(Debug, Clone, Copy, PartialEq, Eq, Structural)]
pub enum FrameStep {
    /// Make sure that wireframe buffers and indices exist.
    EnsureWireframe,
    /// Mark every resident slot visible.
    ResetVisibility,
    /// Rebuild draw arguments from visibility.
    BuildIndirect,
    /// Clear depth and draw all resident slots through a depth pipeline.
    DepthPrepass,
    /// Build the depth pyramid.
    BuildHiz,
    /// Cull slots against the depth pyramid.
    OcclusionCull,
    /// Clear the screen and draw through a pipeline.
    Draw(DrawPass),
}

/// The pass that draws to the screen.
#[derive(Debug, Clone, Copy, PartialEq, Eq, Structural)]
pub struct DrawPass {
    pub pipeline: Pipeline,
    /// Whether there is a depth attachment.
    pub depth_attached: bool,
    /// Whether the depth attachment is cleared first; else it is kept.
    pub clear_depth: bool,
    /// Whether all resident slots are drawn; else one fullscreen triangle is.
    pub draw_slots: bool,
    /// Whether slots are drawn as wireframe lines.
    pub wire: bool,
}

/// The pass that draws to the screen in a render mode.
pub open spec fn draw_pass_of(mode: u8) -> DrawPass {
    DrawPass {
        pipeline: if mode == MODE_WIREFRAME {
            Pipeline::Wireframe
        } else if mode == MODE_DEPTH {
            Pipeline::DepthViz
        } else if mode == MODE_NORMALS {
            Pipeline::Normals
        } else {
            Pipeline::Color
        },
        depth_attached: mode != MODE_DEPTH,
        clear_depth: mode == MODE_WIREFRAME,
        draw_slots: mode != MODE_DEPTH,
        wire: mode == MODE_WIREFRAME,
    }
}

/// Whether the depth prepass and what depends on it run.
pub open spec fn depth_runs(mode: u8, prepass_enabled: bool) -> bool {
    mode != MODE_WIREFRAME && prepass_enabled
}

/// The steps of a frame, in order.
pub open spec fn frame_steps(mode: u8, prepass_enabled: bool, resident: u32) -> Seq<FrameStep> {
    let depth = depth_runs(mode, prepass_enabled);
    let wire = if mode == MODE_WIREFRAME {
        seq![FrameStep::EnsureWireframe]
    } else {
        Seq::empty()
    };
    let reset = if depth && resident > 0 {
        seq![FrameStep::ResetVisibility, FrameStep::BuildIndirect]
    } else {
        Seq::empty()
    };
    let prepass = if depth {
        seq![FrameStep::DepthPrepass, FrameStep::BuildHiz]
    } else {
        Seq::empty()
    };
    let cull = if depth && resident > 0 {
        seq![FrameStep::OcclusionCull, FrameStep::BuildIndirect]
    } else {
        Seq::empty()
    };
    wire + reset + prepass + cull + seq![FrameStep::Draw(draw_pass_of(mode))]
}

/// The pass that draws to the screen in a render mode.
pub fn draw_pass(mode: u8) -> (d: DrawPass)
    ensures
        d == draw_pass_of(mode),
{
    if mode == MODE_WIREFRAME {
        DrawPass {
            pipeline: Pipeline::Wireframe,
            depth_attached: true,
            clear_depth: true,
            draw_slots: true,
            wire: true,
        }
    } else if mode == MODE_DEPTH {
        DrawPass {
            pipeline: Pipeline::DepthViz,
            depth_attached: false,
            clear_depth: false,
            draw_slots: false,
            wire: false,
        }
    } else {
        let pipeline: Pipeline = if mode == MODE_NORMALS {
            Pipeline::Normals
        } else {
            Pipeline::Color
        };
        DrawPass { pipeline, depth_attached: true, clear_depth: false, draw_slots: true, wire: false }
    }
}

/// Plan a frame.
///
/// The prepass draws all slots, so visibility is reset before it; the cull then
/// writes the real visibility, and draw arguments are rebuilt from it.
/// Wireframe mode has no solid fill and skips all of that.
pub fn plan_frame(mode: u8, prepass_enabled: bool, resident: u32) -> (steps: Vec<FrameStep>)
    ensures
        steps@ == frame_steps(mode, prepass_enabled, resident),
{
    let mut steps: Vec<FrameStep> = Vec::new();
    let skip_depth = mode == MODE_WIREFRAME || !prepass_enabled;
    if mode == MODE_WIREFRAME {
        steps.push(FrameStep::EnsureWireframe);
    }
    if !skip_depth && resident > 0 {
        steps.push(FrameStep::ResetVisibility);
        steps.push(FrameStep::BuildIndirect);
    }
    if !skip_depth {
        steps.push(FrameStep::DepthPrepass);
        steps.push(FrameStep::BuildHiz);
    }
    if !skip_depth && resident > 0 {
        steps.push(FrameStep::OcclusionCull);
        steps.push(FrameStep::BuildIndirect);
    }
    steps.push(FrameStep::Draw(draw_pass(mode)));
    proof {
        assert(steps@ =~= frame_steps(mode, prepass_enabled, resident));
    }
    steps
}

/// Where a frame culls, it has first drawn the depth of every resident slot and
/// built the pyramid from it, and rebuilds draw arguments before it draws.
pub proof fn cull_uses_full_depth(mode: u8, prepass_enabled: bool, resident: u32, i: int)
    requires
        0 <= i < frame_steps(mode, prepass_enabled, resident).len(),
        frame_steps(mode, prepass_enabled, resident)[i] == FrameStep::OcclusionCull,
    ensures
        ({
            let s = frame_steps(mode, prepass_enabled, resident);
            &&& i == 4
            &&& s[0] == FrameStep::ResetVisibility
            &&& s[1] == FrameStep::BuildIndirect
            &&& s[2] == FrameStep::DepthPrepass
            &&& s[3] == FrameStep::BuildHiz
            &&& s[5] == FrameStep::BuildIndirect
            &&& s[6] == FrameStep::Draw(draw_pass_of(mode))
            &&& s.len() == 7
        }),
{
}

/// A frame draws to the screen exactly once, last.
pub proof fn frame_draws_last(mode: u8, prepass_enabled: bool, resident: u32, i: int)
    requires
        0 <= i < frame_steps(mode, prepass_enabled, resident).len(),
    ensures
        (frame_steps(mode, prepass_enabled, resident)[i] is Draw) <==> i == frame_steps(
            mode,
            prepass_enabled,
            resident,
        ).len() - 1,
{
}

/// Byte offset of a slot's draw arguments.
pub fn indirect_offset(slot: u32) -> (o: u64)
    ensures
        o == slot * DRAW_INDIRECT_BYTES,
        slot < MAX_SLOTS ==> o + DRAW_INDIRECT_BYTES <= MAX_SLOTS * DRAW_INDIRECT_BYTES,
{
    let bytes: u64 = DRAW_INDIRECT_BYTES as u64;
    proof {
        assert(0 <= slot * bytes <= 20 * u32::MAX) by (nonlinear_arith)
            requires
                bytes == 20,
        ;
        if slot < MAX_SLOTS {
            assert(slot * bytes + bytes <= MAX_SLOTS * bytes) by (nonlinear_arith)
                requires
                    slot < MAX_SLOTS,
            ;
        }
    }
    slot as u64 * bytes
}

/// Number of workgroups of `size` threads that cover `n` items.
pub open spec fn groups_covering(n: int, size: int) -> int {
    (n + size - 1) / size
}

/// The workgroups cover every item, and no workgroup is idle.
pub proof fn groups_cover(n: int, size: int)
    requires
        n >= 0,
        size > 0,
    ensures
        groups_covering(n, size) * size >= n,
        n > 0 ==> (groups_covering(n, size) - 1) * size < n,
        n == 0 ==> groups_covering(n, size) == 0,
{
    let q = (n + size - 1) / size;
    assert(n + size - 1 == q * size + (n + size - 1) % size && 0 <= (n + size - 1) % size < size)
        by {
        vstd::arithmetic::div_mod::lemma_fundamental_div_mod(n + size - 1, size);
        vstd::arithmetic::mul::lemma_mul_is_commutative(size, q);
    }
    assert((q - 1) * size == q * size - size) by (nonlinear_arith);
    if n == 0 {
        vstd::arithmetic::div_mod::lemma_basic_div(size - 1, size);
    }
}

/// Size of a dispatch in workgroups.
#[derive(Debug, Clone, Copy, PartialEq, Eq, Structural)]
pub struct Workgroups {
    pub x: u32,
    pub y: u32,
    pub z: u32,
}

/// A compute pass over chunk slots.
#[derive(Debug, Clone, Copy, PartialEq, Eq, Structural)]
pub enum SlotPass {
    /// One workgroup a slot.
    Summary,
    /// One workgroup a slot and face direction.
    MeshCount,
    /// One workgroup for all slots.
    PrefixSum,
    /// One workgroup a slot and face direction.
    MeshWrite,
    /// One workgroup a slot.
    BuildWireframe,
    /// One thread a slot, 64 threads a workgroup.
    OcclusionCull,
}

/// The dispatch of a pass over `slots` slots; none where there is nothing to do.
pub open spec fn slot_dispatch_of(pass: SlotPass, slots: u32) -> Option<Workgroups> {
    if pass == SlotPass::PrefixSum {
        Some(Workgroups { x: 1, y: 1, z: 1 })
    } else if slots == 0 {
        None
    } else {
        match pass {
            SlotPass::MeshCount | SlotPass::MeshWrite => Some(Workgroups { x: slots, y: 6, z: 1 }),
            SlotPass::OcclusionCull => Some(
                Workgroups { x: groups_covering(slots as int, 64) as u32, y: 1, z: 1 },
            ),
            _ => Some(Workgroups { x: slots, y: 1, z: 1 }),
        }
    }
}

/// The dispatch of a pass over `slots` slots; none where there is nothing to do.
pub fn slot_dispatch(pass: SlotPass, slots: u32) -> (d: Option<Workgroups>)
    requires
        pass == SlotPass::OcclusionCull ==> slots <= u32::MAX - 63,
    ensures
        d == slot_dispatch_of(pass, slots),
{
    match pass {
        SlotPass::PrefixSum => Some(Workgroups { x: 1, y: 1, z: 1 }),
        _ => {
            if slots == 0 {
                return None;
            }
            match pass {
                SlotPass::MeshCount | SlotPass::MeshWrite => Some(
                    Workgroups { x: slots, y: 6, z: 1 },
                ),
                SlotPass::OcclusionCull => Some(Workgroups { x: (slots + 63) / 64, y: 1, z: 1 }),
                _ => Some(Workgroups { x: slots, y: 1, z: 1 }),
            }
        },
    }
}

/// The workgroups of 8 by 8 threads that cover a screen.
pub open spec fn screen_groups(width: u32, height: u32) -> Workgroups {
    Workgroups {
        x: groups_covering(width as int, 8) as u32,
        y: groups_covering(height as int, 8) as u32,
        z: 1,
    }
}

/// The dispatch that covers a screen with 8 by 8 threads a workgroup.
pub fn screen_dispatch(width: u32, height: u32) -> (d: Workgroups)
    requires
        width <= u32::MAX - 7,
        height <= u32::MAX - 7,
    ensures
        d.x == groups_covering(width as int, 8),
        d.y == groups_covering(height as int, 8),
        d.z == 1,
        d == screen_groups(width, height),
{
    Workgroups { x: (width + 7) / 8, y: (height + 7) / 8, z: 1 }
}

/// Integer logarithm to the base two, rounded down.
pub open spec fn floor_log2(n: int) -> int
    decreases n,
{
    if n <= 1 {
        0
    } else {
        1 + floor_log2(n / 2)
    }
}

/// The larger of two integers.
pub open spec fn larger(a: int, b: int) -> int {
    if a >= b {
        a
    } else {
        b
    }
}

/// Number of levels of the depth pyramid over a screen: down to one texel.
pub open spec fn hiz_levels(width: int, height: int) -> int {
    floor_log2(larger(larger(width, height), 1)) + 1
}

/// Number of levels of the depth pyramid over a screen.
pub fn hiz_mip_count(width: u32, height: u32) -> (n: u32)
    ensures
        n == hiz_levels(width as int, height as int),
        1 <= n <= 32,
{
    let mut side: u32 = if width >= height {
        width
    } else {
        height
    };
    if side < 1 {
        side = 1;
    }
    let ghost start = side as int;
    let mut n: u32 = 1;
    proof {
        lemma_two_to_32();
        lemma_log2_bound(start, 32);
    }
    while side > 1
        invariant
            side >= 1,
            n >= 1,
            n + floor_log2(side as int) == floor_log2(start) + 1,
            0 <= floor_log2(start) < 32,
            0 <= floor_log2(side as int),
        decreases side,
    {
        proof {
            lemma_two_to_32();
            lemma_log2_bound(side as int / 2, 32);
        }
        side = side / 2;
        n = n + 1;
    }
    n
}

/// Two to the power of `k`.
pub open spec fn two_to(k: nat) -> int
    decreases k,
{
    if k == 0 {
        1
    } else {
        2 * two_to((k - 1) as nat)
    }
}

proof fn lemma_two_to_32()
    ensures
        two_to(32) == 0x1_0000_0000,
{
    reveal_with_fuel(two_to, 33);
}

proof fn lemma_log2_bound(n: int, k: nat)
    requires
        1 <= n < two_to(k),
    ensures
        0 <= floor_log2(n) < k,
    decreases k,
{
    if n > 1 {
        lemma_log2_bound(n / 2, (k - 1) as nat);
    }
}

/// Size of one side of a pyramid level.
pub open spec fn level_side(side: int, level: nat) -> int
    decreases level,
{
    if level == 0 {
        side
    } else {
        larger(level_side(side, (level - 1) as nat) / 2, 1)
    }
}

/// One level of the depth pyramid: what it is made from, and its size.
#[derive(Debug, Clone, Copy, PartialEq, Eq, Structural)]
pub struct HizLevel {
    pub src_width: u32,
    pub src_height: u32,
    pub dst_width: u32,
    pub dst_height: u32,
}

/// The steps that build a pyramid of `count` levels: the first copies the
/// depth buffer, each other halves the level before it.
pub open spec fn hiz_steps(width: int, height: int, count: nat) -> Seq<HizLevel> {
    Seq::new(
        count,
        |i: int|
            {
                let from = if i == 0 {
                    0
                } else {
                    i - 1
                };
                HizLevel {
                    src_width: level_side(width, from as nat) as u32,
                    src_height: level_side(height, from as nat) as u32,
                    dst_width: level_side(width, i as nat) as u32,
                    dst_height: level_side(height, i as nat) as u32,
                }
            },
    )
}

/// Plan the build of the depth pyramid.
pub fn plan_hiz(width: u32, height: u32) -> (levels: Vec<HizLevel>)
    ensures
        levels@ == hiz_steps(
            width as int,
            height as int,
            hiz_levels(width as int, height as int) as nat,
        ),
{
    let count: u32 = hiz_mip_count(width, height);
    let mut levels: Vec<HizLevel> = Vec::new();
    levels.push(
        HizLevel { src_width: width, src_height: height, dst_width: width, dst_height: height },
    );
    let mut w: u32 = width;
    let mut h: u32 = height;
    let mut i: u32 = 1;
    while i < count
        invariant
            1 <= i <= count,
            w == level_side(width as int, (i - 1) as nat),
            h == level_side(height as int, (i - 1) as nat),
            levels@ =~= hiz_steps(width as int, height as int, i as nat),
        decreases count - i,
    {
        let src_width: u32 = w;
        let src_height: u32 = h;
        w = if w / 2 > 1 {
            w / 2
        } else {
            1
        };
        h = if h / 2 > 1 {
            h / 2
        } else {
            1
        };
        levels.push(HizLevel { src_width, src_height, dst_width: w, dst_height: h });
        i = i + 1;
    }
    levels
}

/// The last level of the pyramid over a screen is a single texel.
pub proof fn hiz_ends_in_one_texel(width: int, height: int)
    requires
        width >= 1,
        height >= 1,
    ensures
        ({
            let last = (hiz_levels(width, height) - 1) as nat;
            level_side(width, last) == 1 && level_side(height, last) == 1
        }),
{
    let last = (hiz_levels(width, height) - 1) as nat;
    lemma_log2_monotone(width, larger(width, height));
    lemma_log2_monotone(height, larger(width, height));
    lemma_level_reaches_one(width, last);
    lemma_level_reaches_one(height, last);
}

proof fn lemma_log2_monotone(a: int, b: int)
    requires
        1 <= a <= b,
    ensures
        0 <= floor_log2(a) <= floor_log2(b),
    decreases b,
{
    if b > 1 {
        if a > 1 {
            lemma_log2_monotone(a / 2, b / 2);
        } else {
            lemma_log2_monotone(1, b / 2);
        }
    }
}

proof fn lemma_level_shift(side: int, level: nat)
    requires
        level >= 1,
    ensures
        level_side(side, level) == level_side(larger(side / 2, 1), (level - 1) as nat),
    decreases level,
{
    if level > 1 {
        lemma_level_shift(side, (level - 1) as nat);
    } else {
        reveal_with_fuel(level_side, 2);
    }
}

proof fn lemma_level_reaches_one(side: int, level: nat)
    requires
        side >= 1,
        floor_log2(side) <= level,
    ensures
        level_side(side, level) == 1,
    decreases level,
{
    if level == 0 {
        if side > 1 {
            lemma_log2_monotone(1, side / 2);
        }
    } else {
        lemma_level_shift(side, level);
        if side > 1 {
            lemma_level_reaches_one(side / 2, (level - 1) as nat);
        } else {
            lemma_level_reaches_one(1, (level - 1) as nat);
        }
    }
}

/// One screen-space cascade pass.
#[derive(Debug, Clone, Copy, PartialEq, Eq, Structural)]
pub struct CascadePass {
    /// Cascade level, or `CLEAR_CASCADE`.
    pub cascade_index: u32,
    /// Byte offset of the level's uniform record.
    pub uniform_offset: u32,
    /// Whether the pass reads atlas A and writes atlas B; else the reverse.
    pub a_to_b: bool,
}

/// The screen-space cascade passes of a frame.
#[derive(Debug, Clone)]
pub struct CascadePlan {
    pub passes: Vec<CascadePass>,
    /// Whether atlas A is kept for the next frame's bounce.
    pub keep_result: bool,
}

/// The passes of a frame with indirect light: from the coarsest level to the
/// finest, each reading what the one before wrote.
pub open spec fn cascade_passes() -> Seq<CascadePass> {
    Seq::new(
        N_CASCADES as nat,
        |i: int|
            CascadePass {
                cascade_index: (N_CASCADES - 1 - i) as u32,
                uniform_offset: ((N_CASCADES - 1 - i) * CASCADE_UNIFORM_ALIGNED_SIZE) as u32,
                a_to_b: i % 2 == 0,
            },
    )
}

/// The one pass of a frame without: it clears atlas A.
pub open spec fn clear_passes() -> Seq<CascadePass> {
    seq![CascadePass { cascade_index: CLEAR_CASCADE, uniform_offset: 0, a_to_b: false }]
}

/// Plan the screen-space cascade passes of a frame.
pub fn plan_cascades(gi_enabled: bool, resident: u32) -> (plan: CascadePlan)
    ensures
        plan.keep_result == (gi_enabled && resident > 0),
        plan.passes@ == (if gi_enabled && resident > 0 {
            cascade_passes()
        } else {
            clear_passes()
        }),
{
    let mut passes: Vec<CascadePass> = Vec::new();
    if gi_enabled && resident > 0 {
        let mut done: u32 = 0;
        while done < N_CASCADES
            invariant
                0 <= done <= N_CASCADES,
                passes@ =~= cascade_passes().take(done as int),
            decreases N_CASCADES - done,
        {
            let level: u32 = N_CASCADES - 1 - done;
            passes.push(
                CascadePass {
                    cascade_index: level,
                    uniform_offset: level * 256,
                    a_to_b: done % 2 == 0,
                },
            );
            done = done + 1;
        }
        assert(passes@ =~= cascade_passes());
        CascadePlan { passes, keep_result: true }
    } else {
        passes.push(
            CascadePass { cascade_index: CLEAR_CASCADE, uniform_offset: 0, a_to_b: false },
        );
        assert(passes@ =~= clear_passes());
        CascadePlan { passes, keep_result: false }
    }
}

/// Each pass reads the atlas that the pass before it wrote, the last pass
/// leaves its result in atlas A, and the levels run down to zero.
pub proof fn cascades_alternate(i: int)
    requires
        0 <= i < N_CASCADES,
    ensures
        cascade_passes()[i].cascade_index == N_CASCADES - 1 - i,
        cascade_passes()[i].uniform_offset == cascade_passes()[i].cascade_index
            * CASCADE_UNIFORM_ALIGNED_SIZE,
        cascade_passes()[i].uniform_offset + CASCADE_UNIFORM_ALIGNED_SIZE <= N_CASCADES
            * CASCADE_UNIFORM_ALIGNED_SIZE,
        i > 0 ==> cascade_passes()[i].a_to_b != cascade_passes()[i - 1].a_to_b,
        !cascade_passes().last().a_to_b,
        cascade_passes().last().cascade_index == 0,
{
}

/// The world-space probe build of a frame: one workgroup a probe, over all
/// probe slots; none where indirect light is off or nothing is resident.
pub fn plan_probe_build(gi_enabled: bool, resident: u32) -> (d: Option<Workgroups>)
    ensures
        d == (if gi_enabled && resident > 0 {
            Some(
                Workgroups {
                    x: V3_PROBES_PER_CHUNK_AXIS,
                    y: V3_PROBES_PER_CHUNK_AXIS,
                    z: (V3_PROBES_PER_CHUNK_AXIS * V3_MAX_PROBE_SLOTS) as u32,
                },
            )
        } else {
            None
        }),
{
    if !gi_enabled || resident == 0 {
        return None;
    }
    Some(
        Workgroups {
            x: V3_PROBES_PER_CHUNK_AXIS,
            y: V3_PROBES_PER_CHUNK_AXIS,
            z: V3_PROBES_PER_CHUNK_AXIS * V3_MAX_PROBE_SLOTS,
        },
    )
}

/// Which indirect light the renderer uses.
#[derive(Debug, Clone, Copy, PartialEq, Eq, Structural)]
pub enum GiPipeline {
    /// None: direct sun and hemisphere ambient only.
    Null,
    /// Screen-space probes in alternating cascade atlases.
    V2Legacy,
    /// World-space probes, allocated by chunk.
    V3Cascades,
}

/// The indirect light at startup.
pub const GI_PIPELINE: GiPipeline = GiPipeline::V3Cascades;

/// First render mode that shows a debug view of the indirect light.
pub const FIRST_GI_DEBUG_MODE: u8 = 0x20;

/// Last render mode that shows a debug view of the indirect light.
pub const LAST_GI_DEBUG_MODE: u8 = 0x27;

/// The debug view of the indirect light that a render mode shows.
pub open spec fn gi_view_of(mode: u8) -> Option<u8> {
    if FIRST_GI_DEBUG_MODE <= mode <= LAST_GI_DEBUG_MODE {
        Some((mode - FIRST_GI_DEBUG_MODE) as u8)
    } else {
        None
    }
}

/// The debug view of the indirect light that a render mode shows, if any.
pub fn gi_debug_view(mode: u8) -> (view: Option<u8>)
    ensures
        match view {
            Some(v) => FIRST_GI_DEBUG_MODE <= mode <= LAST_GI_DEBUG_MODE && v == mode
                - FIRST_GI_DEBUG_MODE,
            None => mode < FIRST_GI_DEBUG_MODE || mode > LAST_GI_DEBUG_MODE,
        },
        view == gi_view_of(mode),
{
    if FIRST_GI_DEBUG_MODE <= mode && mode <= LAST_GI_DEBUG_MODE {
        Some(mode - FIRST_GI_DEBUG_MODE)
    } else {
        None
    }
}

/// Size of the screen after a resize request.
pub open spec fn resized_to(width: u32, height: u32) -> Option<(u32, u32)> {
    if width == 0 || height == 0 {
        None
    } else {
        Some((width, height))
    }
}

/// Size of the screen after a resize request: a request with an empty side is
/// ignored.
pub fn resized(width: u32, height: u32) -> (r: Option<(u32, u32)>)
    ensures
        r == (if width == 0 || height == 0 {
            None
        } else {
            Some((width, height))
        }),
        r == resized_to(width, height),
{
    if width == 0 || height == 0 {
        return None;
    }
    Some((width, height))
}

/// A texture side: at least one texel.
pub fn texture_side(side: u32) -> (s: u32)
    ensures
        s == larger(side as int, 1),
{
    if side < 1 {
        1
    } else {
        side
    }
}

/// Which steps a frame has depends on the render mode only in that wireframe skips
/// everything on depth: with a prepass and resident slots a frame culls; without
/// resident slots it still clears depth; without a prepass it only draws.
pub proof fn frames_cull_when_they_can(mode: u8, prepass_enabled: bool, resident: u32)
    ensures
        ({
            let s = frame_steps(mode, prepass_enabled, resident);
            let wire = mode == MODE_WIREFRAME;
            &&& s.contains(FrameStep::OcclusionCull) <==> !wire && prepass_enabled && resident > 0
            &&& s.contains(FrameStep::DepthPrepass) <==> !wire && prepass_enabled
            &&& s.contains(FrameStep::EnsureWireframe) <==> wire
            &&& s.len() == (if wire {
                2int
            } else if !prepass_enabled {
                1
            } else if resident == 0 {
                3
            } else {
                7
            })
            &&& s.last() == FrameStep::Draw(draw_pass_of(mode))
        }),
{
    let s = frame_steps(mode, prepass_enabled, resident);
    let wire = mode == MODE_WIREFRAME;
    if !wire && prepass_enabled && resident > 0 {
        assert(s[4] == FrameStep::OcclusionCull && s[2] == FrameStep::DepthPrepass);
    }
    if !wire && prepass_enabled && resident == 0 {
        assert(s[0] == FrameStep::DepthPrepass);
    }
    if wire {
        assert(s[0] == FrameStep::EnsureWireframe);
    }
}

/// Two render modes that are neither wireframe nor the depth view draw alike but for
/// the pipeline: all slots, filled, onto the depth that the frame has. The wireframe
/// draws lines on cleared depth, and the depth view draws no slot.
pub proof fn modes_draw_alike(mode: u8)
    ensures
        ({
            let d = draw_pass_of(mode);
            &&& d.draw_slots == d.depth_attached
            &&& d.wire == d.clear_depth
            &&& d.wire <==> mode == MODE_WIREFRAME
            &&& !d.draw_slots <==> mode == MODE_DEPTH
            &&& d.pipeline == Pipeline::Normals <==> mode == MODE_NORMALS
            &&& d.pipeline == Pipeline::Wireframe <==> d.wire
            &&& d.pipeline == Pipeline::DepthViz <==> !d.draw_slots
            &&& mode != MODE_WIREFRAME && mode != MODE_DEPTH && mode != MODE_NORMALS ==> d.pipeline
                == Pipeline::Color
        }),
{
}

/// Each level of the pyramid is made from the one before it and has half its sides,
/// rounded down, but at least one texel. The first is as large as the screen.
pub proof fn pyramid_levels_halve(width: u32, height: u32, count: nat, i: int)
    requires
        0 <= i < count,
    ensures
        ({
            let s = hiz_steps(width as int, height as int, count);
            &&& s.len() == count
            &&& s[0].src_width == width && s[0].dst_width == width
            &&& s[0].src_height == height && s[0].dst_height == height
            &&& i > 0 ==> s[i].src_width == s[i - 1].dst_width && s[i].src_height == s[i
                - 1].dst_height
            &&& i > 0 ==> s[i].dst_width == (if s[i].src_width < 4 {
                1
            } else {
                s[i].src_width as int / 2
            })
            &&& i > 0 ==> s[i].dst_height == (if s[i].src_height < 4 {
                1
            } else {
                s[i].src_height as int / 2
            })
        }),
{
    lemma_side_fits(width as int, i as nat);
    lemma_side_fits(height as int, i as nat);
    if i > 0 {
        lemma_side_fits(width as int, (i - 1) as nat);
        lemma_side_fits(height as int, (i - 1) as nat);
    }
}

proof fn lemma_side_fits(side: int, level: nat)
    requires
        0 <= side <= u32::MAX,
    ensures
        0 <= level_side(side, level) <= u32::MAX,
    decreases level,
{
    if level > 0 {
        lemma_side_fits(side, (level - 1) as nat);
    }
}

/// The pyramid stops at its first level of a single texel.
pub proof fn pyramid_stops_at_one_texel(width: int, height: int, level: nat)
    requires
        width >= 1,
        height >= 1,
        level + 1 < hiz_levels(width, height),
    ensures
        level_side(width, level) > 1 || level_side(height, level) > 1,
{
    let m = larger(width, height);
    lemma_level_above_one(m, level);
}

proof fn lemma_level_above_one(side: int, level: nat)
    requires
        side >= 1,
        floor_log2(side) > level,
    ensures
        level_side(side, level) > 1,
    decreases level,
{
    if level > 0 {
        lemma_level_shift(side, level);
        lemma_level_above_one(side / 2, (level - 1) as nat);
    }
}

/// The workgroups of a pass: one a slot, six times that for what works on face
/// directions, and for the cull as many as it takes with 64 slots each. No slot, no
/// work, but for the pass that sums over all of them.
pub proof fn passes_cover_their_slots(pass: SlotPass, slots: u32)
    requires
        slots <= u32::MAX - 63,
    ensures
        ({
            let d = slot_dispatch_of(pass, slots);
            let directions = pass == SlotPass::MeshCount || pass == SlotPass::MeshWrite;
            &&& d is None <==> slots == 0 && pass != SlotPass::PrefixSum
            &&& d is Some ==> d->Some_0.z == 1
            &&& d is Some && directions ==> d->Some_0.x == slots && d->Some_0.y == 6
            &&& d is Some && !directions ==> d->Some_0.y == 1
            &&& d is Some && (pass == SlotPass::Summary || pass == SlotPass::BuildWireframe)
                ==> d->Some_0.x == slots
            &&& d is Some && pass == SlotPass::OcclusionCull ==> 64 * (d->Some_0.x - 1) < slots <= 64
                * d->Some_0.x
            &&& pass == SlotPass::PrefixSum ==> d->Some_0.x == 1
        }),
{
}

/// The workgroups over a screen cover it, and none lies outside.
pub proof fn screens_are_covered(width: u32, height: u32)
    requires
        0 < width <= u32::MAX - 7,
        0 < height <= u32::MAX - 7,
    ensures
        8 * (screen_groups(width, height).x - 1) < width <= 8 * screen_groups(width, height).x,
        8 * (screen_groups(width, height).y - 1) < height <= 8 * screen_groups(width, height).y,
        screen_groups(width, height).z == 1,
{
}

/// Debug views are numbered by their modes, eight in a row.
pub proof fn debug_modes_run_in_a_row(mode: u8)
    ensures
        gi_view_of(mode) is Some <==> 32 <= mode < 40,
        gi_view_of(mode) is Some ==> gi_view_of(mode) == Some((mode - 32) as u8),
{
}

/// A screen gets the size that was asked for, unless a side is empty.
pub proof fn sizes_are_those_asked_for(width: u32, height: u32)
    ensures
        width > 0 && height > 0 ==> resized_to(width, height) == Some((width, height)),
        resized_to(width, height) is None <==> width == 0 || height == 0,
        larger(width as int, 1) == (if width > 0 {
            width as int
        } else {
            1
        }),
{
}

} // verus!
