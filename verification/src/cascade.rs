//! World-space radiance cascades: dimensions, storage sizes and probe
//! addressing.

use vstd::prelude::*;

use crate::pool::CS_P;

verus! {

/// Number of active cascade levels.
pub const V3_N_CASCADES: u32 = 1;

/// Probe spacing of cascade 0, in voxels.
pub const V3_CASCADE_0_SPACING: u32 = 4;

/// Octahedral direction grid resolution per axis at cascade 0.
pub const V3_CASCADE_0_DIRS_PER_AXIS: u32 = 8;

/// Total directions stored per probe.
pub const V3_CASCADE_0_DIRS: u32 = 64;

/// Maximum number of chunks that can hold probe payload at the same time.
pub const V3_MAX_PROBE_SLOTS: u32 = 64;

/// Table entry for "no probe slot".
pub const V3_PROBE_SENTINEL: u32 = 0xFFFF_FFFF;

/// Probes per axis within a padded chunk.
pub const V3_PROBES_PER_CHUNK_AXIS: u32 = 16;

/// Total probes stored per chunk slot.
pub const V3_PROBES_PER_CHUNK: u32 = 4096;

/// Bytes per direction texel (four 32-bit floats).
pub const V3_PROBE_PAYLOAD_BYTES_PER_DIR: u32 = 16;

/// Bytes per probe (all directions stored consecutively).
pub const V3_PROBE_PAYLOAD_BYTES_PER_PROBE: u32 = 1024;

/// Bytes per chunk slot (all probes stored consecutively).
pub const V3_PROBE_PAYLOAD_BYTES_PER_SLOT: u32 = 4_194_304;

/// Total payload buffer size in bytes.
pub const V3_PROBE_PAYLOAD_BUF_BYTES: u64 = 268_435_456;

/// The sizes fit together.
pub proof fn cascade_layout_is_consistent()
    ensures
        CS_P % V3_CASCADE_0_SPACING == 0,
        V3_CASCADE_0_DIRS == V3_CASCADE_0_DIRS_PER_AXIS * V3_CASCADE_0_DIRS_PER_AXIS,
        V3_PROBES_PER_CHUNK_AXIS == CS_P / V3_CASCADE_0_SPACING,
        V3_PROBES_PER_CHUNK == V3_PROBES_PER_CHUNK_AXIS * V3_PROBES_PER_CHUNK_AXIS
            * V3_PROBES_PER_CHUNK_AXIS,
        V3_PROBE_PAYLOAD_BYTES_PER_PROBE == V3_CASCADE_0_DIRS * V3_PROBE_PAYLOAD_BYTES_PER_DIR,
        V3_PROBE_PAYLOAD_BYTES_PER_SLOT == V3_PROBES_PER_CHUNK * V3_PROBE_PAYLOAD_BYTES_PER_PROBE,
        V3_PROBE_PAYLOAD_BUF_BYTES == V3_MAX_PROBE_SLOTS * V3_PROBE_PAYLOAD_BYTES_PER_SLOT,
{
}

/// Place of a probe in its chunk.
#[derive(Debug, Clone, Copy, PartialEq, Eq, Structural)]
pub struct ProbeCoord {
    pub x: u32,
    pub y: u32,
    pub z: u32,
}

impl ProbeCoord {
    pub fn new(x: u32, y: u32, z: u32) -> (p: Self)
        ensures
            p == (ProbeCoord { x, y, z }),
    {
        ProbeCoord { x, y, z }
    }

    /// Whether the place lies in the chunk.
    pub open spec fn in_range(self) -> bool {
        self.x < V3_PROBES_PER_CHUNK_AXIS && self.y < V3_PROBES_PER_CHUNK_AXIS && self.z
            < V3_PROBES_PER_CHUNK_AXIS
    }
}

/// Number of a probe in its chunk: x varies fastest.
pub open spec fn probe_number(p: ProbeCoord) -> int {
    p.x + p.y * V3_PROBES_PER_CHUNK_AXIS + p.z * V3_PROBES_PER_CHUNK_AXIS
        * V3_PROBES_PER_CHUNK_AXIS
}

/// Linearize a probe's place within a chunk.
pub fn probe_index_in_chunk(local_probe: ProbeCoord) -> (i: u32)
    requires
        local_probe.in_range(),
    ensures
        i == probe_number(local_probe),
        i < V3_PROBES_PER_CHUNK,
{
    local_probe.x + local_probe.y * V3_PROBES_PER_CHUNK_AXIS + local_probe.z
        * V3_PROBES_PER_CHUNK_AXIS * V3_PROBES_PER_CHUNK_AXIS
}

/// No two probes of a chunk share a number.
pub proof fn probe_number_injective(p: ProbeCoord, q: ProbeCoord)
    requires
        p.in_range(),
        q.in_range(),
        probe_number(p) == probe_number(q),
    ensures
        p == q,
{
}

/// Every number below the probe count belongs to a probe.
pub proof fn probe_number_surjective(i: int)
    requires
        0 <= i < V3_PROBES_PER_CHUNK,
    ensures
        ({
            let p = ProbeCoord {
                x: (i % 16) as u32,
                y: (i / 16 % 16) as u32,
                z: (i / 256) as u32,
            };
            p.in_range() && probe_number(p) == i
        }),
{
}

/// Position of a direction texel in the payload, in texels: slots, then probes,
/// then directions.
pub open spec fn texel_position(slot: int, probe: int, dir: int) -> int {
    slot * V3_PROBES_PER_CHUNK * V3_CASCADE_0_DIRS + probe * V3_CASCADE_0_DIRS + dir
}

/// Byte offset of a single direction texel within the probe payload.
pub fn flat_payload_byte_offset(probe_slot: u32, probe_idx: u32, dir_idx: u32) -> (o: usize)
    requires
        texel_position(probe_slot as int, probe_idx as int, dir_idx as int) * 16 <= usize::MAX,
    ensures
        o == texel_position(probe_slot as int, probe_idx as int, dir_idx as int)
            * V3_PROBE_PAYLOAD_BYTES_PER_DIR,
{
    let slot_off: usize = probe_slot as usize * V3_PROBE_PAYLOAD_BYTES_PER_SLOT as usize;
    let probe_off: usize = probe_idx as usize * V3_PROBE_PAYLOAD_BYTES_PER_PROBE as usize;
    let dir_off: usize = dir_idx as usize * V3_PROBE_PAYLOAD_BYTES_PER_DIR as usize;
    slot_off + probe_off + dir_off
}

/// The same offset in texels.
pub fn flat_payload_texel_index(probe_slot: u32, probe_idx: u32, dir_idx: u32) -> (i: usize)
    requires
        texel_position(probe_slot as int, probe_idx as int, dir_idx as int) <= usize::MAX,
    ensures
        i == texel_position(probe_slot as int, probe_idx as int, dir_idx as int),
{
    let slot_off: usize = probe_slot as usize * 262_144;
    let probe_off: usize = probe_idx as usize * V3_CASCADE_0_DIRS as usize;
    slot_off + probe_off + dir_idx as usize
}

/// Texels of the payload do not overlap, and all lie in the buffer.
pub proof fn payload_layout(
    slot: int,
    probe: int,
    dir: int,
    slot2: int,
    probe2: int,
    dir2: int,
)
    requires
        0 <= slot < V3_MAX_PROBE_SLOTS && 0 <= slot2 < V3_MAX_PROBE_SLOTS,
        0 <= probe < V3_PROBES_PER_CHUNK && 0 <= probe2 < V3_PROBES_PER_CHUNK,
        0 <= dir < V3_CASCADE_0_DIRS && 0 <= dir2 < V3_CASCADE_0_DIRS,
    ensures
        texel_position(slot, probe, dir) == texel_position(slot2, probe2, dir2) ==> slot == slot2
            && probe == probe2 && dir == dir2,
        0 <= texel_position(slot, probe, dir) * V3_PROBE_PAYLOAD_BYTES_PER_DIR,
        (texel_position(slot, probe, dir) + 1) * V3_PROBE_PAYLOAD_BYTES_PER_DIR
            <= V3_PROBE_PAYLOAD_BUF_BYTES,
{
}

/// Directions of a probe, probes of a slot, and slots follow each other without a
/// gap, from the start of the payload.
pub proof fn payload_runs_without_gaps(slot: int, probe: int, dir: int)
    requires
        0 <= slot && 0 <= probe < V3_PROBES_PER_CHUNK && 0 <= dir < V3_CASCADE_0_DIRS,
    ensures
        texel_position(0, 0, 0) == 0,
        texel_position(slot, probe, dir) + 1 == (if dir + 1 < V3_CASCADE_0_DIRS {
            texel_position(slot, probe, dir + 1)
        } else if probe + 1 < V3_PROBES_PER_CHUNK {
            texel_position(slot, probe + 1, 0)
        } else {
            texel_position(slot + 1, 0, 0)
        }),
{
}

/// Neighbouring probes along x have neighbouring numbers; a row along x and a layer
/// of rows follow each other without a gap.
pub proof fn probes_run_along_x(x: u32, y: u32, z: u32)
    requires
        (ProbeCoord { x, y, z }).in_range(),
    ensures
        probe_number(ProbeCoord { x: 0, y: 0, z: 0 }) == 0,
        x < 15 ==> probe_number(ProbeCoord { x: (x + 1) as u32, y, z }) == probe_number(
            ProbeCoord { x, y, z },
        ) + 1,
        y < 15 ==> probe_number(ProbeCoord { x: 0, y: (y + 1) as u32, z }) == probe_number(
            ProbeCoord { x: 15, y, z },
        ) + 1,
        z < 15 ==> probe_number(ProbeCoord { x: 0, y: 0, z: (z + 1) as u32 }) == probe_number(
            ProbeCoord { x: 15, y: 15, z },
        ) + 1,
{
}

} // verus!
