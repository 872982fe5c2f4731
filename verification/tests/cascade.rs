use gestalt::cascade::{
    ProbeCoord, V3_CASCADE_0_DIRS, V3_MAX_PROBE_SLOTS, V3_PROBES_PER_CHUNK,
    V3_PROBES_PER_CHUNK_AXIS, V3_PROBE_PAYLOAD_BUF_BYTES, V3_PROBE_PAYLOAD_BYTES_PER_DIR,
    flat_payload_byte_offset, flat_payload_texel_index, probe_index_in_chunk,
};

#[test]
fn probe_index_in_chunk_is_x_major() {
    assert_eq!(probe_index_in_chunk(ProbeCoord::new(0, 0, 0)), 0);
    assert_eq!(probe_index_in_chunk(ProbeCoord::new(1, 0, 0)), 1);
    assert_eq!(
        probe_index_in_chunk(ProbeCoord::new(0, 1, 0)),
        V3_PROBES_PER_CHUNK_AXIS,
    );
    assert_eq!(
        probe_index_in_chunk(ProbeCoord::new(0, 0, 1)),
        V3_PROBES_PER_CHUNK_AXIS * V3_PROBES_PER_CHUNK_AXIS,
    );
    // Last probe in chunk
    let last = V3_PROBES_PER_CHUNK_AXIS - 1;
    assert_eq!(
        probe_index_in_chunk(ProbeCoord::new(last, last, last)),
        V3_PROBES_PER_CHUNK - 1,
    );
}

#[test]
fn probe_index_in_chunk_is_unique() {
    let mut seen = std::collections::HashSet::new();
    for z in 0..V3_PROBES_PER_CHUNK_AXIS {
        for y in 0..V3_PROBES_PER_CHUNK_AXIS {
            for x in 0..V3_PROBES_PER_CHUNK_AXIS {
                let idx = probe_index_in_chunk(ProbeCoord::new(x, y, z));
                assert!(seen.insert(idx), "duplicate probe index {idx}");
                assert!(idx < V3_PROBES_PER_CHUNK);
            }
        }
    }
    assert_eq!(seen.len(), V3_PROBES_PER_CHUNK as usize);
}

#[test]
fn flat_payload_offset_no_overlap() {
    // Test that consecutive (slot, probe, dir) triples have distinct offsets
    // and don't overflow the buffer.
    let cases = [
        (0, 0, 0),
        (0, 0, 1),
        (0, 0, V3_CASCADE_0_DIRS - 1),
        (0, 1, 0),
        (0, V3_PROBES_PER_CHUNK - 1, V3_CASCADE_0_DIRS - 1),
        (1, 0, 0),
        (V3_MAX_PROBE_SLOTS - 1, V3_PROBES_PER_CHUNK - 1, V3_CASCADE_0_DIRS - 1),
    ];
    let mut prev = 0usize;
    for (slot, probe, dir) in cases {
        let off = flat_payload_byte_offset(slot, probe, dir);
        assert!(off < V3_PROBE_PAYLOAD_BUF_BYTES as usize);
        if (slot, probe, dir) != (0, 0, 0) {
            assert!(off > prev, "offsets not strictly increasing");
        }
        prev = off;
    }
}

#[test]
fn flat_payload_byte_and_texel_index_agree() {
    for &(slot, probe, dir) in &[
        (0u32, 0u32, 0u32),
        (3, 17, 42),
        (V3_MAX_PROBE_SLOTS - 1, V3_PROBES_PER_CHUNK - 1, V3_CASCADE_0_DIRS - 1),
    ] {
        let bytes = flat_payload_byte_offset(slot, probe, dir);
        let texels = flat_payload_texel_index(slot, probe, dir);
        assert_eq!(
            bytes,
            texels * V3_PROBE_PAYLOAD_BYTES_PER_DIR as usize,
            "byte and texel offsets disagree at ({slot},{probe},{dir})",
        );
    }
}
