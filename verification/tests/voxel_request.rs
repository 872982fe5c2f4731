use gestalt::sparse::{BrickOrigin, Dims, Sparse};
use gestalt::voxel_request::{
    begin, estimate_dense_bytes, finish_chunks, go_on_after_gpu, go_on_with_grid, grid_dims,
    has_voxels, merge_debug, select_faces, shown_debug, DebugInfo, Face, Request, RequestError,
    wants_cpu, RequestKind, Step,
};

fn sparse(occupancy: Vec<u32>) -> Sparse {
    let brick_origins: Vec<BrickOrigin> =
        (0..occupancy.len() as u32).map(|x| BrickOrigin { x: 2 * x, y: 0, z: 0 }).collect();
    Sparse {
        brick_dim: 2,
        brick_origins,
        occupancy,
        owner_id: None,
        color_rgba: None,
        debug_flags: [0; 3],
        debug_workgroups: 0,
        debug_tested: 0,
        debug_hits: 0,
        triangles: 0,
    }
}

fn request(kind: RequestKind) -> Request {
    Request { kind, chunk_size: 0, max_entries: 10 }
}

const SMALL: Dims = Dims { x: 4, y: 4, z: 4 };

#[test]
fn grids_need_three_numbers() {
    assert_eq!(grid_dims(3, &[1, 2, 3]), Ok(Dims { x: 1, y: 2, z: 3 }));
    assert_eq!(grid_dims(4, &[1, 2, 3, 4]), Ok(Dims { x: 1, y: 2, z: 3 }));
    assert_eq!(grid_dims(2, &[1, 2, 3]), Err(RequestError::BadGrid));
    assert_eq!(grid_dims(3, &[1, 2]), Err(RequestError::BadGrid));
}

#[test]
fn faces_past_the_vertices_are_left_out() {
    // Three vertices: nine coordinates.
    let faces = select_faces(&[0, 1, 2, 0, 1, 3, 2, 1, 0, 5, 5], 9);
    assert_eq!(faces, vec![Face { a: 0, b: 1, c: 2 }, Face { a: 2, b: 1, c: 0 }]);
    assert!(select_faces(&[0, 1, 2], 8).is_empty());
    assert!(select_faces(&[0, 1, u32::MAX], 9).is_empty());
}

#[test]
fn dense_bytes_count_bits_and_attributes() {
    assert_eq!(estimate_dense_bytes(SMALL, false, false), 8);
    assert_eq!(estimate_dense_bytes(SMALL, true, false), 8 + 256);
    assert_eq!(estimate_dense_bytes(SMALL, true, true), 8 + 512);
    assert_eq!(estimate_dense_bytes(Dims { x: 3, y: 3, z: 4 }, false, false), 8);
    assert_eq!(estimate_dense_bytes(Dims { x: 0, y: 3, z: 4 }, true, true), 0);
}

#[test]
fn voxels_are_found_in_any_chunk() {
    assert!(!has_voxels(&[]));
    assert!(!has_voxels(&[sparse(vec![0, 0]), sparse(vec![])]));
    assert!(has_voxels(&[sparse(vec![0, 0]), sparse(vec![0, 4])]));
}

#[test]
fn requests_begin_on_the_gpu() {
    let size = |kind: RequestKind, chunk_size: u32| {
        begin(&Request { kind, chunk_size, max_entries: 1 })
    };
    assert_eq!(size(RequestKind::Sparse, 9), Step::VoxelizeOnGpu { chunk_size: None });
    assert_eq!(size(RequestKind::Positions, 9), Step::VoxelizeOnGpu { chunk_size: None });
    assert_eq!(size(RequestKind::Attributes, 9), Step::VoxelizeOnGpu { chunk_size: None });
    assert_eq!(
        size(RequestKind::PositionsChunked, 0),
        Step::VoxelizeOnGpu { chunk_size: Some(1) }
    );
    assert_eq!(size(RequestKind::Chunked, 0), Step::VoxelizeOnGpu { chunk_size: Some(0) });
}

#[test]
fn cpu_steps_in_where_the_gpu_finds_nothing() {
    let none = [sparse(vec![0])];
    let some = [sparse(vec![1])];
    let r = request(RequestKind::Sparse);
    assert_eq!(go_on_after_gpu(&r, &none, true, SMALL), Step::VoxelizeOnCpu);
    assert_eq!(go_on_after_gpu(&r, &none, false, SMALL), Step::HandOut);
    assert_eq!(go_on_after_gpu(&r, &some, true, SMALL), Step::HandOut);
    let r = request(RequestKind::PositionsChunked);
    assert_eq!(go_on_after_gpu(&r, &none, false, SMALL), Step::VoxelizeOnCpu);
    assert_eq!(go_on_after_gpu(&r, &[], true, SMALL), Step::HandOutNothing);
}

#[test]
fn large_fallbacks_are_refused() {
    let dims = Dims { x: 512, y: 512, z: 256 };
    let r = request(RequestKind::Sparse);
    assert_eq!(
        go_on_after_gpu(&r, &[sparse(vec![0])], true, dims),
        Step::Fail(RequestError::FallbackTooLarge { estimated_mb: 520, limit_mb: 512 })
    );
}

#[test]
fn positions_share_the_limit() {
    let grids = [sparse(vec![1]), sparse(vec![1]), sparse(vec![1])];
    let r = request(RequestKind::PositionsChunked);
    assert_eq!(go_on_with_grid(&r, &grids), Step::ListPositions { limit: 3 });
    let few = Request { kind: RequestKind::PositionsChunked, chunk_size: 1, max_entries: 2 };
    assert_eq!(go_on_with_grid(&few, &grids), Step::ListPositions { limit: 1 });
    let none = Request { kind: RequestKind::Positions, chunk_size: 1, max_entries: 0 };
    assert_eq!(go_on_with_grid(&none, &grids), Step::ListPositions { limit: 1 });
}

#[test]
fn attributes_need_owners_and_colors() {
    let r = request(RequestKind::Attributes);
    let mut s = sparse(vec![1]);
    assert_eq!(go_on_with_grid(&r, &[s]), Step::Fail(RequestError::OwnerMissing));
    s = sparse(vec![1]);
    s.owner_id = Some(vec![0; 8]);
    assert_eq!(go_on_with_grid(&r, &[s]), Step::Fail(RequestError::ColorMissing));
    s = sparse(vec![1]);
    s.owner_id = Some(vec![0; 8]);
    s.color_rgba = Some(vec![0; 8]);
    assert_eq!(go_on_with_grid(&r, &[s]), Step::ListAttributes { limit: 10 });
}

#[test]
fn reports_are_merged_and_stand_in() {
    let mut a = sparse(vec![1]);
    a.debug_tested = 3;
    a.debug_hits = 1;
    a.debug_workgroups = 2;
    a.debug_flags = [1, 0, 4];
    let mut b = sparse(vec![1]);
    b.debug_tested = 5;
    b.debug_flags = [2, 0, 4];
    let merged = merge_debug(&[a, b]);
    assert_eq!(
        merged,
        DebugInfo { tested: 8, hits: 1, workgroups: 2, flag0: 3, flag1: 0, flag2: 4 }
    );
    let mut own = sparse(vec![1]);
    own.debug_tested = 9;
    assert_eq!(
        shown_debug(&own, &merged),
        DebugInfo { tested: 9, hits: 1, workgroups: 2, flag0: 3, flag1: 0, flag2: 4 }
    );
    own.debug_flags = [0, 7, 0];
    assert_eq!(
        shown_debug(&own, &merged),
        DebugInfo { tested: 9, hits: 1, workgroups: 2, flag0: 0, flag1: 7, flag2: 0 }
    );
}

#[test]
fn finished_chunks_are_compacted_on_request() {
    let out = finish_chunks(vec![sparse(vec![0, 3, 0])], true);
    assert_eq!(out[0].brick_origins, vec![BrickOrigin { x: 2, y: 0, z: 0 }]);
    assert_eq!(out[0].occupancy, vec![3]);
    let out = finish_chunks(vec![sparse(vec![0, 3, 0])], false);
    assert_eq!(out[0].occupancy, vec![0, 3, 0]);
}

#[test]
fn huge_grids_are_handed_out_where_the_gpu_found_voxels() {
    let huge = Dims { x: u32::MAX, y: u32::MAX, z: u32::MAX };
    let r = request(RequestKind::Sparse);
    let some = [sparse(vec![1])];
    let none = [sparse(vec![0])];
    assert!(!wants_cpu(&r, &some, true) && !wants_cpu(&r, &none, false));
    assert!(wants_cpu(&r, &none, true));
    assert!(!wants_cpu(&request(RequestKind::PositionsChunked), &[], true));
    assert_eq!(go_on_after_gpu(&r, &some, true, huge), Step::HandOut);
    assert_eq!(go_on_after_gpu(&r, &none, false, huge), Step::HandOut);
}
