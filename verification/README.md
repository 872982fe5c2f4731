# Gestalt

Voxel meshing and chunk residency for a WebGPU renderer, verified with Verus.

Triangle meshes and generated scenes become chunks of 64 voxels a side. Chunks
get slots in a fixed pool, their faces are culled and merged into quads, and the
library plans every write, dispatch and draw that a GPU needs to show them.

## Layout

`src/` is the verified library.

| Modules | What they hold |
| --- | --- |
| `coord`, `pool`, `slot_directory`, `probe_slot`, `residency` | Chunk coordinates, slots of chunks and probes, and the tables between them |
| `occupancy`, `bits`, `scene`, `materials`, `half` | Chunk contents: occupancy bits, palettes, packed indices, materials, generated scenes |
| `plane`, `mesh_cpu`, `mesh_laws`, `ieee`, `summary_cpu` | Face culling, greedy merging, vertex expansion, and chunk summaries |
| `binary_chunk`, `convert`, `merge`, `mesher`, `mesh_layout` | Meshing of chunks with a material per voxel into packed quads, and their vertices |
| `text`, `obj_parser`, `triangle_scan`, `voxelizer_cpu` | OBJ files, the voxels that triangles touch, and the chunks they make |
| `sparse`, `voxel_request` | Sparse voxel grids and voxelization requests |
| `state`, `lru`, `queue` | Rebuild states, access times and the rebuild queue |
| `cascade`, `frame`, `gpu_layout`, `bytes`, `upload`, `load` | What a frame runs, what buffers hold, and what is written where |

`tests/` runs the library on concrete values. `app/` is the browser front end:
devices, textures, shaders and the JavaScript interface, with everything that
needs floating point.

## What is trusted

One function is believed rather than proved: `bytes::cast_words`, which calls
`bytemuck::cast_slice` to view words as bytes in the machine's order.
