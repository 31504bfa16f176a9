# strata

The verified core of a voxel engine's meshing, GPU-upload and storage
layers, written in Verus.

- `src/meshing`: block ids and registry, the packed quad and vertex
  formats, the greedy rectangle merge (with a proof that the greedy cover
  is unique), the sector mesher over voxel snapshots and neighbor boundary
  planes, the occupancy mask, the visibility-buffer entry layout, and the
  meshing scheduler's per-frame budget and dispatch decisions.
- `src/render`: lightmap entries, quad-buffer staging, frame flattening,
  the block texture-array layers, and sizing/packing helpers of the GPU
  passes.
- `src/storage`: sector coordinates, the sector envelope header with its
  BLAKE3/xxHash64 checks and zstd compression (decoding capped at a size
  no real sector reaches), deduplication, the region
  file image format (parse, serialize, append, compact, read, and the laws
  that a sector written can be read back, also after reparsing the file),
  dirty tracking, metadata rows, and the storage worker's decisions.
- `src/save`: the versioned save envelope, the migration chain's step
  selection, and the write-back scheduler.
- `src/player`: the hotbar inventory, placement targeting, and which
  neighbour sectors an edit on a sector face dirties.
- `app/`: the I/O shell: region and save files on disk,
  serialized records, async metadata stores, the warm cache, the tokio
  storage worker, float bounding boxes, and the float voxel ray march.
- `tests/`: executable tests of the library.
