# cssism

Succinct spatial index for SLAM map points, verified with Verus.

- `src/types.rs`: `MapPoint` (coordinates carried as `f32` bit patterns) and its view.
- `src/bits.rs`: the `bitvec` bit-vector holding the octree topology, behind trusted wrappers.
- `src/octree.rs`: `SuccinctOctreeLayout` (level-order topology, `rank1`, child indices),
  `OctreeNode`, and `ConcurrentOctree` (point store with snapshot and k-nearest queries).
- `src/nearest.rs`: choosing the `k` nearest points from squared-distance bit patterns.
- `src/index.rs`: `ConcurrentMapIndex`, the point store beside the k-d tree.
- `app/lib.rs`: float-facing `MapPoint`, lock-shared indexes (`parking_lot`), the `kiddo`
  k-d tree, and the mock 60 Hz frontend.
