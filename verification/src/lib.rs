//! Succinct spatial index for SLAM map points.
//!
//! Provides point insertion with consecutive ids, nearest-neighbor selection
//! and a succinct bit-vector encoding of the octree topology.
pub mod bits;
pub mod index;
pub mod nearest;
pub mod octree;
pub mod types;

pub use index::ConcurrentMapIndex;
pub use octree::ConcurrentOctree;
pub use types::{MapPoint, PointId};
