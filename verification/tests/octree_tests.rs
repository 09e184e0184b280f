use cssism::octree::{ConcurrentOctree, ROOT_HALF_SIZE_BITS, ROOT_ORIGIN_BITS};
use cssism::types::MapPoint;

fn pt(x: f32, y: f32, z: f32, tag: u8) -> MapPoint {
    MapPoint::new(x.to_bits(), y.to_bits(), z.to_bits(), vec![tag; 4], 999)
}

fn distance_bits(tree: &ConcurrentOctree, q: [f32; 3]) -> Vec<u32> {
    tree.snapshot()
        .iter()
        .map(|p| {
            let dx = f32::from_bits(p.x) - q[0];
            let dy = f32::from_bits(p.y) - q[1];
            let dz = f32::from_bits(p.z) - q[2];
            (dx * dx + dy * dy + dz * dz).to_bits()
        })
        .collect()
}

#[test]
fn root_constants_are_the_cube_bounds() {
    assert_eq!(f32::from_bits(ROOT_ORIGIN_BITS), -50.0);
    assert_eq!(f32::from_bits(ROOT_HALF_SIZE_BITS), 50.0);
}

#[test]
fn new_octree_is_empty_with_leaf_root() {
    let tree = ConcurrentOctree::new();
    assert!(tree.is_empty());
    assert_eq!(tree.len(), 0);
    assert_eq!(tree.max_points_per_leaf, 64);
    assert_eq!(tree.max_depth, 12);
    let layout = tree.layout_snapshot();
    assert_eq!(layout.len(), 1);
    assert!(!layout.is_internal(0));
    assert_eq!(layout.first_child_index(0), None);
    assert!(tree.snapshot().is_empty());
}

#[test]
fn default_octree_is_empty() {
    let tree = ConcurrentOctree::default();
    assert!(tree.is_empty());
}

#[test]
fn insert_assigns_consecutive_ids() {
    let mut tree = ConcurrentOctree::new();
    assert_eq!(tree.insert(pt(1.0, 0.0, 0.0, 1)), 0);
    assert_eq!(tree.insert(pt(2.0, 0.0, 0.0, 2)), 1);
    assert_eq!(tree.insert(pt(3.0, 0.0, 0.0, 3)), 2);
    assert_eq!(tree.len(), 3);
    assert!(!tree.is_empty());
    let snap = tree.snapshot();
    assert_eq!(snap.len(), 3);
    for (i, p) in snap.iter().enumerate() {
        assert_eq!(p.id, i as u64);
        assert_eq!(p.descriptor, vec![(i + 1) as u8; 4]);
    }
}

#[test]
fn insert_batch_empty_returns_zero_pair() {
    let mut tree = ConcurrentOctree::new();
    tree.insert(pt(0.0, 0.0, 0.0, 0));
    assert_eq!(tree.insert_batch(Vec::new()), (0, 0));
    assert_eq!(tree.len(), 1);
}

#[test]
fn insert_batch_assigns_ids_from_next_id() {
    let mut tree = ConcurrentOctree::new();
    tree.insert(pt(0.0, 0.0, 0.0, 0));
    tree.insert(pt(0.0, 0.0, 0.0, 0));
    let (n, first) = tree.insert_batch(vec![pt(1.0, 1.0, 1.0, 7), pt(2.0, 2.0, 2.0, 8), pt(3.0, 3.0, 3.0, 9)]);
    assert_eq!((n, first), (3, 2));
    assert_eq!(tree.len(), 5);
    let snap = tree.snapshot();
    assert_eq!(snap[2].id, 2);
    assert_eq!(snap[3].id, 3);
    assert_eq!(snap[4].id, 4);
    assert_eq!(snap[4].descriptor, vec![9; 4]);
    assert_eq!(f32::from_bits(snap[3].x), 2.0);
    assert_eq!(tree.insert(pt(0.0, 0.0, 0.0, 0)), 5);
}

#[test]
fn nearest_returns_k_closest_in_order() {
    let mut tree = ConcurrentOctree::new();
    tree.insert_batch(vec![
        pt(5.0, 0.0, 0.0, 0),
        pt(1.0, 0.0, 0.0, 1),
        pt(3.0, 0.0, 0.0, 2),
        pt(-2.0, 0.0, 0.0, 3),
    ]);
    let keys = distance_bits(&tree, [0.0, 0.0, 0.0]);
    let out = tree.nearest_by_distance_bits(&keys, 2);
    let ids: Vec<u64> = out.iter().map(|p| p.id).collect();
    assert_eq!(ids, vec![1, 3]);
    let all = tree.nearest_by_distance_bits(&keys, 10);
    let ids: Vec<u64> = all.iter().map(|p| p.id).collect();
    assert_eq!(ids, vec![1, 3, 2, 0]);
}

#[test]
fn nearest_ties_keep_insertion_order() {
    let mut tree = ConcurrentOctree::new();
    tree.insert(pt(1.0, 0.0, 0.0, 0));
    tree.insert(pt(-1.0, 0.0, 0.0, 1));
    tree.insert(pt(0.0, 1.0, 0.0, 2));
    tree.insert(pt(0.0, 0.0, 0.5, 3));
    let keys = distance_bits(&tree, [0.0, 0.0, 0.0]);
    let ids: Vec<u64> = tree.nearest_by_distance_bits(&keys, 3).iter().map(|p| p.id).collect();
    assert_eq!(ids, vec![3, 0, 1]);
}

#[test]
fn nearest_with_zero_k_or_no_points_is_empty() {
    let tree = ConcurrentOctree::new();
    assert!(tree.nearest_by_distance_bits(&Vec::new(), 5).is_empty());
    let mut tree = ConcurrentOctree::new();
    tree.insert(pt(1.0, 2.0, 3.0, 0));
    let keys = distance_bits(&tree, [0.0, 0.0, 0.0]);
    assert!(tree.nearest_by_distance_bits(&keys, 0).is_empty());
    let one = tree.nearest_by_distance_bits(&keys, 1);
    assert_eq!(one.len(), 1);
    assert_eq!(f32::from_bits(one[0].z), 3.0);
}

#[test]
fn inserts_leave_topology_unchanged() {
    let mut tree = ConcurrentOctree::new();
    tree.insert_batch((0..100).map(|i| pt(i as f32, 0.0, 0.0, 0)).collect());
    let layout = tree.layout_snapshot();
    assert_eq!(layout.len(), 1);
    assert!(!layout.is_internal(0));
}

#[test]
fn snapshot_scan_matches_nearest_and_survives_writes() {
    let mut tree = ConcurrentOctree::new();
    tree.insert_batch(vec![pt(3.0, 0.0, 0.0, 0), pt(1.0, 0.0, 0.0, 1), pt(2.0, 0.0, 0.0, 2)]);
    let snap = tree.snapshot();
    let keys = distance_bits(&tree, [0.0, 0.0, 0.0]);
    tree.insert(pt(0.0, 0.0, 0.0, 3));
    let from_snap = cssism::octree::nearest_in_snapshot(&snap, &keys, 2);
    let ids: Vec<u64> = from_snap.iter().map(|p| p.id).collect();
    assert_eq!(ids, vec![1, 2]);
    assert_eq!(snap.len(), 3);
    assert_eq!(tree.snapshot().len(), 4);
}

#[test]
fn smaller_k_gives_prefix() {
    let mut tree = ConcurrentOctree::new();
    tree.insert_batch((0..20).map(|i| pt(((i * 7) % 11) as f32, 0.0, 0.0, i as u8)).collect());
    let keys = distance_bits(&tree, [4.5, 0.0, 0.0]);
    let all: Vec<u64> = tree.nearest_by_distance_bits(&keys, 20).iter().map(|p| p.id).collect();
    for k in 0..=20 {
        let some: Vec<u64> = tree.nearest_by_distance_bits(&keys, k).iter().map(|p| p.id).collect();
        assert_eq!(some, all[..k].to_vec());
    }
}
