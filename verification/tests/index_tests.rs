use cssism::index::{neighbors_requested, ConcurrentMapIndex};
use cssism::types::MapPoint;

fn pt(v: u32, tag: u8) -> MapPoint {
    MapPoint::new(v, v, v, vec![tag], 42)
}

#[test]
fn new_index_is_empty() {
    let index = ConcurrentMapIndex::new();
    assert!(index.is_empty());
    assert_eq!(index.len(), 0);
    assert!(ConcurrentMapIndex::default().is_empty());
}

#[test]
fn index_insert_returns_consecutive_ids() {
    let mut index = ConcurrentMapIndex::new();
    assert_eq!(index.insert(pt(1, 1)), 0);
    assert_eq!(index.insert(pt(2, 2)), 1);
    assert_eq!(index.len(), 2);
}

#[test]
fn index_insert_batch() {
    let mut index = ConcurrentMapIndex::new();
    assert_eq!(index.insert_batch(vec![]), (0, 0));
    index.insert(pt(1, 1));
    assert_eq!(index.insert_batch(vec![pt(2, 2), pt(3, 3)]), (2, 1));
    assert_eq!(index.len(), 3);
    let got = index.nearest_from_items(&vec![2, 1, 0]);
    let ids: Vec<u64> = got.iter().map(|p| p.id).collect();
    assert_eq!(ids, vec![2, 1, 0]);
    assert_eq!(got[0].descriptor, vec![3]);
    assert_eq!(got[0].x, 3);
}

#[test]
fn nearest_from_items_skips_unknown_items() {
    let mut index = ConcurrentMapIndex::new();
    index.insert(pt(10, 0));
    index.insert(pt(20, 1));
    let got = index.nearest_from_items(&vec![5, 1, u64::MAX, 1, 0]);
    let xs: Vec<u32> = got.iter().map(|p| p.x).collect();
    assert_eq!(xs, vec![20, 20, 10]);
    assert!(index.nearest_from_items(&vec![]).is_empty());
}

#[test]
fn batch_insert_equals_one_by_one() {
    let mut a = ConcurrentMapIndex::new();
    let mut b = ConcurrentMapIndex::new();
    a.insert(pt(9, 9));
    b.insert(pt(9, 9));
    let batch = vec![pt(1, 1), pt(2, 2), pt(3, 3)];
    let (n, first) = a.insert_batch(batch.clone());
    let ids: Vec<u64> = batch.into_iter().map(|p| b.insert(p)).collect();
    assert_eq!((n, first), (3, ids[0]));
    assert_eq!(ids, vec![1, 2, 3]);
    assert_eq!(a.len(), b.len());
    let items = vec![0, 1, 2, 3];
    let pa = a.nearest_from_items(&items);
    let pb = b.nearest_from_items(&items);
    for (p, q) in pa.iter().zip(pb.iter()) {
        assert_eq!((p.x, p.id, &p.descriptor), (q.x, q.id, &q.descriptor));
    }
}

#[test]
fn len_counts_all_inserted_points() {
    let mut index = ConcurrentMapIndex::new();
    index.insert(pt(1, 1));
    index.insert_batch(vec![pt(2, 2), pt(3, 3)]);
    index.insert_batch(vec![]);
    index.insert(pt(4, 4));
    assert_eq!(index.len(), 4);
    assert!(!index.is_empty());
}

#[test]
fn requests_ask_for_at_least_one_neighbor() {
    assert_eq!(neighbors_requested(0), 1);
    assert_eq!(neighbors_requested(1), 1);
    assert_eq!(neighbors_requested(7), 7);
    assert_eq!(neighbors_requested(u32::MAX), u32::MAX as usize);
}
