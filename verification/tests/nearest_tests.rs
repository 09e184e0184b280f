use cssism::nearest::select_nearest;
use cssism::types::MapPoint;

#[test]
fn select_orders_by_key_then_position() {
    let keys = vec![30, 10, 20, 10, 0];
    assert_eq!(select_nearest(&keys, 3), vec![4, 1, 3]);
    assert_eq!(select_nearest(&keys, 5), vec![4, 1, 3, 2, 0]);
    assert_eq!(select_nearest(&keys, 9), vec![4, 1, 3, 2, 0]);
    assert_eq!(select_nearest(&keys, 0), Vec::<usize>::new());
    assert_eq!(select_nearest(&vec![], 3), Vec::<usize>::new());
}

#[test]
fn select_matches_stable_sort() {
    let keys: Vec<u32> = (0..50u32).map(|i| (i * 7919) % 13).collect();
    let mut order: Vec<usize> = (0..keys.len()).collect();
    order.sort_by_key(|&i| keys[i]);
    for k in [1, 5, 13, 50] {
        assert_eq!(select_nearest(&keys, k), order[..k].to_vec());
    }
}

#[test]
fn float_bit_order_matches_value_order() {
    let vals = [0.0f32, 1e-30, 0.5, 1.0, 2.0, 1e30, f32::INFINITY];
    let keys: Vec<u32> = vals.iter().rev().map(|v| v.to_bits()).collect();
    assert_eq!(select_nearest(&keys, 3), vec![6, 5, 4]);
}

#[test]
fn point_new_position_and_clone() {
    let p = MapPoint::new(1, 2, 3, vec![9, 8], 7);
    assert_eq!(p.position(), [1, 2, 3]);
    let q = p.clone();
    assert_eq!((q.x, q.y, q.z, q.id), (1, 2, 3, 7));
    assert_eq!(q.descriptor, vec![9, 8]);
}
