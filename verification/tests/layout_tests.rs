use cssism::octree::{OctreeNode, SuccinctOctreeLayout};

fn one_split_root() -> SuccinctOctreeLayout {
    // Root internal, then its eight leaf children.
    let mut flags = vec![true];
    flags.extend(std::iter::repeat(false).take(8));
    SuccinctOctreeLayout::from_internal_flags(flags)
}

#[test]
fn new_layout_is_empty() {
    let layout = SuccinctOctreeLayout::new();
    assert!(layout.is_empty());
    assert_eq!(layout.len(), 0);
    assert!(!layout.is_internal(0));
    assert_eq!(layout.first_child_index(0), None);
    assert_eq!(layout.rank1(0), 0);
}

#[test]
fn default_layout_is_empty() {
    let layout = SuccinctOctreeLayout::default();
    assert!(layout.is_empty());
}

#[test]
fn from_flags_keeps_length_and_flags() {
    let layout = SuccinctOctreeLayout::from_internal_flags(vec![true, false, true, false]);
    assert_eq!(layout.len(), 4);
    assert!(!layout.is_empty());
    assert!(layout.is_internal(0));
    assert!(!layout.is_internal(1));
    assert!(layout.is_internal(2));
    assert!(!layout.is_internal(3));
    assert!(!layout.is_internal(4));
    assert!(!layout.is_internal(1000));
}

#[test]
fn rank1_counts_internal_nodes_before_index() {
    let layout = SuccinctOctreeLayout::from_internal_flags(vec![true, false, true, true, false, true]);
    assert_eq!(layout.rank1(0), 0);
    assert_eq!(layout.rank1(1), 1);
    assert_eq!(layout.rank1(2), 1);
    assert_eq!(layout.rank1(3), 2);
    assert_eq!(layout.rank1(4), 3);
    assert_eq!(layout.rank1(5), 3);
    assert_eq!(layout.rank1(6), 4);
}

#[test]
fn rank1_over_many_words() {
    let flags: Vec<bool> = (0..200).map(|i| i % 3 == 0).collect();
    let layout = SuccinctOctreeLayout::from_internal_flags(flags);
    assert_eq!(layout.len(), 200);
    assert_eq!(layout.rank1(200), 67);
    assert_eq!(layout.rank1(64), 22);
    assert_eq!(layout.rank1(130), 44);
}

#[test]
fn first_child_of_root_is_one() {
    let layout = one_split_root();
    assert_eq!(layout.len(), 9);
    assert_eq!(layout.first_child_index(0), Some(1));
    for i in 1..9 {
        assert_eq!(layout.first_child_index(i), None);
    }
    assert_eq!(layout.first_child_index(9), None);
}

#[test]
fn first_child_index_formula() {
    // Level order: root internal, children 1..9 of which 2 and 5 are internal.
    let mut flags = vec![false; 25];
    flags[0] = true;
    flags[2] = true;
    flags[5] = true;
    let layout = SuccinctOctreeLayout::from_internal_flags(flags);
    assert_eq!(layout.first_child_index(0), Some(1));
    assert_eq!(layout.first_child_index(2), Some(9));
    assert_eq!(layout.first_child_index(5), Some(17));
    assert_eq!(layout.first_child_index(3), None);
}

#[test]
fn child_blocks_do_not_overlap() {
    let flags: Vec<bool> = (0..81).map(|i| i < 10 && i != 3).collect();
    let layout = SuccinctOctreeLayout::from_internal_flags(flags);
    let starts: Vec<usize> = (0..81).filter_map(|i| layout.first_child_index(i)).collect();
    assert_eq!(starts.len(), 9);
    for w in starts.windows(2) {
        assert!(w[0] + 8 <= w[1]);
    }
}

#[test]
fn complete_layout_children_stay_inside() {
    // 1 + 8 * 2 nodes, two of them internal.
    let mut flags = vec![false; 17];
    flags[0] = true;
    flags[4] = true;
    let layout = SuccinctOctreeLayout::from_internal_flags(flags);
    for i in 0..layout.len() {
        if let Some(c) = layout.first_child_index(i) {
            assert!(c > 0 && c + 8 <= layout.len());
        }
    }
}

#[test]
fn cloned_layout_has_same_bits() {
    let layout = SuccinctOctreeLayout::from_internal_flags(vec![false, true, true]);
    let copy = layout.clone();
    assert_eq!(copy.len(), 3);
    assert!(!copy.is_internal(0));
    assert!(copy.is_internal(1));
    assert!(copy.is_internal(2));
    assert_eq!(copy.rank1(3), 2);
}

#[test]
fn octree_node_leaf_test() {
    let leaf = OctreeNode {
        origin: [0, 0, 0],
        half_size: 1.0f32.to_bits(),
        child_mask: 0,
        first_child: -1,
        point_start: 0,
        point_end: 0,
    };
    assert!(leaf.is_leaf());
    let inner = OctreeNode { first_child: 1, child_mask: 0xff, ..leaf };
    assert!(!inner.is_leaf());
    let zero = OctreeNode { first_child: 0, ..leaf };
    assert!(!zero.is_leaf());
}
