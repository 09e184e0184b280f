//! Succinct octree topology and the octree point index.
//!
//! The octree topology is stored in a succinct bit-vector form, separating
//! structure from payload. Nearest-neighbor queries rank every stored point
//! by its distance to the query; the succinct layout provides a compact
//! representation that can be used for future spatial pruning.
use vstd::prelude::*;
use std::sync::Arc;
use crate::nearest::{is_nearest_selection, nearest_selection, select_nearest, min_nat, lemma_nearest_selection_unique};
use crate::types::{MapPoint, MapPointView, PointId, points_view, clone_points};
use crate::bits::{
    TopologyBits, topology_bits, count_set, bits_new, bits_clone, bits_len, bits_is_empty,
    bits_get, bits_prefix_count_ones, bits_extend,
};

verus! {

/// A single octree node laid out compactly in memory.
/// `origin` and `half_size` hold the bit patterns of `f32` values.
#[derive(Clone, Copy, Debug)]
pub struct OctreeNode {
    /// Minimum corner of this node's axis-aligned cube.
    pub origin: [u32; 3],
    /// Half of the cube edge length.
    pub half_size: u32,
    /// Bitmask of existing children (8 bits, one per octant).
    pub child_mask: u8,
    /// Index of the first child node in the global nodes array, or -1 if leaf.
    pub first_child: i32,
    /// Range of point indices [start, end) in the global point_indices array.
    pub point_start: u32,
    pub point_end: u32,
}

impl OctreeNode {
    pub fn is_leaf(&self) -> (r: bool)
        ensures
            r == (self.first_child < 0),
    {
        self.first_child < 0
    }
}

/// Succinct 8-ary tree topology backed by a bit-vector.
///
/// Nodes are stored in breadth-first (level-order) sequence. For each node i:
/// - bits[i] == true  -> internal node with exactly 8 children
/// - bits[i] == false -> leaf node with no children
///
/// If `rank1(i)` is the number of internal nodes in [0, i), then the first
/// child of node i (assuming it is internal) is at index `1 + 8 * rank1(i)`.
pub struct SuccinctOctreeLayout {
    bits: TopologyBits,
}

impl View for SuccinctOctreeLayout {
    type V = Seq<bool>;

    closed spec fn view(&self) -> Seq<bool> {
        topology_bits(self.bits)
    }
}

/// Number of internal nodes among the first `i` nodes of `flags`.
pub open spec fn rank_spec(flags: Seq<bool>, i: int) -> nat {
    count_set(flags.take(i))
}

/// Index of the first child of node `i`, if it is internal.
pub open spec fn first_child_spec(flags: Seq<bool>, i: int) -> Option<int> {
    if 0 <= i < flags.len() && flags[i] {
        Some(1 + 8 * rank_spec(flags, i) as int)
    } else {
        None
    }
}

/// The number of set entries is at most the length.
pub proof fn lemma_count_set_bounded(s: Seq<bool>)
    ensures
        count_set(s) <= s.len(),
    decreases s.len(),
{
    if s.len() > 0 {
        lemma_count_set_bounded(s.drop_last());
    }
}

/// Moving past one node adds one to the rank exactly when that node is internal.
pub proof fn lemma_rank_step(flags: Seq<bool>, i: int)
    requires
        0 <= i < flags.len(),
    ensures
        rank_spec(flags, i + 1) == rank_spec(flags, i) + if flags[i] { 1nat } else { 0nat },
{
    assert(flags.take(i + 1).drop_last() =~= flags.take(i));
}

/// The rank never decreases along the layout.
pub proof fn lemma_rank_monotonic(flags: Seq<bool>, i: int, j: int)
    requires
        0 <= i <= j <= flags.len(),
    ensures
        rank_spec(flags, i) <= rank_spec(flags, j),
    decreases j - i,
{
    if i < j {
        lemma_rank_step(flags, j - 1);
        lemma_rank_monotonic(flags, i, j - 1);
    }
}

/// The child blocks of two internal nodes do not overlap and come in node
/// order: when `i < j`, the eight children of `i` all precede those of `j`.
pub proof fn lemma_child_blocks_ordered(flags: Seq<bool>, i: int, j: int)
    requires
        0 <= i < j < flags.len(),
        flags[i],
        flags[j],
    ensures
        first_child_spec(flags, i) matches Some(a) && first_child_spec(flags, j) matches Some(b)
            && a + 8 <= b,
{
    lemma_rank_step(flags, i);
    lemma_rank_monotonic(flags, i + 1, j);
}

/// In a layout that holds the root plus eight children for every internal
/// node, the whole child block of every internal node lies inside the layout.
pub proof fn lemma_children_in_layout(flags: Seq<bool>, i: int)
    requires
        0 <= i < flags.len(),
        flags[i],
        flags.len() == 1 + 8 * count_set(flags),
    ensures
        first_child_spec(flags, i) matches Some(a) && 0 < a && a + 8 <= flags.len(),
{
    lemma_rank_step(flags, i);
    lemma_rank_monotonic(flags, i + 1, flags.len() as int);
    assert(flags.take(flags.len() as int) =~= flags);
}

impl Clone for SuccinctOctreeLayout {
    fn clone(&self) -> (r: Self)
        ensures
            r@ == self@,
    {
        proof {
            use_type_invariant(self);
        }
        SuccinctOctreeLayout { bits: bits_clone(&self.bits) }
    }
}

impl Default for SuccinctOctreeLayout {
    fn default() -> (r: Self)
        ensures
            r@ == Seq::<bool>::empty(),
    {
        Self::new()
    }
}

impl SuccinctOctreeLayout {
    /// A bit-vector never holds more than `usize::MAX / 8` bits.
    #[verifier::type_invariant]
    spec fn within_bitvec_limit(self) -> bool {
        topology_bits(self.bits).len() <= usize::MAX / 8
    }

    pub fn new() -> (r: Self)
        ensures
            r@ == Seq::<bool>::empty(),
    {
        SuccinctOctreeLayout { bits: bits_new() }
    }

    /// Build a layout from node flags in level order (internal = true).
    pub fn from_internal_flags(flags: Vec<bool>) -> (r: Self)
        requires
            flags@.len() <= usize::MAX / 8,
        ensures
            r@ == flags@,
    {
        let mut bits = bits_new();
        bits_extend(&mut bits, &flags);
        assert(topology_bits(bits) =~= flags@);
        SuccinctOctreeLayout { bits }
    }

    /// Total number of nodes encoded in the layout.
    pub fn len(&self) -> (r: usize)
        ensures
            r == self@.len(),
            r <= usize::MAX / 8,
    {
        bits_len(&self.bits)
    }

    pub fn is_empty(&self) -> (r: bool)
        ensures
            r == (self@.len() == 0),
    {
        bits_is_empty(&self.bits)
    }

    /// Returns true if the node at index i is internal.
    pub fn is_internal(&self, i: usize) -> (r: bool)
        ensures
            r == (i < self@.len() && self@[i as int]),
    {
        match bits_get(&self.bits, i) {
            Some(b) => b,
            None => false,
        }
    }

    /// Number of internal nodes in [0, i).
    pub fn rank1(&self, i: usize) -> (r: usize)
        requires
            i <= self@.len(),
        ensures
            r == rank_spec(self@, i as int),
    {
        if i == 0 {
            assert(self@.take(0) =~= Seq::<bool>::empty());
            0
        } else {
            bits_prefix_count_ones(&self.bits, i)
        }
    }

    /// Returns the index of the first child of node i if it is internal.
    /// Children occupy indices [first_child, first_child + 8).
    pub fn first_child_index(&self, i: usize) -> (r: Option<usize>)
        ensures
            r matches Some(c) ==> first_child_spec(self@, i as int) == Some(c as int),
            r is None ==> first_child_spec(self@, i as int) is None,
    {
        if !self.is_internal(i) {
            return None;
        }
        let r = self.rank1(i);
        proof {
            // The layout holds at most usize::MAX / 8 nodes, so the index fits.
            use_type_invariant(self);
            lemma_count_set_bounded(self@.take(i as int));
        }
        Some(1 + 8 * r)
    }
}

/// Bit pattern of the `f32` value -50.0.
pub const ROOT_ORIGIN_BITS: u32 = 0xc248_0000;

/// Bit pattern of the `f32` value 50.0.
pub const ROOT_HALF_SIZE_BITS: u32 = 0x4248_0000;

/// The root node that a new octree starts with: a leaf covering the cube of
/// half-size 50 centred at the origin, holding no points.
pub open spec fn root_node_spec() -> OctreeNode {
    OctreeNode {
        origin: [ROOT_ORIGIN_BITS, ROOT_ORIGIN_BITS, ROOT_ORIGIN_BITS],
        half_size: ROOT_HALF_SIZE_BITS,
        child_mask: 0,
        first_child: -1i32,
        point_start: 0,
        point_end: 0,
    }
}

/// `Arc::clone`: another pointer to the same allocation, so the same value.
#[verifier::external_body]
fn arc_clone<T>(a: &Arc<T>) -> (r: Arc<T>)
    ensures
        r == *a,
{
    Arc::clone(a)
}

/// The views of the `k` points of `pts` nearest to a query, nearest first.
pub open spec fn nearest_points_spec(pts: Seq<MapPointView>, keys: Seq<u32>, k: nat) -> Seq<MapPointView> {
    nearest_selection(keys, k).map_values(|i: usize| pts[i as int])
}

/// The nearest points are the stored points at the selected positions, field
/// for field, in the selection's order.
pub proof fn lemma_nearest_points_are_stored_points(pts: Seq<MapPointView>, keys: Seq<u32>, k: nat)
    ensures
        nearest_points_spec(pts, keys, k).len() == nearest_selection(keys, k).len(),
        forall|t: int| 0 <= t < nearest_selection(keys, k).len() ==>
            #[trigger] nearest_points_spec(pts, keys, k)[t] == pts[nearest_selection(keys, k)[t] as int],
{
}

/// The `k` points of a snapshot nearest to a query, nearest first (ties in
/// snapshot order), given `distance_bits[i]`, the bit pattern of the squared
/// distance from `points[i]` to the query.
pub fn nearest_in_snapshot(points: &Vec<MapPoint>, distance_bits: &Vec<u32>, k: usize) -> (r: Vec<MapPoint>)
    requires
        distance_bits@.len() == points@.len(),
    ensures
        points_view(r@) == nearest_points_spec(points_view(points@), distance_bits@, k as nat),
        is_nearest_selection(distance_bits@, k as nat, nearest_selection(distance_bits@, k as nat)),
        r@.len() == min_nat(k as nat, points@.len()),
        forall|t: int| 0 <= t < r@.len() ==>
            #[trigger] r@[t]@ == points@[nearest_selection(distance_bits@, k as nat)[t] as int]@,
{
    let ghost pv = points_view(points@);
    if points.len() == 0 || k == 0 {
        let r: Vec<MapPoint> = Vec::new();
        proof {
            let sel = Seq::<usize>::empty();
            assert(is_nearest_selection(distance_bits@, k as nat, sel));
            lemma_nearest_selection_unique(distance_bits@, k as nat, sel, nearest_selection(distance_bits@, k as nat));
            assert(points_view(r@) =~= nearest_points_spec(pv, distance_bits@, k as nat));
        }
        return r;
    }
    let sel = select_nearest(distance_bits, k);
    let mut out: Vec<MapPoint> = Vec::new();
    let mut j: usize = 0;
    while j < sel.len()
        invariant
            j <= sel@.len(),
            is_nearest_selection(distance_bits@, k as nat, sel@),
            distance_bits@.len() == points@.len(),
            pv == points_view(points@),
            out@.len() == j,
            forall|t: int| 0 <= t < j ==> #[trigger] out@[t]@ == pv[sel@[t] as int],
        decreases sel@.len() - j,
    {
        let idx = sel[j];
        assert(sel@[j as int] < distance_bits@.len());
        out.push(points[idx].clone());
        j = j + 1;
    }
    proof {
        assert(points_view(out@) =~= nearest_points_spec(pv, distance_bits@, k as nat));
    }
    out
}

/// Octree index over 3D points.
///
/// The succinct layout encodes the tree topology, while point storage is kept
/// in a separate contiguous array, of which an immutable snapshot serves the
/// queries. Writes take `&mut self`; sharing between threads is the caller's
/// business (a lock around the whole index).
pub struct ConcurrentOctree {
    next_id: u64,
    /// Live points buffer, used for writes.
    points: Vec<MapPoint>,
    /// Immutable snapshot used by readers.
    points_snapshot: Arc<Vec<MapPoint>>,
    /// Spatial hierarchy in explicit node form.
    nodes: Vec<OctreeNode>,
    /// Succinct bit-vector representation of the node topology.
    layout: SuccinctOctreeLayout,
    /// Maximum number of points in a leaf before considering a split.
    pub max_points_per_leaf: u16,
    /// Maximum depth of the tree.
    pub max_depth: u8,
}

/// `pts` holds the points of `old` followed by those of `batch`, the `i`-th
/// of the batch carrying the id `first + i`.
pub open spec fn appended_with_ids(
    pts: Seq<MapPointView>,
    old: Seq<MapPointView>,
    batch: Seq<MapPointView>,
    first: int,
) -> bool {
    &&& pts.len() == old.len() + batch.len()
    &&& forall|i: int| 0 <= i < old.len() ==> #[trigger] pts[i] == old[i]
    &&& forall|i: int|
        0 <= i < batch.len() ==> #[trigger] pts[old.len() + i] == batch[i].with_id((first + i) as u64)
}

/// The points of a store holding `pts` after the points of `batch` are
/// inserted one at a time, each receiving the next id (the store's length).
pub open spec fn inserted_one_by_one(pts: Seq<MapPointView>, batch: Seq<MapPointView>) -> Seq<MapPointView>
    decreases batch.len(),
{
    if batch.len() == 0 {
        pts
    } else {
        inserted_one_by_one(pts, batch.drop_last()).push(
            batch.last().with_id((pts.len() + batch.len() - 1) as u64),
        )
    }
}

/// Inserting one at a time appends the batch with consecutive ids.
pub proof fn lemma_one_by_one_appends(pts: Seq<MapPointView>, batch: Seq<MapPointView>)
    ensures
        appended_with_ids(inserted_one_by_one(pts, batch), pts, batch, pts.len() as int),
    decreases batch.len(),
{
    if batch.len() > 0 {
        lemma_one_by_one_appends(pts, batch.drop_last());
    }
}

/// A batch insert leaves the same points, with the same ids, as inserting the
/// points of the batch one at a time: `insert_batch` returns the id the first
/// `insert` would return, and the stores agree afterwards.
pub proof fn lemma_batch_is_one_by_one(new: Seq<MapPointView>, old: Seq<MapPointView>, batch: Seq<MapPointView>)
    requires
        appended_with_ids(new, old, batch, old.len() as int),
    ensures
        new == inserted_one_by_one(old, batch),
{
    let one = inserted_one_by_one(old, batch);
    lemma_one_by_one_appends(old, batch);
    assert forall|i: int| 0 <= i < new.len() implies new[i] == one[i] by {
        if i >= old.len() {
            assert(new[old.len() + (i - old.len())] == one[old.len() + (i - old.len())]);
        }
    }
    assert(new =~= one);
}

/// A single insert leaves the same points as a batch of one.
pub proof fn lemma_insert_is_batch_of_one(old: Seq<MapPointView>, p: MapPointView)
    ensures
        old.push(p.with_id(old.len() as u64)) == inserted_one_by_one(old, seq![p]),
{
    let b = seq![p];
    assert(b.drop_last() =~= Seq::<MapPointView>::empty());
    assert(inserted_one_by_one(old, b.drop_last()) == old);
    assert(b.last() == p);
    assert(b.len() == 1);
}

/// The points of a new store after the given batches are inserted in turn (a
/// single insert being a batch of one).
pub open spec fn after_batches(batches: Seq<Seq<MapPointView>>) -> Seq<MapPointView>
    decreases batches.len(),
{
    if batches.len() == 0 {
        Seq::empty()
    } else {
        inserted_one_by_one(after_batches(batches.drop_last()), batches.last())
    }
}

/// How many points the batches hold together.
pub open spec fn inserted_total(batches: Seq<Seq<MapPointView>>) -> nat
    decreases batches.len(),
{
    if batches.len() == 0 {
        0
    } else {
        inserted_total(batches.drop_last()) + batches.last().len()
    }
}

/// A store that started empty holds as many points as were inserted in
/// all, and each carries its position as id.
pub proof fn lemma_after_batches_counts(batches: Seq<Seq<MapPointView>>)
    requires
        inserted_total(batches) <= u64::MAX,
    ensures
        after_batches(batches).len() == inserted_total(batches),
        forall|i: int| 0 <= i < after_batches(batches).len() ==> #[trigger] after_batches(batches)[i].id == i,
    decreases batches.len(),
{
    if batches.len() > 0 {
        let prev = after_batches(batches.drop_last());
        let b = batches.last();
        lemma_after_batches_counts(batches.drop_last());
        lemma_one_by_one_appends(prev, b);
        let now = after_batches(batches);
        assert forall|i: int| 0 <= i < now.len() implies #[trigger] now[i].id == i by {
            if i >= prev.len() {
                assert(now[prev.len() + (i - prev.len())] == b[i - prev.len()].with_id(i as u64));
            } else {
                assert(now[i] == prev[i]);
            }
        }
    }
}

impl ConcurrentOctree {
    /// The stored points, in insertion order.
    pub closed spec fn points_spec(&self) -> Seq<MapPointView> {
        points_view(self.points@)
    }

    /// The topology layout.
    pub closed spec fn layout_spec(&self) -> Seq<bool> {
        self.layout@
    }

    /// The explicit nodes.
    pub closed spec fn nodes_spec(&self) -> Seq<OctreeNode> {
        self.nodes@
    }

    /// The value of the public field `max_points_per_leaf`.
    pub closed spec fn max_points_per_leaf_spec(&self) -> u16 {
        self.max_points_per_leaf
    }

    /// The value of the public field `max_depth`.
    pub closed spec fn max_depth_spec(&self) -> u8 {
        self.max_depth
    }

    /// The id that the next inserted point receives.
    pub closed spec fn next_id_spec(&self) -> u64 {
        self.next_id
    }

    /// The index's invariant: ids count up from 0 in insertion order, the
    /// snapshot shows the live buffer, and the topology is the single root.
    pub closed spec fn wf(&self) -> bool {
        &&& self.next_id == self.points@.len()
        &&& forall|i: int| 0 <= i < self.points@.len() ==> #[trigger] self.points@[i].id == i
        &&& points_view((*self.points_snapshot)@) == points_view(self.points@)
        &&& self.nodes@ == seq![root_node_spec()]
        &&& self.layout@ == seq![false]
    }

    /// Every stored point carries its position as id.
    pub proof fn lemma_ids_are_positions(&self)
        requires
            self.wf(),
        ensures
            forall|i: int| 0 <= i < self.points_spec().len() ==> #[trigger] self.points_spec()[i].id == i,
            self.next_id_spec() == self.points_spec().len(),
    {
    }

    /// No operation changes the topology: every valid octree has the single
    /// leaf root as layout and as explicit nodes.
    pub proof fn lemma_topology_fixed(&self)
        requires
            self.wf(),
        ensures
            self.layout_spec() == seq![false],
            self.nodes_spec() == seq![root_node_spec()],
    {
    }

    /// Create a new octree covering a fixed cube around the origin.
    pub fn new() -> (r: Self)
        ensures
            r.wf(),
            r.points_spec() == Seq::<MapPointView>::empty(),
            r.layout_spec() == seq![false],
            r.nodes_spec() == seq![root_node_spec()],
            r.next_id_spec() == 0,
            r.max_points_per_leaf_spec() == 64,
            r.max_depth_spec() == 12,
    {
        // Root covers a cube of half-size 50 centered at the origin.
        let root = OctreeNode {
            origin: [ROOT_ORIGIN_BITS, ROOT_ORIGIN_BITS, ROOT_ORIGIN_BITS],
            half_size: ROOT_HALF_SIZE_BITS,
            child_mask: 0,
            first_child: -1,
            point_start: 0,
            point_end: 0,
        };
        // At creation time, only the root exists and is a leaf.
        let mut flags: Vec<bool> = Vec::new();
        flags.push(false);
        let layout = SuccinctOctreeLayout::from_internal_flags(flags);
        assert(layout@ =~= seq![false]);
        let mut nodes = Vec::new();
        nodes.push(root);
        let r = ConcurrentOctree {
            next_id: 0,
            points: Vec::new(),
            points_snapshot: Arc::new(Vec::new()),
            nodes,
            layout,
            max_points_per_leaf: 64,
            max_depth: 12,
        };
        assert(r.nodes@ =~= seq![root_node_spec()]);
        assert(points_view(r.points@) =~= Seq::<MapPointView>::empty());
        assert(points_view((*r.points_snapshot)@) =~= Seq::<MapPointView>::empty());
        r
    }

    /// Insert a single point and return its assigned id.
    /// Ids are `u64`; the store never holds `u64::MAX` points (no memory
    /// holds that many), which the `requires` states.
    pub fn insert(&mut self, point: MapPoint) -> (id: PointId)
        requires
            old(self).wf(),
            old(self).points_spec().len() < u64::MAX,
        ensures
            final(self).wf(),
            id == old(self).next_id_spec(),
            id == old(self).points_spec().len(),
            final(self).points_spec() == old(self).points_spec().push(point@.with_id(id)),
            final(self).points_spec()[id as int].x == point.x,
            final(self).points_spec()[id as int].y == point.y,
            final(self).points_spec()[id as int].z == point.z,
            final(self).points_spec()[id as int].descriptor == point.descriptor@,
            final(self).points_spec()[id as int].id == id,
            final(self).next_id_spec() == id + 1,
            final(self).layout_spec() == old(self).layout_spec(),
            final(self).nodes_spec() == old(self).nodes_spec(),
            final(self).max_points_per_leaf_spec() == old(self).max_points_per_leaf_spec(),
            final(self).max_depth_spec() == old(self).max_depth_spec(),
    {
        let mut point = point;
        let id = self.next_id;
        self.next_id = self.next_id + 1;
        point.id = id;
        let ghost p = point@;
        self.points.push(point);
        // Rebuild snapshot so new readers see an up-to-date immutable view.
        self.points_snapshot = Arc::new(clone_points(&self.points));
        proof {
            assert(points_view(self.points@) =~= points_view(old(self).points@).push(p));
        }
        id
    }

    /// Insert a batch of points; returns (count, first_assigned_id), and
    /// (0, 0) for an empty batch.
    pub fn insert_batch(&mut self, batch: Vec<MapPoint>) -> (r: (usize, PointId))
        requires
            old(self).wf(),
            old(self).points_spec().len() + batch@.len() <= u64::MAX,
        ensures
            final(self).wf(),
            batch@.len() == 0 ==> r == (0usize, 0u64) && final(self).points_spec() == old(self).points_spec(),
            batch@.len() > 0 ==> r == (batch@.len() as usize, old(self).next_id_spec()),
            appended_with_ids(final(self).points_spec(), old(self).points_spec(), points_view(batch@),
                old(self).next_id_spec() as int),
            final(self).next_id_spec() == old(self).next_id_spec() + batch@.len(),
            final(self).layout_spec() == old(self).layout_spec(),
            final(self).nodes_spec() == old(self).nodes_spec(),
            final(self).max_points_per_leaf_spec() == old(self).max_points_per_leaf_spec(),
            final(self).max_depth_spec() == old(self).max_depth_spec(),
    {
        if batch.len() == 0 {
            return (0, 0);
        }
        let n = batch.len();
        let start_id = self.next_id;
        self.next_id = self.next_id + n as u64;
        let ghost b = batch@;
        let mut i: usize = 0;
        proof {
            broadcast use vstd::std_specs::vec::axiom_spec_into_iter;
        }
        for p in it: batch.into_iter()
            invariant
                n == b.len(),
                it.seq() == b,
                i == it.index(),
                i <= n,
                start_id == old(self).points@.len(),
                start_id + n <= u64::MAX,
                self.next_id == start_id + n,
                self.points@.len() == start_id + i,
                forall|j: int| 0 <= j < self.points@.len() ==> #[trigger] self.points@[j].id == j,
                forall|j: int| 0 <= j < old(self).points@.len() ==> #[trigger] self.points@[j]@ == old(self).points@[j]@,
                forall|j: int| 0 <= j < i ==> #[trigger] self.points@[start_id + j]@ == b[j]@.with_id((start_id + j) as u64),
                self.points_snapshot == old(self).points_snapshot,
                self.nodes == old(self).nodes,
                self.layout == old(self).layout,
                self.max_points_per_leaf == old(self).max_points_per_leaf,
                self.max_depth == old(self).max_depth,
        {
            let mut p = p;
            let id = start_id + i as u64;
            p.id = id;
            self.points.push(p);
            i = i + 1;
        }
        // Single snapshot rebuild amortized over the whole batch.
        self.points_snapshot = Arc::new(clone_points(&self.points));
        (n, start_id)
    }

    /// Returns the succinct topology layout (read-only snapshot).
    pub fn layout_snapshot(&self) -> (r: SuccinctOctreeLayout)
        ensures
            r@ == self.layout_spec(),
    {
        self.layout.clone()
    }

    /// Another handle on the current immutable snapshot of the stored
    /// points: a reader can drop its lock on the index and scan this while
    /// writes continue.
    pub fn snapshot(&self) -> (r: Arc<Vec<MapPoint>>)
        requires
            self.wf(),
        ensures
            points_view((*r)@) == self.points_spec(),
    {
        arc_clone(&self.points_snapshot)
    }

    /// The `k` points nearest to a query, nearest first (ties in insertion
    /// order), given `distance_bits[i]`, the bit pattern of the squared
    /// distance from the `i`-th snapshot point to the query.
    pub fn nearest_by_distance_bits(&self, distance_bits: &Vec<u32>, k: usize) -> (r: Vec<MapPoint>)
        requires
            self.wf(),
            distance_bits@.len() == self.points_spec().len(),
        ensures
            points_view(r@) == nearest_points_spec(self.points_spec(), distance_bits@, k as nat),
            is_nearest_selection(distance_bits@, k as nat, nearest_selection(distance_bits@, k as nat)),
            r@.len() == min_nat(k as nat, self.points_spec().len()),
            forall|t: int| 0 <= t < r@.len() ==>
                #[trigger] r@[t]@ == self.points_spec()[nearest_selection(distance_bits@, k as nat)[t] as int],
    {
        nearest_in_snapshot(&*self.points_snapshot, distance_bits, k)
    }

    /// Total number of points in the index.
    pub fn len(&self) -> (r: usize)
        ensures
            r == self.points_spec().len(),
    {
        self.points.len()
    }

    pub fn is_empty(&self) -> (r: bool)
        ensures
            r == (self.points_spec().len() == 0),
    {
        self.len() == 0
    }
}

impl Default for ConcurrentOctree {
    fn default() -> (r: Self)
        ensures
            r.wf(),
            r.points_spec() == Seq::<MapPointView>::empty(),
            r.layout_spec() == seq![false],
            r.nodes_spec() == seq![root_node_spec()],
            r.next_id_spec() == 0,
            r.max_points_per_leaf_spec() == 64,
            r.max_depth_spec() == 12,
    {
        Self::new()
    }
}

} // verus!
