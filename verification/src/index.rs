//! Point store of the k-d tree index: id assignment, storage, and turning
//! the items that a nearest-neighbor query of the tree returns into points.
//!
//! The k-d tree itself is keyed by `f32` positions; it maps each stored
//! position to the position (in insertion order) of its point here.
use vstd::prelude::*;
use crate::types::{MapPoint, MapPointView, PointId, points_view};
use crate::octree::appended_with_ids;

verus! {

/// Spatial index store: the points in insertion order, the `i`-th being the
/// tree item `i`. Writes take `&mut self`; sharing between threads is the
/// caller's business (a lock around the whole index).
pub struct ConcurrentMapIndex {
    next_id: u64,
    points: Vec<MapPoint>,
}

/// The points named by tree items `items`, in order, leaving out items that
/// name no stored point.
pub open spec fn neighbors_spec(pts: Seq<MapPointView>, items: Seq<u64>) -> Seq<MapPointView>
    decreases items.len(),
{
    if items.len() == 0 {
        Seq::empty()
    } else {
        let rest = neighbors_spec(pts, items.drop_last());
        let i = items.last();
        if i < pts.len() {
            rest.push(pts[i as int])
        } else {
            rest
        }
    }
}

/// When every item names a stored point, the result holds exactly those
/// points, field for field, in the order of the items.
pub proof fn lemma_neighbors_in_range(pts: Seq<MapPointView>, items: Seq<u64>)
    requires
        forall|t: int| 0 <= t < items.len() ==> #[trigger] items[t] < pts.len(),
    ensures
        neighbors_spec(pts, items).len() == items.len(),
        forall|t: int| 0 <= t < items.len() ==> #[trigger] neighbors_spec(pts, items)[t] == pts[items[t] as int],
    decreases items.len(),
{
    if items.len() > 0 {
        let init = items.drop_last();
        assert forall|t: int| 0 <= t < init.len() implies #[trigger] init[t] < pts.len() by {
            assert(init[t] == items[t]);
        }
        lemma_neighbors_in_range(pts, init);
        assert(items.last() < pts.len());
    }
}

/// An item that names no stored point adds nothing; one that does adds that
/// point after the points of the earlier items.
pub proof fn lemma_neighbors_step(pts: Seq<MapPointView>, items: Seq<u64>, i: u64)
    ensures
        i >= pts.len() ==> neighbors_spec(pts, items.push(i)) == neighbors_spec(pts, items),
        i < pts.len() ==> neighbors_spec(pts, items.push(i)) == neighbors_spec(pts, items).push(pts[i as int]),
{
    assert(items.push(i).drop_last() =~= items);
}

/// How many neighbors a nearest-neighbor request for `k` asks of the index:
/// `k`, but at least one.
pub fn neighbors_requested(k: u32) -> (r: usize)
    ensures
        r == if k == 0 { 1 } else { k as int },
{
    let k = k as usize;
    if k < 1 { 1 } else { k }
}

impl ConcurrentMapIndex {
    /// The stored points, in insertion order.
    pub closed spec fn points_spec(&self) -> Seq<MapPointView> {
        points_view(self.points@)
    }

    /// The id that the next inserted point receives.
    pub closed spec fn next_id_spec(&self) -> u64 {
        self.next_id
    }

    /// The store's invariant: ids count up from 0 in insertion order.
    pub closed spec fn wf(&self) -> bool {
        &&& self.next_id == self.points@.len()
        &&& forall|i: int| 0 <= i < self.points@.len() ==> #[trigger] self.points@[i].id == i
    }

    #[verifier::type_invariant]
    spec fn type_inv(self) -> bool {
        self.wf()
    }

    /// Moves the fields out, leaving an empty store in `self`.
    fn take_parts(&mut self) -> (r: (u64, Vec<MapPoint>))
        ensures
            r.0 == old(self).next_id,
            r.1 == old(self).points,
            old(self).wf(),
            final(self).wf(),
            final(self).points_spec() == Seq::<MapPointView>::empty(),
    {
        proof {
            use_type_invariant(&*self);
        }
        let mut taken = ConcurrentMapIndex::new();
        std::mem::swap(self, &mut taken);
        let ConcurrentMapIndex { next_id, points } = taken;
        (next_id, points)
    }

    /// Every stored point carries its position (its tree item) as id.
    pub proof fn lemma_ids_are_positions(&self)
        requires
            self.wf(),
        ensures
            forall|i: int| 0 <= i < self.points_spec().len() ==> #[trigger] self.points_spec()[i].id == i,
            self.next_id_spec() == self.points_spec().len(),
    {
    }

    pub fn new() -> (r: Self)
        ensures
            r.wf(),
            r.points_spec() == Seq::<MapPointView>::empty(),
            r.next_id_spec() == 0,
    {
        let r = ConcurrentMapIndex { next_id: 0, points: Vec::new() };
        assert(points_view(r.points@) =~= Seq::<MapPointView>::empty());
        r
    }

    /// Insert a single point; returns assigned id, which is also the tree
    /// item under which its position is to be added.
    /// Ids are `u64`; the store never holds `u64::MAX` points (no memory
    /// holds that many), which the `requires` states.
    pub fn insert(&mut self, point: MapPoint) -> (id: PointId)
        requires
            old(self).points_spec().len() < u64::MAX,
        ensures
            final(self).wf(),
            id == old(self).next_id_spec(),
            id == old(self).points_spec().len(),
            final(self).points_spec() == old(self).points_spec().push(point@.with_id(id)),
            final(self).points_spec()[id as int].x == point.x,
            final(self).points_spec()[id as int].y == point.y,
            final(self).points_spec()[id as int].z == point.z,
            final(self).points_spec()[id as int].descriptor == point.descriptor@,
            final(self).points_spec()[id as int].id == id,
            final(self).next_id_spec() == id + 1,
    {
        let (next_id, mut points) = self.take_parts();
        let mut point = point;
        let id = next_id;
        point.id = id;
        let ghost p = point@;
        points.push(point);
        *self = ConcurrentMapIndex { next_id: id + 1, points };
        proof {
            assert(points_view(self.points@) =~= points_view(old(self).points@).push(p));
        }
        id
    }

    /// Insert multiple points; returns number inserted and first assigned id,
    /// and (0, 0) for an empty batch. The `i`-th point of the batch is the
    /// tree item `first + i`.
    pub fn insert_batch(&mut self, batch: Vec<MapPoint>) -> (r: (usize, PointId))
        requires
            old(self).points_spec().len() + batch@.len() <= u64::MAX,
        ensures
            final(self).wf(),
            batch@.len() == 0 ==> r == (0usize, 0u64) && final(self).points_spec() == old(self).points_spec(),
            batch@.len() > 0 ==> r == (batch@.len() as usize, old(self).next_id_spec()),
            appended_with_ids(final(self).points_spec(), old(self).points_spec(), points_view(batch@),
                old(self).next_id_spec() as int),
            final(self).next_id_spec() == old(self).next_id_spec() + batch@.len(),
    {
        proof {
            use_type_invariant(&*self);
        }
        if batch.len() == 0 {
            return (0, 0);
        }
        let n = batch.len();
        let (start_id, mut points) = self.take_parts();
        let ghost b = batch@;
        let mut i: usize = 0;
        proof {
            broadcast use vstd::std_specs::vec::axiom_spec_into_iter;
        }
        for p in it: batch.into_iter()
            invariant
                n == b.len(),
                it.seq() == b,
                i == it.index(),
                i <= n,
                start_id == old(self).points@.len(),
                start_id + n <= u64::MAX,
                points@.len() == start_id + i,
                forall|j: int| 0 <= j < points@.len() ==> #[trigger] points@[j].id == j,
                forall|j: int| 0 <= j < old(self).points@.len() ==> #[trigger] points@[j]@ == old(self).points@[j]@,
                forall|j: int| 0 <= j < i ==> #[trigger] points@[start_id + j]@ == b[j]@.with_id((start_id + j) as u64),
        {
            let mut p = p;
            let id = start_id + i as u64;
            p.id = id;
            points.push(p);
            i = i + 1;
        }
        *self = ConcurrentMapIndex { next_id: start_id + n as u64, points };
        (n, start_id)
    }

    /// The stored points named by the tree items of a nearest-neighbor query,
    /// in the order of the items; an item that names no stored point is
    /// skipped.
    pub fn nearest_from_items(&self, items: &Vec<u64>) -> (r: Vec<MapPoint>)
        ensures
            points_view(r@) == neighbors_spec(self.points_spec(), items@),
            (forall|t: int| 0 <= t < items@.len() ==> #[trigger] items@[t] < self.points_spec().len()) ==> {
                &&& r@.len() == items@.len()
                &&& forall|t: int| 0 <= t < items@.len() ==> #[trigger] r@[t]@ == self.points_spec()[items@[t] as int]
            },
    {
        let mut out: Vec<MapPoint> = Vec::new();
        let mut j: usize = 0;
        while j < items.len()
            invariant
                j <= items@.len(),
                points_view(out@) == neighbors_spec(points_view(self.points@), items@.take(j as int)),
            decreases items@.len() - j,
        {
            let item = items[j];
            assert(items@.take(j + 1).drop_last() =~= items@.take(j as int));
            if item < self.points.len() as u64 {
                let ghost before = out@;
                out.push(self.points[item as usize].clone());
                assert(points_view(out@) =~= points_view(before).push(self.points@[item as int]@));
            }
            j = j + 1;
        }
        assert(items@.take(items@.len() as int) =~= items@);
        proof {
            if forall|t: int| 0 <= t < items@.len() ==> #[trigger] items@[t] < self.points_spec().len() {
                lemma_neighbors_in_range(self.points_spec(), items@);
                assert forall|t: int| 0 <= t < items@.len() implies #[trigger] out@[t]@ == self.points_spec()[items@[t] as int] by {
                    assert(points_view(out@)[t] == out@[t]@);
                }
            }
        }
        out
    }

    /// Total number of points.
    pub fn len(&self) -> (r: usize)
        ensures
            r == self.points_spec().len(),
    {
        self.points.len()
    }

    pub fn is_empty(&self) -> (r: bool)
        ensures
            r == (self.points_spec().len() == 0),
    {
        self.len() == 0
    }
}

impl Default for ConcurrentMapIndex {
    fn default() -> (r: Self)
        ensures
            r.wf(),
            r.points_spec() == Seq::<MapPointView>::empty(),
            r.next_id_spec() == 0,
    {
        Self::new()
    }
}

} // verus!
