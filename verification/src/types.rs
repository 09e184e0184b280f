//! Core types for map points and descriptors.
//!
//! Coordinates are carried as the IEEE-754 bit patterns of the `f32` values
//! (`f32::to_bits`), so that the library stores and moves them exactly while
//! the floating-point arithmetic on them stays with the caller.
use vstd::prelude::*;

verus! {

/// Unique id for a map point.
pub type PointId = u64;

/// A 3D map point with a compact descriptor for loop closure.
/// `x`, `y` and `z` hold the bit patterns of `f32` coordinates.
#[derive(Debug)]
pub struct MapPoint {
    pub x: u32,
    pub y: u32,
    pub z: u32,
    /// Compact descriptor; typical length 32--256 bytes.
    pub descriptor: Vec<u8>,
    pub id: PointId,
}

/// The mathematical value of a `MapPoint`.
pub struct MapPointView {
    pub x: u32,
    pub y: u32,
    pub z: u32,
    pub descriptor: Seq<u8>,
    pub id: PointId,
}

impl View for MapPoint {
    type V = MapPointView;

    open spec fn view(&self) -> MapPointView {
        MapPointView {
            x: self.x,
            y: self.y,
            z: self.z,
            descriptor: self.descriptor@,
            id: self.id,
        }
    }
}

impl MapPointView {
    /// The same point carrying the id `id`.
    pub open spec fn with_id(self, id: PointId) -> MapPointView {
        MapPointView { id: id, ..self }
    }
}

/// Giving a point an id changes the id and nothing else: coordinates and
/// descriptor stay the caller's.
pub proof fn lemma_with_id_keeps_point(p: MapPointView, id: PointId)
    ensures
        p.with_id(id).id == id,
        p.with_id(id).x == p.x,
        p.with_id(id).y == p.y,
        p.with_id(id).z == p.z,
        p.with_id(id).descriptor == p.descriptor,
{
}

/// The view of a point shows its fields as they are.
pub proof fn lemma_view_shows_fields(p: MapPoint)
    ensures
        p@.x == p.x,
        p@.y == p.y,
        p@.z == p.z,
        p@.descriptor == p.descriptor@,
        p@.id == p.id,
{
}

/// The views of a sequence of points.
pub open spec fn points_view(s: Seq<MapPoint>) -> Seq<MapPointView> {
    s.map_values(|p: MapPoint| p@)
}

/// The views of a sequence of points are the points' views, one for one.
pub proof fn lemma_points_view_one_for_one(s: Seq<MapPoint>)
    ensures
        points_view(s).len() == s.len(),
        forall|i: int| 0 <= i < s.len() ==> #[trigger] points_view(s)[i] == s[i]@,
{
}

impl Clone for MapPoint {
    fn clone(&self) -> (r: Self)
        ensures
            r@ == self@,
    {
        let descriptor = self.descriptor.clone();
        assert(descriptor@ =~= self.descriptor@);
        MapPoint { x: self.x, y: self.y, z: self.z, descriptor, id: self.id }
    }
}

impl MapPoint {
    pub fn new(x: u32, y: u32, z: u32, descriptor: Vec<u8>, id: PointId) -> (r: Self)
        ensures
            r@ == (MapPointView { x: x, y: y, z: z, descriptor: descriptor@, id: id }),
    {
        MapPoint { x, y, z, descriptor, id }
    }

    /// Position as a 3-element array (bit patterns of `x`, `y`, `z`).
    pub fn position(&self) -> (r: [u32; 3])
        ensures
            r@ == seq![self.x, self.y, self.z],
    {
        let r = [self.x, self.y, self.z];
        assert(r@ =~= seq![self.x, self.y, self.z]);
        r
    }
}

/// A copy of every point of `v`, in order.
pub(crate) fn clone_points(v: &Vec<MapPoint>) -> (r: Vec<MapPoint>)
    ensures
        points_view(r@) == points_view(v@),
{
    let r = v.clone();
    assert(points_view(r@) =~= points_view(v@)) by {
        assert forall|i: int| 0 <= i < v@.len() implies r@[i]@ == v@[i]@ by {
            assert(cloned::<MapPoint>(v[i], r[i]));
        }
    }
    r
}

} // verus!
