//! The outside bit-vector that stores the octree topology, and the
//! operations on it that the layout uses.
use vstd::prelude::*;
use bitvec::order::Lsb0;
use bitvec::vec::BitVec;

verus! {

/// A `bitvec` bit-vector of `u64` words in least-significant-bit-first order.
/// Verus cannot read the outside type's declaration, so the vector is held
/// here and is seen only through `topology_bits` and the functions below.
#[verifier::external_body]
pub struct TopologyBits {
    inner: BitVec<u64, Lsb0>,
}

/// The bits held by a bit-vector, in index order.
pub uninterp spec fn topology_bits(b: TopologyBits) -> Seq<bool>;

/// `BitVec::new`: an empty bit-vector.
#[verifier::external_body]
pub(crate) fn bits_new() -> (r: TopologyBits)
    ensures
        topology_bits(r) == Seq::<bool>::empty(),
{
    TopologyBits { inner: BitVec::<u64, Lsb0>::new() }
}

/// `BitVec::clone`: a bit-vector holding the same bits.
#[verifier::external_body]
pub(crate) fn bits_clone(b: &TopologyBits) -> (r: TopologyBits)
    ensures
        topology_bits(r) == topology_bits(*b),
{
    TopologyBits { inner: b.inner.clone() }
}

/// `BitVec::len`: the number of bits. A bit-vector never holds more than
/// `BitSlice::MAX_BITS` (`usize::MAX >> 3`) bits.
#[verifier::external_body]
pub(crate) fn bits_len(b: &TopologyBits) -> (r: usize)
    ensures
        r == topology_bits(*b).len(),
        r <= usize::MAX / 8,
{
    b.inner.len()
}

/// `BitVec::is_empty`: whether no bit is held.
#[verifier::external_body]
pub(crate) fn bits_is_empty(b: &TopologyBits) -> (r: bool)
    ensures
        r == (topology_bits(*b).len() == 0),
{
    b.inner.is_empty()
}

/// `BitSlice::get` with a single index: the bit at `i`, or `None` past the end.
#[verifier::external_body]
pub(crate) fn bits_get(b: &TopologyBits, i: usize) -> (r: Option<bool>)
    ensures
        i < topology_bits(*b).len() ==> r == Some(topology_bits(*b)[i as int]),
        i >= topology_bits(*b).len() ==> r.is_none(),
{
    b.inner.get(i).map(|bit| *bit)
}

/// `BitSlice::count_ones` on the prefix `[.. i]`: how many of the first `i`
/// bits are set. Slicing past the end panics, hence the `requires`.
#[verifier::external_body]
pub(crate) fn bits_prefix_count_ones(b: &TopologyBits, i: usize) -> (r: usize)
    requires
        i <= topology_bits(*b).len(),
    ensures
        r == count_set(topology_bits(*b).take(i as int)),
{
    b.inner[..i].count_ones()
}

/// `Extend<bool>::extend` on a bit-vector: appends `flags` in order. Growing
/// past `BitSlice::MAX_BITS` panics, hence the `requires`.
#[verifier::external_body]
pub(crate) fn bits_extend(b: &mut TopologyBits, flags: &Vec<bool>)
    requires
        topology_bits(*old(b)).len() + flags@.len() <= usize::MAX / 8,
    ensures
        topology_bits(*final(b)) == topology_bits(*old(b)) + flags@,
{
    b.inner.extend(flags.iter().copied())
}

/// The number of `true` entries in `s`.
pub open spec fn count_set(s: Seq<bool>) -> nat
    decreases s.len(),
{
    if s.len() == 0 {
        0
    } else {
        count_set(s.drop_last()) + if s.last() { 1nat } else { 0nat }
    }
}

} // verus!
