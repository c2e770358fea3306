//! The packed bit vectors of the `bit_vec` crate, as the signal storage sees them.
use bit_vec::BitVec;
use vstd::prelude::*;

verus! {

/// `bit_vec::BitVec`, carried opaquely; its contents are named by [`bitvec_bits`].
#[verifier::external_type_specification]
#[verifier::external_body]
#[verifier::reject_recursive_types(B)]
pub struct ExBitVec<B>(BitVec<B>);

/// The bits a `BitVec` holds, index 0 first.
pub uninterp spec fn bitvec_bits(v: BitVec) -> Seq<bool>;

/// `BitVec::from_elem(nbits, bit)`: per the crate's source, a vector of
/// `nbits` bits, each equal to `bit`.
#[verifier::external_body]
pub(crate) fn bitvec_from_elem(nbits: usize, bit: bool) -> (r: BitVec)
    ensures
        bitvec_bits(r) == Seq::new(nbits as nat, |i: int| bit),
{
    BitVec::from_elem(nbits, bit)
}

/// `BitVec::set(i, x)`: per the crate's source, it asserts `i < len` and
/// otherwise writes bit `i` and leaves every other bit and the length alone.
#[verifier::external_body]
pub(crate) fn bitvec_set(v: &mut BitVec, i: usize, x: bool)
    requires
        i < bitvec_bits(*old(v)).len(),
    ensures
        bitvec_bits(*final(v)) == bitvec_bits(*old(v)).update(i as int, x),
{
    v.set(i, x)
}

/// `BitVec::len()`: the number of bits held.
#[verifier::external_body]
pub(crate) fn bitvec_len(v: &BitVec) -> (r: usize)
    ensures
        r == bitvec_bits(*v).len(),
{
    v.len()
}

} // verus!
