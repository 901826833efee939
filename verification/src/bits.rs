//! The bit-string storage, a thin layer over `bit_vec::BitVec`.
//!
//! A `BitVec` is opaque to the verifier; `bits_of` names the sequence of
//! bits it holds, and each wrapper states over that name what the crate's
//! source shows of the corresponding method.

use vstd::prelude::*;

verus! {

#[verifier::external_type_specification]
#[verifier::external_body]
#[verifier::reject_recursive_types(B)]
pub struct ExBitVec<B>(bit_vec::BitVec<B>);

/// The sequence of bits a `BitVec` holds, in order.
pub uninterp spec fn bits_of(v: bit_vec::BitVec) -> Seq<bool>;

/// Relies on `bit_vec::BitVec::with_capacity`: the result holds no bits
/// (only capacity is reserved).
#[verifier::external_body]
pub(crate) fn bv_with_capacity(nbits: usize) -> (v: bit_vec::BitVec)
    ensures
        bits_of(v) == Seq::<bool>::empty(),
{
    bit_vec::BitVec::with_capacity(nbits)
}

/// Relies on `bit_vec::BitVec::from_elem`: `nbits` bits, each set to `bit`.
#[verifier::external_body]
pub(crate) fn bv_from_elem(nbits: usize, bit: bool) -> (v: bit_vec::BitVec)
    ensures
        bits_of(v).len() == nbits,
        forall|i: int| 0 <= i < nbits ==> bits_of(v)[i] == bit,
{
    bit_vec::BitVec::from_elem(nbits, bit)
}

/// Relies on `bit_vec::BitVec::push`: appends one bit; the call panics only
/// when the bit count would overflow `usize`.
#[verifier::external_body]
pub(crate) fn bv_push(v: &mut bit_vec::BitVec, bit: bool)
    requires
        bits_of(*old(v)).len() < usize::MAX,
    ensures
        bits_of(*final(v)) == bits_of(*old(v)).push(bit),
{
    v.push(bit)
}

/// Relies on `bit_vec::BitVec::len`: the number of bits held.
#[verifier::external_body]
pub(crate) fn bv_len(v: &bit_vec::BitVec) -> (n: usize)
    ensures
        n == bits_of(*v).len(),
{
    v.len()
}

/// Relies on `bit_vec::BitVec::get`: `Some` of bit `i` when `i` is in
/// bounds, `None` otherwise.
#[verifier::external_body]
pub(crate) fn bv_get(v: &bit_vec::BitVec, i: usize) -> (b: Option<bool>)
    ensures
        b == if i < bits_of(*v).len() {
            Some(bits_of(*v)[i as int])
        } else {
            None::<bool>
        },
{
    v.get(i)
}

/// Relies on `bit_vec::BitVec::set`: overwrites bit `i`; the call panics
/// when `i` is out of bounds, which the precondition rules out.
#[verifier::external_body]
pub(crate) fn bv_set(v: &mut bit_vec::BitVec, i: usize, bit: bool)
    requires
        i < bits_of(*old(v)).len(),
    ensures
        bits_of(*final(v)) == bits_of(*old(v)).update(i as int, bit),
{
    v.set(i, bit)
}

/// Relies on `bit_vec::BitVec::clone`: the copy holds the same bits.
#[verifier::external_body]
pub(crate) fn bv_clone(v: &bit_vec::BitVec) -> (c: bit_vec::BitVec)
    ensures
        bits_of(c) == bits_of(*v),
{
    v.clone()
}

} // verus!
