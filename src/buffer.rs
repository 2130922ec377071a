//! The inline buffer in which identifier lists are gathered.
use vstd::prelude::*;
use smallvec::SmallVec;

verus! {

/// A `SmallVec` of identifiers with room for 128 of them inline.
#[verifier::external_body]
pub struct IdBuffer {
    items: SmallVec<[usize; 128]>,
}

/// The identifiers a buffer holds, in order.
pub uninterp spec fn buffered(v: IdBuffer) -> Seq<usize>;

/// Relies on `SmallVec::new`: an empty buffer.
#[verifier::external_body]
pub(crate) fn buffer_new() -> (r: IdBuffer)
    ensures
        buffered(r) == Seq::<usize>::empty(),
{
    IdBuffer { items: SmallVec::new() }
}

/// Relies on `SmallVec::push`: appends one item; it panics only when the new
/// capacity overflows `usize`, which the bound on the length rules out.
#[verifier::external_body]
pub(crate) fn buffer_push(v: &mut IdBuffer, x: usize)
    requires
        buffered(*old(v)).len() < usize::MAX / 2,
    ensures
        buffered(*final(v)) == buffered(*old(v)).push(x),
{
    v.items.push(x)
}

/// Relies on `SmallVec::into_vec`: the same items, in the same order.
#[verifier::external_body]
pub(crate) fn buffer_into_vec(v: IdBuffer) -> (r: Vec<usize>)
    ensures
        r@ == buffered(v),
{
    v.items.into_vec()
}

} // verus!
