//! Masks over the event sources of a coroutine.
//!
//! A mask is a bit vector with one bit, at least, for each source. Bit `i`
//! stands for the source at position `i`.
use crate::event::EventSourceIndex;
use crate::source::EventSourceShared;
use bit_vec::BitVec;
use vstd::prelude::*;

verus! {

/// The bit vectors that masks are kept in.
#[verifier::external_type_specification]
#[verifier::external_body]
#[verifier::reject_recursive_types(B)]
pub struct ExBitVec<B>(bit_vec::BitVec<B>);

/// The bits that a mask holds, in order.
pub uninterp spec fn bits(mask: BitVec<usize>) -> Seq<bool>;

/// Calls `BitVec::default`, which makes a vector of no bits.
#[verifier::external_body]
pub(crate) fn empty() -> (mask: BitVec<usize>)
    ensures
        bits(mask) == Seq::<bool>::empty(),
{
    Default::default()
}

/// Calls `BitVec::get`: the bit at position `i`, or `None` past the end.
#[verifier::external_body]
pub(crate) fn get(mask: &BitVec<usize>, i: usize) -> (bit: Option<bool>)
    ensures
        bit == (if i < bits(*mask).len() {
            Some(bits(*mask)[i as int])
        } else {
            None
        }),
{
    mask.get(i)
}

/// Calls `BitVec::set`, which writes the bit at position `i` and no other. It
/// panics past the end.
#[verifier::external_body]
pub(crate) fn set(mask: &mut BitVec<usize>, i: usize, bit: bool)
    requires
        i < bits(*old(mask)).len(),
    ensures
        bits(*final(mask)) == bits(*old(mask)).update(i as int, bit),
{
    mask.set(i, bit)
}

/// Calls `BitVec::clear`, which unsets every bit and keeps their number.
#[verifier::external_body]
pub(crate) fn clear(mask: &mut BitVec<usize>)
    ensures
        bits(*final(mask)) == no_bits(bits(*old(mask)).len()),
{
    mask.clear()
}

/// Calls `BitVec::grow`, which appends `n` copies of `bit`. It panics where the
/// number of bits would overflow.
#[verifier::external_body]
pub(crate) fn grow(mask: &mut BitVec<usize>, n: usize, bit: bool)
    requires
        bits(*old(mask)).len() + n <= usize::MAX,
    ensures
        bits(*final(mask)) == bits(*old(mask)) + Seq::new(n as nat, |i: int| bit),
{
    mask.grow(n, bit)
}

/// Calls `BitVec::clone_from`, which makes one vector hold the bits of another.
#[verifier::external_body]
pub(crate) fn copy(mask: &mut BitVec<usize>, source: &BitVec<usize>)
    ensures
        bits(*final(mask)) == bits(*source),
{
    mask.clone_from(source)
}

/// A mask of `len` bits of which none is set.
pub open spec fn no_bits(len: nat) -> Seq<bool> {
    Seq::new(len, |i: int| false)
}

/// A mask of `len` bits of which those are set that `indices` name.
pub open spec fn bits_at(len: nat, indices: Seq<nat>) -> Seq<bool> {
    Seq::new(len, |i: int| exists|k: int| 0 <= k < indices.len() && #[trigger] indices[k] == i)
}

/// The positions that `indices` name.
pub open spec fn positions(indices: Seq<EventSourceIndex>) -> Seq<nat> {
    Seq::new(indices.len(), |k: int| indices[k]@)
}

/// The positions of `handles` among the sources of their coroutine.
pub open spec fn handle_positions(handles: Seq<EventSourceShared>) -> Seq<nat> {
    Seq::new(handles.len(), |k: int| handles[k].index as nat)
}

/// Setting one more named bit is to name one more position.
proof fn lemma_name_one_more(len: nat, indices: Seq<nat>, n: int)
    requires
        0 <= n < indices.len(),
        indices[n] < len,
    ensures
        bits_at(len, indices.take(n + 1)) == bits_at(len, indices.take(n)).update(
            indices[n] as int,
            true,
        ),
{
    let before = indices.take(n);
    let after = indices.take(n + 1);
    assert(after[n] == indices[n]);
    assert forall|i: int| 0 <= i < len implies bits_at(len, after)[i] == bits_at(
        len,
        before,
    ).update(indices[n] as int, true)[i] by {
        if i != indices[n] {
            if exists|k: int| 0 <= k < after.len() && #[trigger] after[k] == i {
                let k = choose|k: int| 0 <= k < after.len() && #[trigger] after[k] == i;
                assert(before[k] == i);
            }
            if exists|k: int| 0 <= k < before.len() && #[trigger] before[k] == i {
                let k = choose|k: int| 0 <= k < before.len() && #[trigger] before[k] == i;
                assert(after[k] == i);
            }
        }
    }
    assert(bits_at(len, after) =~= bits_at(len, before).update(indices[n] as int, true));
}

/// Makes `blocked_on` hold exactly the sources that `indices` name.
pub(crate) fn select_impl_set_mask_from_indices(
    indices: &[EventSourceIndex],
    blocked_on: &mut BitVec<usize>,
)
    requires
        forall|k: int| 0 <= k < indices@.len() ==> #[trigger] indices@[k]@ < bits(*old(blocked_on)).len(),
    ensures
        bits(*final(blocked_on)) == bits_at(bits(*old(blocked_on)).len(), positions(indices@)),
{
    let ghost len = bits(*blocked_on).len();
    let ghost named = positions(indices@);
    clear(blocked_on);
    assert(no_bits(len) =~= bits_at(len, named.take(0)));
    for n in 0..indices.len()
        invariant
            len == bits(*old(blocked_on)).len(),
            named == positions(indices@),
            bits(*blocked_on) == bits_at(len, named.take(n as int)),
            forall|k: int| 0 <= k < indices@.len() ==> #[trigger] indices@[k]@ < len,
    {
        let index = indices[n];
        proof {
            lemma_name_one_more(len, named, n as int);
        }
        set(blocked_on, index.as_usize(), true);
    }
    assert(named.take(indices@.len() as int) =~= named);
}

/// Makes `blocked_on` hold exactly the sources in `handles`.
pub(crate) fn select_impl_set_mask_rc_handles(
    handles: &Vec<EventSourceShared>,
    blocked_on: &mut BitVec<usize>,
)
    requires
        forall|k: int| 0 <= k < handles@.len() ==> #[trigger] handles@[k].index < bits(*old(blocked_on)).len(),
    ensures
        bits(*final(blocked_on)) == bits_at(bits(*old(blocked_on)).len(), handle_positions(handles@)),
{
    let ghost len = bits(*blocked_on).len();
    let ghost named = handle_positions(handles@);
    clear(blocked_on);
    assert(no_bits(len) =~= bits_at(len, named.take(0)));
    for n in 0..handles.len()
        invariant
            len == bits(*old(blocked_on)).len(),
            named == handle_positions(handles@),
            bits(*blocked_on) == bits_at(len, named.take(n as int)),
            forall|k: int| 0 <= k < handles@.len() ==> #[trigger] handles@[k].index < len,
    {
        proof {
            lemma_name_one_more(len, named, n as int);
        }
        set(blocked_on, handles[n].index, true);
    }
    assert(named.take(handles@.len() as int) =~= named);
}

/// A mask of named positions has a bit set if, and only if, its position is named.
pub proof fn named_positions_are_set(len: nat, named: Seq<nat>)
    ensures
        bits_at(len, named).len() == len,
        no_bits(len).len() == len,
        forall|i: int|
            0 <= i < len ==> (#[trigger] bits_at(len, named)[i] <==> named.contains(i as nat)),
        forall|i: int| 0 <= i < len ==> !#[trigger] no_bits(len)[i],
{
    assert forall|i: int| 0 <= i < len implies (#[trigger] bits_at(len, named)[i]
        <==> named.contains(i as nat)) by {
        if bits_at(len, named)[i] {
            let k = choose|k: int| 0 <= k < named.len() && #[trigger] named[k] == i;
            assert(named[k] == i as nat);
        }
        if named.contains(i as nat) {
            let k = choose|k: int| 0 <= k < named.len() && named[k] == i as nat;
            assert(named[k] == i);
        }
    }
}

/// Sources are named one by one, each by its own position.
pub proof fn sources_are_named_one_by_one(
    indices: Seq<EventSourceIndex>,
    handles: Seq<EventSourceShared>,
)
    ensures
        positions(indices).len() == indices.len(),
        handle_positions(handles).len() == handles.len(),
        forall|k: int| 0 <= k < indices.len() ==> #[trigger] positions(indices)[k] == indices[k]@,
        forall|k: int|
            0 <= k < handles.len() ==> #[trigger] handle_positions(handles)[k]
                == handles[k].index,
{
}

} // verus!
