//! What this library takes on trust of the crates it calls: the array of
//! `ndarray` and the random generator of `rand`. Each function here hands
//! its arguments to one operation of such a crate, and its contract says
//! what the documentation and the source of the crate show of that
//! operation. Nothing in this file is proved.

use vstd::prelude::*;
use rand::seq::SliceRandom;
use rand::Rng;

verus! {

/// A three-dimensional array of 32-bit cells, kept by the `ndarray` crate
/// as an `Array3<u32>`. The array type of `ndarray` is bounded by a trait of
/// that crate, which keeps it out of the signatures of verified functions;
/// this struct holds the array and hides it whole.
#[verifier::external_body]
pub struct CellArray {
    inner: ndarray::Array3<u32>,
}

/// The cells of an array in logical order, the last index varying fastest.
pub uninterp spec fn array_cells(a: CellArray) -> Seq<u32>;

/// The extents of an array along its three axes.
pub uninterp spec fn array_dim(a: CellArray) -> (usize, usize, usize);

/// `Array3::from_elem` of `ndarray`: an array of the given extents in which
/// every cell holds `fill`. The call panics where the product of the
/// extents that are not zero overflows `isize`, which the precondition rules
/// out.
#[verifier::external_body]
pub(crate) fn array_from_elem(d0: usize, d1: usize, d2: usize, fill: u32) -> (a: CellArray)
    requires
        d0 >= 1,
        d1 >= 1,
        d2 >= 1,
        d0 * d1 * d2 <= isize::MAX,
    ensures
        array_dim(a) == (d0, d1, d2),
        array_cells(a) == Seq::new((d0 * d1 * d2) as nat, |k: int| fill),
{
    CellArray { inner: ndarray::Array3::from_elem((d0, d1, d2), fill) }
}

/// Indexed assignment `a[[x, y, z]] = value` of `ndarray`: the cell at the
/// index takes the value, all others keep theirs. In logical order the cell
/// `[x, y, z]` is the one at position `(x * d1 + y) * d2 + z`. The call
/// panics on an index outside the array, which the precondition rules out.
#[verifier::external_body]
pub(crate) fn array_set(a: &mut CellArray, x: usize, y: usize, z: usize, value: u32)
    requires
        x < array_dim(*old(a)).0,
        y < array_dim(*old(a)).1,
        z < array_dim(*old(a)).2,
    ensures
        array_dim(*final(a)) == array_dim(*old(a)),
        array_cells(*final(a)) == array_cells(*old(a)).update(
            (x * array_dim(*old(a)).1 + y) * array_dim(*old(a)).2 + z,
            value,
        ),
{
    a.inner[[x, y, z]] = value;
}

/// `into_iter` of an owned `ndarray` array, collected: the cells in logical
/// order.
#[verifier::external_body]
pub(crate) fn array_into_vec(a: CellArray) -> (v: Vec<u32>)
    ensures
        v@ == array_cells(a),
{
    a.inner.into_iter().collect()
}

/// `Rng::gen_range` of `rand` on the thread's generator: some number of the
/// half-open range. The call panics on an empty range, which the
/// precondition rules out. Nothing else is known of the number.
#[verifier::external_body]
pub(crate) fn random_in_range(low: u64, high: u64) -> (n: u64)
    requires
        low < high,
    ensures
        low <= n < high,
{
    rand::thread_rng().gen_range(low..high)
}

/// `SliceRandom::shuffle` of `rand` on the thread's generator: the items are
/// swapped among themselves, so the same items are there afterwards, each as
/// often as before. Nothing is known of their order.
#[verifier::external_body]
pub(crate) fn shuffle(items: &mut Vec<usize>)
    ensures
        final(items)@.to_multiset() == old(items)@.to_multiset(),
{
    items.shuffle(&mut rand::thread_rng());
}

} // verus!
