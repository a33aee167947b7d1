//! The density grid of the simulator: 64 x 64 x 64 cells, each the bit
//! pattern of a single-precision density, with -1.0 for an empty cell. The
//! grid is filled from the galaxies that the user placed, or with densities
//! scattered over randomly chosen cells.

use vstd::prelude::*;
use crate::artifact::{ArtifactView, NpyData};
use crate::codec::{encodable, encode, encoding};
use crate::trusted::{
    array_cells, array_dim, array_from_elem, array_into_vec, array_set, random_in_range, shuffle,
};

verus! {

/// Cells along each axis.
pub const SIDE: usize = 64;

/// Cells of the grid.
pub const CELLS: usize = 262144;

/// The bit pattern of -1.0, which marks an empty cell.
pub const EMPTY_CELL: u32 = 0xBF80_0000;

/// The least number of cells that `generate_npy_data` fills.
pub const MIN_COUNT: u64 = 50;

/// The largest number of cells that `generate_npy_data` fills.
pub const MAX_COUNT: u64 = 500;

/// The shape of the grid.
pub open spec fn grid_shape() -> Seq<u64> {
    seq![64u64, 64, 64]
}

/// The grid with every cell empty.
pub open spec fn blank_cells() -> Seq<u32> {
    Seq::new(CELLS as nat, |j: int| EMPTY_CELL)
}

/// The artifact of a grid with the given cells.
pub open spec fn grid_artifact(cells: Seq<u32>) -> ArtifactView {
    ArtifactView { data: cells, shape: grid_shape() }
}

/// The position of the cell `(x, y, z)` in the flat buffer, the last
/// coordinate varying fastest.
pub open spec fn cell_index(x: int, y: int, z: int) -> int {
    x * 4096 + y * 64 + z
}

/// A number out of the text that describes the galaxies: its value as a
/// single-precision bit pattern where it is a number at all, and as an
/// unsigned integer where it is one.
#[derive(Clone, Copy, Debug, PartialEq, Eq)]
pub struct Scalar {
    pub float_bits: Option<u32>,
    pub unsigned: Option<u64>,
}

/// The coordinate that a scalar gives: its unsigned value, or zero.
pub open spec fn coordinate(s: Scalar) -> u64 {
    match s.unsigned {
        Some(v) => v,
        None => 0,
    }
}

/// The density that a scalar gives: its value, or that of an empty cell.
pub open spec fn density(s: Scalar) -> u32 {
    match s.float_bits {
        Some(bits) => bits,
        None => EMPTY_CELL,
    }
}

/// The cell that a galaxy sets and the density it sets it to. A galaxy is
/// the list `[density, x, y, z, ..]`; one with fewer than four entries, or
/// with a coordinate outside the grid, sets nothing, and so does a member
/// that is no list.
pub open spec fn target(member: Option<Vec<Scalar>>) -> Option<(int, u32)> {
    match member {
        Some(entries) => {
            let e = entries@;
            if e.len() >= 4 && coordinate(e[1]) < 64 && coordinate(e[2]) < 64 && coordinate(e[3])
                < 64 {
                Some(
                    (
                        cell_index(
                            coordinate(e[1]) as int,
                            coordinate(e[2]) as int,
                            coordinate(e[3]) as int,
                        ),
                        density(e[0]),
                    ),
                )
            } else {
                None
            }
        },
        None => None,
    }
}

/// The cells of the grid after the galaxies have been placed in turn onto
/// an empty grid.
pub open spec fn galaxy_cells(members: Seq<Option<Vec<Scalar>>>) -> Seq<u32>
    decreases members.len(),
{
    if members.len() == 0 {
        blank_cells()
    } else {
        let before = galaxy_cells(members.drop_last());
        match target(members.last()) {
            Some((index, bits)) => before.update(index, bits),
            None => before,
        }
    }
}

/// The member sets the cell at position `j`.
pub open spec fn sets_cell(member: Option<Vec<Scalar>>, j: int) -> bool {
    target(member) matches Some((index, _)) && index == j
}

/// The grid always has all its cells.
pub proof fn lemma_galaxy_cells_len(members: Seq<Option<Vec<Scalar>>>)
    ensures
        galaxy_cells(members).len() == CELLS,
    decreases members.len(),
{
    if members.len() > 0 {
        lemma_galaxy_cells_len(members.drop_last());
    }
}

/// A cell in which no galaxy was placed is empty.
pub proof fn lemma_galaxy_cell_untouched(members: Seq<Option<Vec<Scalar>>>, j: int)
    requires
        0 <= j < CELLS,
        forall|k: int| 0 <= k < members.len() ==> !sets_cell(#[trigger] members[k], j),
    ensures
        galaxy_cells(members)[j] == EMPTY_CELL,
    decreases members.len(),
{
    if members.len() > 0 {
        let shorter = members.drop_last();
        assert forall|k: int| 0 <= k < shorter.len() implies !sets_cell(
            #[trigger] shorter[k],
            j,
        ) by {
            assert(shorter[k] == members[k]);
        }
        lemma_galaxy_cell_untouched(shorter, j);
        lemma_galaxy_cells_len(shorter);
        assert(!sets_cell(members[members.len() - 1], j));
    }
}

/// A cell holds the density of the last galaxy that was placed in it.
pub proof fn lemma_galaxy_cell_last(members: Seq<Option<Vec<Scalar>>>, j: int, k: int)
    requires
        0 <= j < CELLS,
        0 <= k < members.len(),
        sets_cell(members[k], j),
        forall|later: int| k < later < members.len() ==> !sets_cell(#[trigger] members[later], j),
    ensures
        target(members[k]) == Some((j, galaxy_cells(members)[j])),
    decreases members.len(),
{
    let shorter = members.drop_last();
    lemma_galaxy_cells_len(shorter);
    if k < members.len() - 1 {
        assert(shorter[k] == members[k]);
        assert forall|later: int| k < later < shorter.len() implies !sets_cell(
            #[trigger] shorter[later],
            j,
        ) by {
            assert(shorter[later] == members[later]);
        }
        lemma_galaxy_cell_last(shorter, j, k);
        assert(!sets_cell(members[members.len() - 1], j));
    }
}

/// The grid has a file: its header is short and its payload one mebibyte.
pub proof fn lemma_grid_encodable(cells: Seq<u32>)
    requires
        cells.len() == CELLS,
    ensures
        encodable(grid_artifact(cells)),
        grid_artifact(cells).wf(),
{
    crate::codec::lemma_few_dimensions_fit(grid_shape());
    crate::codec::lemma_written_header_len(grid_shape());
    let none = Seq::<u64>::empty();
    let line = none.push(64);
    let plane = line.push(64);
    crate::artifact::lemma_product_push(none, 64);
    crate::artifact::lemma_product_push(line, 64);
    crate::artifact::lemma_product_push(plane, 64);
    assert(plane.push(64) =~= grid_shape());
}

/// The file of a grid decodes to the grid.
pub proof fn lemma_grid_file_decodes(cells: Seq<u32>)
    requires
        cells.len() == CELLS,
    ensures
        crate::codec::decoding(encoding(grid_artifact(cells))) == Ok::<
            ArtifactView,
            crate::codec::CodecError,
        >(grid_artifact(cells)),
{
    lemma_grid_encodable(cells);
    crate::codec::lemma_decode_encode(grid_artifact(cells));
}

/// The shape of the grid.
fn grid_shape_vec() -> (shape: Vec<u64>)
    ensures
        shape@ == grid_shape(),
{
    let shape: Vec<u64> = vec![64, 64, 64];
    proof {
        assert(shape@ =~= grid_shape());
    }
    shape
}

/// The coordinate that a scalar gives; see [`coordinate`].
fn coordinate_of(s: &Scalar) -> (c: u64)
    ensures
        c == coordinate(*s),
{
    match s.unsigned {
        Some(v) => v,
        None => 0,
    }
}

/// The grid that the galaxies fill: each member of the description is taken
/// in turn, and a later galaxy replaces an earlier one in the same cell.
pub fn galaxy_grid(members: &Vec<Option<Vec<Scalar>>>) -> (grid: NpyData)
    ensures
        grid@ == grid_artifact(galaxy_cells(members@)),
        grid@.data.len() == CELLS,
{
    let mut data: Vec<u32> = Vec::new();
    data.resize(CELLS, EMPTY_CELL);
    proof {
        assert(data@ =~= blank_cells());
        assert(members@.take(0) =~= Seq::<Option<Vec<Scalar>>>::empty());
    }
    let mut k: usize = 0;
    while k < members.len()
        invariant
            k <= members.len(),
            data@.len() == CELLS,
            data@ == galaxy_cells(members@.take(k as int)),
        decreases members.len() - k,
    {
        proof {
            assert(members@.take(k + 1).drop_last() =~= members@.take(k as int));
            assert(members@.take(k + 1).last() == members@[k as int]);
        }
        match &members[k] {
            Some(entries) => {
                if entries.len() >= 4 {
                    let x = coordinate_of(&entries[1]);
                    let y = coordinate_of(&entries[2]);
                    let z = coordinate_of(&entries[3]);
                    if x < 64 && y < 64 && z < 64 {
                        let bits = match entries[0].float_bits {
                            Some(bits) => bits,
                            None => EMPTY_CELL,
                        };
                        let index: usize = (x as usize) * 4096 + (y as usize) * 64 + (z as usize);
                        data.set(index, bits);
                    }
                }
            },
            None => {},
        }
        k += 1;
    }
    proof {
        assert(members@.take(k as int) =~= members@);
    }
    NpyData { data, shape: grid_shape_vec() }
}

/// The file that holds the galaxies which the user placed: the bytes to
/// write as the input of the next inference run.
pub fn save_galaxy_data(members: &Vec<Option<Vec<Scalar>>>) -> (file: Vec<u8>)
    ensures
        file@ == encoding(grid_artifact(galaxy_cells(members@))),
{
    let grid = galaxy_grid(members);
    proof {
        lemma_grid_encodable(grid@.data);
    }
    encode(&grid)
}

/// A requested number of cells brought into the range from `MIN_COUNT` to
/// `MAX_COUNT`.
pub open spec fn clamp_count(n: u64) -> u64 {
    if n < MIN_COUNT {
        MIN_COUNT
    } else if n > MAX_COUNT {
        MAX_COUNT
    } else {
        n
    }
}

/// The number of cells to fill: the requested number brought into range,
/// or, where none is requested, some number of the range.
pub fn choose_count(n: Option<u64>) -> (count: u64)
    ensures
        MIN_COUNT <= count <= MAX_COUNT,
        n matches Some(v) ==> count == clamp_count(v),
{
    match n {
        Some(v) => {
            if v < MIN_COUNT {
                MIN_COUNT
            } else if v > MAX_COUNT {
                MAX_COUNT
            } else {
                v
            }
        },
        None => random_in_range(MIN_COUNT, MAX_COUNT + 1),
    }
}

/// An order of the cells: every position of the flat buffer once.
pub open spec fn is_cell_order(order: Seq<usize>) -> bool {
    &&& order.len() == CELLS
    &&& order.no_duplicates()
    &&& forall|i: int| 0 <= i < order.len() ==> #[trigger] order[i] < CELLS
}

/// The cells of the grid after the first `k` densities have been put, in
/// turn, into the cells that `order` names, starting from an empty grid. A
/// position outside the grid is passed over.
pub open spec fn scattered(order: Seq<usize>, densities: Seq<u32>, k: nat) -> Seq<u32>
    decreases k,
{
    if k == 0 {
        blank_cells()
    } else {
        let before = scattered(order, densities, (k - 1) as nat);
        if order[k - 1] < CELLS {
            before.update(order[k - 1] as int, densities[k - 1])
        } else {
            before
        }
    }
}

/// With an order of the cells, each of the first `k` densities lies in the
/// cell of its own, and every other cell is empty.
pub proof fn lemma_scattered(order: Seq<usize>, densities: Seq<u32>, k: nat)
    requires
        is_cell_order(order),
        k <= order.len(),
    ensures
        scattered(order, densities, k).len() == CELLS,
        forall|i: int| 0 <= i < k ==> scattered(order, densities, k)[#[trigger] order[i] as int]
            == densities[i],
        forall|j: int|
            0 <= j < CELLS && (forall|i: int| 0 <= i < k ==> #[trigger] order[i] != j)
                ==> #[trigger] scattered(order, densities, k)[j] == EMPTY_CELL,
    decreases k,
{
    if k > 0 {
        lemma_scattered(order, densities, (k - 1) as nat);
        let before = scattered(order, densities, (k - 1) as nat);
        let now = scattered(order, densities, k);
        assert(order[k - 1] < CELLS);
        assert forall|i: int| 0 <= i < k implies now[#[trigger] order[i] as int]
            == densities[i] by {
            if i < k - 1 {
                assert(order[i] != order[k - 1]);
            }
        }
        assert forall|j: int|
            0 <= j < CELLS && (forall|i: int| 0 <= i < k ==> #[trigger] order[i] != j) implies
            #[trigger] now[j] == EMPTY_CELL by {
            assert(order[k - 1] != j);
            assert forall|i: int| 0 <= i < k - 1 implies #[trigger] order[i] != j by {}
        }
    }
}

/// The positions of the flat buffer in their own order.
pub open spec fn plain_order() -> Seq<usize> {
    Seq::new(CELLS as nat, |i: int| i as usize)
}

/// A sequence with the same items as the positions of the buffer, each as
/// often, is an order of the cells.
pub proof fn lemma_rearranged_is_cell_order(order: Seq<usize>)
    requires
        order.to_multiset() == plain_order().to_multiset(),
    ensures
        is_cell_order(order),
{
    broadcast use vstd::seq_lib::group_to_multiset_ensures;

    let plain = plain_order();
    assert(plain.no_duplicates());
    plain.lemma_multiset_has_no_duplicates();
    order.lemma_multiset_has_no_duplicates_conv();
    assert(order.len() == order.to_multiset().len());
    assert(plain.len() == plain.to_multiset().len());
    assert forall|i: int| 0 <= i < order.len() implies #[trigger] order[i] < CELLS by {
        assert(order.contains(order[i]));
        assert(order.to_multiset().count(order[i]) > 0);
        assert(plain.contains(order[i]));
        let j = choose|j: int| 0 <= j < plain.len() && plain[j] == order[i];
        assert(plain[j] == j as usize);
    }
}

/// The cells of the grid in a random order.
pub fn shuffled_cells() -> (order: Vec<usize>)
    ensures
        is_cell_order(order@),
{
    let mut order: Vec<usize> = Vec::new();
    let mut i: usize = 0;
    while i < CELLS
        invariant
            i <= CELLS,
            order@ == Seq::new(i as nat, |k: int| k as usize),
        decreases CELLS - i,
    {
        order.push(i);
        proof {
            assert(order@ =~= Seq::new((i + 1) as nat, |k: int| k as usize));
        }
        i += 1;
    }
    shuffle(&mut order);
    proof {
        lemma_rearranged_is_cell_order(order@);
    }
    order
}

/// The grid in which the first `count` densities lie in the cells that
/// `order` names, one after the other, and every other cell is empty. Where
/// `order` or `densities` has fewer than `count` items, the items that are
/// there are placed.
pub fn scatter(order: &Vec<usize>, densities: &Vec<u32>, count: usize) -> (grid: NpyData)
    ensures
        grid@ == grid_artifact(
            scattered(order@, densities@, placed_count(order@, densities@, count)),
        ),
        grid@.data.len() == CELLS,
{
    let mut limit: usize = count;
    if order.len() < limit {
        limit = order.len();
    }
    if densities.len() < limit {
        limit = densities.len();
    }
    let mut array = array_from_elem(SIDE, SIDE, SIDE, EMPTY_CELL);
    proof {
        assert(array_cells(array) =~= blank_cells());
    }
    let mut k: usize = 0;
    while k < limit
        invariant
            k <= limit,
            limit <= order.len(),
            limit <= densities.len(),
            array_dim(array) == (SIDE, SIDE, SIDE),
            array_cells(array).len() == CELLS,
            array_cells(array) == scattered(order@, densities@, k as nat),
        decreases limit - k,
    {
        let index: usize = order[k];
        if index < CELLS {
            let x: usize = index / (SIDE * SIDE);
            let y: usize = (index / SIDE) % SIDE;
            let z: usize = index % SIDE;
            array_set(&mut array, x, y, z, densities[k]);
            proof {
                assert((x * 64 + y) * 64 + z == index);
            }
        }
        k += 1;
    }
    let data = array_into_vec(array);
    NpyData { data, shape: grid_shape_vec() }
}

/// How many densities `scatter` places.
pub open spec fn placed_count(order: Seq<usize>, densities: Seq<u32>, count: usize) -> nat {
    let a = if order.len() < count {
        order.len()
    } else {
        count as nat
    };
    if densities.len() < a {
        densities.len()
    } else {
        a
    }
}

/// `grid` is the grid that `generate_npy_data` makes for the request `n` and
/// the given densities where the cells come in the order `order` and `count`
/// is the number chosen.
pub open spec fn is_generated(
    grid: ArtifactView,
    n: Option<u64>,
    densities: Seq<u32>,
    order: Seq<usize>,
    count: u64,
) -> bool {
    &&& is_cell_order(order)
    &&& MIN_COUNT <= count <= MAX_COUNT
    &&& (n matches Some(v) ==> count == clamp_count(v))
    &&& grid == grid_artifact(
        scattered(
            order,
            densities,
            if densities.len() < count {
                densities.len()
            } else {
                count as nat
            },
        ),
    )
}

/// A grid with densities in randomly chosen cells, and its file. The number
/// of cells is `n` brought into the range from 50 to 500, or some number of
/// that range where `n` is absent; it is no larger than the number of
/// densities given. The cells are chosen without repetition, so each
/// density that is placed lies in a cell of its own, and every other cell
/// is empty.
pub fn generate_npy_data(n: Option<u64>, densities: &Vec<u32>) -> (r: (NpyData, Vec<u8>))
    ensures
        exists|order: Seq<usize>, count: u64|
            #[trigger] is_generated(r.0@, n, densities@, order, count),
        r.0@.data.len() == CELLS,
        r.1@ == encoding(r.0@),
{
    let count = choose_count(n);
    let order = shuffled_cells();
    let grid = scatter(&order, densities, count as usize);
    proof {
        lemma_grid_encodable(grid@.data);
    }
    let file = encode(&grid);
    let r = (grid, file);
    proof {
        assert(is_generated(r.0@, n, densities@, order@, count));
    }
    r
}

} // verus!
