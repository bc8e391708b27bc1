//! The sampling grid of a geomagnetic vector field: its edge length and the order in
//! which its cells are visited.
use vstd::prelude::*;

verus! {

/// Smallest edge length of a vector-field grid.
pub const MIN_GRID_SIZE: usize = 3;

/// Largest edge length of a vector-field grid.
pub const MAX_GRID_SIZE: usize = 50;

/// The edge length used for a requested one: the request held between 3 and 50.
pub open spec fn grid_size_for(requested: int) -> int {
    if requested < MIN_GRID_SIZE {
        MIN_GRID_SIZE as int
    } else if requested > MAX_GRID_SIZE {
        MAX_GRID_SIZE as int
    } else {
        requested
    }
}

/// The cells of a `size` by `size` grid, row by row: row `i` (the latitude offset) outer,
/// column `j` (the longitude offset) inner.
pub open spec fn grid_order(size: int) -> Seq<(usize, usize)> {
    Seq::new((size * size) as nat, |k: int| ((k / size) as usize, (k % size) as usize))
}

/// The edge length of the grid drawn for a requested edge length.
pub fn clamp_grid_size(requested: usize) -> (size: usize)
    ensures
        size as int == grid_size_for(requested as int),
        MIN_GRID_SIZE <= size <= MAX_GRID_SIZE,
        requested <= MIN_GRID_SIZE ==> size == MIN_GRID_SIZE,
        requested >= MAX_GRID_SIZE ==> size == MAX_GRID_SIZE,
        MIN_GRID_SIZE <= requested <= MAX_GRID_SIZE ==> size == requested,
{
    if requested < MIN_GRID_SIZE {
        MIN_GRID_SIZE
    } else if requested > MAX_GRID_SIZE {
        MAX_GRID_SIZE
    } else {
        requested
    }
}

/// The grid cells of a vector field requested with edge length `requested`, in the order in
/// which its points are produced.
pub fn vector_field_cells(requested: usize) -> (cells: Vec<(usize, usize)>)
    ensures
        cells@ == grid_order(grid_size_for(requested as int)),
{
    let size = clamp_grid_size(requested);
    let mut cells: Vec<(usize, usize)> = Vec::new();
    let mut i: usize = 0;
    while i < size
        invariant
            MIN_GRID_SIZE <= size <= MAX_GRID_SIZE,
            i <= size,
            cells@ == grid_order(size as int).take((i * size) as int),
        decreases size - i,
    {
        let mut j: usize = 0;
        while j < size
            invariant
                MIN_GRID_SIZE <= size <= MAX_GRID_SIZE,
                i < size,
                j <= size,
                cells@ == grid_order(size as int).take((i * size + j) as int),
            decreases size - j,
        {
            proof {
                assert((i * size + j) / (size as int) == i as int) by (nonlinear_arith)
                    requires
                        j < size,
                        size > 0,
                ;
                assert((i * size + j) % (size as int) == j as int) by (nonlinear_arith)
                    requires
                        j < size,
                        size > 0,
                ;
                assert(i * size + j < size * size) by (nonlinear_arith)
                    requires
                        j < size,
                        i < size,
                ;
            }
            cells.push((i, j));
            assert(cells@ =~= grid_order(size as int).take((i * size + j + 1) as int));
            j = j + 1;
        }
        assert((i * size + size) == (i + 1) * size) by (nonlinear_arith);
        i = i + 1;
    }
    assert(size * size == i * size);
    assert(cells@ =~= grid_order(size as int));
    cells
}

/// Holding a request between the bounds twice changes nothing more: the edge length of a
/// grid, requested again, gives the same grid.
pub proof fn lemma_grid_size_idempotent(requested: int)
    ensures
        MIN_GRID_SIZE <= grid_size_for(requested) <= MAX_GRID_SIZE,
        grid_size_for(grid_size_for(requested)) == grid_size_for(requested),
        MIN_GRID_SIZE <= requested <= MAX_GRID_SIZE ==> grid_size_for(requested) == requested,
{
}

/// A request at or below 3 draws a grid of edge 3; one at or above 50 draws edge 50; one in
/// between draws exactly the requested edge; and a larger request never draws a smaller grid.
pub proof fn lemma_grid_size_saturates(requested: int, other: int)
    ensures
        requested <= MIN_GRID_SIZE ==> grid_size_for(requested) == MIN_GRID_SIZE,
        requested >= MAX_GRID_SIZE ==> grid_size_for(requested) == MAX_GRID_SIZE,
        MIN_GRID_SIZE <= requested <= MAX_GRID_SIZE ==> grid_size_for(requested) == requested,
        requested <= other ==> grid_size_for(requested) <= grid_size_for(other),
        grid_size_for(requested) == if requested <= MIN_GRID_SIZE { MIN_GRID_SIZE as int } else if requested
            >= MAX_GRID_SIZE { MAX_GRID_SIZE as int } else { requested },
{
}

/// Every cell of a grid appears at the position `row * size + column` of the visiting order.
pub proof fn lemma_grid_order_position(size: int, row: int, column: int)
    requires
        0 <= row < size,
        0 <= column < size,
    ensures
        0 <= row * size + column < grid_order(size).len(),
        grid_order(size)[row * size + column] == (row as usize, column as usize),
{
    assert((row * size + column) / size == row) by (nonlinear_arith)
        requires
            0 <= column < size,
    ;
    assert((row * size + column) % size == column) by (nonlinear_arith)
        requires
            0 <= column < size,
    ;
    assert(row * size + column < size * size) by (nonlinear_arith)
        requires
            0 <= column < size,
            0 <= row < size,
    ;
    assert(0 <= row * size + column) by (nonlinear_arith)
        requires
            0 <= column < size,
            0 <= row,
    ;
}

} // verus!
