use vstd::prelude::*;

verus! {

/// True when `g` is a rectangular grid of `h` rows, each `w` long.
pub open spec fn grid_dims_ok<T>(g: Seq<Seq<T>>, w: int, h: int) -> bool {
    g.len() == h && (forall|y: int| 0 <= y < h ==> (#[trigger] g[y]).len() == w)
}

/// How many elements of `row` satisfy `p`.
pub open spec fn row_count<T>(row: Seq<T>, p: spec_fn(T) -> bool) -> nat
    decreases row.len(),
{
    if row.len() == 0 {
        0
    } else {
        row_count(row.drop_last(), p) + if p(row.last()) {
            1nat
        } else {
            0nat
        }
    }
}

/// How many elements of the whole grid `g` satisfy `p`.
pub open spec fn grid_count<T>(g: Seq<Seq<T>>, p: spec_fn(T) -> bool) -> nat
    decreases g.len(),
{
    if g.len() == 0 {
        0
    } else {
        grid_count(g.drop_last(), p) + row_count(g.last(), p)
    }
}

/// Replacing one element of a row shifts its count by the difference of the
/// two indicator values.
pub proof fn lemma_row_count_update<T>(row: Seq<T>, i: int, v: T, p: spec_fn(T) -> bool)
    requires
        0 <= i < row.len(),
    ensures
        row_count(row.update(i, v), p) == row_count(row, p) as int
            - (if p(row[i]) { 1int } else { 0int })
            + (if p(v) { 1int } else { 0int }),
    decreases row.len(),
{
    let updated = row.update(i, v);
    if i == row.len() - 1 {
        assert(updated.drop_last() =~= row.drop_last());
        assert(updated.last() == v);
    } else {
        assert(updated.drop_last() =~= row.drop_last().update(i, v));
        assert(updated.last() == row.last());
        lemma_row_count_update(row.drop_last(), i, v, p);
    }
}

/// Replacing one row of a grid shifts its count by the difference of the
/// two row counts.
pub proof fn lemma_grid_count_update<T>(g: Seq<Seq<T>>, y: int, row: Seq<T>, p: spec_fn(T) -> bool)
    requires
        0 <= y < g.len(),
    ensures
        grid_count(g.update(y, row), p) == grid_count(g, p) as int - row_count(g[y], p)
            + row_count(row, p),
    decreases g.len(),
{
    let updated = g.update(y, row);
    if y == g.len() - 1 {
        assert(updated.drop_last() =~= g.drop_last());
        assert(updated.last() == row);
    } else {
        assert(updated.drop_last() =~= g.drop_last().update(y, row));
        assert(updated.last() == g.last());
        lemma_grid_count_update(g.drop_last(), y, row, p);
    }
}

/// A row with no element satisfying `p` counts zero.
pub proof fn lemma_row_count_zero<T>(row: Seq<T>, p: spec_fn(T) -> bool)
    requires
        forall|i: int| 0 <= i < row.len() ==> !p(#[trigger] row[i]),
    ensures
        row_count(row, p) == 0,
    decreases row.len(),
{
    if row.len() > 0 {
        lemma_row_count_zero(row.drop_last(), p);
    }
}

/// A grid with no element satisfying `p` counts zero.
pub proof fn lemma_grid_count_zero<T>(g: Seq<Seq<T>>, p: spec_fn(T) -> bool)
    requires
        forall|y: int, x: int|
            0 <= y < g.len() && 0 <= x < (#[trigger] g[y]).len() ==> !p(#[trigger] g[y][x]),
    ensures
        grid_count(g, p) == 0,
    decreases g.len(),
{
    if g.len() > 0 {
        lemma_grid_count_zero(g.drop_last(), p);
        lemma_row_count_zero(g.last(), p);
        assert(g.last() == g[g.len() - 1]);
    }
}

/// The view of a vector of rows, as a sequence of sequences.
pub open spec fn grid_of<T>(g: Vec<Vec<T>>) -> Seq<Seq<T>> {
    g@.map_values(|row: Vec<T>| row@)
}

/// Reads the element at column `x` of row `y`.
pub fn grid_get<T: Copy>(g: &Vec<Vec<T>>, x: usize, y: usize) -> (t: T)
    requires
        (y as int) < grid_of(*g).len(),
        (x as int) < grid_of(*g)[y as int].len(),
    ensures
        t == grid_of(*g)[y as int][x as int],
{
    proof {
        assert(grid_of(*g)[y as int] == g@[y as int]@);
    }
    g[y][x]
}

/// Writes `v` at column `x` of row `y`, the one mutation the engine ever
/// performs on a grid.
pub fn grid_set<T>(g: &mut Vec<Vec<T>>, x: usize, y: usize, v: T)
    requires
        y < old(g)@.len(),
        x < old(g)@[y as int]@.len(),
    ensures
        grid_of(*final(g)) == grid_of(*old(g)).update(
            y as int,
            grid_of(*old(g))[y as int].update(x as int, v),
        ),
{
    let ghost before = grid_of(*g);
    g[y][x] = v;
    proof {
        assert(grid_of(*g) =~= before.update(y as int, before[y as int].update(x as int, v)));
    }
}

} // verus!
