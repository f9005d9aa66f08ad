use vstd::prelude::*;

use crate::coordinates::coord_in_bounds;
use crate::coordinates::Coordinates;
use crate::counting::grid_count;
use crate::counting::grid_dims_ok;
use crate::counting::grid_of;
use crate::counting::grid_set;
use crate::counting::lemma_grid_count_update;
use crate::counting::lemma_grid_count_zero;
use crate::counting::lemma_row_count_update;
use crate::rng::Rng;
use crate::tile::Tile;

verus! {

/// Why an operation of the engine was refused.
#[derive(Clone, Copy, Debug, PartialEq, Eq, Structural)]
pub enum GameError {
    /// The requested field cannot exist: a zero-sized grid, so many bombs
    /// that no safe cell would remain, or bombs that collide with each
    /// other or the safe start.
    InvalidConfiguration,
    /// The coordinate lies outside the grid.
    OutOfBounds,
}

/// True when the cell `(x, y)` lies in a `w` by `h` grid and holds a bomb.
pub open spec fn is_bomb_at(g: Seq<Seq<Tile>>, w: int, h: int, x: int, y: int) -> bool {
    0 <= x < w && 0 <= y < h && g[y][x] is Bomb
}

/// 1 for a bomb at `(x, y)`, 0 otherwise.
pub open spec fn bomb_ind(g: Seq<Seq<Tile>>, w: int, h: int, x: int, y: int) -> int {
    if is_bomb_at(g, w, h, x, y) {
        1
    } else {
        0
    }
}

/// How many of the up-to-eight neighbors of `(x, y)` hold a bomb.
#[verifier::opaque]
pub open spec fn adjacent_bombs(g: Seq<Seq<Tile>>, w: int, h: int, x: int, y: int) -> int {
    bomb_ind(g, w, h, x - 1, y - 1) + bomb_ind(g, w, h, x, y - 1) + bomb_ind(g, w, h, x + 1, y - 1)
        + bomb_ind(g, w, h, x - 1, y) + bomb_ind(g, w, h, x + 1, y)
        + bomb_ind(g, w, h, x - 1, y + 1) + bomb_ind(g, w, h, x, y + 1)
        + bomb_ind(g, w, h, x + 1, y + 1)
}

/// The tile a safe cell must carry: the count of its bomb neighbors, or
/// `Empty` when that count is zero.
pub open spec fn expected_safe_tile(g: Seq<Seq<Tile>>, w: int, h: int, x: int, y: int) -> Tile {
    if adjacent_bombs(g, w, h, x, y) == 0 {
        Tile::Empty
    } else {
        Tile::BombNeighbor(adjacent_bombs(g, w, h, x, y) as u8)
    }
}

/// The tile predicate that marks bombs, for counting.
pub open spec fn is_bomb_tile() -> spec_fn(Tile) -> bool {
    |t: Tile| t is Bomb
}

/// The full shape invariant of a generated field: a `w` by `h` grid that
/// holds exactly `n` bombs, every safe cell carrying exactly the count of
/// its bomb neighbors (or `Empty` when that count is zero).
pub open spec fn tiles_wf(g: Seq<Seq<Tile>>, w: int, h: int, n: int) -> bool {
    &&& grid_dims_ok(g, w, h)
    &&& grid_count(g, is_bomb_tile()) == n
    &&& forall|x: int, y: int|
        0 <= x < w && 0 <= y < h && !(#[trigger] g[y][x] is Bomb) ==> g[y][x]
            == expected_safe_tile(g, w, h, x, y)
}

/// True when the listed coordinates are pairwise distinct.
pub open spec fn coords_distinct(s: Seq<Coordinates>) -> bool {
    forall|i: int, j: int| #![trigger s[i], s[j]] 0 <= i < j < s.len() ==> s[i] != s[j]
}

/// True when every listed coordinate lies in a `w` by `h` grid.
pub open spec fn coords_in_bounds(s: Seq<Coordinates>, w: int, h: int) -> bool {
    forall|i: int| 0 <= i < s.len() ==> coord_in_bounds(#[trigger] s[i], w, h)
}

/// The tile at in-bounds `(x, y)` of a raw grid.
fn tile_at_xy(grid: &Vec<Vec<Tile>>, x: u16, y: u16) -> (t: Tile)
    requires
        (y as int) < grid_of(*grid).len(),
        (x as int) < grid_of(*grid)[y as int].len(),
    ensures
        t == grid_of(*grid)[y as int][x as int],
{
    proof {
        assert(grid_of(*grid)[y as int] == grid@[y as int]@);
    }
    grid[y as usize][x as usize]
}

/// Two grids with the same bomb cells agree on every adjacency count.
proof fn lemma_adjacent_bombs_same(
    g1: Seq<Seq<Tile>>,
    g2: Seq<Seq<Tile>>,
    w: int,
    h: int,
    x: int,
    y: int,
)
    requires
        forall|a: int, b: int| #[trigger] is_bomb_at(g1, w, h, a, b) == is_bomb_at(g2, w, h, a, b),
    ensures
        adjacent_bombs(g1, w, h, x, y) == adjacent_bombs(g2, w, h, x, y),
{
    reveal(adjacent_bombs);
    assert(is_bomb_at(g1, w, h, x - 1, y - 1) == is_bomb_at(g2, w, h, x - 1, y - 1));
    assert(is_bomb_at(g1, w, h, x, y - 1) == is_bomb_at(g2, w, h, x, y - 1));
    assert(is_bomb_at(g1, w, h, x + 1, y - 1) == is_bomb_at(g2, w, h, x + 1, y - 1));
    assert(is_bomb_at(g1, w, h, x - 1, y) == is_bomb_at(g2, w, h, x - 1, y));
    assert(is_bomb_at(g1, w, h, x + 1, y) == is_bomb_at(g2, w, h, x + 1, y));
    assert(is_bomb_at(g1, w, h, x - 1, y + 1) == is_bomb_at(g2, w, h, x - 1, y + 1));
    assert(is_bomb_at(g1, w, h, x, y + 1) == is_bomb_at(g2, w, h, x, y + 1));
    assert(is_bomb_at(g1, w, h, x + 1, y + 1) == is_bomb_at(g2, w, h, x + 1, y + 1));
}

/// Counts the bombs on the up-to-eight neighbors of `(x, y)`.
fn count_adjacent(grid: &Vec<Vec<Tile>>, w: u16, h: u16, x: u16, y: u16) -> (n: u8)
    requires
        grid_dims_ok(grid_of(*grid), w as int, h as int),
        x < w,
        y < h,
    ensures
        n as int == adjacent_bombs(grid_of(*grid), w as int, h as int, x as int, y as int),
{
    let ghost g = grid_of(*grid);
    let ghost wi = w as int;
    let ghost hi = h as int;
    let ghost xi = x as int;
    let ghost yi = y as int;
    let mut n: u8 = 0;
    if x > 0 && y > 0 && tile_at_xy(grid, x - 1, y - 1).is_bomb() {
        n = n + 1;
    }
    proof {
        assert(n as int == bomb_ind(g, wi, hi, xi - 1, yi - 1));
    }
    if y > 0 && tile_at_xy(grid, x, y - 1).is_bomb() {
        n = n + 1;
    }
    proof {
        assert(n as int == bomb_ind(g, wi, hi, xi - 1, yi - 1) + bomb_ind(g, wi, hi, xi, yi - 1));
    }
    if x + 1 < w && y > 0 && tile_at_xy(grid, x + 1, y - 1).is_bomb() {
        n = n + 1;
    }
    if x > 0 && tile_at_xy(grid, x - 1, y).is_bomb() {
        n = n + 1;
    }
    proof {
        assert(n as int == bomb_ind(g, wi, hi, xi - 1, yi - 1) + bomb_ind(g, wi, hi, xi, yi - 1)
            + bomb_ind(g, wi, hi, xi + 1, yi - 1) + bomb_ind(g, wi, hi, xi - 1, yi));
    }
    if x + 1 < w && tile_at_xy(grid, x + 1, y).is_bomb() {
        n = n + 1;
    }
    if x > 0 && y + 1 < h && tile_at_xy(grid, x - 1, y + 1).is_bomb() {
        n = n + 1;
    }
    proof {
        assert(n as int == bomb_ind(g, wi, hi, xi - 1, yi - 1) + bomb_ind(g, wi, hi, xi, yi - 1)
            + bomb_ind(g, wi, hi, xi + 1, yi - 1) + bomb_ind(g, wi, hi, xi - 1, yi)
            + bomb_ind(g, wi, hi, xi + 1, yi) + bomb_ind(g, wi, hi, xi - 1, yi + 1));
    }
    if y + 1 < h && tile_at_xy(grid, x, y + 1).is_bomb() {
        n = n + 1;
    }
    if x + 1 < w && y + 1 < h && tile_at_xy(grid, x + 1, y + 1).is_bomb() {
        n = n + 1;
    }
    proof {
        reveal(adjacent_bombs);
        assert(n as int == adjacent_bombs(g, wi, hi, xi, yi));
    }
    n
}

/// Euclidean division and remainder split a cell index below `w * h` into
/// an in-bounds column and row.
proof fn lemma_cell_index_split(idx: int, w: int, h: int)
    requires
        0 < w,
        0 <= idx < w * h,
    ensures
        0 <= idx % w < w,
        0 <= idx / w < h,
        idx == (idx / w) * w + idx % w,
{
    assert(0 <= idx % w < w && idx == (idx / w) * w + idx % w) by (nonlinear_arith)
        requires
            0 < w,
            0 <= idx,
    ;
    assert(0 <= idx / w < h) by (nonlinear_arith)
        requires
            0 < w,
            0 <= idx < w * h,
    ;
}

/// A row and column below the grid bounds come back unchanged from the
/// index they make up.
proof fn lemma_cell_index_roundtrip(x: int, y: int, w: int)
    requires
        0 < w,
        0 <= x < w,
        0 <= y,
    ensures
        (y * w + x) % w == x,
        (y * w + x) / w == y,
{
    assert((y * w + x) % w == x && (y * w + x) / w == y) by (nonlinear_arith)
        requires
            0 < w,
            0 <= x < w,
            0 <= y,
    ;
}

/// The static field of a game: a rectangular grid of tiles, write-once at
/// generation time.
#[derive(Debug)]
pub struct TileMap {
    width: u16,
    height: u16,
    bomb_count: u32,
    grid: Vec<Vec<Tile>>,
}

impl TileMap {
    /// The grid as a sequence of rows.
    pub closed spec fn grid(self) -> Seq<Seq<Tile>> {
        grid_of(self.grid)
    }

    /// The configured width.
    pub closed spec fn spec_width(self) -> u16 {
        self.width
    }

    /// The configured height.
    pub closed spec fn spec_height(self) -> u16 {
        self.height
    }

    /// The configured number of bombs.
    pub closed spec fn spec_bomb_count(self) -> u32 {
        self.bomb_count
    }

    /// A generated field is well-formed: its grid has the configured
    /// dimensions, holds exactly `bomb_count` bombs, and every safe cell
    /// carries exactly the count of its bomb neighbors.
    pub open spec fn wf(self) -> bool {
        tiles_wf(
            self.grid(),
            self.spec_width() as int,
            self.spec_height() as int,
            self.spec_bomb_count() as int,
        )
    }

    /// The grid really is `width` by `height`.
    pub open spec fn dims_ok(self) -> bool {
        grid_dims_ok(self.grid(), self.spec_width() as int, self.spec_height() as int)
    }

    /// The field's width in cells.
    pub fn width(&self) -> (r: u16)
        ensures
            r == self.spec_width(),
    {
        self.width
    }

    /// The field's height in cells.
    pub fn height(&self) -> (r: u16)
        ensures
            r == self.spec_height(),
    {
        self.height
    }

    /// How many bombs the field holds.
    pub fn bomb_count(&self) -> (r: u32)
        ensures
            r == self.spec_bomb_count(),
    {
        self.bomb_count
    }

    /// The tile at `c`, or `OutOfBounds` when `c` lies outside the grid.
    pub fn tile(&self, c: Coordinates) -> (r: Result<Tile, GameError>)
        requires
            self.dims_ok(),
        ensures
            r is Ok <==> coord_in_bounds(c, self.spec_width() as int, self.spec_height() as int),
            r is Ok ==> r->Ok_0 == self.grid()[c.y as int][c.x as int],
            r is Err ==> r->Err_0 == GameError::OutOfBounds,
    {
        if c.x < self.width && c.y < self.height {
            proof {
                assert(self.grid()[c.y as int] == self.grid@[c.y as int]@);
            }
            Ok(self.grid[c.y as usize][c.x as usize])
        } else {
            Err(GameError::OutOfBounds)
        }
    }

    /// Builds the field for an explicit bomb layout: every listed coordinate
    /// becomes a bomb, and a second pass writes each safe cell's count of
    /// bomb neighbors.  Fails with `InvalidConfiguration` on a zero-sized
    /// grid, a layout that leaves no cell safe, or a repeated bomb
    /// coordinate, and with `OutOfBounds` on a bomb coordinate outside the
    /// grid.
    #[verifier::loop_isolation(false)]
    pub fn with_bombs(width: u16, height: u16, bombs: &Vec<Coordinates>) -> (r: Result<
        TileMap,
        GameError,
    >)
        ensures
            r is Ok <==> (width > 0 && height > 0 && bombs@.len() < width as int * height as int
                && coords_in_bounds(bombs@, width as int, height as int)
                && coords_distinct(bombs@)),
            r is Ok ==> {
                let tm = r->Ok_0;
                &&& tm.spec_width() == width
                &&& tm.spec_height() == height
                &&& tm.spec_bomb_count() == bombs@.len()
                &&& tm.wf()
                &&& forall|c: Coordinates|
                    coord_in_bounds(c, width as int, height as int) ==> (is_bomb_at(
                        tm.grid(),
                        width as int,
                        height as int,
                        c.x as int,
                        c.y as int,
                    ) <==> bombs@.contains(c))
            },
            r is Err ==> r->Err_0 == (if width == 0 || height == 0 || bombs@.len() >= width as int
                * height as int {
                GameError::InvalidConfiguration
            } else if !coords_in_bounds(bombs@, width as int, height as int) {
                GameError::OutOfBounds
            } else {
                GameError::InvalidConfiguration
            }),
    {
        broadcast use vstd::seq_lib::lemma_seq_contains_after_push;

        let ghost wi = width as int;
        let ghost hi = height as int;
        if width == 0 || height == 0 {
            return Err(GameError::InvalidConfiguration);
        }
        proof {
            assert(wi * hi <= 65535 * 65535) by (nonlinear_arith)
                requires
                    0 <= wi <= 65535,
                    0 <= hi <= 65535,
            ;
        }
        if bombs.len() as u64 >= (width as u64) * (height as u64) {
            return Err(GameError::InvalidConfiguration);
        }
        let mut i: usize = 0;
        while i < bombs.len()
            invariant
                i <= bombs@.len(),
                forall|j: int| 0 <= j < i ==> coord_in_bounds(#[trigger] bombs@[j], wi, hi),
            decreases bombs@.len() - i,
        {
            if !(bombs[i].x < width && bombs[i].y < height) {
                return Err(GameError::OutOfBounds);
            }
            i = i + 1;
        }
        let mut i: usize = 0;
        while i < bombs.len()
            invariant
                i <= bombs@.len(),
                forall|a: int, b: int|
                    #![trigger bombs@[a], bombs@[b]]
                    0 <= a < b < bombs@.len() && a < i ==> bombs@[a] != bombs@[b],
            decreases bombs@.len() - i,
        {
            let mut j: usize = i + 1;
            while j < bombs.len()
                invariant
                    i < j <= bombs@.len(),
                    forall|b: int| i < b < j ==> bombs@[i as int] != #[trigger] bombs@[b],
                decreases bombs@.len() - j,
            {
                if bombs[i] == bombs[j] {
                    return Err(GameError::InvalidConfiguration);
                }
                j = j + 1;
            }
            i = i + 1;
        }
        // All checks passed: lay the grid out empty, drop the bombs in, then
        // write the neighbor counts.
        let mut grid: Vec<Vec<Tile>> = Vec::new();
        let mut y: u16 = 0;
        while y < height
            invariant
                y <= height,
                grid_of(grid).len() == y as int,
                forall|b: int| 0 <= b < y ==> (#[trigger] grid_of(grid)[b]).len() == wi,
                forall|b: int, a: int| 0 <= b < y && 0 <= a < wi ==> #[trigger] grid_of(grid)[b][a]
                    == Tile::Empty,
            decreases height - y,
        {
            let mut row: Vec<Tile> = Vec::new();
            let mut x: u16 = 0;
            while x < width
                invariant
                    x <= width,
                    row@.len() == x as int,
                    forall|a: int| 0 <= a < x ==> #[trigger] row@[a] == Tile::Empty,
                decreases width - x,
            {
                row.push(Tile::Empty);
                x = x + 1;
            }
            let ghost before = grid_of(grid);
            grid.push(row);
            proof {
                assert(grid_of(grid) =~= before.push(row@));
            }
            y = y + 1;
        }
        proof {
            lemma_grid_count_zero(grid_of(grid), is_bomb_tile());
        }
        let ghost g0 = grid_of(grid);
        let mut i: usize = 0;
        while i < bombs.len()
            invariant
                i <= bombs@.len(),
                coords_in_bounds(bombs@, wi, hi),
                coords_distinct(bombs@),
                grid_dims_ok(grid_of(grid), wi, hi),
                grid_count(grid_of(grid), is_bomb_tile()) == i as int,
                forall|c: Coordinates|
                    coord_in_bounds(c, wi, hi) ==> (is_bomb_at(
                        grid_of(grid),
                        wi,
                        hi,
                        c.x as int,
                        c.y as int,
                    ) <==> bombs@.subrange(0, i as int).contains(c)),
                forall|a: int, b: int|
                    0 <= a < wi && 0 <= b < hi && !is_bomb_at(grid_of(grid), wi, hi, a, b)
                        ==> #[trigger] grid_of(grid)[b][a] == Tile::Empty,
            decreases bombs@.len() - i,
        {
            let c = bombs[i];
            let ghost before = grid_of(grid);
            proof {
                assert(coord_in_bounds(bombs@[i as int], wi, hi));
                assert(!bombs@.subrange(0, i as int).contains(c)) by {
                    if bombs@.subrange(0, i as int).contains(c) {
                        let j = choose|j: int|
                            0 <= j < i && bombs@.subrange(0, i as int)[j] == c;
                        assert(bombs@[j] == bombs@[i as int]);
                        assert(false);
                    }
                }
            }
            grid_set(&mut grid, c.x as usize, c.y as usize, Tile::Bomb);
            proof {
                let after = grid_of(grid);
                let row = before[c.y as int];
                lemma_row_count_update(row, c.x as int, Tile::Bomb, is_bomb_tile());
                lemma_grid_count_update(
                    before,
                    c.y as int,
                    row.update(c.x as int, Tile::Bomb),
                    is_bomb_tile(),
                );
                assert(!(before[c.y as int][c.x as int] is Bomb));
                assert(grid_count(after, is_bomb_tile()) == i + 1);
                assert(bombs@.subrange(0, i as int + 1) =~= bombs@.subrange(0, i as int).push(
                    bombs@[i as int],
                ));
                assert forall|d: Coordinates| coord_in_bounds(d, wi, hi) implies (is_bomb_at(
                    after,
                    wi,
                    hi,
                    d.x as int,
                    d.y as int,
                ) <==> bombs@.subrange(0, i + 1).contains(d)) by {
                    if d == c {
                    } else {
                        assert(after[d.y as int][d.x as int] == before[d.y as int][d.x as int]);
                    }
                }
            }
            i = i + 1;
        }
        let ghost gb = grid_of(grid);
        proof {
            assert(bombs@.subrange(0, bombs@.len() as int) =~= bombs@);
        }
        // Neighbor pass: every safe cell gets its bomb count written in.
        let mut y: u16 = 0;
        while y < height
            invariant
                y <= height,
                grid_dims_ok(grid_of(grid), wi, hi),
                grid_count(grid_of(grid), is_bomb_tile()) == bombs@.len(),
                forall|a: int, b: int| #[trigger] is_bomb_at(grid_of(grid), wi, hi, a, b)
                    == is_bomb_at(gb, wi, hi, a, b),
                forall|a: int, b: int|
                    0 <= a < wi && 0 <= b < y as int && !is_bomb_at(grid_of(grid), wi, hi, a, b)
                        ==> #[trigger] grid_of(grid)[b][a] == expected_safe_tile(gb, wi, hi, a, b),
                forall|a: int, b: int|
                    0 <= a < wi && y as int <= b < hi ==> #[trigger] grid_of(grid)[b][a]
                        == gb[b][a],
            decreases height - y,
        {
            let mut x: u16 = 0;
            while x < width
                invariant
                    x <= width,
                    y < height,
                    grid_dims_ok(grid_of(grid), wi, hi),
                    grid_count(grid_of(grid), is_bomb_tile()) == bombs@.len(),
                    forall|a: int, b: int| #[trigger] is_bomb_at(grid_of(grid), wi, hi, a, b)
                        == is_bomb_at(gb, wi, hi, a, b),
                    forall|a: int, b: int|
                        0 <= a < wi && 0 <= b < hi && (b < y as int || (b == y as int && a
                            < x as int)) && !is_bomb_at(grid_of(grid), wi, hi, a, b)
                            ==> #[trigger] grid_of(grid)[b][a] == expected_safe_tile(
                            gb,
                            wi,
                            hi,
                            a,
                            b,
                        ),
                    forall|a: int, b: int|
                        0 <= a < wi && 0 <= b < hi && (b > y as int || (b == y as int && a
                            >= x as int)) ==> #[trigger] grid_of(grid)[b][a] == gb[b][a],
                decreases width - x,
            {
                let t = tile_at_xy(&grid, x, y);
                if !t.is_bomb() {
                    let n = count_adjacent(&grid, width, height, x, y);
                    proof {
                        lemma_adjacent_bombs_same(
                            grid_of(grid),
                            gb,
                            wi,
                            hi,
                            x as int,
                            y as int,
                        );
                    }
                    if n > 0 {
                        let ghost before = grid_of(grid);
                        grid_set(&mut grid, x as usize, y as usize, Tile::BombNeighbor(n));
                        proof {
                            let after = grid_of(grid);
                            let row = before[y as int];
                            lemma_row_count_update(
                                row,
                                x as int,
                                Tile::BombNeighbor(n),
                                is_bomb_tile(),
                            );
                            lemma_grid_count_update(
                                before,
                                y as int,
                                row.update(x as int, Tile::BombNeighbor(n)),
                                is_bomb_tile(),
                            );
                            assert forall|a: int, b: int| #[trigger] is_bomb_at(
                                after,
                                wi,
                                hi,
                                a,
                                b,
                            ) == is_bomb_at(gb, wi, hi, a, b) by {
                                if 0 <= a < wi && 0 <= b < hi {
                                    if a == x as int && b == y as int {
                                    } else {
                                        assert(after[b][a] == before[b][a]);
                                    }
                                }
                            }
                        }
                    }
                }
                x = x + 1;
            }
            y = y + 1;
        }
        let bomb_count = bombs.len() as u32;
        let tm = TileMap { width, height, bomb_count, grid };
        proof {
            let g = tm.grid();
            assert forall|a: int, b: int|
                0 <= a < wi && 0 <= b < hi && !(#[trigger] g[b][a] is Bomb) implies g[b][a]
                == expected_safe_tile(g, wi, hi, a, b) by {
                assert(!is_bomb_at(g, wi, hi, a, b));
                assert(g[b][a] == expected_safe_tile(gb, wi, hi, a, b));
                lemma_adjacent_bombs_same(g, gb, wi, hi, a, b);
            }
            assert forall|c: Coordinates| coord_in_bounds(c, wi, hi) implies (is_bomb_at(
                tm.grid(),
                wi,
                hi,
                c.x as int,
                c.y as int,
            ) <==> bombs@.contains(c)) by {
                assert(is_bomb_at(tm.grid(), wi, hi, c.x as int, c.y as int) == is_bomb_at(
                    gb,
                    wi,
                    hi,
                    c.x as int,
                    c.y as int,
                ));
            }
        }
        Ok(tm)
    }

    /// Generates a field of `width` by `height` cells with `bomb_count`
    /// bombs scattered over distinct cells by the seeded generator, then
    /// writes the neighbor counts.  A fixed seed reproduces the same field.
    /// When `safe_start` names a coordinate, that cell is left out of the
    /// draw, so it never holds a bomb.  Fails with `InvalidConfiguration`
    /// on a zero-sized grid or when the bombs would not leave at least one
    /// cell safe, and with `OutOfBounds` on a safe-start coordinate outside
    /// the grid.
    #[verifier::loop_isolation(false)]
    pub fn generate(
        width: u16,
        height: u16,
        bomb_count: u32,
        seed: u64,
        safe_start: Option<Coordinates>,
    ) -> (r: Result<TileMap, GameError>)
        ensures
            r is Ok <==> (width > 0 && height > 0 && (safe_start is Some ==> coord_in_bounds(
                safe_start->0,
                width as int,
                height as int,
            )) && (bomb_count as int) < width as int * height as int),
            r is Ok ==> {
                let tm = r->Ok_0;
                &&& tm.spec_width() == width
                &&& tm.spec_height() == height
                &&& tm.spec_bomb_count() == bomb_count
                &&& tm.wf()
                &&& safe_start matches Some(c) ==> !is_bomb_at(
                    tm.grid(),
                    width as int,
                    height as int,
                    c.x as int,
                    c.y as int,
                )
            },
            r is Err ==> r->Err_0 == (if width == 0 || height == 0 {
                GameError::InvalidConfiguration
            } else if safe_start is Some && !coord_in_bounds(
                safe_start->0,
                width as int,
                height as int,
            ) {
                GameError::OutOfBounds
            } else {
                GameError::InvalidConfiguration
            }),
    {
        let ghost wi = width as int;
        let ghost hi = height as int;
        if width == 0 || height == 0 {
            return Err(GameError::InvalidConfiguration);
        }
        proof {
            assert(wi * hi <= 65535 * 65535) by (nonlinear_arith)
                requires
                    0 <= wi <= 65535,
                    0 <= hi <= 65535,
            ;
        }
        let cap: u64 = (width as u64) * (height as u64);
        let mut have_safe = false;
        let mut skip_idx: u64 = 0;
        match safe_start {
            Some(c) => {
                if !(c.x < width && c.y < height) {
                    return Err(GameError::OutOfBounds);
                }
                have_safe = true;
                proof {
                    assert((c.y as int) * wi + (c.x as int) < wi * hi) by (nonlinear_arith)
                        requires
                            0 < wi,
                            0 <= c.x < wi,
                            0 <= c.y < hi,
                    ;
                }
                skip_idx = (c.y as u64) * (width as u64) + (c.x as u64);
                proof {
                    lemma_cell_index_roundtrip(c.x as int, c.y as int, wi);
                }
            },
            None => {},
        }
        if (bomb_count as u64) >= cap {
            return Err(GameError::InvalidConfiguration);
        }
        let avail: u64 = if have_safe {
            cap - 1
        } else {
            cap
        };
        // Every drawable cell index, in order.
        let mut pool: Vec<u32> = Vec::new();
        let mut idx: u64 = 0;
        while idx < cap
            invariant
                idx <= cap,
                pool@.len() == idx as int - (if have_safe && skip_idx < idx {
                    1int
                } else {
                    0int
                }),
                forall|k: int| 0 <= k < pool@.len() ==> #[trigger] pool@[k] < idx,
                forall|k1: int, k2: int|
                    #![trigger pool@[k1], pool@[k2]]
                    0 <= k1 < k2 < pool@.len() ==> pool@[k1] < pool@[k2],
                forall|k: int| 0 <= k < pool@.len() ==> (have_safe ==> #[trigger] pool@[k]
                    != skip_idx),
            decreases cap - idx,
        {
            if !(have_safe && idx == skip_idx) {
                pool.push(idx as u32);
            }
            idx = idx + 1;
        }
        // Partial shuffle: draw the bomb cells to the front of the pool.
        let bc = bomb_count as usize;
        let mut rng = Rng::new(seed);
        let mut i: usize = 0;
        while i < bc
            invariant
                i <= bc,
                pool@.len() == avail,
                forall|k: int| 0 <= k < pool@.len() ==> #[trigger] pool@[k] < cap,
                forall|k1: int, k2: int|
                    #![trigger pool@[k1], pool@[k2]]
                    0 <= k1 < k2 < pool@.len() ==> pool@[k1] != pool@[k2],
                forall|k: int| 0 <= k < pool@.len() ==> (have_safe ==> #[trigger] pool@[k]
                    != skip_idx),
            decreases bc - i,
        {
            let rem = (pool.len() - i) as u32;
            let j = i + rng.next_below(rem) as usize;
            let ghost before = pool@;
            let a = pool[i];
            let b = pool[j];
            pool[i] = b;
            pool[j] = a;
            proof {
                let after = pool@;
                assert(after == before.update(i as int, b).update(j as int, a));
                assert forall|k1: int, k2: int|
                    #![trigger after[k1], after[k2]]
                    0 <= k1 < k2 < after.len() implies after[k1] != after[k2] by {
                    assert(before[k1] != before[k2]);
                }
            }
            i = i + 1;
        }
        // Turn the drawn indices into coordinates.
        let mut bombs: Vec<Coordinates> = Vec::new();
        let mut i: usize = 0;
        while i < bc
            invariant
                i <= bc,
                bombs@.len() == i as int,
                forall|k: int| 0 <= k < i as int ==> (#[trigger] bombs@[k]).x as int == pool@[k]
                    as int % wi && bombs@[k].y as int == pool@[k] as int / wi,
            decreases bc - i,
        {
            let idx32 = pool[i];
            proof {
                lemma_cell_index_split(idx32 as int, wi, hi);
            }
            let cx = (idx32 % (width as u32)) as u16;
            let cy = (idx32 / (width as u32)) as u16;
            bombs.push(Coordinates { x: cx, y: cy });
            i = i + 1;
        }
        proof {
            assert forall|k: int| 0 <= k < bombs@.len() implies coord_in_bounds(
                #[trigger] bombs@[k],
                wi,
                hi,
            ) by {
                lemma_cell_index_split(pool@[k] as int, wi, hi);
            }
            assert forall|k1: int, k2: int|
                #![trigger bombs@[k1], bombs@[k2]]
                0 <= k1 < k2 < bombs@.len() implies bombs@[k1] != bombs@[k2] by {
                lemma_cell_index_split(pool@[k1] as int, wi, hi);
                lemma_cell_index_split(pool@[k2] as int, wi, hi);
            }
        }
        match TileMap::with_bombs(width, height, &bombs) {
            Ok(tm) => {
                proof {
                    if safe_start is Some {
                        let c = safe_start->0;
                        if is_bomb_at(tm.grid(), wi, hi, c.x as int, c.y as int) {
                            assert(bombs@.contains(c));
                            let k = choose|k: int| 0 <= k < bombs@.len() && bombs@[k] == c;
                            lemma_cell_index_split(pool@[k] as int, wi, hi);
                            lemma_cell_index_roundtrip(c.x as int, c.y as int, wi);
                            assert(pool@[k] == skip_idx);
                            assert(false);
                        }
                    }
                }
                Ok(tm)
            },
            Err(_) => {
                proof {
                    assert(false);
                }
                Err(GameError::InvalidConfiguration)
            },
        }
    }

    /// The tile at in-bounds `(x, y)`, for the engine's own loops.
    pub(crate) fn tile_unchecked(&self, x: u16, y: u16) -> (r: Tile)
        requires
            self.dims_ok(),
            x < self.spec_width(),
            y < self.spec_height(),
        ensures
            r == self.grid()[y as int][x as int],
    {
        proof {
            assert(self.grid()[y as int] == self.grid@[y as int]@);
        }
        self.grid[y as usize][x as usize]
    }
}

} // verus!
