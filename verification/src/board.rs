use vstd::prelude::*;

use crate::coordinates::coord_in_bounds;
use crate::coordinates::Coordinates;
use crate::counting::grid_count;
use crate::counting::grid_dims_ok;
use crate::counting::grid_get;
use crate::counting::grid_of;
use crate::counting::grid_set;
use crate::counting::lemma_grid_count_update;
use crate::counting::lemma_row_count_update;
use crate::tile::Tile;
use crate::tile_map::GameError;
use crate::tile_map::TileMap;

verus! {

/// What the player has done to a cell.
#[derive(Clone, Copy, Debug, PartialEq, Eq, Structural)]
pub enum CellState {
    /// Untouched.
    Covered,
    /// Marked as a suspected bomb.
    Flagged,
    /// Uncovered; a terminal state.
    Revealed,
}

/// The derived verdict over a whole game.
#[derive(Clone, Copy, Debug, PartialEq, Eq, Structural)]
pub enum Outcome {
    /// Some safe cell is still unrevealed and no bomb has gone off.
    InProgress,
    /// Every safe cell is revealed and no bomb has gone off.
    Won,
    /// A bomb cell was revealed.
    Lost,
}

/// The state of the cell at `c`.
pub open spec fn cell_at(s: Seq<Seq<CellState>>, c: Coordinates) -> CellState {
    s[c.y as int][c.x as int]
}

/// The cell-state predicate that marks the not-yet-revealed cells, for
/// counting.
pub open spec fn not_revealed() -> spec_fn(CellState) -> bool {
    |s: CellState| !(s is Revealed)
}

/// True when `p` is a chain of pairwise-adjacent, in-bounds, `Empty` cells.
pub open spec fn is_empty_path(g: Seq<Seq<Tile>>, w: int, h: int, p: Seq<Coordinates>) -> bool {
    &&& p.len() > 0
    &&& forall|i: int|
        0 <= i < p.len() ==> coord_in_bounds(#[trigger] p[i], w, h)
            && g[p[i].y as int][p[i].x as int] is Empty
    &&& forall|i: int| 0 <= i < p.len() - 1 ==> (#[trigger] p[i]).adjacent(p[i + 1])
}

/// True when `to` can be reached from `from` through a chain of `Empty`
/// cells (both ends included).
pub open spec fn in_region(
    g: Seq<Seq<Tile>>,
    w: int,
    h: int,
    from: Coordinates,
    to: Coordinates,
) -> bool {
    exists|p: Seq<Coordinates>|
        is_empty_path(g, w, h, p) && p[0] == from && p[p.len() - 1] == to
}

/// True when `to` belongs to the connected `Empty` region of `from` or
/// borders it: the cells a cascading reveal starting at `from` uncovers.
pub open spec fn in_closure(
    g: Seq<Seq<Tile>>,
    w: int,
    h: int,
    from: Coordinates,
    to: Coordinates,
) -> bool {
    in_region(g, w, h, from, to) || (coord_in_bounds(to, w, h) && exists|e: Coordinates|
        in_region(g, w, h, from, e) && e.adjacent(to))
}

/// The cell states after a cascading reveal at `c`: every cell of the
/// closure of `c` is `Revealed`, every other cell keeps its state.
pub open spec fn flood_states(
    g: Seq<Seq<Tile>>,
    w: int,
    h: int,
    s: Seq<Seq<CellState>>,
    c: Coordinates,
) -> Seq<Seq<CellState>> {
    Seq::new(
        h as nat,
        |y: int|
            Seq::new(
                w as nat,
                |x: int|
                    if in_closure(g, w, h, c, Coordinates { x: x as u16, y: y as u16 }) {
                        CellState::Revealed
                    } else {
                        s[y][x]
                    },
            ),
    )
}

/// The cell states after a reveal request at `c`: out-of-bounds, flagged
/// and already-revealed requests change nothing; a covered `Empty` cell
/// starts a cascading reveal; any other covered cell is revealed alone.
pub open spec fn reveal_spec(
    g: Seq<Seq<Tile>>,
    w: int,
    h: int,
    s: Seq<Seq<CellState>>,
    c: Coordinates,
) -> Seq<Seq<CellState>> {
    if !coord_in_bounds(c, w, h) {
        s
    } else if !(cell_at(s, c) is Covered) {
        s
    } else if g[c.y as int][c.x as int] is Empty {
        flood_states(g, w, h, s, c)
    } else {
        s.update(c.y as int, s[c.y as int].update(c.x as int, CellState::Revealed))
    }
}

/// The cell states after a flag request at `c`: a covered cell becomes
/// flagged, a flagged cell becomes covered again, and everything else —
/// an out-of-bounds or already revealed cell — stays as it is.
pub open spec fn flag_spec(s: Seq<Seq<CellState>>, w: int, h: int, c: Coordinates) -> Seq<
    Seq<CellState>,
> {
    if !coord_in_bounds(c, w, h) {
        s
    } else {
        match cell_at(s, c) {
            CellState::Covered => s.update(
                c.y as int,
                s[c.y as int].update(c.x as int, CellState::Flagged),
            ),
            CellState::Flagged => s.update(
                c.y as int,
                s[c.y as int].update(c.x as int, CellState::Covered),
            ),
            CellState::Revealed => s,
        }
    }
}

/// True when some bomb cell has been revealed.
pub open spec fn any_bomb_revealed(
    g: Seq<Seq<Tile>>,
    w: int,
    h: int,
    s: Seq<Seq<CellState>>,
) -> bool {
    exists|x: int, y: int|
        #![trigger g[y][x], s[y][x]]
        0 <= x < w && 0 <= y < h && g[y][x] is Bomb && s[y][x] is Revealed
}

/// True when every safe cell has been revealed.
pub open spec fn all_safe_revealed(
    g: Seq<Seq<Tile>>,
    w: int,
    h: int,
    s: Seq<Seq<CellState>>,
) -> bool {
    forall|x: int, y: int|
        #![trigger g[y][x], s[y][x]]
        0 <= x < w && 0 <= y < h && !(g[y][x] is Bomb) ==> s[y][x] is Revealed
}

/// The verdict over a game: `Lost` exactly when a bomb cell is revealed;
/// otherwise `Won` exactly when every safe cell is revealed; otherwise the
/// game is still in progress.
pub open spec fn outcome_spec(
    g: Seq<Seq<Tile>>,
    w: int,
    h: int,
    s: Seq<Seq<CellState>>,
) -> Outcome {
    if any_bomb_revealed(g, w, h, s) {
        Outcome::Lost
    } else if all_safe_revealed(g, w, h, s) {
        Outcome::Won
    } else {
        Outcome::InProgress
    }
}

/// True when every in-bounds neighbor of `c` is revealed.
pub open spec fn all_neighbors_revealed(
    s: Seq<Seq<CellState>>,
    w: int,
    h: int,
    c: Coordinates,
) -> bool {
    forall|d: Coordinates|
        coord_in_bounds(d, w, h) && #[trigger] c.adjacent(d) ==> cell_at(s, d) is Revealed
}

/// True when every revealed `Empty` cell has all its neighbors revealed —
/// the footprint a finished cascading reveal always leaves, and the shape
/// every reachable game state has.
pub open spec fn saturated(g: Seq<Seq<Tile>>, w: int, h: int, s: Seq<Seq<CellState>>) -> bool {
    forall|c: Coordinates|
        #![trigger cell_at(s, c)]
        coord_in_bounds(c, w, h) && g[c.y as int][c.x as int] is Empty && cell_at(s, c) is Revealed
            ==> all_neighbors_revealed(s, w, h, c)
}

/// A coordinate reaches itself through the one-cell chain.
proof fn lemma_region_refl(g: Seq<Seq<Tile>>, w: int, h: int, c: Coordinates)
    requires
        coord_in_bounds(c, w, h),
        g[c.y as int][c.x as int] is Empty,
    ensures
        in_region(g, w, h, c, c),
{
    let p = seq![c];
    assert(is_empty_path(g, w, h, p));
    assert(p[0] == c && p[p.len() - 1] == c);
}

/// A chain to `d` extends by one step to any `Empty` in-bounds neighbor of
/// `d`.
proof fn lemma_region_extend(
    g: Seq<Seq<Tile>>,
    w: int,
    h: int,
    c: Coordinates,
    d: Coordinates,
    n: Coordinates,
)
    requires
        in_region(g, w, h, c, d),
        coord_in_bounds(n, w, h),
        d.adjacent(n),
        g[n.y as int][n.x as int] is Empty,
    ensures
        in_region(g, w, h, c, n),
{
    let p = choose|p: Seq<Coordinates>|
        is_empty_path(g, w, h, p) && p[0] == c && p[p.len() - 1] == d;
    let p2 = p.push(n);
    assert(is_empty_path(g, w, h, p2)) by {
        assert(forall|i: int| 0 <= i < p.len() ==> p2[i] == #[trigger] p[i]);
        assert(p2[p2.len() - 1] == n);
        assert(p2[p.len() - 1] == d);
    }
    assert(p2[0] == c && p2[p2.len() - 1] == n);
}

/// In a state where every revealed `Empty` cell has revealed neighbors,
/// every cell chained to a revealed cell is itself revealed.
proof fn lemma_path_target_revealed(
    g: Seq<Seq<Tile>>,
    w: int,
    h: int,
    s: Seq<Seq<CellState>>,
    p: Seq<Coordinates>,
)
    requires
        is_empty_path(g, w, h, p),
        cell_at(s, p[0]) is Revealed,
        forall|d: Coordinates|
            coord_in_bounds(d, w, h) && g[d.y as int][d.x as int] is Empty && #[trigger] cell_at(
                s,
                d,
            ) is Revealed ==> all_neighbors_revealed(s, w, h, d),
    ensures
        cell_at(s, p[p.len() - 1]) is Revealed,
    decreases p.len(),
{
    if p.len() > 1 {
        let q = p.drop_last();
        assert(is_empty_path(g, w, h, q)) by {
            assert(forall|i: int| 0 <= i < q.len() ==> q[i] == #[trigger] p[i]);
        }
        lemma_path_target_revealed(g, w, h, s, q);
        let prev = p[p.len() - 2];
        assert(cell_at(s, prev) is Revealed);
        assert(prev.adjacent(p[p.len() - 1]));
        assert(all_neighbors_revealed(s, w, h, prev));
    }
}

/// Once every revealed `Empty` cell has revealed neighbors and the start
/// cell is revealed, the start's whole closure is revealed.
proof fn lemma_closure_revealed(
    g: Seq<Seq<Tile>>,
    w: int,
    h: int,
    s: Seq<Seq<CellState>>,
    c: Coordinates,
)
    requires
        cell_at(s, c) is Revealed,
        forall|d: Coordinates|
            coord_in_bounds(d, w, h) && g[d.y as int][d.x as int] is Empty && #[trigger] cell_at(
                s,
                d,
            ) is Revealed ==> all_neighbors_revealed(s, w, h, d),
    ensures
        forall|e: Coordinates| #[trigger] in_closure(g, w, h, c, e) ==> cell_at(s, e) is Revealed,
{
    assert forall|e: Coordinates| #[trigger] in_closure(g, w, h, c, e) implies cell_at(
        s,
        e,
    ) is Revealed by {
        if in_region(g, w, h, c, e) {
            let p = choose|p: Seq<Coordinates>|
                is_empty_path(g, w, h, p) && p[0] == c && p[p.len() - 1] == e;
            lemma_path_target_revealed(g, w, h, s, p);
        } else {
            let b = choose|b: Coordinates| in_region(g, w, h, c, b) && b.adjacent(e);
            let p = choose|p: Seq<Coordinates>|
                is_empty_path(g, w, h, p) && p[0] == c && p[p.len() - 1] == b;
            lemma_path_target_revealed(g, w, h, s, p);
            assert(cell_at(s, b) is Revealed);
            assert(all_neighbors_revealed(s, w, h, b));
        }
    }
}

/// A finished cascade leaves a saturated state: its new reveals cover whole
/// closures, so every revealed `Empty` cell still has revealed neighbors.
proof fn lemma_flood_saturated(
    g: Seq<Seq<Tile>>,
    w: int,
    h: int,
    s0: Seq<Seq<CellState>>,
    s1: Seq<Seq<CellState>>,
    c: Coordinates,
)
    requires
        saturated(g, w, h, s0),
        forall|e: Coordinates|
            #![trigger cell_at(s1, e)]
            coord_in_bounds(e, w, h) && cell_at(s0, e) is Revealed ==> cell_at(s1, e) is Revealed,
        forall|e: Coordinates|
            #![trigger cell_at(s1, e)]
            coord_in_bounds(e, w, h) && cell_at(s1, e) != cell_at(s0, e) ==> in_closure(
                g,
                w,
                h,
                c,
                e,
            ),
        forall|e: Coordinates| #[trigger] in_closure(g, w, h, c, e) ==> cell_at(s1, e) is Revealed,
    ensures
        saturated(g, w, h, s1),
{
    assert forall|e: Coordinates|
        coord_in_bounds(e, w, h) && g[e.y as int][e.x as int] is Empty && #[trigger] cell_at(
            s1,
            e,
        ) is Revealed implies all_neighbors_revealed(s1, w, h, e) by {
        if cell_at(s0, e) is Revealed {
            assert(all_neighbors_revealed(s0, w, h, e));
            assert forall|m: Coordinates|
                coord_in_bounds(m, w, h) && #[trigger] e.adjacent(m) implies cell_at(
                s1,
                m,
            ) is Revealed by {
                assert(cell_at(s0, m) is Revealed);
            }
        } else {
            assert(in_closure(g, w, h, c, e));
            assert(in_region(g, w, h, c, e)) by {
                if !in_region(g, w, h, c, e) {
                    let b = choose|b: Coordinates| in_region(g, w, h, c, b) && b.adjacent(e);
                    lemma_region_extend(g, w, h, c, b, e);
                }
            }
            assert forall|m: Coordinates|
                coord_in_bounds(m, w, h) && #[trigger] e.adjacent(m) implies cell_at(
                s1,
                m,
            ) is Revealed by {
                assert(in_closure(g, w, h, c, m));
            }
        }
    }
}

/// Revealing one non-`Empty` cell of a saturated state leaves it saturated.
proof fn lemma_saturated_after_plain_reveal(
    g: Seq<Seq<Tile>>,
    w: int,
    h: int,
    s0: Seq<Seq<CellState>>,
    s1: Seq<Seq<CellState>>,
    c: Coordinates,
)
    requires
        saturated(g, w, h, s0),
        coord_in_bounds(c, w, h),
        !(g[c.y as int][c.x as int] is Empty),
        forall|e: Coordinates|
            coord_in_bounds(e, w, h) ==> #[trigger] cell_at(s1, e) == (if e == c {
                CellState::Revealed
            } else {
                cell_at(s0, e)
            }),
    ensures
        saturated(g, w, h, s1),
{
    assert forall|e: Coordinates|
        coord_in_bounds(e, w, h) && g[e.y as int][e.x as int] is Empty && #[trigger] cell_at(
            s1,
            e,
        ) is Revealed implies all_neighbors_revealed(s1, w, h, e) by {
        assert(e != c);
        assert(cell_at(s0, e) is Revealed);
        assert(all_neighbors_revealed(s0, w, h, e));
        assert forall|m: Coordinates|
            coord_in_bounds(m, w, h) && #[trigger] e.adjacent(m) implies cell_at(
            s1,
            m,
        ) is Revealed by {
            assert(cell_at(s0, m) is Revealed || m == c);
        }
    }
}

/// Revealing the same coordinate twice leaves exactly the states that one
/// reveal leaves: the first reveal ends with the cell no longer covered, so
/// the second request changes nothing.
pub proof fn lemma_reveal_idempotent(
    g: Seq<Seq<Tile>>,
    w: int,
    h: int,
    s: Seq<Seq<CellState>>,
    c: Coordinates,
)
    requires
        grid_dims_ok(g, w, h),
        grid_dims_ok(s, w, h),
    ensures
        reveal_spec(g, w, h, reveal_spec(g, w, h, s, c), c) == reveal_spec(g, w, h, s, c),
{
    let s1 = reveal_spec(g, w, h, s, c);
    if coord_in_bounds(c, w, h) && cell_at(s, c) is Covered {
        if g[c.y as int][c.x as int] is Empty {
            lemma_region_refl(g, w, h, c);
            assert(in_closure(g, w, h, c, c));
            assert(cell_at(s1, c) is Revealed);
        } else {
            assert(cell_at(s1, c) is Revealed);
        }
    }
}

/// Flagging the same coordinate twice returns every cell to its previous
/// state: the flag is a pure toggle between covered and flagged, and a
/// no-op everywhere else.
pub proof fn lemma_flag_toggle(s: Seq<Seq<CellState>>, w: int, h: int, c: Coordinates)
    requires
        grid_dims_ok(s, w, h),
    ensures
        flag_spec(flag_spec(s, w, h, c), w, h, c) == s,
{
    let s1 = flag_spec(s, w, h, c);
    let s2 = flag_spec(s1, w, h, c);
    if coord_in_bounds(c, w, h) {
        match cell_at(s, c) {
            CellState::Covered => {
                assert(cell_at(s1, c) is Flagged);
                assert(s2 =~~= s);
            },
            CellState::Flagged => {
                assert(cell_at(s1, c) is Covered);
                assert(s2 =~~= s);
            },
            CellState::Revealed => {},
        }
    }
}

/// The verdict is `Lost` exactly when some bomb cell is revealed, `Won`
/// exactly when no bomb cell is revealed and every safe cell is, and
/// `InProgress` exactly when neither holds.
pub proof fn lemma_outcome_characterization(
    g: Seq<Seq<Tile>>,
    w: int,
    h: int,
    s: Seq<Seq<CellState>>,
)
    ensures
        outcome_spec(g, w, h, s) == Outcome::Lost <==> any_bomb_revealed(g, w, h, s),
        outcome_spec(g, w, h, s) == Outcome::Won <==> (!any_bomb_revealed(g, w, h, s)
            && all_safe_revealed(g, w, h, s)),
        outcome_spec(g, w, h, s) == Outcome::InProgress <==> (!any_bomb_revealed(g, w, h, s)
            && !all_safe_revealed(g, w, h, s)),
{
}

/// A reveal of a covered `Empty` cell uncovers its connected `Empty`
/// region together with that region's border, and touches nothing else:
/// after it, a cell is revealed exactly when it was already revealed or
/// lies in the closure of the start.
pub proof fn lemma_reveal_cascade(
    g: Seq<Seq<Tile>>,
    w: int,
    h: int,
    s: Seq<Seq<CellState>>,
    c: Coordinates,
    d: Coordinates,
)
    requires
        grid_dims_ok(g, w, h),
        grid_dims_ok(s, w, h),
        coord_in_bounds(c, w, h),
        coord_in_bounds(d, w, h),
        cell_at(s, c) is Covered,
        g[c.y as int][c.x as int] is Empty,
    ensures
        in_closure(g, w, h, c, d) ==> cell_at(reveal_spec(g, w, h, s, c), d) is Revealed,
        !in_closure(g, w, h, c, d) ==> cell_at(reveal_spec(g, w, h, s, c), d) == cell_at(s, d),
{
}

/// Marks the cell at `d` revealed and accounts for the change.
fn set_revealed(
    states: &mut Vec<Vec<CellState>>,
    d: Coordinates,
    Ghost(w): Ghost<int>,
    Ghost(h): Ghost<int>,
)
    requires
        grid_dims_ok(grid_of(*old(states)), w, h),
        coord_in_bounds(d, w, h),
    ensures
        grid_dims_ok(grid_of(*final(states)), w, h),
        forall|e: Coordinates|
            coord_in_bounds(e, w, h) ==> #[trigger] cell_at(grid_of(*final(states)), e) == (if e
                == d {
                CellState::Revealed
            } else {
                cell_at(grid_of(*old(states)), e)
            }),
        grid_count(grid_of(*final(states)), not_revealed()) == grid_count(
            grid_of(*old(states)),
            not_revealed(),
        ) as int - (if cell_at(grid_of(*old(states)), d) is Revealed {
            0int
        } else {
            1int
        }),
{
    let ghost before = grid_of(*states);
    grid_set(states, d.x as usize, d.y as usize, CellState::Revealed);
    proof {
        let row = before[d.y as int];
        lemma_row_count_update(row, d.x as int, CellState::Revealed, not_revealed());
        lemma_grid_count_update(
            before,
            d.y as int,
            row.update(d.x as int, CellState::Revealed),
            not_revealed(),
        );
        assert forall|e: Coordinates| coord_in_bounds(e, w, h) implies #[trigger] cell_at(
            grid_of(*states),
            e,
        ) == (if e == d {
            CellState::Revealed
        } else {
            cell_at(before, e)
        }) by {
            if e.y == d.y && e.x == d.x {
                assert(e == d);
            }
        }
    }
}

/// The playing surface of one game: the generated field together with the
/// per-cell player state, which starts all covered and moves only through
/// flag toggles and reveals.
pub struct Board {
    tile_map: TileMap,
    states: Vec<Vec<CellState>>,
}

impl Board {
    /// The static tile grid under the game.
    pub closed spec fn grid(self) -> Seq<Seq<Tile>> {
        self.tile_map.grid()
    }

    /// The per-cell player states.
    pub closed spec fn states_view(self) -> Seq<Seq<CellState>> {
        grid_of(self.states)
    }

    /// The field's width.
    pub closed spec fn spec_width(self) -> u16 {
        self.tile_map.spec_width()
    }

    /// The field's height.
    pub closed spec fn spec_height(self) -> u16 {
        self.tile_map.spec_height()
    }

    /// How many bombs the field holds.
    pub closed spec fn spec_bomb_count(self) -> u32 {
        self.tile_map.spec_bomb_count()
    }

    /// A board is well-formed when its field is, its state grid matches the
    /// field's dimensions, and its states could have been produced by flag
    /// and reveal requests: every revealed `Empty` cell has all neighbors
    /// revealed, since only a finished cascade reveals an `Empty` cell.
    pub open spec fn wf(self) -> bool {
        &&& self.tile_map().wf()
        &&& grid_dims_ok(self.states_view(), self.spec_width() as int, self.spec_height() as int)
        &&& saturated(
            self.grid(),
            self.spec_width() as int,
            self.spec_height() as int,
            self.states_view(),
        )
    }

    /// The generated field under the game.
    pub closed spec fn tile_map(self) -> TileMap {
        self.tile_map
    }

    /// Both grids really have the configured dimensions.
    pub open spec fn dims_ok(self) -> bool {
        &&& self.tile_map().dims_ok()
        &&& grid_dims_ok(self.states_view(), self.spec_width() as int, self.spec_height() as int)
    }

    /// Starts a game on `tile_map` with every cell covered.
    #[verifier::loop_isolation(false)]
    pub fn new(tile_map: TileMap) -> (b: Board)
        requires
            tile_map.wf(),
        ensures
            b.wf(),
            b.tile_map() == tile_map,
            b.grid() == tile_map.grid(),
            b.spec_width() == tile_map.spec_width(),
            b.spec_height() == tile_map.spec_height(),
            b.spec_bomb_count() == tile_map.spec_bomb_count(),
            forall|d: Coordinates|
                coord_in_bounds(d, tile_map.spec_width() as int, tile_map.spec_height() as int)
                    ==> cell_at(b.states_view(), d) is Covered,
    {
        let width = tile_map.width();
        let height = tile_map.height();
        let ghost wi = width as int;
        let ghost hi = height as int;
        let mut states: Vec<Vec<CellState>> = Vec::new();
        let mut y: u16 = 0;
        while y < height
            invariant
                y <= height,
                grid_of(states).len() == y as int,
                forall|b: int| 0 <= b < y ==> (#[trigger] grid_of(states)[b]).len() == wi,
                forall|b: int, a: int|
                    0 <= b < y && 0 <= a < wi ==> #[trigger] grid_of(states)[b][a]
                        == CellState::Covered,
            decreases height - y,
        {
            let mut row: Vec<CellState> = Vec::new();
            let mut x: u16 = 0;
            while x < width
                invariant
                    x <= width,
                    row@.len() == x as int,
                    forall|a: int| 0 <= a < x ==> #[trigger] row@[a] == CellState::Covered,
                decreases width - x,
            {
                row.push(CellState::Covered);
                x = x + 1;
            }
            let ghost before = grid_of(states);
            states.push(row);
            proof {
                assert(grid_of(states) =~= before.push(row@));
            }
            y = y + 1;
        }
        let b = Board { tile_map, states };
        proof {
            assert forall|d: Coordinates| coord_in_bounds(d, wi, hi) implies cell_at(
                b.states_view(),
                d,
            ) is Covered by {}
        }
        b
    }

    /// The field's width in cells.
    pub fn width(&self) -> (r: u16)
        ensures
            r == self.spec_width(),
    {
        self.tile_map.width()
    }

    /// The field's height in cells.
    pub fn height(&self) -> (r: u16)
        ensures
            r == self.spec_height(),
    {
        self.tile_map.height()
    }

    /// How many bombs the field holds.
    pub fn bomb_count(&self) -> (r: u32)
        ensures
            r == self.spec_bomb_count(),
    {
        self.tile_map.bomb_count()
    }

    /// The tile at `c`, or `OutOfBounds` when `c` lies outside the grid.
    pub fn tile(&self, c: Coordinates) -> (r: Result<Tile, GameError>)
        requires
            self.wf(),
        ensures
            r is Ok <==> coord_in_bounds(c, self.spec_width() as int, self.spec_height() as int),
            r is Ok ==> r->Ok_0 == self.grid()[c.y as int][c.x as int],
            r is Err ==> r->Err_0 == GameError::OutOfBounds,
    {
        self.tile_map.tile(c)
    }

    /// The player state at `c`, or `OutOfBounds` when `c` lies outside the
    /// grid.
    pub fn state(&self, c: Coordinates) -> (r: Result<CellState, GameError>)
        requires
            self.wf(),
        ensures
            r is Ok <==> coord_in_bounds(c, self.spec_width() as int, self.spec_height() as int),
            r is Ok ==> r->Ok_0 == cell_at(self.states_view(), c),
            r is Err ==> r->Err_0 == GameError::OutOfBounds,
    {
        if c.x < self.tile_map.width() && c.y < self.tile_map.height() {
            Ok(grid_get(&self.states, c.x as usize, c.y as usize))
        } else {
            Err(GameError::OutOfBounds)
        }
    }

    /// Toggles the flag on the cell at `c`: covered becomes flagged,
    /// flagged becomes covered, revealed stays revealed.  Fails with
    /// `OutOfBounds` when `c` lies outside the grid, changing nothing.
    pub fn flag(&mut self, c: Coordinates) -> (r: Result<(), GameError>)
        requires
            old(self).wf(),
        ensures
            final(self).wf(),
            final(self).tile_map() == old(self).tile_map(),
            final(self).grid() == old(self).grid(),
            final(self).spec_width() == old(self).spec_width(),
            final(self).spec_height() == old(self).spec_height(),
            final(self).spec_bomb_count() == old(self).spec_bomb_count(),
            final(self).states_view() == flag_spec(
                old(self).states_view(),
                old(self).spec_width() as int,
                old(self).spec_height() as int,
                c,
            ),
            r is Ok <==> coord_in_bounds(c, old(self).spec_width() as int, old(
                self,
            ).spec_height() as int),
            r is Err ==> r->Err_0 == GameError::OutOfBounds,
    {
        let ghost wi = self.spec_width() as int;
        let ghost hi = self.spec_height() as int;
        let ghost s0 = self.states_view();
        let ghost g = self.grid();
        if !(c.x < self.tile_map.width() && c.y < self.tile_map.height()) {
            return Err(GameError::OutOfBounds);
        }
        let st = grid_get(&self.states, c.x as usize, c.y as usize);
        let flip = match st {
            CellState::Covered => Some(CellState::Flagged),
            CellState::Flagged => Some(CellState::Covered),
            CellState::Revealed => None,
        };
        match flip {
            Some(v) => {
                grid_set(&mut self.states, c.x as usize, c.y as usize, v);
                proof {
                    let s1 = self.states_view();
                    assert(s1 == flag_spec(s0, wi, hi, c));
                    assert forall|d: Coordinates|
                        coord_in_bounds(d, wi, hi) && g[d.y as int][d.x as int] is Empty
                            && #[trigger] cell_at(s1, d) is Revealed implies
                        all_neighbors_revealed(s1, wi, hi, d) by {
                        assert(d != c);
                        assert(cell_at(s0, d) is Revealed);
                        assert(all_neighbors_revealed(s0, wi, hi, d));
                        assert forall|m: Coordinates|
                            coord_in_bounds(m, wi, hi) && #[trigger] d.adjacent(m) implies cell_at(
                            s1,
                            m,
                        ) is Revealed by {
                            assert(cell_at(s0, m) is Revealed);
                            assert(m != c);
                        }
                    }
                }
            },
            None => {
                proof {
                    assert(self.states_view() == flag_spec(s0, wi, hi, c));
                }
            },
        }
        Ok(())
    }

    /// Reveals the whole closure of the covered `Empty` cell at `c` with a
    /// work-list walk over the `Empty` subgraph, revealing each reached
    /// cell at most once.
    #[verifier::loop_isolation(false)]
    #[verifier::rlimit(100)]
    fn flood(&mut self, c: Coordinates)
        requires
            old(self).wf(),
            coord_in_bounds(c, old(self).spec_width() as int, old(self).spec_height() as int),
            old(self).grid()[c.y as int][c.x as int] is Empty,
            cell_at(old(self).states_view(), c) is Covered,
        ensures
            final(self).tile_map() == old(self).tile_map(),
            final(self).states_view() == flood_states(
                old(self).grid(),
                old(self).spec_width() as int,
                old(self).spec_height() as int,
                old(self).states_view(),
                c,
            ),
            final(self).wf(),
    {
        broadcast use vstd::seq_lib::lemma_seq_contains_after_push;

        let width = self.tile_map.width();
        let height = self.tile_map.height();
        let ghost wi = width as int;
        let ghost hi = height as int;
        let ghost g = self.grid();
        let ghost s0 = self.states_view();
        set_revealed(&mut self.states, c, Ghost(wi), Ghost(hi));
        let mut stack: Vec<Coordinates> = Vec::new();
        stack.push(c);
        proof {
            lemma_region_refl(g, wi, hi, c);
            assert forall|e: Coordinates|
                coord_in_bounds(e, wi, hi) && g[e.y as int][e.x as int] is Empty && #[trigger]
            cell_at(self.states_view(), e) is Revealed && !stack@.contains(e) implies
                all_neighbors_revealed(self.states_view(), wi, hi, e) by {
                assert(e != c);
                assert(cell_at(s0, e) is Revealed);
                assert(all_neighbors_revealed(s0, wi, hi, e));
                assert forall|m: Coordinates|
                    coord_in_bounds(m, wi, hi) && #[trigger] e.adjacent(m) implies cell_at(
                    self.states_view(),
                    m,
                ) is Revealed by {
                    assert(cell_at(s0, m) is Revealed);
                }
            }
        }
        while stack.len() != 0
            invariant
                self.tile_map == old(self).tile_map,
                grid_dims_ok(self.states_view(), wi, hi),
                forall|k: int|
                    0 <= k < stack@.len() ==> in_region(g, wi, hi, c, #[trigger] stack@[k])
                        && coord_in_bounds(stack@[k], wi, hi) && g[stack@[k].y as int][stack@[
                        k
                    ].x as int] is Empty && cell_at(self.states_view(), stack@[k]) is Revealed,
                cell_at(self.states_view(), c) is Revealed,
                forall|e: Coordinates|
                    #![trigger cell_at(self.states_view(), e)]
                    coord_in_bounds(e, wi, hi) && cell_at(s0, e) is Revealed ==> cell_at(
                        self.states_view(),
                        e,
                    ) is Revealed,
                forall|e: Coordinates|
                    #![trigger cell_at(self.states_view(), e)]
                    coord_in_bounds(e, wi, hi) && cell_at(self.states_view(), e) != cell_at(s0, e)
                        ==> (cell_at(self.states_view(), e) is Revealed && in_closure(
                        g,
                        wi,
                        hi,
                        c,
                        e,
                    )),
                forall|e: Coordinates|
                    #![trigger cell_at(self.states_view(), e)]
                    coord_in_bounds(e, wi, hi) && g[e.y as int][e.x as int] is Empty && cell_at(
                        self.states_view(),
                        e,
                    ) is Revealed && !stack@.contains(e) ==> all_neighbors_revealed(
                        self.states_view(),
                        wi,
                        hi,
                        e,
                    ),
            decreases grid_count(self.states_view(), not_revealed()), stack@.len(),
        {
            let ghost stackpre = stack@;
            let d = stack.pop().unwrap();
            let ghost stack1 = stack@;
            proof {
                assert(stackpre =~= stack@.push(d));
            }
            let ghost count0 = grid_count(self.states_view(), not_revealed());
            let ns = d.neighbors(width, height);
            let mut k: usize = 0;
            while k < ns.len()
                invariant
                    k <= ns@.len(),
                    self.tile_map == old(self).tile_map,
                    grid_dims_ok(self.states_view(), wi, hi),
                    forall|j: int|
                        0 <= j < stack@.len() ==> in_region(g, wi, hi, c, #[trigger] stack@[j])
                            && coord_in_bounds(stack@[j], wi, hi) && g[stack@[j].y as int][stack@[
                            j
                        ].x as int] is Empty && cell_at(self.states_view(), stack@[j]) is Revealed,
                    cell_at(self.states_view(), c) is Revealed,
                    cell_at(self.states_view(), d) is Revealed,
                    forall|j: int|
                        0 <= j < k ==> cell_at(self.states_view(), #[trigger] ns@[j]) is Revealed,
                    forall|e: Coordinates|
                        #![trigger cell_at(self.states_view(), e)]
                        coord_in_bounds(e, wi, hi) && cell_at(s0, e) is Revealed ==> cell_at(
                            self.states_view(),
                            e,
                        ) is Revealed,
                    forall|e: Coordinates|
                        #![trigger cell_at(self.states_view(), e)]
                        coord_in_bounds(e, wi, hi) && cell_at(self.states_view(), e) != cell_at(
                            s0,
                            e,
                        ) ==> (cell_at(self.states_view(), e) is Revealed && in_closure(
                            g,
                            wi,
                            hi,
                            c,
                            e,
                        )),
                    forall|e: Coordinates|
                        #![trigger cell_at(self.states_view(), e)]
                        coord_in_bounds(e, wi, hi) && g[e.y as int][e.x as int] is Empty && cell_at(
                            self.states_view(),
                            e,
                        ) is Revealed && !stack@.contains(e) && e != d ==> all_neighbors_revealed(
                            self.states_view(),
                            wi,
                            hi,
                            e,
                        ),
                    grid_count(self.states_view(), not_revealed()) <= count0,
                    grid_count(self.states_view(), not_revealed()) == count0 ==> stack@ == stack1,
                decreases ns@.len() - k,
            {
                let n = ns[k];
                let ghost stackprev = stack@;
                let st = grid_get(&self.states, n.x as usize, n.y as usize);
                if st != CellState::Revealed {
                    let ghost sprev = self.states_view();
                    set_revealed(&mut self.states, n, Ghost(wi), Ghost(hi));
                    proof {
                        if g[n.y as int][n.x as int] is Empty {
                            lemma_region_extend(g, wi, hi, c, d, n);
                        }
                        assert(in_closure(g, wi, hi, c, n));
                    }
                    let t = self.tile_map.tile_unchecked(n.x, n.y);
                    let is_empty_tile = match t {
                        Tile::Empty => true,
                        _ => false,
                    };
                    if is_empty_tile {
                        stack.push(n);
                    }
                    proof {
                        assert forall|e: Coordinates|
                            coord_in_bounds(e, wi, hi) && g[e.y as int][e.x as int] is Empty
                                && #[trigger] cell_at(self.states_view(), e) is Revealed
                                && !stack@.contains(e) && e != d implies all_neighbors_revealed(
                            self.states_view(),
                            wi,
                            hi,
                            e,
                        ) by {
                            if e == n {
                                assert(stack@ == stackprev.push(n));
                                assert(stack@.contains(n));
                                assert(false);
                            } else {
                                assert(cell_at(sprev, e) is Revealed);
                                assert(!stackprev.contains(e));
                                assert(all_neighbors_revealed(sprev, wi, hi, e));
                                assert forall|m: Coordinates|
                                    coord_in_bounds(m, wi, hi) && #[trigger] e.adjacent(m) implies
                                    cell_at(self.states_view(), m) is Revealed by {
                                    assert(cell_at(sprev, m) is Revealed);
                                }
                            }
                        }
                    }
                }
                k = k + 1;
            }
            proof {
                assert(all_neighbors_revealed(self.states_view(), wi, hi, d)) by {
                    assert forall|m: Coordinates|
                        coord_in_bounds(m, wi, hi) && #[trigger] d.adjacent(m) implies cell_at(
                        self.states_view(),
                        m,
                    ) is Revealed by {
                        assert(ns@.contains(m));
                        let j = choose|j: int| 0 <= j < ns@.len() && ns@[j] == m;
                        assert(cell_at(self.states_view(), ns@[j]) is Revealed);
                    }
                }
            }
        }
        proof {
            let sfin = self.states_view();
            lemma_closure_revealed(g, wi, hi, sfin, c);
            let flooded = flood_states(g, wi, hi, s0, c);
            assert forall|yy: int, xx: int| 0 <= yy < hi && 0 <= xx < wi implies sfin[yy][xx]
                == flooded[yy][xx] by {
                let e = Coordinates { x: xx as u16, y: yy as u16 };
                assert(cell_at(sfin, e) == sfin[yy][xx]);
                if in_closure(g, wi, hi, c, e) {
                    assert(cell_at(sfin, e) is Revealed);
                } else {
                    assert(cell_at(sfin, e) == cell_at(s0, e));
                }
            }
            assert(sfin =~~= flooded);
            lemma_flood_saturated(g, wi, hi, s0, sfin, c);
        }
    }

    /// Reveals the cell at `c`.  A flagged or already revealed cell is left
    /// alone; a bomb cell is revealed by itself (the game is then lost); a
    /// counted cell is revealed by itself; an `Empty` cell starts the
    /// cascading reveal of its whole connected region and that region's
    /// counted border.  Fails with `OutOfBounds` when `c` lies outside the
    /// grid, changing nothing.
    #[verifier::rlimit(100)]
    pub fn uncover(&mut self, c: Coordinates) -> (r: Result<(), GameError>)
        requires
            old(self).wf(),
        ensures
            final(self).wf(),
            final(self).tile_map() == old(self).tile_map(),
            final(self).grid() == old(self).grid(),
            final(self).spec_width() == old(self).spec_width(),
            final(self).spec_height() == old(self).spec_height(),
            final(self).spec_bomb_count() == old(self).spec_bomb_count(),
            final(self).states_view() == reveal_spec(
                old(self).grid(),
                old(self).spec_width() as int,
                old(self).spec_height() as int,
                old(self).states_view(),
                c,
            ),
            r is Ok <==> coord_in_bounds(c, old(self).spec_width() as int, old(
                self,
            ).spec_height() as int),
            r is Err ==> r->Err_0 == GameError::OutOfBounds,
    {
        let ghost wi = self.spec_width() as int;
        let ghost hi = self.spec_height() as int;
        let ghost s0 = self.states_view();
        let ghost g = self.grid();
        if !(c.x < self.tile_map.width() && c.y < self.tile_map.height()) {
            return Err(GameError::OutOfBounds);
        }
        let st = grid_get(&self.states, c.x as usize, c.y as usize);
        if st != CellState::Covered {
            return Ok(());
        }
        let t = self.tile_map.tile_unchecked(c.x, c.y);
        let is_empty_tile = match t {
            Tile::Empty => true,
            _ => false,
        };
        if is_empty_tile {
            self.flood(c);
        } else {
            set_revealed(&mut self.states, c, Ghost(wi), Ghost(hi));
            proof {
                let s1 = self.states_view();
                let expected = reveal_spec(g, wi, hi, s0, c);
                assert forall|yy: int, xx: int| 0 <= yy < hi && 0 <= xx < wi implies s1[yy][xx]
                    == expected[yy][xx] by {
                    let e = Coordinates { x: xx as u16, y: yy as u16 };
                    assert(cell_at(s1, e) == s1[yy][xx]);
                    if e == c {
                    } else {
                        assert(cell_at(s1, e) == cell_at(s0, e));
                    }
                }
                assert(s1 =~~= expected);
                lemma_saturated_after_plain_reveal(g, wi, hi, s0, s1, c);
            }
        }
        Ok(())
    }

    /// The game's verdict for the current states, recomputed on demand:
    /// `Lost` exactly when a bomb cell is revealed, else `Won` exactly when
    /// every safe cell is revealed, else `InProgress`.
    #[verifier::loop_isolation(false)]
    #[verifier::rlimit(60)]
    pub fn evaluate(&self) -> (r: Outcome)
        requires
            self.dims_ok(),
        ensures
            r == outcome_spec(
                self.grid(),
                self.spec_width() as int,
                self.spec_height() as int,
                self.states_view(),
            ),
    {
        let width = self.tile_map.width();
        let height = self.tile_map.height();
        let ghost wi = width as int;
        let ghost hi = height as int;
        let ghost g = self.grid();
        let ghost s = self.states_view();
        let mut bomb_revealed = false;
        let mut safe_unrevealed = false;
        let mut y: u16 = 0;
        while y < height
            invariant
                y <= height,
                bomb_revealed == exists|a: int, b: int|
                    #![trigger g[b][a], s[b][a]]
                    0 <= a < wi && 0 <= b < y as int && g[b][a] is Bomb && s[b][a] is Revealed,
                safe_unrevealed == exists|a: int, b: int|
                    #![trigger g[b][a], s[b][a]]
                    0 <= a < wi && 0 <= b < y as int && !(g[b][a] is Bomb) && !(s[b][a]
                        is Revealed),
            decreases height - y,
        {
            let mut x: u16 = 0;
            while x < width
                invariant
                    x <= width,
                    y < height,
                    bomb_revealed == exists|a: int, b: int|
                        #![trigger g[b][a], s[b][a]]
                        0 <= a < wi && 0 <= b < hi && (b < y as int || (b == y as int && a
                            < x as int)) && g[b][a] is Bomb && s[b][a] is Revealed,
                    safe_unrevealed == exists|a: int, b: int|
                        #![trigger g[b][a], s[b][a]]
                        0 <= a < wi && 0 <= b < hi && (b < y as int || (b == y as int && a
                            < x as int)) && !(g[b][a] is Bomb) && !(s[b][a] is Revealed),
                decreases width - x,
            {
                let t = self.tile_map.tile_unchecked(x, y);
                let st = grid_get(&self.states, x as usize, y as usize);
                if t.is_bomb() {
                    if st == CellState::Revealed {
                        bomb_revealed = true;
                    }
                } else {
                    if st != CellState::Revealed {
                        safe_unrevealed = true;
                    }
                }
                x = x + 1;
            }
            y = y + 1;
        }
        if bomb_revealed {
            Outcome::Lost
        } else if !safe_unrevealed {
            proof {
                assert forall|a: int, b: int|
                    #![trigger g[b][a], s[b][a]]
                    0 <= a < wi && 0 <= b < hi && !(g[b][a] is Bomb) implies s[b][a]
                    is Revealed by {}
            }
            Outcome::Won
        } else {
            Outcome::InProgress
        }
    }
}

} // verus!
