use minesweeper::Board;
use minesweeper::CellState;
use minesweeper::Coordinates;
use minesweeper::GameError;
use minesweeper::Outcome;
use minesweeper::Tile;
use minesweeper::TileMap;

fn c(x: u16, y: u16) -> Coordinates {
    Coordinates { x, y }
}

fn count_bombs(tm: &TileMap) -> u32 {
    let mut n = 0;
    for y in 0..tm.height() {
        for x in 0..tm.width() {
            if tm.tile(c(x, y)).unwrap().is_bomb() {
                n += 1;
            }
        }
    }
    n
}

fn all_states(b: &Board) -> Vec<CellState> {
    let mut v = Vec::new();
    for y in 0..b.height() {
        for x in 0..b.width() {
            v.push(b.state(c(x, y)).unwrap());
        }
    }
    v
}

/// A 3x3 field with its one bomb in the corner: the classic cascade board.
fn corner_bomb_board() -> Board {
    let tm = TileMap::with_bombs(3, 3, &vec![c(0, 0)]).unwrap();
    Board::new(tm)
}

#[test]
fn generated_grid_holds_configured_bomb_count() {
    for seed in 0..10u64 {
        let tm = TileMap::generate(9, 8, 10, seed, None).unwrap();
        assert_eq!(tm.width(), 9);
        assert_eq!(tm.height(), 8);
        assert_eq!(tm.bomb_count(), 10);
        assert_eq!(count_bombs(&tm), 10);
    }
}

#[test]
fn generation_is_deterministic_per_seed() {
    let a = TileMap::generate(7, 7, 12, 42, None).unwrap();
    let b = TileMap::generate(7, 7, 12, 42, None).unwrap();
    for y in 0..7 {
        for x in 0..7 {
            assert_eq!(a.tile(c(x, y)).unwrap(), b.tile(c(x, y)).unwrap());
        }
    }
}

#[test]
fn adjacency_counts_match_bomb_neighbors() {
    let tm = TileMap::with_bombs(3, 3, &vec![c(0, 0)]).unwrap();
    assert_eq!(tm.tile(c(0, 0)).unwrap(), Tile::Bomb);
    assert_eq!(tm.tile(c(1, 0)).unwrap(), Tile::BombNeighbor(1));
    assert_eq!(tm.tile(c(0, 1)).unwrap(), Tile::BombNeighbor(1));
    assert_eq!(tm.tile(c(1, 1)).unwrap(), Tile::BombNeighbor(1));
    assert_eq!(tm.tile(c(2, 0)).unwrap(), Tile::Empty);
    assert_eq!(tm.tile(c(0, 2)).unwrap(), Tile::Empty);
    assert_eq!(tm.tile(c(2, 1)).unwrap(), Tile::Empty);
    assert_eq!(tm.tile(c(1, 2)).unwrap(), Tile::Empty);
    assert_eq!(tm.tile(c(2, 2)).unwrap(), Tile::Empty);
}

#[test]
fn adjacency_counts_accumulate_over_several_bombs() {
    // Two bombs diagonal to each other: the cell between them counts both.
    let tm = TileMap::with_bombs(3, 3, &vec![c(0, 0), c(2, 0)]).unwrap();
    assert_eq!(tm.tile(c(1, 0)).unwrap(), Tile::BombNeighbor(2));
    assert_eq!(tm.tile(c(1, 1)).unwrap(), Tile::BombNeighbor(2));
    assert_eq!(tm.tile(c(0, 1)).unwrap(), Tile::BombNeighbor(1));
    assert_eq!(tm.tile(c(2, 1)).unwrap(), Tile::BombNeighbor(1));
    assert_eq!(tm.tile(c(0, 2)).unwrap(), Tile::Empty);
    assert_eq!(tm.tile(c(1, 2)).unwrap(), Tile::Empty);
    assert_eq!(tm.tile(c(2, 2)).unwrap(), Tile::Empty);
}

#[test]
fn full_surround_counts_eight() {
    let bombs = vec![
        c(0, 0),
        c(1, 0),
        c(2, 0),
        c(0, 1),
        c(2, 1),
        c(0, 2),
        c(1, 2),
        c(2, 2),
    ];
    let tm = TileMap::with_bombs(3, 3, &bombs).unwrap();
    assert_eq!(tm.tile(c(1, 1)).unwrap(), Tile::BombNeighbor(8));
}

#[test]
fn revealing_twice_equals_revealing_once() {
    let mut once = corner_bomb_board();
    once.uncover(c(2, 2)).unwrap();
    let mut twice = corner_bomb_board();
    twice.uncover(c(2, 2)).unwrap();
    twice.uncover(c(2, 2)).unwrap();
    assert_eq!(all_states(&once), all_states(&twice));
    assert_eq!(once.evaluate(), twice.evaluate());
}

#[test]
fn corner_cascade_reveals_all_safe_cells_and_wins() {
    let mut b = corner_bomb_board();
    assert_eq!(b.evaluate(), Outcome::InProgress);
    b.uncover(c(2, 2)).unwrap();
    for y in 0..3 {
        for x in 0..3 {
            if (x, y) == (0, 0) {
                assert_eq!(b.state(c(x, y)).unwrap(), CellState::Covered);
            } else {
                assert_eq!(b.state(c(x, y)).unwrap(), CellState::Revealed);
            }
        }
    }
    assert_eq!(b.evaluate(), Outcome::Won);
}

#[test]
fn cascade_stops_at_counted_border() {
    // 5x1 strip with the bomb at the left end: revealing the right end
    // cascades left through the empty cells and the counted border, but
    // never into the bomb's own neighborhood's interior.
    let tm = TileMap::with_bombs(5, 1, &vec![c(0, 0)]).unwrap();
    let mut b = Board::new(tm);
    b.uncover(c(4, 0)).unwrap();
    assert_eq!(b.state(c(4, 0)).unwrap(), CellState::Revealed);
    assert_eq!(b.state(c(3, 0)).unwrap(), CellState::Revealed);
    assert_eq!(b.state(c(2, 0)).unwrap(), CellState::Revealed);
    assert_eq!(b.state(c(1, 0)).unwrap(), CellState::Revealed);
    assert_eq!(b.state(c(0, 0)).unwrap(), CellState::Covered);
    assert_eq!(b.evaluate(), Outcome::Won);
}

#[test]
fn flag_is_a_pure_toggle() {
    let mut b = corner_bomb_board();
    assert_eq!(b.state(c(1, 1)).unwrap(), CellState::Covered);
    b.flag(c(1, 1)).unwrap();
    assert_eq!(b.state(c(1, 1)).unwrap(), CellState::Flagged);
    b.flag(c(1, 1)).unwrap();
    assert_eq!(b.state(c(1, 1)).unwrap(), CellState::Covered);
}

#[test]
fn flag_on_revealed_cell_is_a_no_op() {
    let mut b = corner_bomb_board();
    b.uncover(c(1, 1)).unwrap();
    assert_eq!(b.state(c(1, 1)).unwrap(), CellState::Revealed);
    b.flag(c(1, 1)).unwrap();
    assert_eq!(b.state(c(1, 1)).unwrap(), CellState::Revealed);
}

#[test]
fn revealing_flagged_cell_is_a_no_op() {
    let mut b = corner_bomb_board();
    b.flag(c(2, 2)).unwrap();
    let before = all_states(&b);
    b.uncover(c(2, 2)).unwrap();
    assert_eq!(all_states(&b), before);
    assert_eq!(b.state(c(2, 2)).unwrap(), CellState::Flagged);
    assert_eq!(b.evaluate(), Outcome::InProgress);
}

#[test]
fn revealing_a_bomb_loses_without_cascading() {
    let mut b = corner_bomb_board();
    b.uncover(c(0, 0)).unwrap();
    assert_eq!(b.state(c(0, 0)).unwrap(), CellState::Revealed);
    assert_eq!(b.evaluate(), Outcome::Lost);
    for y in 0..3 {
        for x in 0..3 {
            if (x, y) != (0, 0) {
                assert_eq!(b.state(c(x, y)).unwrap(), CellState::Covered);
            }
        }
    }
}

#[test]
fn lost_only_when_a_bomb_is_revealed() {
    let mut b = corner_bomb_board();
    b.uncover(c(1, 1)).unwrap();
    assert_eq!(b.evaluate(), Outcome::InProgress);
    b.uncover(c(0, 0)).unwrap();
    assert_eq!(b.evaluate(), Outcome::Lost);
}

#[test]
fn too_many_bombs_is_an_invalid_configuration() {
    assert_eq!(
        TileMap::generate(5, 5, 26, 1, None).unwrap_err(),
        GameError::InvalidConfiguration
    );
}

#[test]
fn zero_sized_grid_is_an_invalid_configuration() {
    assert_eq!(
        TileMap::generate(0, 5, 1, 1, None).unwrap_err(),
        GameError::InvalidConfiguration
    );
    assert_eq!(
        TileMap::generate(5, 0, 1, 1, None).unwrap_err(),
        GameError::InvalidConfiguration
    );
}

#[test]
fn full_board_is_an_invalid_configuration() {
    // A bomb on every cell would leave nothing to play: the full board is
    // rejected, the largest playable bomb count is one below it.
    assert_eq!(
        TileMap::generate(5, 5, 25, 3, None).unwrap_err(),
        GameError::InvalidConfiguration
    );
    let tm = TileMap::generate(5, 5, 24, 3, None).unwrap();
    assert_eq!(count_bombs(&tm), 24);
}

#[test]
fn full_layout_is_an_invalid_configuration() {
    assert_eq!(
        TileMap::with_bombs(2, 1, &vec![c(0, 0), c(1, 0)]).unwrap_err(),
        GameError::InvalidConfiguration
    );
}

#[test]
fn duplicate_bombs_are_an_invalid_configuration() {
    assert_eq!(
        TileMap::with_bombs(3, 3, &vec![c(1, 1), c(1, 1)]).unwrap_err(),
        GameError::InvalidConfiguration
    );
}

#[test]
fn bomb_outside_grid_is_out_of_bounds() {
    assert_eq!(
        TileMap::with_bombs(3, 3, &vec![c(3, 0)]).unwrap_err(),
        GameError::OutOfBounds
    );
}

#[test]
fn safe_start_cell_never_holds_a_bomb() {
    for seed in 0..20u64 {
        let tm = TileMap::generate(4, 4, 15, seed, Some(c(0, 0))).unwrap();
        assert_eq!(count_bombs(&tm), 15);
        assert!(!tm.tile(c(0, 0)).unwrap().is_bomb());
    }
}

#[test]
fn safe_start_shrinks_the_capacity_by_one() {
    assert_eq!(
        TileMap::generate(4, 4, 16, 7, Some(c(0, 0))).unwrap_err(),
        GameError::InvalidConfiguration
    );
}

#[test]
fn safe_start_outside_grid_is_out_of_bounds() {
    assert_eq!(
        TileMap::generate(4, 4, 3, 7, Some(c(4, 0))).unwrap_err(),
        GameError::OutOfBounds
    );
}

#[test]
fn actions_outside_the_grid_fail_without_changing_state() {
    let mut b = corner_bomb_board();
    let before = all_states(&b);
    assert_eq!(b.uncover(c(3, 0)).unwrap_err(), GameError::OutOfBounds);
    assert_eq!(b.flag(c(0, 3)).unwrap_err(), GameError::OutOfBounds);
    assert_eq!(b.tile(c(9, 9)).unwrap_err(), GameError::OutOfBounds);
    assert_eq!(b.state(c(9, 9)).unwrap_err(), GameError::OutOfBounds);
    assert_eq!(all_states(&b), before);
}

#[test]
fn coordinate_arithmetic_saturates() {
    let a = Coordinates { x: u16::MAX, y: 3 };
    let r = a.add(Coordinates { x: 1, y: 1 });
    assert_eq!(r, Coordinates { x: u16::MAX, y: 4 });
    let s = Coordinates { x: 0, y: 5 }.sub(Coordinates { x: 2, y: 7 });
    assert_eq!(s, Coordinates { x: 0, y: 0 });
}

#[test]
fn neighbors_enumerate_in_row_major_offset_order() {
    let mid = c(1, 1).neighbors(3, 3);
    assert_eq!(
        mid,
        vec![
            c(0, 0),
            c(1, 0),
            c(2, 0),
            c(0, 1),
            c(2, 1),
            c(0, 2),
            c(1, 2),
            c(2, 2),
        ]
    );
    let corner = c(0, 0).neighbors(3, 3);
    assert_eq!(corner, vec![c(1, 0), c(0, 1), c(1, 1)]);
    let edge = c(2, 1).neighbors(3, 3);
    assert_eq!(edge, vec![c(1, 0), c(2, 0), c(1, 1), c(1, 2), c(2, 2)]);
}

fn stripped_of_ansi(s: &str) -> String {
    let mut out = String::new();
    let mut in_escape = false;
    for ch in s.chars() {
        if in_escape {
            if ch == 'm' {
                in_escape = false;
            }
        } else if ch == '\u{1B}' {
            in_escape = true;
        } else {
            out.push(ch);
        }
    }
    out
}

#[test]
fn console_output_is_the_glyph_alone_once_styling_is_stripped() {
    assert_eq!(stripped_of_ansi(&Tile::Bomb.console_output()), "*");
    assert_eq!(stripped_of_ansi(&Tile::BombNeighbor(1).console_output()), "1");
    assert_eq!(stripped_of_ansi(&Tile::BombNeighbor(4).console_output()), "4");
    assert_eq!(stripped_of_ansi(&Tile::BombNeighbor(8).console_output()), "8");
    assert_eq!(stripped_of_ansi(&Tile::Empty.console_output()), " ");
}

#[test]
fn console_output_carries_each_tile_glyph() {
    assert!(Tile::Bomb.console_output().contains('*'));
    assert!(Tile::BombNeighbor(1).console_output().contains('1'));
    assert!(Tile::BombNeighbor(3).console_output().contains('3'));
    assert!(Tile::BombNeighbor(8).console_output().contains('8'));
    assert!(Tile::Empty.console_output().contains(' '));
}

#[test]
fn is_bomb_marks_only_bombs() {
    assert!(Tile::Bomb.is_bomb());
    assert!(!Tile::BombNeighbor(2).is_bomb());
    assert!(!Tile::Empty.is_bomb());
}
