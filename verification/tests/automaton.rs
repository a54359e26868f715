use lifelike::cells::{advance, get_cell, resize, CellOpts, Game, Grid};

fn flags(counts: &[u8]) -> [bool; 9] {
    let mut f = [false; 9];
    for &c in counts {
        f[c as usize] = true;
    }
    f
}

/// The classic-Life emulation: `life=1`, `corners=true`, `grow={3}`,
/// `die={0,1,4,5,6,7,8}`; a count of 2 triggers neither rule.
fn classic_life() -> CellOpts {
    CellOpts { corners: true, life: 1, grow: flags(&[3]), die: flags(&[0, 1, 4, 5, 6, 7, 8]) }
}

fn live_cells(game: &Game) -> Vec<(usize, usize)> {
    let mut out = Vec::new();
    let grid = game.grid();
    for (y, row) in grid.iter().enumerate() {
        for (x, &cell) in row.iter().enumerate() {
            if cell != 0 {
                out.push((x, y));
            }
        }
    }
    out
}

#[test]
fn blinker_oscillates_with_period_two() {
    let mut game = Game::new(classic_life());
    game.resize(5, 5);
    // A horizontal 3-cell line on row 2, columns 1..=3.
    game.set_cell(1, 2, 1);
    game.set_cell(2, 2, 1);
    game.set_cell(3, 2, 1);

    game.advance();
    // It becomes a vertical 3-cell line on column 2, rows 1..=3.
    assert_eq!(live_cells(&game), vec![(2, 1), (2, 2), (2, 3)]);

    game.advance();
    // A second generation restores the horizontal line.
    assert_eq!(live_cells(&game), vec![(1, 2), (2, 2), (3, 2)]);
}

#[test]
fn advance_keeps_dimensions() {
    let mut game = Game::new(classic_life());
    game.resize(7, 4);
    game.set_cell(1, 1, 1);
    for _ in 0..5 {
        game.advance();
        let grid = game.grid();
        assert_eq!(grid.len(), 4);
        for row in grid.iter() {
            assert_eq!(row.len(), 7);
        }
    }
}

#[test]
fn values_stay_within_the_life_ceiling() {
    // A lone cell with zero neighbors grows every generation, capped at 2.
    let opts = CellOpts { corners: false, life: 2, grow: flags(&[0]), die: flags(&[]) };
    let mut game = Game::new(opts);
    game.resize(1, 1);
    game.advance();
    assert_eq!(game.get_cell(0, 0), Some(1));
    game.advance();
    assert_eq!(game.get_cell(0, 0), Some(2));
    game.advance();
    assert_eq!(game.get_cell(0, 0), Some(2));
}

#[test]
fn decay_saturates_at_zero() {
    // Zero neighbors trigger decay; a dead cell stays dead, a live one fades.
    let opts = CellOpts { corners: false, life: 5, grow: flags(&[]), die: flags(&[0]) };
    let mut game = Game::new(opts);
    game.resize(1, 2);
    game.set_cell(0, 0, 1);
    game.advance();
    assert_eq!(game.get_cell(0, 0), Some(0));
    assert_eq!(game.get_cell(0, 1), Some(0));
    game.advance();
    assert_eq!(game.get_cell(0, 0), Some(0));
}

#[test]
fn transition_is_deterministic() {
    let mut a = Game::new(classic_life());
    a.resize(6, 6);
    a.set_cell(2, 2, 1);
    a.set_cell(3, 2, 1);
    a.set_cell(2, 3, 1);
    a.set_cell(3, 3, 1);
    let mut b = a.clone();
    a.advance();
    b.advance();
    assert_eq!(a.grid(), b.grid());
}

#[test]
fn all_dead_grid_stays_dead_without_spontaneous_growth() {
    // grow[0] is false; die[0] is even set, and still nothing changes.
    let opts = CellOpts { corners: true, life: 3, grow: flags(&[3]), die: flags(&[0, 1]) };
    let mut game = Game::new(opts);
    game.resize(4, 4);
    game.advance();
    assert!(live_cells(&game).is_empty());
    game.advance();
    assert!(live_cells(&game).is_empty());
}

#[test]
fn corner_topology_changes_the_outcome() {
    // Only a diagonal neighbor of (0,0) is live: with corners it counts,
    // without it does not.
    let base = CellOpts { corners: false, life: 2, grow: flags(&[1]), die: flags(&[]) };
    let with_corners = CellOpts { corners: true, ..base };

    let mut plain = Game::new(base);
    plain.resize(2, 2);
    plain.set_cell(1, 1, 1);
    plain.advance();

    let mut moore = Game::new(with_corners);
    moore.resize(2, 2);
    moore.set_cell(1, 1, 1);
    moore.advance();

    assert_eq!(plain.get_cell(0, 0), Some(0));
    assert_eq!(moore.get_cell(0, 0), Some(1));
}

#[test]
fn corner_cell_sees_two_or_three_neighbors() {
    // On an all-live grid, (0,0) counts 2 neighbors orthogonally and 3 with
    // corners: negative offsets are never looked up.
    let grow_on_two = CellOpts { corners: false, life: 9, grow: flags(&[2]), die: flags(&[]) };
    let mut game = Game::new(grow_on_two);
    game.resize(3, 3);
    for y in 0..3 {
        for x in 0..3 {
            game.set_cell(x, y, 1);
        }
    }
    game.advance();
    assert_eq!(game.get_cell(0, 0), Some(2));

    let grow_on_three = CellOpts { corners: true, life: 9, grow: flags(&[3]), die: flags(&[]) };
    let mut game = Game::new(grow_on_three);
    game.resize(3, 3);
    for y in 0..3 {
        for x in 0..3 {
            game.set_cell(x, y, 1);
        }
    }
    game.advance();
    assert_eq!(game.get_cell(0, 0), Some(2));
}

#[test]
fn growing_then_shrinking_discards_truncated_state() {
    let mut game = Game::new(classic_life());
    game.resize(3, 3);
    game.set_cell(2, 2, 1);
    game.set_cell(0, 0, 1);
    game.resize(2, 2);
    game.resize(3, 3);
    // The cell in the truncated region is gone; the kept region survives.
    assert_eq!(game.get_cell(2, 2), Some(0));
    assert_eq!(game.get_cell(0, 0), Some(1));
}

#[test]
fn get_and_set_out_of_bounds_are_harmless() {
    let mut game = Game::new(classic_life());
    game.resize(2, 2);
    assert_eq!(game.get_cell(2, 0), None);
    assert_eq!(game.get_cell(0, 2), None);
    game.set_cell(5, 5, 1);
    assert!(live_cells(&game).is_empty());
}

#[test]
fn free_get_cell_reads_row_then_column() {
    let grid: Grid = vec![vec![1, 2], vec![3, 4]];
    assert_eq!(get_cell(&grid, 0, 1), Some(3));
    assert_eq!(get_cell(&grid, 1, 0), Some(2));
    assert_eq!(get_cell(&grid, 2, 0), None);
    assert_eq!(get_cell(&grid, 0, 2), None);
}

#[test]
fn free_resize_pads_with_dead_cells_and_truncates_the_tail() {
    let mut grid: Grid = vec![vec![1, 2, 3], vec![4, 5, 6]];
    resize(&mut grid, 2, 3);
    assert_eq!(grid, vec![vec![1, 2], vec![4, 5], vec![0, 0]]);
    resize(&mut grid, 4, 1);
    assert_eq!(grid, vec![vec![1, 2, 0, 0]]);
    resize(&mut grid, 0, 0);
    assert!(grid.is_empty());
}

#[test]
fn free_advance_writes_the_destination_only() {
    let from: Grid = vec![vec![0, 1, 0], vec![0, 1, 0], vec![0, 1, 0]];
    let mut to: Grid = vec![vec![9; 3]; 3];
    let opts = CellOpts { corners: true, life: 1, grow: flags(&[3]), die: flags(&[0, 1, 4, 5, 6, 7, 8]) };
    advance(&from, &mut to, opts);
    assert_eq!(from, vec![vec![0, 1, 0], vec![0, 1, 0], vec![0, 1, 0]]);
    assert_eq!(to, vec![vec![0, 0, 0], vec![1, 1, 1], vec![0, 0, 0]]);
}

#[test]
fn grid_mut_allows_direct_edits() {
    let mut game = Game::new(classic_life());
    game.resize(2, 1);
    game.grid_mut()[0][1] = 1;
    assert_eq!(game.get_cell(1, 0), Some(1));
    assert_eq!(game.opts().life, 1);
}
