use minesweeper::grid::chunk::GridChunk;
use minesweeper::grid::impl_vec_grid::VecGridConfig;
use minesweeper::grid::vec_grid::VecGrid;
use minesweeper::grid::{iter_around, neighbor, Grid, GridIndex};
use minesweeper::tile::{Tile, TileContent, TileState};

fn blank() -> Tile {
    Tile { content: TileContent::Empty, state: TileState::Untouched }
}

fn count_bombs(grid: &VecGrid<Tile>) -> usize {
    grid.grid.iter().flatten().filter(|t| t.content == TileContent::Bomb).count()
}

fn bombs_around(grid: &VecGrid<Tile>, x: i32, y: i32) -> u8 {
    let mut n = 0;
    for dy in -1..=1 {
        for dx in -1..=1 {
            if (dx, dy) != (0, 0) {
                if let Some(t) = grid.get(x + dx, y + dy) {
                    if t.content == TileContent::Bomb {
                        n += 1;
                    }
                }
            }
        }
    }
    n
}

fn assert_numbers_count_bombs(grid: &VecGrid<Tile>) {
    for y in 0..grid.grid.len() as i32 {
        for x in 0..grid.grid[y as usize].len() as i32 {
            let around = bombs_around(grid, x, y);
            match grid.get(x, y).unwrap().content {
                TileContent::Bomb => {},
                TileContent::Empty => assert_eq!(around, 0),
                TileContent::Number(n) => {
                    assert_eq!(n, around);
                    assert!((1..=8).contains(&n));
                },
            }
        }
    }
}

#[test]
fn new_grid_is_blank_rows_of_the_given_width() {
    let grid = VecGrid::<Tile>::new(3, 2);
    assert_eq!(grid.grid.len(), 2);
    for row in &grid.grid {
        assert_eq!(row.len(), 3);
        assert!(row.iter().all(|t| *t == blank()));
    }
}

#[test]
fn zero_sized_grids_have_no_tiles() {
    assert_eq!(VecGrid::<Tile>::new(0, 0).grid.len(), 0);
    assert!(VecGrid::<Tile>::new(0, 3).grid.iter().all(|r| r.is_empty()));
    assert_eq!(VecGrid::<TileState>::empty().grid.len(), 0);
}

#[test]
fn default_grids_are_twenty_by_twenty() {
    let tiles = VecGrid::<Tile>::default();
    assert_eq!(tiles.grid.len(), 20);
    assert!(tiles.grid.iter().all(|r| r.len() == 20 && r.iter().all(|t| *t == blank())));
    let states = VecGrid::<TileState>::default();
    assert_eq!(states.grid.len(), 20);
    assert!(states.grid.iter().all(|r| r.len() == 20 && r.iter().all(|s| *s == TileState::Untouched)));
}

#[test]
fn get_finds_tiles_inside_only() {
    let mut grid = VecGrid::<Tile>::new(2, 2);
    grid.grid[1][0].content = TileContent::Bomb;
    assert_eq!(grid.get(0, 1).unwrap().content, TileContent::Bomb);
    assert_eq!(grid.get(1, 0).unwrap().content, TileContent::Empty);
    assert!(grid.get(2, 0).is_none());
    assert!(grid.get(0, 2).is_none());
    assert!(grid.get(-1, 0).is_none());
    assert!(grid.get(0, -1).is_none());
    assert!(grid.get(256, 0).is_none());
}

#[test]
fn set_replaces_a_tile_inside_only() {
    let mut grid = VecGrid::<TileState>::empty();
    assert!(!grid.set(0, 0, TileState::Flagged));
    let mut grid = VecGrid::<Tile>::new(3, 3).states();
    assert!(grid.set(2, 1, TileState::Flagged));
    assert_eq!(grid.grid[1][2], TileState::Flagged);
    assert!(!grid.set(3, 1, TileState::Flagged));
    assert!(!grid.set(-1, 1, TileState::Flagged));
    let flagged = grid.grid.iter().flatten().filter(|s| **s == TileState::Flagged).count();
    assert_eq!(flagged, 1);
}

#[test]
fn states_shows_each_tile_state() {
    let mut grid = VecGrid::<Tile>::new(2, 1);
    grid.grid[0][1] = Tile { content: TileContent::Number(2), state: TileState::Discovered(TileContent::Number(2)) };
    let states = grid.states();
    assert_eq!(states.grid, vec![vec![TileState::Untouched, TileState::Discovered(TileContent::Number(2))]]);
}

#[test]
fn as_client_shows_the_state_only() {
    let tile = Tile { content: TileContent::Bomb, state: TileState::Flagged };
    assert_eq!(tile.as_client(), TileState::Flagged);
    assert_eq!(Tile::default(), blank());
    assert_eq!(TileContent::default(), TileContent::Empty);
    assert_eq!(TileState::default(), TileState::Untouched);
}

#[test]
fn try_add_stays_within_a_byte() {
    assert_eq!(3u8.try_add(-1), Some(2));
    assert_eq!(0u8.try_add(-1), None);
    assert_eq!(255u8.try_add(1), None);
    assert_eq!(254u8.try_add(1), Some(255));
    assert_eq!(7u8.try_add(0), Some(7));
}

#[test]
fn neighbour_offsets_come_in_order() {
    let offsets: Vec<(i8, i8)> = (0..8).map(neighbor).collect();
    assert_eq!(offsets, vec![(-1, -1), (-1, 0), (-1, 1), (0, -1), (0, 1), (1, -1), (1, 0), (1, 1)]);
}

#[test]
fn iter_around_walks_existing_neighbours_in_order() {
    let grid = VecGrid::<Tile>::new(3, 3);
    let mut it = iter_around(&grid, 0, 0);
    let mut seen = vec![];
    while let Some((pos, _)) = it.next() {
        seen.push(pos);
    }
    assert_eq!(seen, vec![(0, 1), (1, 0), (1, 1)]);

    let mut it = iter_around(&grid, 1, 1);
    let mut seen = vec![];
    while let Some((pos, _)) = it.next() {
        seen.push(pos);
    }
    assert_eq!(seen, vec![(0, 0), (0, 1), (0, 2), (1, 0), (1, 2), (2, 0), (2, 1), (2, 2)]);
    assert!(it.next().is_none());

    let mut it = iter_around(&grid, -5, 1);
    assert!(it.next().is_none());
}

#[test]
fn place_bombs_counts_each_bomb_around() {
    let mut grid = VecGrid::<Tile>::new(3, 3);
    grid.place_bombs(&vec![(1, 1)]);
    for y in 0..3 {
        for x in 0..3 {
            let expected = if (x, y) == (1, 1) { TileContent::Bomb } else { TileContent::Number(1) };
            assert_eq!(grid.grid[y][x].content, expected);
        }
    }
    grid.place_bombs(&vec![(0, 0)]);
    assert_eq!(grid.grid[0][0].content, TileContent::Bomb);
    assert_eq!(grid.grid[0][1].content, TileContent::Number(2));
    assert_eq!(grid.grid[1][0].content, TileContent::Number(2));
    assert_eq!(grid.grid[2][2].content, TileContent::Number(1));
    assert_numbers_count_bombs(&grid);
}

#[test]
fn place_bombs_on_the_edge_skips_outside_tiles() {
    let mut grid = VecGrid::<Tile>::new(2, 1);
    grid.place_bombs(&vec![(1, 0)]);
    assert_eq!(grid.grid[0][0].content, TileContent::Number(1));
    assert_eq!(grid.grid[0][1].content, TileContent::Bomb);
}

#[test]
fn populate_places_a_fifth_of_the_tiles_away_from_the_start() {
    for _ in 0..20 {
        let mut grid = VecGrid::<Tile>::new(10, 10);
        grid.populate(4, 5);
        assert_eq!(count_bombs(&grid), 20);
        for y in 0..10i32 {
            for x in 0..10i32 {
                if (x - 4).abs() <= 2 && (y - 5).abs() <= 2 {
                    assert_ne!(grid.get(x, y).unwrap().content, TileContent::Bomb);
                }
            }
        }
        assert!(grid.grid.iter().flatten().all(|t| t.state == TileState::Untouched));
        assert_numbers_count_bombs(&grid);
    }
}

#[test]
fn populate_with_few_candidates_fills_them_all() {
    let mut grid = VecGrid::<Tile>::new(6, 5);
    grid.populate(2, 2);
    // Every tile is within two of (2, 2) except the sixth column.
    assert_eq!(count_bombs(&grid), 5);
    for y in 0..5 {
        assert_eq!(grid.grid[y][5].content, TileContent::Bomb);
    }
    assert_numbers_count_bombs(&grid);
}

#[test]
fn populate_far_from_a_negative_start_can_use_every_tile() {
    let mut grid = VecGrid::<Tile>::new(5, 5);
    grid.populate(-1, 0);
    assert_eq!(count_bombs(&grid), 5);
    assert_numbers_count_bombs(&grid);
}

#[test]
fn populate_handles_256_rows_and_256_columns() {
    let mut tall = VecGrid { grid: vec![vec![blank(); 255]; 256] };
    tall.populate(0, 255);
    assert_eq!(count_bombs(&tall), 256 * 255 / 5);
    assert_ne!(tall.grid[255][0].content, TileContent::Bomb);
    assert_numbers_count_bombs(&tall);

    let mut wide = VecGrid { grid: vec![vec![blank(); 256]; 255] };
    wide.populate(255, 0);
    assert_eq!(count_bombs(&wide), 256 * 255 / 5);
    assert_ne!(wide.grid[0][255].content, TileContent::Bomb);
    assert_numbers_count_bombs(&wide);
}

#[test]
fn build_keeps_the_start_cross_free_of_bombs() {
    let config = VecGridConfig { width: 10, height: 8 };
    for _ in 0..20 {
        let grid = config.build(3, 3);
        assert_eq!(grid.grid.len(), 8);
        assert!(grid.grid.iter().all(|r| r.len() == 10));
        assert_eq!(count_bombs(&grid), 16);
        for y in 0..8i32 {
            for x in 0..10i32 {
                if (x - 3).abs() <= 1 || (y - 3).abs() <= 1 {
                    assert_ne!(grid.get(x, y).unwrap().content, TileContent::Bomb);
                }
            }
        }
        assert_numbers_count_bombs(&grid);
    }
}

#[test]
fn from_config_with_no_room_places_nothing() {
    let grid = VecGrid::<Tile>::from_config(&VecGridConfig { width: 3, height: 3 }, 1, 1);
    assert_eq!(count_bombs(&grid), 0);
    assert!(grid.grid.iter().flatten().all(|t| *t == blank()));
}

#[test]
fn chunk_sides_are_its_size() {
    assert_eq!(GridChunk::<4, u8>::get_width(), 4);
    assert_eq!(GridChunk::<4, u8>::get_height(), 4);
    assert_eq!(GridChunk::<0, Tile>::get_width(), 0);
}

#[test]
fn populate_keeps_a_high_count_where_no_bomb_can_fall_next_to_it() {
    let mut grid = VecGrid::<Tile>::new(10, 10);
    grid.grid[5][4].content = TileContent::Number(250);
    grid.populate(4, 5);
    assert_eq!(count_bombs(&grid), 20);
    assert_eq!(grid.grid[5][4].content, TileContent::Number(250));
}

#[test]
fn populate_counts_bombs_on_a_blank_grid_with_any_states() {
    let mut grid = VecGrid::<Tile>::new(8, 6);
    grid.grid[0][0].state = TileState::Flagged;
    grid.grid[5][7].state = TileState::Discovered(TileContent::Empty);
    grid.populate(3, 3);
    assert_eq!(count_bombs(&grid), 9);
    assert_eq!(grid.grid[0][0].state, TileState::Flagged);
    assert_eq!(grid.grid[5][7].state, TileState::Discovered(TileContent::Empty));
    assert_numbers_count_bombs(&grid);
}
