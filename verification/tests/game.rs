use minesweeper::game::discover::discover;
use minesweeper::game::events::copy_event;
use minesweeper::game::{CursorPosition, Game, GameAction, GameEvent, GameInput};
use minesweeper::grid::vec_grid::VecGrid;
use minesweeper::grid::Grid;
use minesweeper::tile::{Tile, TileContent, TileState};

fn input(name: &str, action: GameAction) -> GameInput {
    GameInput { username: name.to_string(), action }
}

fn board(game: &Game) -> Vec<Vec<TileState>> {
    match game.get_start_event() {
        GameEvent::GameStart { grid, .. } => grid.grid,
        _ => panic!("the start event is a game start"),
    }
}

fn grid_of(rows: &[&str]) -> VecGrid<Tile> {
    let grid = rows
        .iter()
        .map(|row| {
            row.chars()
                .map(|c| {
                    let content = match c {
                        '*' => TileContent::Bomb,
                        '.' => TileContent::Empty,
                        d => TileContent::Number(d.to_digit(10).unwrap() as u8),
                    };
                    Tile { content, state: TileState::Untouched }
                })
                .collect()
        })
        .collect();
    VecGrid { grid }
}

#[test]
fn first_discovery_of_a_small_grid_reveals_everything() {
    let mut game = Game::new(VecGrid::<Tile>::new(5, 5));
    game.play(input("ann", GameAction::Discover { x: 2, y: 2 }));
    let events = game.buffered_events();
    assert_eq!(events.len(), 25);
    assert!(events.iter().all(|e| matches!(e,
        GameEvent::TileStateUpdate { state: TileState::Discovered(TileContent::Empty), .. })));
    assert!(board(&game).iter().flatten().all(|s| *s == TileState::Discovered(TileContent::Empty)));
}

#[test]
fn first_discovery_is_never_a_bomb() {
    for _ in 0..20 {
        let mut game = Game::new(VecGrid::<Tile>::new(20, 20));
        game.play(input("ann", GameAction::Discover { x: 10, y: 10 }));
        let events = game.buffered_events();
        assert!(!events.iter().any(|e| matches!(e, GameEvent::GameOver {})));
        assert!(matches!(events[0],
            GameEvent::TileStateUpdate { x: 10, y: 10, state: TileState::Discovered(TileContent::Empty) }));
        let states = board(&game);
        for y in 8..=12 {
            for x in 8..=12 {
                assert!(matches!(states[y][x], TileState::Discovered(_)));
            }
        }
    }
}

#[test]
fn every_event_of_a_move_matches_the_board() {
    let mut game = Game::new(VecGrid::<Tile>::new(12, 9));
    let mut client = VecGrid::<Tile>::new(12, 9).states();
    game.play(input("ann", GameAction::Discover { x: 0, y: 0 }));
    game.play(input("ann", GameAction::PlaceFlag { x: 11, y: 8 }));
    for event in game.buffered_events() {
        if let GameEvent::TileStateUpdate { x, y, state } = event {
            assert!(client.set(x, y, state));
        }
    }
    assert_eq!(client.grid, board(&game));
}

#[test]
fn flag_then_unflag_restores_the_tile() {
    let mut game = Game::new(VecGrid::<Tile>::new(4, 4));
    game.play(input("ann", GameAction::PlaceFlag { x: 1, y: 2 }));
    assert_eq!(board(&game)[2][1], TileState::Flagged);
    game.play(input("bob", GameAction::PlaceFlag { x: 1, y: 2 }));
    game.play(input("ann", GameAction::RemoveFlag { x: 1, y: 2 }));
    assert_eq!(board(&game)[2][1], TileState::Untouched);
    let events = game.buffered_events();
    assert_eq!(events.len(), 2);
    assert!(matches!(events[0], GameEvent::TileStateUpdate { x: 1, y: 2, state: TileState::Flagged }));
    assert!(matches!(events[1], GameEvent::TileStateUpdate { x: 1, y: 2, state: TileState::Untouched }));
}

#[test]
fn flags_outside_the_grid_or_on_the_wrong_state_do_nothing() {
    let mut game = Game::new(VecGrid::<Tile>::new(4, 4));
    game.play(input("ann", GameAction::RemoveFlag { x: 0, y: 0 }));
    game.play(input("ann", GameAction::PlaceFlag { x: 4, y: 0 }));
    game.play(input("ann", GameAction::PlaceFlag { x: -1, y: 0 }));
    assert!(game.buffered_events().is_empty());
    assert!(board(&game).iter().flatten().all(|s| *s == TileState::Untouched));
}

#[test]
fn a_flagged_tile_is_not_discovered() {
    let mut game = Game::new(VecGrid::<Tile>::new(5, 5));
    game.play(input("ann", GameAction::PlaceFlag { x: 0, y: 0 }));
    game.play(input("ann", GameAction::Discover { x: 2, y: 2 }));
    let states = board(&game);
    assert_eq!(states[0][0], TileState::Flagged);
    assert_eq!(states.iter().flatten().filter(|s| matches!(s, TileState::Discovered(_))).count(), 24);
}

#[test]
fn redraw_tells_the_board_and_the_cursors() {
    let mut game = Game::new(VecGrid::<Tile>::new(3, 2));
    game.play(input("ann", GameAction::CursorMoved(CursorPosition { x: 1, y: 1 })));
    game.play(input("ann", GameAction::CursorMoved(CursorPosition { x: 2, y: 0 })));
    game.play(input("bob", GameAction::CursorMoved(CursorPosition { x: 0, y: 0 })));
    game.play(input("bob", GameAction::RedrawRequest));
    let events = game.buffered_events();
    assert_eq!(events.len(), 4);
    assert!(matches!(&events[0], GameEvent::CursorMoved(name, CursorPosition { x: 1, y: 1 }) if name == "ann"));
    match &events[3] {
        GameEvent::GameStart { grid, cursors } => {
            assert_eq!(grid.grid, vec![vec![TileState::Untouched; 3]; 2]);
            let mut cursors = cursors.clone();
            cursors.sort_by(|a, b| a.0.cmp(&b.0));
            assert_eq!(cursors, vec![
                ("ann".to_string(), CursorPosition { x: 2, y: 0 }),
                ("bob".to_string(), CursorPosition { x: 0, y: 0 }),
            ]);
        },
        other => panic!("expected a game start, got {:?}", other),
    }
    assert!(game.buffered_events().is_empty());
}

#[test]
fn discovering_a_bomb_ends_the_game() {
    let mut grid = grid_of(&["*1", "11"]);
    let events = discover(&mut grid, 0, 0);
    assert_eq!(events.len(), 1);
    assert!(matches!(events[0], GameEvent::GameOver {}));
    assert!(grid.grid.iter().flatten().all(|t| t.state == TileState::Untouched));
    assert_eq!(grid.get(0, 0).unwrap().state, TileState::Untouched);
}

#[test]
fn discovering_a_number_uncovers_it_alone() {
    let mut grid = grid_of(&["*1.", "11."]);
    let events = discover(&mut grid, 1, 0);
    assert_eq!(events.len(), 1);
    assert!(matches!(events[0],
        GameEvent::TileStateUpdate { x: 1, y: 0, state: TileState::Discovered(TileContent::Number(1)) }));
    assert_eq!(grid.get(2, 0).unwrap().state, TileState::Untouched);
}

#[test]
fn discovering_an_empty_tile_floods_to_the_numbers() {
    let mut grid = grid_of(&["*1..", "11..", "...."]);
    let events = discover(&mut grid, 3, 2);
    let states: Vec<Vec<TileState>> = grid.states().grid;
    assert_eq!(states[0][0], TileState::Untouched);
    assert_eq!(states[0][1], TileState::Discovered(TileContent::Number(1)));
    assert_eq!(states[1][1], TileState::Discovered(TileContent::Number(1)));
    assert_eq!(states[2][0], TileState::Discovered(TileContent::Empty));
    assert_eq!(events.len(), 11);
    assert!(matches!(events[0], GameEvent::TileStateUpdate { x: 3, y: 2, .. }));
    assert!(!events.iter().any(|e| matches!(e, GameEvent::GameOver {})));
}

#[test]
fn discovering_outside_or_twice_tells_nothing() {
    let mut grid = grid_of(&["..", ".."]);
    assert!(discover(&mut grid, 5, 5).is_empty());
    assert_eq!(discover(&mut grid, 0, 0).len(), 4);
    assert!(discover(&mut grid, 1, 1).is_empty());
}

#[test]
fn copied_events_tell_the_same() {
    let event = GameEvent::CursorMoved("ann".to_string(), CursorPosition { x: 3, y: 4 });
    assert!(matches!(copy_event(&event), GameEvent::CursorMoved(n, CursorPosition { x: 3, y: 4 }) if n == "ann"));
    let start = GameEvent::GameStart {
        grid: VecGrid { grid: vec![vec![TileState::Flagged, TileState::Untouched]] },
        cursors: vec![("bob".to_string(), CursorPosition { x: 0, y: 1 })],
    };
    match copy_event(&start) {
        GameEvent::GameStart { grid, cursors } => {
            assert_eq!(grid.grid, vec![vec![TileState::Flagged, TileState::Untouched]]);
            assert_eq!(cursors, vec![("bob".to_string(), CursorPosition { x: 0, y: 1 })]);
        },
        _ => panic!("a copy keeps the variant"),
    }
}

#[test]
fn discovering_every_tile_never_shows_a_bomb() {
    let mut game = Game::new(VecGrid::<Tile>::new(10, 10));
    let mut game_overs = 0;
    for y in 0..10 {
        for x in 0..10 {
            game.play(input("ann", GameAction::Discover { x, y }));
            game_overs += game.buffered_events().iter().filter(|e| matches!(e, GameEvent::GameOver {})).count();
        }
    }
    let states = board(&game);
    assert!(!states.iter().flatten().any(|s| *s == TileState::Discovered(TileContent::Bomb)));
    let untouched = states.iter().flatten().filter(|s| **s == TileState::Untouched).count();
    assert_eq!(untouched, 20);
    assert_eq!(game_overs, 20);
    // The untouched tiles are the bombs: every number counts them around it.
    for y in 0..10i32 {
        for x in 0..10i32 {
            let around = (-1..=1)
                .flat_map(|dy| (-1..=1).map(move |dx| (dx, dy)))
                .filter(|&(dx, dy)| (dx, dy) != (0, 0))
                .filter(|&(dx, dy)| {
                    let (nx, ny) = (x + dx, y + dy);
                    (0..10).contains(&nx) && (0..10).contains(&ny) && states[ny as usize][nx as usize] == TileState::Untouched
                })
                .count() as u8;
            match states[y as usize][x as usize] {
                TileState::Discovered(TileContent::Number(n)) => assert_eq!(n, around),
                TileState::Discovered(TileContent::Empty) => assert_eq!(around, 0),
                _ => {},
            }
        }
    }
}

#[test]
fn unflag_then_flag_restores_the_flag() {
    let mut game = Game::new(VecGrid::<Tile>::new(3, 3));
    game.play(input("ann", GameAction::PlaceFlag { x: 2, y: 2 }));
    game.buffered_events();
    game.play(input("bob", GameAction::RemoveFlag { x: 2, y: 2 }));
    game.play(input("bob", GameAction::PlaceFlag { x: 2, y: 2 }));
    assert_eq!(board(&game)[2][2], TileState::Flagged);
    assert_eq!(game.buffered_events().len(), 2);
}

#[test]
fn each_revealed_empty_tile_tells_a_game_over_per_bomb_next_to_it() {
    let mut grid = grid_of(&["*.", ".."]);
    let events = discover(&mut grid, 1, 1);
    let overs = events.iter().filter(|e| matches!(e, GameEvent::GameOver {})).count();
    let updates = events.iter().filter(|e| matches!(e, GameEvent::TileStateUpdate { .. })).count();
    assert_eq!((overs, updates), (3, 3));
    assert!(matches!(events[0], GameEvent::TileStateUpdate { x: 1, y: 1, .. }));
    assert_eq!(grid.get(0, 0).unwrap().state, TileState::Untouched);
}

#[test]
fn a_game_can_be_made_on_any_grid() {
    let blank = Tile { content: TileContent::Empty, state: TileState::Untouched };
    let mut game = Game::new(VecGrid { grid: vec![vec![blank; 3]; 300] });
    game.play(input("ann", GameAction::PlaceFlag { x: 1, y: 200 }));
    game.play(input("ann", GameAction::RedrawRequest));
    let events = game.buffered_events();
    assert_eq!(events.len(), 2);
    assert!(matches!(events[0], GameEvent::TileStateUpdate { x: 1, y: 200, state: TileState::Flagged }));
    let states = board(&game);
    assert_eq!(states.len(), 300);
    assert_eq!(states[200][1], TileState::Flagged);
}

#[test]
fn discovery_goes_depth_first_in_neighbour_order() {
    let mut grid = grid_of(&["..", ".."]);
    let events = discover(&mut grid, 0, 0);
    let places: Vec<(i32, i32)> = events
        .iter()
        .map(|e| match e {
            GameEvent::TileStateUpdate { x, y, .. } => (*x, *y),
            _ => panic!("only updates are told"),
        })
        .collect();
    assert_eq!(places, vec![(0, 0), (0, 1), (1, 0), (1, 1)]);
}

#[test]
fn each_changed_tile_gets_one_update_with_its_new_state() {
    let mut grid = grid_of(&["...", "111", "1*1"]);
    let before: Vec<Vec<TileState>> = grid.grid.iter().map(|r| r.iter().map(|t| t.state).collect()).collect();
    let events = discover(&mut grid, 0, 0);
    let mut told: Vec<(usize, usize, TileState)> = Vec::new();
    for e in &events {
        match e {
            GameEvent::TileStateUpdate { x, y, state } => told.push((*x as usize, *y as usize, *state)),
            _ => panic!("only updates are told"),
        }
    }
    let mut changed: Vec<(usize, usize, TileState)> = Vec::new();
    for y in 0..3 {
        for x in 0..3 {
            if grid.grid[y][x].state != before[y][x] {
                changed.push((x, y, grid.grid[y][x].state));
            }
        }
    }
    assert_eq!(changed.len(), 6);
    assert_eq!(told.len(), changed.len());
    for c in &changed {
        assert_eq!(told.iter().filter(|t| *t == c).count(), 1);
    }
}
