use std::sync::mpsc::channel;

use minesweeper::classic::grid::ServerGrid;
use minesweeper::classic::tile::{ServerTile, TileContent as ClassicContent, TileState as ClassicState};
use minesweeper::game::{GameAction, GameEvent};
use minesweeper::messages::{GenericClientMessage, GenericServerMessage};
use minesweeper::model::CreateLobbyBody;
use minesweeper::server::api::{create, get_index, get_lobby, lobby_ws, LobbyTable};
use minesweeper::server::auth::{authenticate, parse_claims, parse_cookie, refreshed_token, ParsedCookie, User};
use minesweeper::server::lobby::{LobbyHandle, LobbyMessage, LobbyMessageContent, LobbyState};
use minesweeper::server::tile::{Tile as ServerGridTile, TileContent, TileState};
use minesweeper::tile::TileState as State;

const KEY: &[u8] = b"some-secret";

fn is_url_safe(c: char) -> bool {
    c == '_' || c == '-' || c.is_ascii_alphanumeric()
}

fn is_guest(name: &str) -> bool {
    name.len() == 27 && name.starts_with("Guest_") && name[6..].chars().all(is_url_safe)
}

fn listen(state: &mut LobbyState, author: &str) -> Vec<(usize, GenericServerMessage)> {
    let (sender, _receiver) = channel();
    state.handle(LobbyMessage { author: author.to_string(), content: LobbyMessageContent::Listen { listenner: sender } })
}

fn act(state: &mut LobbyState, author: &str, action: GameAction) -> Vec<(usize, GenericServerMessage)> {
    state.handle(LobbyMessage {
        author: author.to_string(),
        content: LobbyMessageContent::GenericClientMessage(GenericClientMessage::GameAction(action)),
    })
}

#[test]
fn a_new_listener_is_sent_the_board() {
    let mut state = LobbyState::new(CreateLobbyBody { grid_width: 4, grid_height: 3 });
    let sent = listen(&mut state, "ann");
    assert_eq!(sent.len(), 1);
    assert_eq!(sent[0].0, 0);
    match &sent[0].1 {
        GenericServerMessage::GameEvent(GameEvent::GameStart { grid, cursors }) => {
            assert_eq!(grid.grid, vec![vec![State::Untouched; 4]; 3]);
            assert!(cursors.is_empty());
        },
        other => panic!("expected the board, got {:?}", other),
    }
    let sent = listen(&mut state, "bob");
    assert_eq!(sent.len(), 1);
    assert_eq!(sent[0].0, 1);
    assert_eq!(state.listenners().len(), 2);
}

#[test]
fn every_listener_is_sent_every_event_in_order() {
    let mut state = LobbyState::new(CreateLobbyBody { grid_width: 5, grid_height: 5 });
    listen(&mut state, "ann");
    listen(&mut state, "bob");
    listen(&mut state, "cid");
    let sent = act(&mut state, "ann", GameAction::Discover { x: 2, y: 2 });
    assert_eq!(sent.len(), 25 * 3);
    for (i, (listener, message)) in sent.iter().enumerate() {
        assert_eq!(*listener, i % 3);
        let GenericServerMessage::GameEvent(event) = message;
        assert!(matches!(event, GameEvent::TileStateUpdate { state: State::Discovered(_), .. }));
    }
    for k in 0..25 {
        let first = format!("{:?}", sent[3 * k].1);
        assert_eq!(format!("{:?}", sent[3 * k + 1].1), first);
        assert_eq!(format!("{:?}", sent[3 * k + 2].1), first);
    }
}

#[test]
fn a_listener_that_applies_its_messages_shows_the_board() {
    let mut state = LobbyState::new(CreateLobbyBody { grid_width: 9, grid_height: 7 });
    listen(&mut state, "ann");
    let joined = listen(&mut state, "bob");
    let mut board = match &joined[0].1 {
        GenericServerMessage::GameEvent(GameEvent::GameStart { grid, .. }) => grid.clone(),
        _ => panic!("a new listener is sent the board"),
    };
    let moves = [
        GameAction::Discover { x: 4, y: 3 },
        GameAction::PlaceFlag { x: 0, y: 0 },
        GameAction::Discover { x: 8, y: 6 },
        GameAction::RemoveFlag { x: 0, y: 0 },
    ];
    for action in moves {
        for (listener, message) in act(&mut state, "ann", action) {
            if listener == 1 {
                minesweeper::client::sync::apply_server_message(&mut board, message);
            }
        }
    }
    let now = match &listen(&mut state, "cid")[0].1 {
        GenericServerMessage::GameEvent(GameEvent::GameStart { grid, .. }) => grid.clone(),
        _ => panic!("a new listener is sent the board"),
    };
    assert_eq!(board.grid, now.grid);
}

#[test]
fn a_move_without_listeners_sends_nothing() {
    let mut state = LobbyState::new(CreateLobbyBody { grid_width: 3, grid_height: 3 });
    assert!(act(&mut state, "ann", GameAction::PlaceFlag { x: 0, y: 0 }).is_empty());
    let sent = listen(&mut state, "bob");
    match &sent[0].1 {
        GenericServerMessage::GameEvent(GameEvent::GameStart { grid, .. }) => assert_eq!(grid.grid[0][0], State::Flagged),
        _ => panic!("expected the board"),
    }
}

#[test]
fn a_cursor_move_names_its_author() {
    let mut state = LobbyState::new(CreateLobbyBody { grid_width: 3, grid_height: 3 });
    listen(&mut state, "ann");
    let sent = act(&mut state, "dan", GameAction::CursorMoved(minesweeper::game::CursorPosition { x: 1, y: 2 }));
    assert_eq!(sent.len(), 1);
    assert!(matches!(&sent[0].1, GenericServerMessage::GameEvent(GameEvent::CursorMoved(name, p)) if name == "dan" && p.x == 1 && p.y == 2));
}

#[test]
fn a_handle_signs_its_messages_with_its_player() {
    let (sender, _receiver) = channel();
    let user = User::default();
    let name = user.username.clone();
    let handle = LobbyHandle { user, lobby_message_sender: sender, lobby_event_receiver: None };
    let message = handle.lobby_message(LobbyMessageContent::GenericClientMessage(GenericClientMessage::GameAction(GameAction::RedrawRequest)));
    assert_eq!(message.author, name);
    assert!(matches!(message.content, LobbyMessageContent::GenericClientMessage(GenericClientMessage::GameAction(GameAction::RedrawRequest))));
}

#[test]
fn lobbies_are_created_under_new_identifiers() {
    let mut lobbies = LobbyTable::new();
    assert_eq!(get_index(&lobbies), 0);
    let a = create(&mut lobbies, "first");
    let b = create(&mut lobbies, "second");
    assert_eq!(a.id.len(), 21);
    assert!(a.id.chars().all(is_url_safe));
    assert_ne!(a.id, b.id);
    assert_eq!(get_index(&lobbies), 2);
    assert_eq!(lobby_ws(&a.id, &lobbies), Some(&"first"));
    assert_eq!(lobby_ws(&b.id, &lobbies), Some(&"second"));
    assert_eq!(get_lobby(a.id.clone(), &lobbies).map(|l| l.id), Some(a.id.clone()));
    assert!(get_lobby("nope".to_string(), &lobbies).is_none());
    assert!(lobby_ws(&"nope".to_string(), &lobbies).is_none());
}

#[test]
fn inserting_under_an_identifier_replaces_its_lobby() {
    let mut lobbies = LobbyTable::new();
    lobbies.insert("x".to_string(), 1);
    lobbies.insert("y".to_string(), 2);
    lobbies.insert("x".to_string(), 3);
    assert_eq!(lobbies.len(), 2);
    assert_eq!(lobbies.get(&"x".to_string()), Some(&3));
    assert!(lobbies.contains_key(&"y".to_string()));
    assert!(!lobbies.contains_key(&"z".to_string()));
}

#[test]
fn a_new_user_is_a_guest_that_needs_a_token() {
    let user = User::default();
    assert!(is_guest(&user.username));
    assert!(user.need_refresh());
    assert_eq!(user.username(), &user.username);
    assert_ne!(User::default().username, user.username);
}

#[test]
fn claims_name_the_player() {
    assert!(matches!(parse_claims(None), ParsedCookie::InvalidToken));
    assert!(matches!(parse_claims(Some(vec![])), ParsedCookie::User(None)));
    assert!(matches!(parse_claims(Some(vec![("role".to_string(), "x".to_string())])), ParsedCookie::User(None)));
    match parse_claims(Some(vec![
        ("role".to_string(), "x".to_string()),
        ("username".to_string(), "bob".to_string()),
        ("username".to_string(), "eve".to_string()),
    ])) {
        ParsedCookie::User(Some(user)) => {
            assert_eq!(user.username, "bob");
            assert!(!user.need_refresh());
        },
        _ => panic!("the username claim names the player"),
    }
}

#[test]
fn a_signed_token_names_its_player_back() {
    let guest = User::default();
    let token = refreshed_token(&guest, KEY).expect("a guest is given a token");
    assert_eq!(token.split('.').count(), 3);
    match parse_cookie(Some(token.clone()), KEY) {
        ParsedCookie::User(Some(user)) => {
            assert_eq!(user.username, guest.username);
            assert!(!user.need_refresh());
            assert!(refreshed_token(&user, KEY).is_none());
        },
        _ => panic!("the token verifies"),
    }
    assert!(matches!(parse_cookie(Some(token.clone()), b"another-secret"), ParsedCookie::InvalidToken));
    assert!(matches!(parse_cookie(Some("not a token".to_string()), KEY), ParsedCookie::InvalidToken));
    assert!(matches!(parse_cookie(None, KEY), ParsedCookie::User(None)));
}

#[test]
fn requests_are_authenticated_by_their_token() {
    let guest = authenticate(None, KEY).expect("no token makes a guest");
    assert!(is_guest(&guest.username));
    assert!(guest.need_refresh());
    assert!(authenticate(Some("x.y.z".to_string()), KEY).is_none());
    let token = refreshed_token(&guest, KEY).unwrap();
    let back = authenticate(Some(token), KEY).expect("a valid token names its player");
    assert_eq!(back.username, guest.username);
    assert!(!back.need_refresh());
}

#[test]
fn tiles_start_empty_and_untouched() {
    assert_eq!(format!("{:?}", ServerGridTile::default()), "Tile { content: Empty, state: Untouched }");
    assert_ne!(TileContent::Number(1), TileContent::Empty);
    assert_ne!(TileState::Flagged, TileState::Untouched);
    assert_eq!(format!("{:?}", ServerTile::default()), "ServerTile { content: Empty, state: Untouched }");
    assert_eq!(ClassicState::default(), ClassicState::Untouched);
    assert_eq!(ClassicContent::default(), ClassicContent::Empty);
}

#[test]
fn a_generated_grid_without_bombs_has_empty_rows() {
    let grid = ServerGrid::generate((3, 5), (1, 1), 0);
    assert_eq!(format!("{:?}", grid), "ServerGrid { tiles: [[], [], []] }");
}

#[test]
fn listeners_whose_end_is_gone_are_forgotten() {
    let mut state = LobbyState::new(CreateLobbyBody { grid_width: 3, grid_height: 3 });
    listen(&mut state, "ann");
    listen(&mut state, "bob");
    listen(&mut state, "cid");
    assert_eq!(state.listenners().len(), 3);
    state.retain_listeners(&vec![true, false, true]);
    assert_eq!(state.listenners().len(), 2);
    let sent = act(&mut state, "ann", GameAction::PlaceFlag { x: 1, y: 1 });
    assert_eq!(sent.iter().map(|(l, _)| *l).collect::<Vec<_>>(), vec![0, 1]);
    assert_eq!(listen(&mut state, "dan")[0].0, 2);
}
