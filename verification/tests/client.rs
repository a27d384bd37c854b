use hmac::Mac;
use jwt::SignWithKey;
use minesweeper::client::canvas::{board_can_be_drawn, click_message, sprites_to_draw, CanvasAction, CanvasState, Message};
use minesweeper::client::mouse::{chord_actions, click_actions, handle_mouse_event, MouseButton, MouseEvent};
use minesweeper::client::pages::{parse_u8, LobbyForm, Route};
use minesweeper::client::sprite::Sprite;
use minesweeper::client::sync::apply_server_message;
use minesweeper::client::urls::{lobby_path, socket_path, socket_protocol};
use minesweeper::client::user::{token_from_cookies, user_from_cookies};
use minesweeper::client::viewport::on_click;
use minesweeper::game::{CursorPosition, GameAction, GameEvent};
use minesweeper::grid::vec_grid::VecGrid;
use minesweeper::messages::{GenericClientMessage, GenericServerMessage};
use minesweeper::model::{CreateLobbyBody, Lobby};
use minesweeper::tile::{TileContent, TileState};

const U: TileState = TileState::Untouched;
const F: TileState = TileState::Flagged;

fn num(n: u8) -> TileState {
    TileState::Discovered(TileContent::Number(n))
}

fn empty() -> TileState {
    TileState::Discovered(TileContent::Empty)
}

fn states(rows: Vec<Vec<TileState>>) -> VecGrid<TileState> {
    VecGrid { grid: rows }
}

fn click(x: i32, y: i32, button: MouseButton) -> MouseEvent {
    MouseEvent { x, y, button }
}

#[test]
fn left_click_discovers_an_untouched_tile() {
    let grid = states(vec![vec![U, F], vec![num(1), U]]);
    assert_eq!(handle_mouse_event(click(0, 0, MouseButton::Left), &grid), vec![GameAction::Discover { x: 0, y: 0 }]);
    assert!(handle_mouse_event(click(1, 0, MouseButton::Left), &grid).is_empty());
    assert!(handle_mouse_event(click(0, 1, MouseButton::Left), &grid).is_empty());
    assert!(handle_mouse_event(click(5, 5, MouseButton::Left), &grid).is_empty());
}

#[test]
fn right_click_toggles_a_flag() {
    let grid = states(vec![vec![U, F, num(2)]]);
    assert_eq!(handle_mouse_event(click(0, 0, MouseButton::Right), &grid), vec![GameAction::PlaceFlag { x: 0, y: 0 }]);
    assert_eq!(handle_mouse_event(click(1, 0, MouseButton::Right), &grid), vec![GameAction::RemoveFlag { x: 1, y: 0 }]);
    assert!(handle_mouse_event(click(2, 0, MouseButton::Right), &grid).is_empty());
}

#[test]
fn chord_discovers_the_untouched_neighbours_of_a_satisfied_number() {
    let grid = states(vec![vec![F, U, U], vec![U, num(1), empty()], vec![U, U, U]]);
    let expected = vec![
        GameAction::Discover { x: 0, y: 1 },
        GameAction::Discover { x: 0, y: 2 },
        GameAction::Discover { x: 1, y: 0 },
        GameAction::Discover { x: 1, y: 2 },
        GameAction::Discover { x: 2, y: 0 },
        GameAction::Discover { x: 2, y: 2 },
    ];
    assert_eq!(handle_mouse_event(click(1, 1, MouseButton::Double), &grid), expected);
    assert_eq!(handle_mouse_event(click(1, 1, MouseButton::Middle), &grid), expected);
    assert_eq!(chord_actions(&grid, 1, 1, 1), expected);
}

#[test]
fn chord_with_too_few_or_too_many_flags_does_nothing() {
    let grid = states(vec![vec![F, U, U], vec![U, num(2), U], vec![F, F, U]]);
    assert!(handle_mouse_event(click(1, 1, MouseButton::Double), &grid).is_empty());
    let grid = states(vec![vec![U, U], vec![U, num(1)]]);
    assert!(chord_actions(&grid, 1, 1, 1).is_empty());
    assert!(handle_mouse_event(click(0, 0, MouseButton::Middle), &grid).is_empty());
}

#[test]
fn canvas_clicks_chord_only_when_repeated() {
    let grid = states(vec![vec![F, U], vec![U, num(1)]]);
    assert_eq!(click_actions(&grid, 1, 1, 0, true), vec![GameAction::Discover { x: 0, y: 1 }, GameAction::Discover { x: 1, y: 0 }]);
    assert_eq!(click_actions(&grid, 1, 1, 0, false), vec![GameAction::Discover { x: 1, y: 1 }]);
    assert_eq!(click_actions(&grid, 1, 0, 2, false), vec![GameAction::PlaceFlag { x: 1, y: 0 }]);
    assert_eq!(click_actions(&grid, 0, 0, 2, false), vec![GameAction::RemoveFlag { x: 0, y: 0 }]);
    assert!(click_actions(&grid, 0, 0, 1, false).is_empty());
    assert!(click_actions(&grid, 0, 0, 0, true).is_empty());
    assert!(click_actions(&grid, 3, 0, 0, false).is_empty());
}

#[test]
fn viewport_clicks_repeat_on_the_same_tile_only() {
    let grid = states(vec![vec![F, U], vec![U, num(1)]]);
    let first = on_click(&grid, None, 20, 30, 0, true);
    assert!(first.remember);
    assert_eq!(first.actions, vec![GameAction::Discover { x: 1, y: 1 }]);
    let again = on_click(&grid, Some((20, 30)), 17, 31, 0, true);
    assert!(!again.remember);
    assert_eq!(again.actions, vec![GameAction::Discover { x: 0, y: 1 }, GameAction::Discover { x: 1, y: 0 }]);
    let slow = on_click(&grid, Some((20, 30)), 17, 31, 0, false);
    assert!(slow.remember);
    assert_eq!(slow.actions, vec![GameAction::Discover { x: 1, y: 1 }]);
    let elsewhere = on_click(&grid, Some((20, 30)), 2, 31, 2, true);
    assert!(elsewhere.remember);
    assert_eq!(elsewhere.actions, vec![GameAction::PlaceFlag { x: 0, y: 1 }]);
    // Integer division rounds toward zero: small negative pixels fall on tile 0.
    let negative = on_click(&grid, None, -15, -1, 0, true);
    assert!(negative.remember);
    assert_eq!(negative.actions, vec![GameAction::Discover { x: 0, y: 0 }]);
}

#[test]
fn server_messages_update_the_board() {
    let mut grid = states(vec![vec![U, U], vec![U, U]]);
    apply_server_message(&mut grid, GenericServerMessage::GameEvent(GameEvent::TileStateUpdate { x: 1, y: 0, state: F }));
    assert_eq!(grid.grid, vec![vec![U, F], vec![U, U]]);
    apply_server_message(&mut grid, GenericServerMessage::GameEvent(GameEvent::GameOver {}));
    apply_server_message(&mut grid, GenericServerMessage::GameEvent(GameEvent::CursorMoved("a".to_string(), CursorPosition { x: 0, y: 0 })));
    assert_eq!(grid.grid, vec![vec![U, F], vec![U, U]]);
    apply_server_message(&mut grid, GenericServerMessage::GameEvent(GameEvent::GameStart {
        grid: states(vec![vec![empty(); 3]]),
        cursors: vec![],
    }));
    assert_eq!(grid.grid, vec![vec![empty(); 3]]);
}

#[test]
fn sprites_follow_the_tile_states() {
    assert_eq!(Sprite::from_state(&U), Sprite::Covered);
    assert_eq!(Sprite::from_state(&F), Sprite::Flag);
    assert_eq!(Sprite::from_state(&empty()), Sprite::Empty);
    assert_eq!(Sprite::from_state(&TileState::Discovered(TileContent::Bomb)), Sprite::Bomb);
    let numbers: Vec<Sprite> = (1..=8).map(|n| Sprite::from_state(&num(n))).collect();
    assert_eq!(numbers, vec![
        Sprite::One, Sprite::Two, Sprite::Three, Sprite::Four,
        Sprite::Five, Sprite::Six, Sprite::Seven, Sprite::Eight,
    ]);
    assert_eq!(Sprite::Bomb.source_rect(), (64, 39, 16, 16));
    assert_eq!(Sprite::Empty.source_rect(), (0, 23, 16, 16));
    assert_eq!(Sprite::Eight.source_rect(), (128, 23, 16, 16));
    assert_eq!(Sprite::Flag.source_rect(), (16, 39, 16, 16));
    assert_eq!(Sprite::Covered.source_rect(), (0, 39, 16, 16));
    assert_eq!(Sprite::Player.source_rect(), (112, 39, 16, 16));
}

#[test]
fn the_board_is_drawn_column_by_column() {
    let grid = states(vec![vec![U, F], vec![num(3), empty()], vec![U, U]]);
    let sprites = sprites_to_draw(&grid);
    assert_eq!(sprites, vec![
        (0, 0, Sprite::Covered), (0, 1, Sprite::Three), (0, 2, Sprite::Covered),
        (1, 0, Sprite::Flag), (1, 1, Sprite::Empty), (1, 2, Sprite::Covered),
    ]);
    assert!(sprites_to_draw(&VecGrid::empty()).is_empty());
}

fn canvas(rows: Vec<Vec<TileState>>) -> CanvasState {
    CanvasState { grid: states(rows), frame_requested: false, canvas_ready: true, can_draw: true }
}

#[test]
fn a_frame_is_asked_for_once_until_it_comes() {
    let mut state = canvas(vec![vec![U]]);
    assert!(matches!(state.update(Message::RenderRequest)[..], [CanvasAction::RequestAnimationFrame]));
    assert!(state.update(Message::RenderRequest).is_empty());
    match &state.update(Message::Render)[..] {
        [CanvasAction::Draw(sprites)] => assert_eq!(sprites, &vec![(0, 0, Sprite::Covered)]),
        _ => panic!("a frame draws the board"),
    }
    assert!(!state.frame_requested);
    state.can_draw = false;
    assert!(state.update(Message::Render).is_empty());
}

#[test]
fn canvas_messages_become_actions() {
    let mut state = canvas(vec![vec![U, F]]);
    let actions = state.update(Message::Click(click(1, 0, MouseButton::Right)));
    assert!(matches!(actions[..], [CanvasAction::SendMessage(GameAction::RemoveFlag { x: 1, y: 0 })]));
    let actions = state.update(Message::SendMessage(GameAction::RedrawRequest));
    assert!(matches!(actions[..], [CanvasAction::Send(GenericClientMessage::GameAction(GameAction::RedrawRequest))]));
    let actions = state.update(Message::SocketMessage(GenericServerMessage::GameEvent(GameEvent::TileStateUpdate { x: 0, y: 0, state: F })));
    assert!(matches!(actions[..], [CanvasAction::RenderRequest, CanvasAction::RenderRequest]));
    assert_eq!(state.grid.grid, vec![vec![F, F]]);
    let actions = state.update(Message::SocketMessage(GenericServerMessage::GameEvent(GameEvent::GameOver {})));
    assert!(matches!(actions[..], [CanvasAction::RenderRequest]));
    let actions = state.update(Message::SocketMessage(GenericServerMessage::GameEvent(GameEvent::GameStart {
        grid: states(vec![vec![U; 4]; 3]),
        cursors: vec![],
    })));
    assert!(matches!(actions[..], [
        CanvasAction::Resize { width: 64, height: 48 },
        CanvasAction::RenderRequest,
        CanvasAction::RenderRequest,
    ]));
    state.canvas_ready = false;
    let actions = state.update(Message::SocketMessage(GenericServerMessage::GameEvent(GameEvent::GameStart {
        grid: states(vec![]),
        cursors: vec![],
    })));
    assert!(matches!(actions[..], [CanvasAction::RenderRequest, CanvasAction::RenderRequest]));
}

#[test]
fn clicks_on_the_canvas_name_a_tile_and_a_button() {
    assert!(matches!(click_message(35, 17, 1), Some(Message::Click(MouseEvent { x: 2, y: 1, button: MouseButton::Left }))));
    assert!(matches!(click_message(0, 15, 2), Some(Message::Click(MouseEvent { x: 0, y: 0, button: MouseButton::Right }))));
    assert!(matches!(click_message(16, 16, 3), Some(Message::Click(MouseEvent { x: 1, y: 1, button: MouseButton::Double }))));
    assert!(matches!(click_message(-1, -17, 4), Some(Message::Click(MouseEvent { x: -1, y: -2, button: MouseButton::Middle }))));
    assert!(click_message(10, 10, 0).is_none());
    assert!(click_message(10, 10, 5).is_none());
}

#[test]
fn socket_urls_switch_to_websocket() {
    assert_eq!(socket_protocol("http:"), "ws:");
    assert_eq!(socket_protocol("https:"), "wss:");
    assert_eq!(socket_protocol("file:"), "file:");
    assert_eq!(socket_protocol("httphttp"), "wsws");
    assert_eq!(socket_protocol(""), "");
    let id = "abc".to_string();
    assert_eq!(lobby_path(&id), "/api/lobby/abc");
    assert_eq!(socket_path(&id), "/api/lobby/abc/ws");
}

#[test]
fn bytes_are_read_as_from_str_reads_them() {
    for s in ["0", "7", "255", "+12", "007", "256", "", "+", "-1", "1a", " 1", "99999999999", "+-1", "٣"] {
        assert_eq!(parse_u8(s), s.parse::<u8>().ok(), "reading {:?}", s);
    }
}

#[test]
fn the_lobby_form_keeps_the_last_readable_size() {
    let mut form = LobbyForm::new();
    assert_eq!((form.grid_width, form.grid_height, form.sent), (15, 15, false));
    form.on_grid_width_change(Some("30".to_string()));
    form.on_grid_height_change(Some("abc".to_string()));
    assert_eq!((form.grid_width, form.grid_height), (30, 15));
    form.on_grid_height_change(Some("300".to_string()));
    form.on_grid_width_change(None);
    assert_eq!((form.grid_width, form.grid_height), (30, 15));
    form.on_grid_height_change(Some("8".to_string()));
    let body = form.on_form_submit();
    assert_eq!(body, CreateLobbyBody { grid_width: 30, grid_height: 8 });
    assert!(form.sent);
    assert!(form.on_reply(None).is_none());
    assert!(!form.sent);
    form.on_form_submit();
    match form.on_reply(Some(Lobby { id: "xyz".to_string() })) {
        Some(Route::Lobby { id }) => assert_eq!(id, "xyz"),
        _ => panic!("a created lobby leads to its page"),
    }
}

#[test]
fn the_token_is_read_from_the_cookies() {
    assert_eq!(token_from_cookies("token=abc.def.ghi"), Some("abc.def.ghi".to_string()));
    assert_eq!(token_from_cookies("theme=dark; token=a%20b; other=1"), Some("a b".to_string()));
    assert_eq!(token_from_cookies("theme=dark"), None);
    assert_eq!(token_from_cookies(""), None);
}

fn signed(claims: &serde_json::Value) -> String {
    let key: hmac::Hmac<sha2::Sha256> = hmac::Hmac::new_from_slice(b"any key").unwrap();
    claims.sign_with_key(&key).unwrap()
}

#[test]
fn the_player_is_read_from_the_token_cookie() {
    let guest = minesweeper::server::auth::User::default();
    let token = minesweeper::server::auth::refreshed_token(&guest, b"some-secret").unwrap();
    let user = user_from_cookies(&format!("theme=dark; token={}", token)).expect("the token names a player");
    assert_eq!(user.username, guest.username);

    let mut claims = serde_json::Map::new();
    claims.insert("exp".to_string(), serde_json::Value::from(5));
    claims.insert("username".to_string(), serde_json::Value::from("ann"));
    let claims = serde_json::Value::Object(claims);
    assert_eq!(user_from_cookies(&format!("token={}", signed(&claims))).map(|u| u.username), Some("ann".to_string()));

    let mut claims = serde_json::Map::new();
    claims.insert("username".to_string(), serde_json::Value::from(3));
    assert!(user_from_cookies(&format!("token={}", signed(&serde_json::Value::Object(claims)))).is_none());
    let mut claims = serde_json::Map::new();
    claims.insert("role".to_string(), serde_json::Value::from("x"));
    assert!(user_from_cookies(&format!("token={}", signed(&serde_json::Value::Object(claims)))).is_none());

    let bob = serde_json::Value::Array(vec![serde_json::Value::from("bob")]);
    assert_eq!(user_from_cookies(&format!("token={}", signed(&bob))).map(|u| u.username), Some("bob".to_string()));
    let two = serde_json::Value::Array(vec![serde_json::Value::from("bob"), serde_json::Value::from("x")]);
    assert!(user_from_cookies(&format!("token={}", signed(&two))).is_none());
    let not_text = serde_json::Value::Array(vec![serde_json::Value::from(1)]);
    assert!(user_from_cookies(&format!("token={}", signed(&not_text))).is_none());
    assert!(user_from_cookies(&format!("token={}", signed(&serde_json::Value::Array(vec![])))).is_none());
    assert!(user_from_cookies(&format!("token={}", signed(&serde_json::Value::from("bob")))).is_none());
    assert!(user_from_cookies("token=not.a.token").is_none());
    assert!(user_from_cookies("theme=dark").is_none());
}

#[test]
fn boards_with_numbers_out_of_range_or_short_rows_cannot_be_drawn() {
    assert!(board_can_be_drawn(&states(vec![vec![U, F], vec![num(8), empty()]])));
    assert!(board_can_be_drawn(&VecGrid::empty()));
    assert!(!board_can_be_drawn(&states(vec![vec![num(9)]])));
    assert!(!board_can_be_drawn(&states(vec![vec![num(0)]])));
    assert!(!board_can_be_drawn(&states(vec![vec![U, U], vec![U]])));
    assert!(board_can_be_drawn(&states(vec![vec![U], vec![U, U]])));
    assert!(!board_can_be_drawn(&states(vec![vec![U; 257]])));
}
