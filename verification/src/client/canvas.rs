//! The board component: what it does with each message it gets.

use vstd::prelude::*;

use super::mouse::{handle_mouse_event, mouse_actions, MouseButton, MouseEvent};
use super::sprite::{drawable, state_sprite, Sprite};
use super::sync::{applicable, apply_event, apply_server_message};
use crate::game::{GameAction, GameEvent};
use crate::grid::populate::width_of;
use crate::grid::vec_grid::VecGrid;
use crate::grid::Grid;
use crate::messages::{GenericClientMessage, GenericServerMessage};
use crate::tile::{TileContent, TileState};

verus! {

/// What the board component is told.
#[derive(Debug)]
pub enum Message {
    /// Draw the board at the next animation frame.
    RenderRequest,
    /// The animation frame has come: draw the board.
    Render,
    /// The board was clicked.
    Click(MouseEvent),
    /// The server sent a message.
    SocketMessage(GenericServerMessage),
    /// Send this action to the server.
    SendMessage(GameAction),
}

/// What the board component asks its surroundings to do, in order.
pub enum CanvasAction {
    /// Ask for an animation frame, which comes back as `Message::Render`.
    RequestAnimationFrame,
    /// Draw each sprite at its tile, given as column and row.
    Draw(Vec<(i32, i32, Sprite)>),
    /// Give the canvas this size, in pixels.
    Resize { width: u32, height: u32 },
    /// Tell the component `Message::RenderRequest`.
    RenderRequest,
    /// Tell the component `Message::SendMessage` with this action.
    SendMessage(GameAction),
    /// Send this message to the server.
    Send(GenericClientMessage),
}

/// What the board component knows: the board, whether an animation frame
/// is awaited, whether the canvas exists, and whether it can be drawn on.
pub struct CanvasState {
    pub grid: VecGrid<TileState>,
    pub frame_requested: bool,
    pub canvas_ready: bool,
    pub can_draw: bool,
}

/// The sprites of column `x` of `g`, top to bottom, for `h` rows.
pub open spec fn column_sprites(g: Seq<Seq<TileState>>, x: int, h: nat) -> Seq<(i32, i32, Sprite)> {
    Seq::new(h, |y: int| (x as i32, y as i32, state_sprite(g[y][x])))
}

/// The sprites of the first `w` columns of `g`, column after column.
pub open spec fn board_sprites(g: Seq<Seq<TileState>>, w: nat) -> Seq<(i32, i32, Sprite)>
    decreases w,
{
    if w == 0 {
        Seq::empty()
    } else {
        board_sprites(g, (w - 1) as nat) + column_sprites(g, w - 1, g.len())
    }
}

/// The board can be drawn: at most 256 columns and rows, every row as long
/// as the first at least, and every tile has a sprite.
pub open spec fn can_be_drawn(g: Seq<Seq<TileState>>) -> bool {
    &&& g.len() <= 256
    &&& width_of(g) <= 256
    &&& forall|y: int| 0 <= y < g.len() ==> width_of(g) <= #[trigger] g[y].len()
    &&& forall|x: int, y: int| 0 <= y < g.len() && 0 <= x < g[y].len() ==> drawable(#[trigger] g[y][x])
}

/// Whether the board can be drawn, as `can_be_drawn` says.
pub fn board_can_be_drawn(grid: &VecGrid<TileState>) -> (r: bool)
    ensures
        r == can_be_drawn(grid.rows()),
{
    let ghost g = grid.rows();
    let height = grid.grid.len();
    let width: usize = if height > 0 { grid.grid[0].len() } else { 0 };
    if height > 256 || width > 256 {
        return false;
    }
    let mut y: usize = 0;
    while y < height
        invariant
            g == grid.rows(),
            height == g.len(),
            width == width_of(g),
            y <= height,
            forall|b: int| 0 <= b < y ==> width_of(g) <= #[trigger] g[b].len(),
            forall|a: int, b: int| 0 <= b < y && 0 <= a < g[b].len() ==> drawable(#[trigger] g[b][a]),
        decreases height - y,
    {
        let row = &grid.grid[y];
        assert(row@ == g[y as int]);
        if row.len() < width {
            return false;
        }
        let mut x: usize = 0;
        while x < row.len()
            invariant
                g == grid.rows(),
                row@ == g[y as int],
                y < height,
                height == g.len(),
                x <= row@.len(),
                forall|a: int| 0 <= a < x ==> drawable(#[trigger] g[y as int][a]),
            decreases row@.len() - x,
        {
            let ok = match row[x] {
                TileState::Discovered(TileContent::Number(n)) => 1 <= n && n <= 8,
                _ => true,
            };
            if !ok {
                assert(!drawable(g[y as int][x as int]));
                return false;
            }
            x = x + 1;
        }
        y = y + 1;
    }
    true
}

/// The sprite of every tile of the board, column after column, each with
/// its column and row.
pub fn sprites_to_draw(grid: &VecGrid<TileState>) -> (r: Vec<(i32, i32, Sprite)>)
    requires
        can_be_drawn(grid.rows()),
    ensures
        r@ == board_sprites(grid.rows(), width_of(grid.rows()) as nat),
{
    let ghost g = grid.rows();
    let width: usize = if grid.grid.len() > 0 { grid.grid[0].len() } else { 0 };
    let height: usize = grid.grid.len();
    let mut r: Vec<(i32, i32, Sprite)> = Vec::new();
    let mut x: usize = 0;
    while x < width
        invariant
            g == grid.rows(),
            can_be_drawn(g),
            width == width_of(g),
            height == g.len(),
            x <= width,
            r@ == board_sprites(g, x as nat),
        decreases width - x,
    {
        let ghost before = r@;
        let mut y: usize = 0;
        while y < height
            invariant
                g == grid.rows(),
                can_be_drawn(g),
                width == width_of(g),
                height == g.len(),
                x < width,
                y <= height,
                r@ == before + column_sprites(g, x as int, g.len()).take(y as int),
            decreases height - y,
        {
            assert(grid.grid@[y as int]@ == g[y as int]);
            let state = match grid.get(x as i32, y as i32) {
                Some(s) => *s,
                None => TileState::Untouched,
            };
            let sprite = Sprite::from_state(&state);
            r.push((x as i32, y as i32, sprite));
            y = y + 1;
            assert(r@ =~= before + column_sprites(g, x as int, g.len()).take(y as int));
        }
        assert(column_sprites(g, x as int, g.len()).take(y as int) =~= column_sprites(g, x as int, g.len()));
        x = x + 1;
    }
    r
}

/// What the board component asks for once the server's event `e` is
/// applied and the board is `g`: a tile update and a new game ask for a
/// drawing each, a new game first sizes an existing canvas to the board,
/// and every message asks for one drawing more.
pub open spec fn socket_actions(g: Seq<Seq<TileState>>, e: GameEvent, canvas_ready: bool) -> Seq<CanvasAction> {
    match e {
        GameEvent::TileStateUpdate { .. } => seq![CanvasAction::RenderRequest, CanvasAction::RenderRequest],
        GameEvent::GameStart { .. } => (if canvas_ready {
            seq![CanvasAction::Resize { width: (g[0].len() * 16) as u32, height: (g.len() * 16) as u32 }]
        } else {
            Seq::empty()
        }) + seq![CanvasAction::RenderRequest, CanvasAction::RenderRequest],
        _ => seq![CanvasAction::RenderRequest],
    }
}

/// The actions that send each of `actions` back to the component.
pub open spec fn send_all(actions: Seq<GameAction>) -> Seq<CanvasAction> {
    actions.map_values(|a: GameAction| CanvasAction::SendMessage(a))
}

/// The component can take the message: a drawing needs a board that can
/// be drawn, a server's message must apply to the board, and a new game
/// sized on an existing canvas must have a first row and fit the canvas's
/// size in pixels.
pub open spec fn can_take(state: CanvasState, msg: Message) -> bool {
    match msg {
        Message::Render => state.can_draw ==> can_be_drawn(state.grid.rows()),
        Message::SocketMessage(m) => {
            &&& applicable(state.grid.rows(), m)
            &&& match m {
                GenericServerMessage::GameEvent(GameEvent::GameStart { grid, .. }) => state.canvas_ready ==> {
                    &&& grid.rows().len() > 0
                    &&& grid.rows().len() * 16 <= u32::MAX
                    &&& grid.rows()[0].len() * 16 <= u32::MAX
                },
                _ => true,
            }
        },
        _ => true,
    }
}

impl CanvasState {
    /// Handles one message of the component and says what to do, in order:
    /// a drawing is asked for once until its frame comes, a frame draws the
    /// board when the canvas can be drawn on, a click sends back the
    /// actions it asks for, a server's message updates the board, and an
    /// action is sent to the server.
    pub fn update(&mut self, msg: Message) -> (r: Vec<CanvasAction>)
        requires
            can_take(*old(self), msg),
        ensures
            final(self).canvas_ready == old(self).canvas_ready,
            final(self).can_draw == old(self).can_draw,
            match msg {
                Message::RenderRequest => {
                    &&& final(self).grid.rows() == old(self).grid.rows()
                    &&& final(self).frame_requested
                    &&& old(self).frame_requested ==> r@.len() == 0
                    &&& !old(self).frame_requested ==> r@ == seq![CanvasAction::RequestAnimationFrame]
                },
                Message::Render => {
                    &&& final(self).grid.rows() == old(self).grid.rows()
                    &&& !final(self).frame_requested
                    &&& !old(self).can_draw ==> r@.len() == 0
                    &&& old(self).can_draw ==> r@.len() == 1 && (r@[0] matches CanvasAction::Draw(v)
                        && v@ == board_sprites(old(self).grid.rows(), width_of(old(self).grid.rows()) as nat))
                },
                Message::Click(event) => {
                    &&& final(self).grid.rows() == old(self).grid.rows()
                    &&& final(self).frame_requested == old(self).frame_requested
                    &&& r@ == send_all(mouse_actions(&old(self).grid, event))
                },
                Message::SocketMessage(GenericServerMessage::GameEvent(e)) => {
                    &&& final(self).grid.rows() == apply_event(old(self).grid.rows(), e)
                    &&& final(self).frame_requested == old(self).frame_requested
                    &&& r@ == socket_actions(final(self).grid.rows(), e, old(self).canvas_ready)
                },
                Message::SendMessage(action) => {
                    &&& final(self).grid.rows() == old(self).grid.rows()
                    &&& final(self).frame_requested == old(self).frame_requested
                    &&& r@ == seq![CanvasAction::Send(GenericClientMessage::GameAction(action))]
                },
            },
    {
        let mut r: Vec<CanvasAction> = Vec::new();
        match msg {
            Message::RenderRequest => {
                if !self.frame_requested {
                    self.frame_requested = true;
                    r.push(CanvasAction::RequestAnimationFrame);
                }
            },
            Message::Render => {
                self.frame_requested = false;
                if self.can_draw {
                    r.push(CanvasAction::Draw(sprites_to_draw(&self.grid)));
                }
            },
            Message::Click(event) => {
                let actions = handle_mouse_event(event, &self.grid);
                let mut i: usize = 0;
                while i < actions.len()
                    invariant
                        i <= actions@.len(),
                        r@ == send_all(actions@.take(i as int)),
                    decreases actions@.len() - i,
                {
                    r.push(CanvasAction::SendMessage(actions[i]));
                    i = i + 1;
                    assert(r@ =~= send_all(actions@.take(i as int)));
                }
                assert(actions@.take(i as int) =~= actions@);
            },
            Message::SocketMessage(message) => {
                let (start, update) = match &message {
                    GenericServerMessage::GameEvent(GameEvent::GameStart { .. }) => (true, false),
                    GenericServerMessage::GameEvent(GameEvent::TileStateUpdate { .. }) => (false, true),
                    _ => (false, false),
                };
                apply_server_message(&mut self.grid, message);
                if update {
                    r.push(CanvasAction::RenderRequest);
                }
                if start {
                    if self.canvas_ready {
                        assert(self.grid.grid@[0]@ == self.grid.rows()[0]);
                        let height: u32 = (self.grid.grid.len() as u32) * 16;
                        let width: u32 = (self.grid.grid[0].len() as u32) * 16;
                        r.push(CanvasAction::Resize { width, height });
                    }
                    r.push(CanvasAction::RenderRequest);
                }
                r.push(CanvasAction::RenderRequest);
            },
            Message::SendMessage(action) => {
                r.push(CanvasAction::Send(GenericClientMessage::GameAction(action)));
            },
        }
        r
    }
}

/// The button of a click, by the mouse buttons held: left, right, both,
/// or middle.
pub open spec fn button_of(buttons: u16) -> Option<MouseButton> {
    if buttons == 1 {
        Some(MouseButton::Left)
    } else if buttons == 2 {
        Some(MouseButton::Right)
    } else if buttons == 3 {
        Some(MouseButton::Double)
    } else if buttons == 4 {
        Some(MouseButton::Middle)
    } else {
        None
    }
}

/// The click on the tile under a point of the canvas, in pixels, with the
/// buttons held; nothing for a combination of buttons that is no click.
pub fn click_message(offset_x: i32, offset_y: i32, buttons: u16) -> (r: Option<Message>)
    ensures
        match button_of(buttons) {
            Some(b) => r == Some(
                Message::Click(MouseEvent { x: (offset_x as int / 16) as i32, y: (offset_y as int / 16) as i32, button: b }),
            ),
            None => r is None,
        },
{
    let button = if buttons == 1 {
        MouseButton::Left
    } else if buttons == 2 {
        MouseButton::Right
    } else if buttons == 3 {
        MouseButton::Double
    } else if buttons == 4 {
        MouseButton::Middle
    } else {
        return None;
    };
    Some(Message::Click(MouseEvent { x: tile_of(offset_x), y: tile_of(offset_y), button }))
}

/// The tile under a pixel: the pixel divided by 16, rounded down.
fn tile_of(pixel: i32) -> (r: i32)
    ensures
        r == pixel as int / 16,
{
    if pixel >= 0 {
        pixel / 16
    } else {
        let below: i32 = (pixel + 1) / 16;
        below - 1
    }
}

/// A click sends back every action it asks for, each once, in order.
pub proof fn law_click_sends_every_action(actions: Seq<GameAction>)
    ensures
        send_all(actions).len() == actions.len(),
        forall|i: int| 0 <= i < actions.len() ==> #[trigger] send_all(actions)[i] == CanvasAction::SendMessage(actions[i]),
{
}

} // verus!
