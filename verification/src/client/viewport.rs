//! The canvas board of the page that embeds the game: what a click on it
//! asks for.

use vstd::prelude::*;

use super::mouse::{click_actions, click_actions_spec};
use crate::game::GameAction;
use crate::grid::vec_grid::VecGrid;
use crate::tile::TileState;

verus! {

/// Where to draw the board, and which lobby to join.
pub struct ViewportOptions {
    pub canvas_id: String,
    pub lobby: String,
}

/// The event listeners of a board.
pub struct EventHandles {}

/// The tile under a pixel, as integer division by 16 rounds: toward zero.
pub open spec fn tile_of_pixel(p: int) -> int {
    if p >= 0 {
        p / 16
    } else {
        -((-p) / 16)
    }
}

/// A click at `(x, y)` in pixels repeats the click `last`, if any: it
/// falls on the same tile, soon enough (`quick`).
pub open spec fn repeats(last: Option<(i32, i32)>, x: i32, y: i32, quick: bool) -> bool {
    &&& quick
    &&& last matches Some(l) && tile_of_pixel(l.0 as int) == tile_of_pixel(x as int) && tile_of_pixel(l.1 as int)
        == tile_of_pixel(y as int)
}

/// What a click asks for, and whether it is the click to remember.
pub struct ClickOutcome {
    pub actions: Vec<GameAction>,
    pub remember: bool,
}

/// A click of `button` at `(x, y)` in pixels, the click `last` being the
/// one remembered before, if any, and `quick` telling that it came soon
/// enough after it: a repeated click chords a number and is not
/// remembered; any other click is remembered and discovers, flags or
/// unflags its tile.
pub fn on_click(
    grid: &VecGrid<TileState>,
    last: Option<(i32, i32)>,
    x: i32,
    y: i32,
    button: i16,
    quick: bool,
) -> (r: ClickOutcome)
    ensures
        r.remember == !repeats(last, x, y, quick),
        r.actions@ == click_actions_spec(
            grid,
            tile_of_pixel(x as int) as i32,
            tile_of_pixel(y as int) as i32,
            button,
            repeats(last, x, y, quick),
        ),
{
    let tx = x / 16;
    let ty = y / 16;
    let repeated = match last {
        Some((lx, ly)) => quick && lx / 16 == tx && ly / 16 == ty,
        None => false,
    };
    ClickOutcome { actions: click_actions(grid, tx, ty, button, repeated), remember: !repeated }
}

/// A click at a pixel of the canvas falls on the tile whose 16 by 16
/// square holds that pixel; a pixel left of or above the canvas is placed
/// as its mirror image is, with the sign turned.
pub proof fn law_pixel_falls_on_its_tile(p: int)
    ensures
        p >= 0 ==> 16 * tile_of_pixel(p) <= p < 16 * tile_of_pixel(p) + 16,
        p < 0 ==> tile_of_pixel(p) == -tile_of_pixel(-p),
{
}

} // verus!
