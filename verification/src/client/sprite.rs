//! Which picture of the sprite sheet shows a tile.

use vstd::prelude::*;

use crate::tile::{TileContent, TileState};

verus! {

/// A picture of the sprite sheet.
#[derive(Debug, Clone, Copy, PartialEq, Eq, Structural)]
pub enum Sprite {
    Bomb,
    Empty,
    One,
    Two,
    Three,
    Four,
    Five,
    Six,
    Seven,
    Eight,
    Flag,
    Covered,
    Player,
}

/// A tile state has a picture: numbers go from 1 to 8.
pub open spec fn drawable(state: TileState) -> bool {
    state matches TileState::Discovered(TileContent::Number(n)) ==> 1 <= n <= 8
}

/// The picture of a number from 1 to 8.
pub open spec fn number_sprite(n: u8) -> Sprite {
    if n == 1 {
        Sprite::One
    } else if n == 2 {
        Sprite::Two
    } else if n == 3 {
        Sprite::Three
    } else if n == 4 {
        Sprite::Four
    } else if n == 5 {
        Sprite::Five
    } else if n == 6 {
        Sprite::Six
    } else if n == 7 {
        Sprite::Seven
    } else {
        Sprite::Eight
    }
}

/// The picture of a tile state.
pub open spec fn state_sprite(state: TileState) -> Sprite {
    match state {
        TileState::Untouched => Sprite::Covered,
        TileState::Flagged => Sprite::Flag,
        TileState::Discovered(TileContent::Empty) => Sprite::Empty,
        TileState::Discovered(TileContent::Bomb) => Sprite::Bomb,
        TileState::Discovered(TileContent::Number(n)) => number_sprite(n),
    }
}

/// Where a picture lies on the sprite sheet: left, top, width and height,
/// in pixels.
pub open spec fn sprite_rect(sprite: Sprite) -> (u16, u16, u16, u16) {
    match sprite {
        Sprite::Bomb => (64, 39, 16, 16),
        Sprite::Empty => (0, 23, 16, 16),
        Sprite::One => (16, 23, 16, 16),
        Sprite::Two => (32, 23, 16, 16),
        Sprite::Three => (48, 23, 16, 16),
        Sprite::Four => (64, 23, 16, 16),
        Sprite::Five => (80, 23, 16, 16),
        Sprite::Six => (96, 23, 16, 16),
        Sprite::Seven => (112, 23, 16, 16),
        Sprite::Eight => (128, 23, 16, 16),
        Sprite::Flag => (16, 39, 16, 16),
        Sprite::Covered => (0, 39, 16, 16),
        Sprite::Player => (112, 39, 16, 16),
    }
}

impl Sprite {
    /// The picture that shows `value`.
    pub fn from_state(value: &TileState) -> (r: Sprite)
        requires
            drawable(*value),
        ensures
            r == state_sprite(*value),
    {
        match value {
            TileState::Untouched => Sprite::Covered,
            TileState::Flagged => Sprite::Flag,
            TileState::Discovered(content) => match content {
                TileContent::Empty => Sprite::Empty,
                TileContent::Number(1) => Sprite::One,
                TileContent::Number(2) => Sprite::Two,
                TileContent::Number(3) => Sprite::Three,
                TileContent::Number(4) => Sprite::Four,
                TileContent::Number(5) => Sprite::Five,
                TileContent::Number(6) => Sprite::Six,
                TileContent::Number(7) => Sprite::Seven,
                TileContent::Number(_) => Sprite::Eight,
                TileContent::Bomb => Sprite::Bomb,
            },
        }
    }

    /// Where the picture lies on the sprite sheet: left, top, width and
    /// height, in pixels.
    pub fn source_rect(self) -> (r: (u16, u16, u16, u16))
        ensures
            r == sprite_rect(self),
    {
        match self {
            Sprite::Bomb => (64, 39, 16, 16),
            Sprite::Empty => (0, 23, 16, 16),
            Sprite::One => (16, 23, 16, 16),
            Sprite::Two => (32, 23, 16, 16),
            Sprite::Three => (48, 23, 16, 16),
            Sprite::Four => (64, 23, 16, 16),
            Sprite::Five => (80, 23, 16, 16),
            Sprite::Six => (96, 23, 16, 16),
            Sprite::Seven => (112, 23, 16, 16),
            Sprite::Eight => (128, 23, 16, 16),
            Sprite::Flag => (16, 39, 16, 16),
            Sprite::Covered => (0, 39, 16, 16),
            Sprite::Player => (112, 39, 16, 16),
        }
    }
}

/// Every picture is a 16 by 16 square of the sprite sheet, and no two
/// pictures share one.
pub proof fn law_sprites_lie_apart(a: Sprite, b: Sprite)
    ensures
        sprite_rect(a).2 == 16 && sprite_rect(a).3 == 16,
        sprite_rect(a) == sprite_rect(b) ==> a == b,
{
}

/// A discovered tile that is not a bomb shows the picture of the number of
/// bombs around it (none for an empty tile), and the pictures of the counts
/// 0 to 8 stand side by side in one row of the sheet: the count `k` at
/// `16 * k` from the left, 23 from the top.
pub proof fn law_counts_lie_in_a_row(n: u8)
    requires
        1 <= n <= 8,
    ensures
        sprite_rect(state_sprite(TileState::Discovered(TileContent::Number(n)))).0 == 16 * n,
        sprite_rect(state_sprite(TileState::Discovered(TileContent::Number(n)))).1 == 23,
        sprite_rect(state_sprite(TileState::Discovered(TileContent::Number(n)))).2 == 16,
        sprite_rect(state_sprite(TileState::Discovered(TileContent::Number(n)))).3 == 16,
        sprite_rect(state_sprite(TileState::Discovered(TileContent::Empty))) == (0u16, 23u16, 16u16, 16u16),
{
}

} // verus!
