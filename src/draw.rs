use vstd::prelude::*;
use crate::options::Level;
use crate::rect::Rect;

verus! {

/// What a cell looks like.
#[derive(Debug, Clone, Copy, PartialEq, Eq, Structural)]
pub enum TileImage {
    Hidden,
    Flagged,
    Mine,
    /// A revealed cell without a mine, with the number of mines around it.
    Count(u8),
}

/// What the status indicator shows.
#[derive(Debug, Clone, Copy, PartialEq, Eq, Structural)]
pub enum FaceImage {
    Playing,
    Win,
    Lose,
}

/// An image that the display backend knows how to load.
#[derive(Debug, Clone, Copy, PartialEq, Eq, Structural)]
pub enum Image {
    Background(Level),
    DigitPanel,
    /// A decimal digit, 0 to 9.
    Digit(u8),
    Face(FaceImage),
    Tile(TileImage),
}

/// One image drawn into one rectangle of the window.
#[derive(Debug, Clone, Copy, PartialEq, Eq, Structural)]
pub struct Draw {
    pub image: Image,
    pub dst: Rect,
}

/// Draws the decimal `digit` into `bounding_box`.
pub fn render_digit(digit: u64, bounding_box: Rect) -> (r: Draw)
    requires
        digit < 10,
    ensures
        r == (Draw { image: Image::Digit(digit as u8), dst: bounding_box }),
{
    Draw { image: Image::Digit(digit as u8), dst: bounding_box }
}

/// The hundreds, tens and ones of `value`, as shown on a three-digit panel.
pub open spec fn three_digits(value: nat) -> (nat, nat, nat) {
    ((value / 100) % 10, (value / 10) % 10, value % 10)
}

} // verus!
