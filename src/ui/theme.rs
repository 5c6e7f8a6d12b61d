//! How things look: the cell of each glyph, tile and box part, and the
//! colors of text.
use vstd::prelude::*;

use crate::console::{Cell, Color};
use crate::logic::{Glyph, Tile};

verus! {

pub open spec fn glyph_cell(glyph: Glyph) -> Cell {
    match glyph {
        Glyph::Player => Cell { ch: '@', fg: Color::BrightWhite, bg: Color::Black },
        Glyph::Goblin => Cell { ch: 'g', fg: Color::BrightRed, bg: Color::Black },
        Glyph::Hobgobin => Cell { ch: 'H', fg: Color::BrightRed, bg: Color::Black },
    }
}

pub open spec fn tile_char(tile: Tile) -> char {
    match tile {
        Tile::Wall => '#',
        Tile::Floor => '.',
    }
}

/// A tile in sight is drawn bright.
pub open spec fn visible_cell(tile: Tile) -> Cell {
    Cell { ch: tile_char(tile), fg: Color::BrightWhite, bg: Color::Black }
}

/// A tile seen before but not now is drawn gray.
pub open spec fn explored_cell(tile: Tile) -> Cell {
    Cell { ch: tile_char(tile), fg: Color::BrightBlack, bg: Color::Black }
}

/// Messages fade as they age.
pub open spec fn message_fg(age: u64) -> Color {
    if age == 0 {
        Color::BrightWhite
    } else if age == 1 {
        Color::White
    } else {
        Color::BrightBlack
    }
}

pub fn glyph(kind: &Glyph) -> (r: Cell)
    ensures
        r == glyph_cell(*kind),
{
    match kind {
        Glyph::Player => Cell::new('@', Color::BrightWhite, Color::Black),
        Glyph::Goblin => Cell::new('g', Color::BrightRed, Color::Black),
        Glyph::Hobgobin => Cell::new('H', Color::BrightRed, Color::Black),
    }
}

pub fn visible_tile(tile: &Tile) -> (r: Cell)
    ensures
        r == visible_cell(*tile),
{
    match tile {
        Tile::Wall => Cell::new('#', Color::BrightWhite, Color::Black),
        Tile::Floor => Cell::new('.', Color::BrightWhite, Color::Black),
    }
}

pub fn explored_tile(tile: &Tile) -> (r: Cell)
    ensures
        r == explored_cell(*tile),
{
    match tile {
        Tile::Wall => Cell::new('#', Color::BrightBlack, Color::Black),
        Tile::Floor => Cell::new('.', Color::BrightBlack, Color::Black),
    }
}

pub fn log_message_fg(age: u64) -> (r: Color)
    ensures
        r == message_fg(age),
{
    match age {
        0 => Color::BrightWhite,
        1 => Color::White,
        _ => Color::BrightBlack,
    }
}

pub fn log_message_bg(_age: u64) -> (r: Color)
    ensures
        r == Color::Black,
{
    Color::Black
}

/// The parts of a drawn box.
#[derive(Clone, Copy, PartialEq, Eq, Structural, Debug)]
pub enum Decoration {
    TopLeftCorner,
    TopRightCorner,
    BottomLeftCorner,
    BottomRightCorner,
    Horizontal,
    Vertical,
    LeftBracket,
    RightBracket,
}

pub open spec fn decoration_char(which: Decoration) -> char {
    match which {
        Decoration::TopLeftCorner => '┌',
        Decoration::TopRightCorner => '┐',
        Decoration::BottomLeftCorner => '└',
        Decoration::BottomRightCorner => '┘',
        Decoration::Horizontal => '─',
        Decoration::Vertical => '│',
        Decoration::LeftBracket => '┤',
        Decoration::RightBracket => '├',
    }
}

pub open spec fn decoration_cell(which: Decoration) -> Cell {
    Cell { ch: decoration_char(which), fg: Color::BrightWhite, bg: Color::Black }
}

pub fn box_decoration(which: Decoration) -> (r: Cell)
    ensures
        r == decoration_cell(which),
{
    let ch = match which {
        Decoration::TopLeftCorner => '┌',
        Decoration::TopRightCorner => '┐',
        Decoration::BottomLeftCorner => '└',
        Decoration::BottomRightCorner => '┘',
        Decoration::Horizontal => '─',
        Decoration::Vertical => '│',
        Decoration::LeftBracket => '┤',
        Decoration::RightBracket => '├',
    };
    Cell::new(ch, box_fg(), box_bg())
}

pub fn box_fg() -> (r: Color)
    ensures
        r == Color::BrightWhite,
{
    Color::BrightWhite
}

pub fn box_bg() -> (r: Color)
    ensures
        r == Color::Black,
{
    Color::Black
}

pub fn history_fg() -> (r: Color)
    ensures
        r == Color::White,
{
    Color::White
}

pub fn history_bg() -> (r: Color)
    ensures
        r == Color::Black,
{
    Color::Black
}

} // verus!
