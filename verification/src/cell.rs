use vstd::prelude::*;

use crate::flags::Flags;

verus! {

/// The sixteen palette colors and the two default colors of a terminal.
#[derive(Clone, Copy, Debug, PartialEq, Eq, Structural)]
pub enum NamedColor {
    Black,
    Red,
    Green,
    Yellow,
    Blue,
    Magenta,
    Cyan,
    White,
    BrightBlack,
    BrightRed,
    BrightGreen,
    BrightYellow,
    BrightBlue,
    BrightMagenta,
    BrightCyan,
    BrightWhite,
    Foreground,
    Background,
}

/// A color given by its red, green and blue parts.
#[derive(Clone, Copy, Debug, PartialEq, Eq, Structural)]
pub struct Rgb {
    pub r: u8,
    pub g: u8,
    pub b: u8,
}

/// The color of a cell's text or background.
#[derive(Clone, Copy, Debug, PartialEq, Eq, Structural)]
pub enum Color {
    Named(NamedColor),
    Spec(Rgb),
    Indexed(u8),
}

/// One cell of a terminal row: its character, the zero-width characters
/// that follow it in the same grapheme (combining marks, joiners, variation
/// selectors), its colors and its flags.
#[derive(Clone, Debug, PartialEq, Eq)]
pub struct Cell {
    pub c: char,
    pub zerowidth: Vec<char>,
    pub fg: Color,
    pub bg: Color,
    pub flags: Flags,
}

/// The mathematical value of a cell.
pub struct CellView {
    pub c: char,
    pub zerowidth: Seq<char>,
    pub fg: Color,
    pub bg: Color,
    pub flags: Flags,
}

impl View for Cell {
    type V = CellView;

    open spec fn view(&self) -> CellView {
        CellView {
            c: self.c,
            zerowidth: self.zerowidth@,
            fg: self.fg,
            bg: self.bg,
            flags: self.flags,
        }
    }
}

/// How a character is drawn: its colors and its appearance flags.
#[derive(Clone, Copy, Debug, PartialEq, Eq, Structural)]
pub struct CellStyle {
    pub fg: Color,
    pub bg: Color,
    pub flags: Flags,
}

/// An empty cell: no character, default colors, no flags.
pub open spec fn default_cell() -> CellView {
    CellView {
        c: '\0',
        zerowidth: seq![],
        fg: Color::Named(NamedColor::Foreground),
        bg: Color::Named(NamedColor::Background),
        flags: Flags { bits: 0 },
    }
}

/// The style of text that has been written without any attributes.
pub open spec fn default_style() -> CellStyle {
    CellStyle {
        fg: Color::Named(NamedColor::Foreground),
        bg: Color::Named(NamedColor::Background),
        flags: Flags { bits: 0 },
    }
}

impl Default for Cell {
    fn default() -> (cell: Cell)
        ensures
            cell@ == default_cell(),
    {
        Cell {
            c: '\0',
            zerowidth: Vec::new(),
            fg: Color::Named(NamedColor::Foreground),
            bg: Color::Named(NamedColor::Background),
            flags: Flags { bits: 0 },
        }
    }
}

impl Cell {
    pub fn flags(&self) -> (f: Flags)
        ensures
            f == self.flags,
    {
        self.flags
    }
}

impl CellView {
    /// The style of this cell, without its layout flags.
    pub open spec fn style(self) -> CellStyle {
        CellStyle { fg: self.fg, bg: self.bg, flags: self.flags.style_part() }
    }
}

pub fn new_default_style() -> (s: CellStyle)
    ensures
        s == default_style(),
{
    CellStyle {
        fg: Color::Named(NamedColor::Foreground),
        bg: Color::Named(NamedColor::Background),
        flags: Flags { bits: 0 },
    }
}

} // verus!
