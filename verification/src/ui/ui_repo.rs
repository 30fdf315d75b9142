//! Colours and line-drawing character sets of the user interface.

use vstd::prelude::*;

verus! {

/// Colours of the user interface.
pub enum Color {
    Black,
    Red,
    Green,
    Yellow,
    Blue,
    Magenta,
    Cyan,
    White,
    Custom(String),
}

/// Characters that draw a tree: horizontal and vertical lines, a junction, and the
/// corner of the last node.
#[derive(Clone, Copy)]
pub struct CharacterSet {
    pub h_line: char,
    pub v_line: char,
    pub joint: char,
    pub node: char,
}

impl CharacterSet {
    /// Single lines, square corner.
    pub open spec fn u8_sline_spec() -> Self {
        CharacterSet { h_line: '─', v_line: '│', joint: '├', node: '└' }
    }

    /// Single lines, square corner.
    pub fn u8_sline() -> (set: Self)
        ensures
            set == Self::u8_sline_spec(),
    {
        CharacterSet { h_line: '─', v_line: '│', joint: '├', node: '└' }
    }

    /// Bold single lines.
    pub fn u8_sline_bold() -> (set: Self)
        ensures
            set == (CharacterSet { h_line: '━', v_line: '┃', joint: '┣', node: '┗' }),
    {
        CharacterSet { h_line: '━', v_line: '┃', joint: '┣', node: '┗' }
    }

    /// Single lines, rounded corner.
    pub fn u8_sline_curve() -> (set: Self)
        ensures
            set == (CharacterSet { h_line: '─', v_line: '│', joint: '├', node: '╰' }),
    {
        CharacterSet { h_line: '─', v_line: '│', joint: '├', node: '╰' }
    }

    /// Double lines.
    pub fn u8_dline() -> (set: Self)
        ensures
            set == (CharacterSet { h_line: '═', v_line: '║', joint: '╠', node: '╚' }),
    {
        CharacterSet { h_line: '═', v_line: '║', joint: '╠', node: '╚' }
    }

    /// ASCII only.
    pub fn ascii_sline() -> (set: Self)
        ensures
            set == (CharacterSet { h_line: '-', v_line: '|', joint: '|', node: '`' }),
    {
        CharacterSet { h_line: '-', v_line: '|', joint: '|', node: '`' }
    }
}

/// The digit of the ANSI foreground code (30 to 37) of each named colour.
pub open spec fn ansi_digit(color: Color) -> char {
    match color {
        Color::Black => '0',
        Color::Red => '1',
        Color::Green => '2',
        Color::Yellow => '3',
        Color::Blue => '4',
        Color::Magenta => '5',
        Color::Cyan => '6',
        Color::White => '7',
        Color::Custom(_) => '7',
    }
}

/// `text` in bold in a named colour, as ANSI escape sequences write it: the escape
/// `ESC [ 1 ; 3x m`, the text, and the reset `ESC [ 0 m`.
pub open spec fn bold_painted(color: Color, text: Seq<char>) -> Seq<char> {
    seq!['\u{1b}', '[', '1', ';', '3', ansi_digit(color), 'm'] + text + seq!['\u{1b}', '[', '0', 'm']
}

/// Calls `ansi_term::Colour::bold().paint(text).to_string()` for the `ansi_term`
/// colour of `color` (`Purple` for magenta).
/// Claimed, as the crate's `Display` for painted strings writes it: the prefix
/// `ESC[1;3xm`, the text, and the suffix `ESC[0m`.
#[verifier::external_body]
pub(crate) fn paint_bold(color: &Color, text: &str) -> (painted: String)
    requires
        !(color is Custom),
    ensures
        painted@ == bold_painted(*color, text@),
{
    let colour = match color {
        Color::Black => ansi_term::Colour::Black,
        Color::Red => ansi_term::Colour::Red,
        Color::Green => ansi_term::Colour::Green,
        Color::Yellow => ansi_term::Colour::Yellow,
        Color::Blue => ansi_term::Colour::Blue,
        Color::Magenta => ansi_term::Colour::Purple,
        Color::Cyan => ansi_term::Colour::Cyan,
        Color::White | Color::Custom(_) => ansi_term::Colour::White,
    };
    colour.bold().paint(text).to_string()
}

} // verus!
