//! Colours and box-drawing character sets, together with the two calls this
//! crate makes into outside crates: painting a string through `yansi` and
//! measuring a character's display width through `unicode_width`.

use vstd::prelude::*;

verus! {

/// A terminal colour, applied to glyphs and highlighted source text when
/// colouring is enabled.
#[derive(Clone, Copy, Debug, PartialEq, Eq, Structural)]
pub enum Color {
    /// Black (ANSI colour 0).
    Black,
    /// Red (ANSI colour 1).
    Red,
    /// Green (ANSI colour 2).
    Green,
    /// Yellow (ANSI colour 3).
    Yellow,
    /// Blue (ANSI colour 4).
    Blue,
    /// Magenta (ANSI colour 5).
    Magenta,
    /// Cyan (ANSI colour 6).
    Cyan,
    /// White (ANSI colour 7).
    White,
    /// A colour from the fixed 256-colour palette.
    Fixed(u8),
    /// A 24-bit RGB colour.
    RGB(u8, u8, u8),
}

/// Output stream that rendered text is intended for.
#[derive(Clone, Copy, Debug, PartialEq, Eq, Structural)]
pub enum StreamType {
    /// Standard output.
    Stdout,
    /// Standard error.
    Stderr,
}

/// The set of glyphs used for boxes, arrows and underlines.
#[derive(Clone, Copy, Debug, PartialEq, Eq, Structural)]
pub struct Characters {
    /// Horizontal bar.
    pub hbar: char,
    /// Vertical bar.
    pub vbar: char,
    /// Crossing of a horizontal and a vertical bar.
    pub xbar: char,
    /// Vertical bar of an ellipsis row.
    pub vbar_gap: char,
    /// Upwards arrow head at a multi-line span start.
    pub uarrow: char,
    /// Rightwards arrow head of a margin arrow.
    pub rarrow: char,
    /// Top-left corner.
    pub ltop: char,
    /// Top tee.
    pub mtop: char,
    /// Top-right corner.
    pub rtop: char,
    /// Bottom-left corner.
    pub lbot: char,
    /// Bottom tee.
    pub mbot: char,
    /// Bottom-right corner.
    pub rbot: char,
    /// Opening bracket of the file reference box.
    pub lbox: char,
    /// Closing bracket of the file reference box.
    pub rbox: char,
    /// Left tee connecting a later group to the rail.
    pub lcross: char,
    /// Right tee.
    pub rcross: char,
    /// Connector between an underline and its arrow.
    pub underbar: char,
    /// Underline drawn below an inline span.
    pub underline: char,
}

impl Characters {
    /// The Unicode box-drawing glyph set.
    pub open spec fn spec_unicode() -> Characters {
        Characters {
            hbar: '─',
            vbar: '│',
            xbar: '┼',
            vbar_gap: '┆',
            uarrow: '▲',
            rarrow: '▶',
            ltop: '╭',
            mtop: '┬',
            rtop: '╮',
            lbot: '╰',
            mbot: '┴',
            rbot: '╯',
            lbox: '[',
            rbox: ']',
            lcross: '├',
            rcross: '┤',
            underbar: '┬',
            underline: '─',
        }
    }

    /// The ASCII fallback glyph set.
    pub open spec fn spec_ascii() -> Characters {
        Characters {
            hbar: '-',
            vbar: '|',
            xbar: '+',
            vbar_gap: ':',
            uarrow: '^',
            rarrow: '>',
            ltop: ',',
            mtop: 'v',
            rtop: '.',
            lbot: '`',
            mbot: '-',
            rbot: '\'',
            lbox: '[',
            rbox: ']',
            lcross: '|',
            rcross: '|',
            underbar: '|',
            underline: '-',
        }
    }

    /// The Unicode glyph set.
    pub fn unicode() -> (r: Characters)
        ensures
            r == Characters::spec_unicode(),
    {
        Characters {
            hbar: '─',
            vbar: '│',
            xbar: '┼',
            vbar_gap: '┆',
            uarrow: '▲',
            rarrow: '▶',
            ltop: '╭',
            mtop: '┬',
            rtop: '╮',
            lbot: '╰',
            mbot: '┴',
            rbot: '╯',
            lbox: '[',
            rbox: ']',
            lcross: '├',
            rcross: '┤',
            underbar: '┬',
            underline: '─',
        }
    }

    /// The ASCII glyph set; every glyph in it is an ASCII character.
    pub fn ascii() -> (r: Characters)
        ensures
            r == Characters::spec_ascii(),
    {
        Characters {
            hbar: '-',
            vbar: '|',
            xbar: '+',
            vbar_gap: ':',
            uarrow: '^',
            rarrow: '>',
            ltop: ',',
            mtop: 'v',
            rtop: '.',
            lbot: '`',
            mbot: '-',
            rbot: '\'',
            lbox: '[',
            rbox: ']',
            lcross: '|',
            rcross: '|',
            underbar: '|',
            underline: '-',
        }
    }

    /// The vertical bar of an ordinary row, or the gap bar of an ellipsis
    /// row.
    pub fn vbar_of(&self, is_gap: bool) -> (r: char)
        ensures
            r == if is_gap {
                self.vbar_gap
            } else {
                self.vbar
            },
    {
        if is_gap {
            self.vbar_gap
        } else {
            self.vbar
        }
    }

    /// The corner that introduces a group's file reference: a top-left corner
    /// for the first group, a tee for later ones.
    pub fn group_connector(&self, is_first_group: bool) -> (r: char)
        ensures
            r == if is_first_group {
                self.ltop
            } else {
                self.lcross
            },
    {
        if is_first_group {
            self.ltop
        } else {
            self.lcross
        }
    }

    /// The elbow where a multi-line label's arrow bends: a top-left corner at
    /// its start line, a bottom-left corner at its end line.
    pub fn arrow_bend(&self, is_start: bool) -> (r: char)
        ensures
            r == if is_start {
                self.ltop
            } else {
                self.lbot
            },
    {
        if is_start {
            self.ltop
        } else {
            self.lbot
        }
    }
}

/// The display width `unicode_width` assigns to a character, with control
/// characters counted as one column.
pub uninterp spec fn display_width_of(c: char) -> usize;

/// Relies on `unicode_width::UnicodeWidthChar::width`: the width is a
/// function of the character alone, and printable ASCII is one column wide.
/// A control character, to which the table gives no width, counts here as
/// one column.
#[verifier::external_body]
pub(crate) fn char_display_width(c: char) -> (r: usize)
    ensures
        r == display_width_of(c),
        0x20 <= (c as u32) < 0x7F ==> r == 1,
{
    unicode_width::UnicodeWidthChar::width(c).unwrap_or(1)
}

/// Relies on `yansi::Paint`: the painted value prints as the text itself,
/// surrounded by the colour's ANSI prefix and the reset suffix when painting
/// is enabled, or bare when it is disabled. The prefix and suffix consist of
/// the escape character, brackets, decimal digits, semicolons and the letter
/// `m`, so painted ASCII text stays ASCII.
#[verifier::external_body]
pub(crate) fn paint_fg(s: &str, color: Color) -> (r: String)
    ensures
        exists|p: Seq<char>, q: Seq<char>| r@ == p + s@ + q,
        crate::text::spec_all_ascii(s@) ==> crate::text::spec_all_ascii(r@),
{
    let col = match color {
        Color::Black => yansi::Color::Black,
        Color::Red => yansi::Color::Red,
        Color::Green => yansi::Color::Green,
        Color::Yellow => yansi::Color::Yellow,
        Color::Blue => yansi::Color::Blue,
        Color::Magenta => yansi::Color::Magenta,
        Color::Cyan => yansi::Color::Cyan,
        Color::White => yansi::Color::White,
        Color::Fixed(n) => yansi::Color::Fixed(n),
        Color::RGB(r, g, b) => yansi::Color::RGB(r, g, b),
    };
    format!("{}", yansi::Paint::new(s).fg(col))
}

} // verus!
