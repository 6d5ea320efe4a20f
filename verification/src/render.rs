//! Output targets and their text configuration: thin holders for a sink and
//! the character set used when rendering into it.

use vstd::prelude::*;

verus! {

/// The glyphs used by an output target.
#[derive(Clone, Copy, Debug, PartialEq, Eq, Structural)]
#[non_exhaustive]
pub struct CharacterSet {
    /// Vertical bar of the margin.
    pub margin_bar: char,
    /// Vertical bar of a skipped stretch of the margin.
    pub margin_bar_skip: char,
    /// Horizontal rule of the margin.
    pub margin_h: char,
    /// Top-left corner of the margin.
    pub margin_top_left: char,
    /// Top-right corner of the margin.
    pub margin_top_right: char,
    /// Bottom-right corner of the margin.
    pub margin_bottom_right: char,
    /// Vertical run of a label arrow.
    pub label_v: char,
    /// Horizontal run of a label arrow.
    pub label_h: char,
    /// Top-left elbow of a label arrow.
    pub label_top_left: char,
    /// Bottom-left elbow of a label arrow.
    pub label_bottom_left: char,
    /// Underline below a span.
    pub arrow_underline: char,
    /// Connector between an underline and its arrow.
    pub arrow_underconnect: char,
}

impl CharacterSet {
    /// The ASCII glyph set.
    pub open spec fn spec_ascii() -> CharacterSet {
        CharacterSet {
            margin_bar: '|',
            margin_bar_skip: '|',
            margin_h: '-',
            margin_top_left: ',',
            margin_top_right: '.',
            margin_bottom_right: '\'',
            label_v: '|',
            label_h: '-',
            label_top_left: ',',
            label_bottom_left: '\'',
            arrow_underline: '-',
            arrow_underconnect: '-',
        }
    }

    /// The Unicode glyph set.
    pub open spec fn spec_unicode() -> CharacterSet {
        CharacterSet {
            margin_bar: '│',
            margin_bar_skip: '┆',
            margin_h: '─',
            margin_top_left: '╭',
            margin_top_right: '╮',
            margin_bottom_right: '╯',
            label_v: '│',
            label_h: '─',
            label_top_left: '╭',
            label_bottom_left: '╰',
            arrow_underline: '─',
            arrow_underconnect: '┬',
        }
    }

    /// The ASCII glyph set.
    pub fn ascii() -> (r: CharacterSet)
        ensures
            r == CharacterSet::spec_ascii(),
    {
        CharacterSet {
            margin_bar: '|',
            margin_bar_skip: '|',
            margin_h: '-',
            margin_top_left: ',',
            margin_top_right: '.',
            margin_bottom_right: '\'',
            label_v: '|',
            label_h: '-',
            label_top_left: ',',
            label_bottom_left: '\'',
            arrow_underline: '-',
            arrow_underconnect: '-',
        }
    }

    /// The Unicode glyph set.
    pub fn unicode() -> (r: CharacterSet)
        ensures
            r == CharacterSet::spec_unicode(),
    {
        CharacterSet {
            margin_bar: '│',
            margin_bar_skip: '┆',
            margin_h: '─',
            margin_top_left: '╭',
            margin_top_right: '╮',
            margin_bottom_right: '╯',
            label_v: '│',
            label_h: '─',
            label_top_left: '╭',
            label_bottom_left: '╰',
            arrow_underline: '─',
            arrow_underconnect: '┬',
        }
    }
}

/// The text configuration of an output target.
pub struct TextConfig {
    /// The glyphs to draw with.
    pub chars: CharacterSet,
}

impl Default for TextConfig {
    /// Unicode glyphs.
    fn default() -> (r: TextConfig)
        ensures
            r.chars == CharacterSet::spec_unicode(),
    {
        TextConfig { chars: CharacterSet::unicode() }
    }
}

/// An output target that renders into a formatting sink.
pub struct FmtWriter<W> {
    writer: W,
    cfg: TextConfig,
}

impl<W> FmtWriter<W> {
    /// Wrap the given sink with the default text configuration.
    pub fn new(writer: W) -> (r: FmtWriter<W>)
        ensures
            r.spec_writer() == writer,
    {
        FmtWriter { writer, cfg: TextConfig::default() }
    }

    /// The wrapped sink.
    pub closed spec fn spec_writer(&self) -> W {
        self.writer
    }

    /// Take the sink back out.
    pub fn into_inner(self) -> (r: W)
        ensures
            r == self.spec_writer(),
    {
        self.writer
    }
}

/// An output target that renders into an input/output sink.
pub struct IoWriter<W> {
    writer: W,
    cfg: TextConfig,
}

impl<W> IoWriter<W> {
    /// Wrap the given sink with the default text configuration.
    pub fn new(writer: W) -> (r: IoWriter<W>)
        ensures
            r.spec_writer() == writer,
    {
        IoWriter { writer, cfg: TextConfig::default() }
    }

    /// The wrapped sink.
    pub closed spec fn spec_writer(&self) -> W {
        self.writer
    }

    /// Take the sink back out.
    pub fn into_inner(self) -> (r: W)
        ensures
            r == self.spec_writer(),
    {
        self.writer
    }
}

} // verus!
