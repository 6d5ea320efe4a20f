//! A small styling vocabulary for report elements.

use vstd::prelude::*;

verus! {

/// A text colour for styled report elements.
#[derive(Clone, Copy, Debug, PartialEq, Eq, Structural)]
pub enum Color {
    /// Red.
    Red,
    /// Blue.
    Blue,
}

/// The style of a report element.
#[derive(Clone, Copy, Debug, PartialEq, Eq, Structural)]
pub struct Style {
    /// The colour of the element's text, if any.
    pub text_color: Option<Color>,
}

impl Default for Style {
    /// No colour.
    fn default() -> (r: Style)
        ensures
            r.text_color is None,
    {
        Style { text_color: None }
    }
}

impl Style {
    /// This style with the given text colour.
    pub fn with_text_color(self, text_color: Color) -> (r: Style)
        ensures
            r.text_color == Some(text_color),
    {
        Style { text_color: Some(text_color) }
    }
}

} // verus!
