//! A lightweight backtrace that can accompany a diagnostic: a list of
//! frames, each naming a file, an optional object, and an optional position.

use vstd::prelude::*;

verus! {

/// Configuration for displaying backtraces.
pub struct CausedByConfig {
    /// Show the backtrace with number labels.
    pub show_label_numbers: bool,
    /// Number labels start at this index.
    pub label_index_start: usize,
}

impl Default for CausedByConfig {
    /// Numbered labels, starting at one.
    fn default() -> (r: CausedByConfig)
        ensures
            r.show_label_numbers == true,
            r.label_index_start == 1,
    {
        CausedByConfig { show_label_numbers: true, label_index_start: 1 }
    }
}

/// A backtrace frame: where something happened.
#[derive(Debug)]
pub struct CausedByFrame {
    /// The file path.
    pub file: String,
    /// The function name or module path, such as `std::io::read_line`.
    pub object: Option<String>,
    /// Line and column.
    pub position: Option<(usize, usize)>,
}

impl CausedByFrame {
    /// Create a new backtrace frame for the given file; the path should fit
    /// on a single line.
    pub fn new(file: &str) -> (r: CausedByFrame)
        ensures
            r.file@ == file@,
            r.object is None,
            r.position is None,
    {
        CausedByFrame { file: file.to_owned(), object: None, position: None }
    }

    /// Name the object this frame points at; the name should fit on a single
    /// line.
    pub fn with_object(self, object: &str) -> (r: CausedByFrame)
        ensures
            r.file == self.file,
            r.object matches Some(o) && o@ == object@,
            r.position == self.position,
    {
        CausedByFrame { object: Some(object.to_owned()), ..self }
    }

    /// Where the object is located.
    pub fn with_position(self, line: usize, column: usize) -> (r: CausedByFrame)
        ensures
            r.file == self.file,
            r.object == self.object,
            r.position == Some((line, column)),
    {
        CausedByFrame { position: Some((line, column)), ..self }
    }
}

/// A backtrace: an ordered collection of frames.
pub struct CausedBy {
    /// The frames, oldest first.
    pub frames: Vec<CausedByFrame>,
}

impl Default for CausedBy {
    /// An empty backtrace.
    fn default() -> (r: CausedBy)
        ensures
            r.frames@.len() == 0,
    {
        CausedBy { frames: Vec::new() }
    }
}

impl CausedBy {
    /// Add a frame to the backtrace.
    pub fn push_frame(&mut self, frame: CausedByFrame)
        ensures
            final(self).frames@.len() == old(self).frames@.len() + 1,
            final(self).frames@.last() == frame,
            final(self).frames@.take(old(self).frames@.len() as int) == old(self).frames@,
    {
        self.frames.push(frame);
        assert(self.frames@.take(old(self).frames@.len() as int) =~= old(self).frames@);
    }

    /// Remove all frames.
    pub fn clear(&mut self)
        ensures
            final(self).frames@.len() == 0,
    {
        self.frames.clear();
    }
}

} // verus!
