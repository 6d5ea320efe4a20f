//! Offset-tagged spans: a span carries byte or character offsets explicitly,
//! rather than leaving the interpretation to the configuration.

use vstd::prelude::*;

verus! {

/// A discriminated offset into a source: a byte position or a character
/// position.
#[derive(Clone, Copy, Debug, PartialEq, Eq, Structural)]
#[non_exhaustive]
pub enum Offset {
    /// A byte offset; lookups are constant time.
    Byte(usize),
    /// A character offset; lookups may scan a line.
    Char(usize),
}

/// A region of one file, with explicitly tagged offsets.
pub trait Span {
    /// The identifier of the file the span refers to.
    type FileId;

    /// Return the identifier of the file that this span refers to.
    fn file_id(&self) -> &Self::FileId;

    /// Return the offset pair that this span corresponds to.
    fn range(&self) -> (Offset, Offset);

    /// Turn this span into its file identifier and offset pair.
    fn into_parts(self) -> (Self::FileId, (Offset, Offset));
}

/// A byte-indexed span of the file identified by `K`.
#[derive(Clone, Copy, Debug, PartialEq, Eq, Structural)]
pub struct ByteSpan<K = ()> {
    /// The byte offset at which the span starts.
    pub start: usize,
    /// The byte offset just past the span.
    pub end: usize,
    /// The file the span points into.
    pub file_id: K,
}

impl<K> ByteSpan<K> {
    /// A byte span over the given range of the given file.
    pub fn new(byte_range: core::ops::Range<usize>, file_id: K) -> (r: ByteSpan<K>)
        ensures
            r.start == byte_range.start,
            r.end == byte_range.end,
            r.file_id == file_id,
    {
        ByteSpan { start: byte_range.start, end: byte_range.end, file_id }
    }
}

impl<K> Span for ByteSpan<K> {
    type FileId = K;

    fn file_id(&self) -> &Self::FileId {
        &self.file_id
    }

    fn range(&self) -> (r: (Offset, Offset))
        ensures
            r == (Offset::Byte(self.start), Offset::Byte(self.end)),
    {
        (Offset::Byte(self.start), Offset::Byte(self.end))
    }

    fn into_parts(self) -> (r: (Self::FileId, (Offset, Offset)))
        ensures
            r.1 == (Offset::Byte(self.start), Offset::Byte(self.end)),
    {
        let range = (Offset::Byte(self.start), Offset::Byte(self.end));
        (self.file_id, range)
    }
}

/// A character-indexed span of the file identified by `K`.
#[derive(Clone, Copy, Debug, PartialEq, Eq, Structural)]
pub struct CharSpan<K = ()> {
    /// The character offset at which the span starts.
    pub start: usize,
    /// The character offset just past the span.
    pub end: usize,
    /// The file the span points into.
    pub file_id: K,
}

impl<K> CharSpan<K> {
    /// A character span over the given range of the given file.
    pub fn new(char_range: core::ops::Range<usize>, file_id: K) -> (r: CharSpan<K>)
        ensures
            r.start == char_range.start,
            r.end == char_range.end,
            r.file_id == file_id,
    {
        CharSpan { start: char_range.start, end: char_range.end, file_id }
    }
}

impl<K> Span for CharSpan<K> {
    type FileId = K;

    fn file_id(&self) -> &Self::FileId {
        &self.file_id
    }

    fn range(&self) -> (r: (Offset, Offset))
        ensures
            r == (Offset::Char(self.start), Offset::Char(self.end)),
    {
        (Offset::Char(self.start), Offset::Char(self.end))
    }

    fn into_parts(self) -> (r: (Self::FileId, (Offset, Offset)))
        ensures
            r.1 == (Offset::Char(self.start), Offset::Char(self.end)),
    {
        let range = (Offset::Char(self.start), Offset::Char(self.end));
        (self.file_id, range)
    }
}

} // verus!
