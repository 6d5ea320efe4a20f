//! The source model: text split into lines, with queries from character and
//! byte offsets to lines and columns, and the caches that hand sources to the
//! renderer.

use crate::text::{
    char_utf8_len, chars_to_string, copy_vec, is_line_break, is_whitespace, push_chars,
    push_decimal, spec_decimal, spec_is_line_break, spec_is_whitespace, spec_trim_end,
    spec_utf8_len, str_chars,
};
use vstd::prelude::*;
use vstd::std_specs::cmp::PartialEqSpec;

verus! {

/// Whether a line ends just after position `j`: the character there is a
/// line break, except that a carriage return directly followed by a line
/// feed ends no line on its own (the pair ends one at the line feed).
pub open spec fn spec_ends_line_at(chars: Seq<char>, j: int) -> bool {
    &&& spec_is_line_break(chars[j])
    &&& !(chars[j] == '\r' && j + 1 < chars.len() && chars[j + 1] == '\n')
}

/// A single line of a [`Source`]: where it starts and how long it is, in
/// characters and in bytes, terminator included.
#[derive(Clone, Copy, Debug, Hash, PartialEq, Eq, Structural)]
pub struct Line {
    pub(crate) offset: usize,
    pub(crate) char_len: usize,
    pub(crate) byte_offset: usize,
    pub(crate) byte_len: usize,
}

impl Line {
    /// The character offset at which this line starts.
    pub open(crate) spec fn spec_offset(&self) -> usize {
        self.offset
    }

    /// The character length of this line, terminator included.
    pub open(crate) spec fn spec_char_len(&self) -> usize {
        self.char_len
    }

    /// The byte offset at which this line starts.
    pub open(crate) spec fn spec_byte_offset(&self) -> usize {
        self.byte_offset
    }

    /// The byte length of this line, terminator included.
    pub open(crate) spec fn spec_byte_len(&self) -> usize {
        self.byte_len
    }

    /// The character offset just past this line.
    pub open spec fn spec_end(&self) -> int {
        self.spec_offset() + self.spec_char_len()
    }

    /// The byte offset just past this line.
    pub open spec fn spec_byte_end(&self) -> int {
        self.spec_byte_offset() + self.spec_byte_len()
    }

    /// The character offset of this line in its source: the number of
    /// characters that precede it.
    pub fn offset(&self) -> (r: usize)
        ensures
            r == self.spec_offset(),
    {
        self.offset
    }

    /// The character length of this line.
    pub fn len(&self) -> (r: usize)
        ensures
            r == self.spec_char_len(),
    {
        self.char_len
    }

    /// The character offset range of this line in its source.
    pub fn span(&self) -> (r: (usize, usize))
        requires
            self.spec_end() <= usize::MAX,
        ensures
            r.0 == self.spec_offset(),
            r.1 == self.spec_end(),
    {
        (self.offset, self.offset + self.char_len)
    }
}

/// The lines of `chars`, in order: contiguous, non-empty, broken exactly at
/// the line-break boundaries, with byte offsets that mirror the character
/// offsets under UTF-8.
pub open spec fn lines_wf(chars: Seq<char>, lines: Seq<Line>) -> bool {
    &&& (lines.len() == 0 <==> chars.len() == 0)
    &&& forall|i: int| 0 <= i < lines.len() ==> (#[trigger] lines[i]).spec_char_len() >= 1
    &&& (lines.len() > 0 ==> lines[0].spec_offset() == 0 && lines[0].spec_byte_offset() == 0)
    &&& forall|i: int|
        #![trigger lines[i], lines[i + 1]]
        0 <= i < lines.len() - 1 ==> lines[i + 1].spec_offset() == lines[i].spec_end() && lines[i
            + 1].spec_byte_offset() == lines[i].spec_byte_end()
    &&& (lines.len() > 0 ==> lines.last().spec_end() == chars.len()
        && lines.last().spec_byte_end() == spec_utf8_len(chars))
    &&& forall|i: int|
        0 <= i < lines.len() ==> (#[trigger] lines[i]).spec_byte_len() == spec_utf8_len(
            chars.subrange(lines[i].spec_offset() as int, lines[i].spec_end()),
        )
    &&& forall|i: int, j: int|
        #![trigger lines[i], spec_ends_line_at(chars, j)]
        0 <= i < lines.len() && lines[i].spec_offset() <= j < lines[i].spec_end() - 1
            ==> !spec_ends_line_at(chars, j)
    &&& forall|i: int|
        0 <= i < lines.len() - 1 ==> spec_ends_line_at(chars, (#[trigger] lines[i]).spec_end() - 1)
}

/// Every line of a well-formed decomposition lies within the text, and its
/// byte extent within the text's byte length.
pub proof fn lemma_line_extent(chars: Seq<char>, lines: Seq<Line>, i: int)
    requires
        lines_wf(chars, lines),
        0 <= i < lines.len(),
    ensures
        lines[i].spec_end() <= chars.len(),
        lines[i].spec_byte_end() <= spec_utf8_len(chars),
    decreases lines.len() - i,
{
    if i == lines.len() - 1 {
    } else {
        lemma_line_extent(chars, lines, i + 1);
        assert(lines[i + 1].spec_offset() == lines[i].spec_end());
        assert(lines[i + 1].spec_byte_offset() == lines[i].spec_byte_end());
    }
}

/// Line start offsets never decrease with the line index.
pub proof fn lemma_line_offsets_monotone(chars: Seq<char>, lines: Seq<Line>, i: int, j: int)
    requires
        lines_wf(chars, lines),
        0 <= i <= j < lines.len(),
    ensures
        lines[i].spec_offset() <= lines[j].spec_offset(),
    decreases j - i,
{
    if i < j {
        lemma_line_offsets_monotone(chars, lines, i, j - 1);
        assert(lines[j - 1 + 1].spec_offset() == lines[j - 1].spec_end());
    }
}

/// Two well-formed decompositions of one text agree line by line: the line
/// at `i` is determined, and the line after it starts where it ends.
proof fn lemma_lines_wf_line_eq(chars: Seq<char>, l1: Seq<Line>, l2: Seq<Line>, i: int)
    requires
        lines_wf(chars, l1),
        lines_wf(chars, l2),
        0 <= i < l1.len(),
        i < l2.len(),
        l1[i].spec_offset() == l2[i].spec_offset(),
        l1[i].spec_byte_offset() == l2[i].spec_byte_offset(),
    ensures
        l1[i] == l2[i],
        (i + 1 < l1.len() <==> i + 1 < l2.len()),
        i + 1 < l1.len() ==> l1[i + 1].spec_offset() == l2[i + 1].spec_offset() && l1[i
            + 1].spec_byte_offset() == l2[i + 1].spec_byte_offset(),
{
    lemma_line_extent(chars, l1, i);
    lemma_line_extent(chars, l2, i);
    if i + 1 < l1.len() {
        lemma_line_extent(chars, l1, i + 1);
    }
    if i + 1 < l2.len() {
        lemma_line_extent(chars, l2, i + 1);
    }
    // The two lines end at the same place.
    if i < l1.len() - 1 && i < l2.len() - 1 {
        assert(spec_ends_line_at(chars, l1[i].spec_end() - 1));
        assert(spec_ends_line_at(chars, l2[i].spec_end() - 1));
        if l1[i].spec_end() < l2[i].spec_end() {
            assert(false);
        }
        if l2[i].spec_end() < l1[i].spec_end() {
            assert(false);
        }
    } else if i == l1.len() - 1 && i < l2.len() - 1 {
        assert(l1[i].spec_end() == chars.len());
        assert(spec_ends_line_at(chars, l2[i].spec_end() - 1));
        assert(l2[i + 1].spec_offset() == l2[i].spec_end());
        assert(l2[i].spec_end() + 1 <= chars.len());
        assert(false);
    } else if i < l1.len() - 1 && i == l2.len() - 1 {
        assert(l2[i].spec_end() == chars.len());
        assert(spec_ends_line_at(chars, l1[i].spec_end() - 1));
        assert(l1[i + 1].spec_offset() == l1[i].spec_end());
        assert(l1[i].spec_end() + 1 <= chars.len());
        assert(false);
    } else {
        assert(l1[i].spec_end() == chars.len());
        assert(l2[i].spec_end() == chars.len());
    }
    assert(l1[i].spec_char_len() == l2[i].spec_char_len());
    assert(l1[i].spec_byte_len() == l2[i].spec_byte_len());
    assert(l1[i] == l2[i]);
}

/// Two well-formed decompositions of one text agree from position `i` on.
proof fn lemma_lines_wf_unique_from(chars: Seq<char>, l1: Seq<Line>, l2: Seq<Line>, i: int)
    requires
        lines_wf(chars, l1),
        lines_wf(chars, l2),
        0 <= i < l1.len(),
        i < l2.len(),
        l1[i].spec_offset() == l2[i].spec_offset(),
        l1[i].spec_byte_offset() == l2[i].spec_byte_offset(),
    ensures
        l1.len() == l2.len(),
        forall|k: int| i <= k < l1.len() ==> l1[k] == l2[k],
    decreases l1.len() - i,
{
    lemma_lines_wf_line_eq(chars, l1, l2, i);
    if i + 1 < l1.len() {
        lemma_lines_wf_unique_from(chars, l1, l2, i + 1);
    }
}

/// The lines of a text are pinned: any two well-formed decompositions are
/// one and the same, so [`lines_wf`] determines the line index completely.
pub proof fn lemma_lines_wf_unique(chars: Seq<char>, l1: Seq<Line>, l2: Seq<Line>)
    requires
        lines_wf(chars, l1),
        lines_wf(chars, l2),
    ensures
        l1 =~= l2,
{
    if chars.len() == 0 {
        assert(l1.len() == 0 && l2.len() == 0);
    } else {
        lemma_lines_wf_unique_from(chars, l1, l2, 0);
    }
}

/// Two sources over the same text have the same lines: well-formedness pins
/// the decomposition, so the contract of [`Source::from`] determines its
/// result.
pub proof fn lemma_source_lines_unique(a: Source, b: Source)
    requires
        a.wf(),
        b.wf(),
        a.spec_chars() == b.spec_chars(),
    ensures
        a.spec_lines() =~= b.spec_lines(),
        a.spec_len() == b.spec_len(),
        a.spec_byte_len() == b.spec_byte_len(),
{
    lemma_lines_wf_unique(a.spec_chars(), a.spec_lines(), b.spec_lines());
}

/// A single source text that spans may refer to, with its line index.
#[derive(Debug)]
pub struct Source {
    pub(crate) chars: Vec<char>,
    pub(crate) lines: Vec<Line>,
    pub(crate) len: usize,
    pub(crate) byte_len: usize,
}

impl Source {
    /// The characters of the source text.
    pub open(crate) spec fn spec_chars(&self) -> Seq<char> {
        self.chars@
    }

    /// The lines of the source text.
    pub open(crate) spec fn spec_lines(&self) -> Seq<Line> {
        self.lines@
    }

    /// The recorded character count.
    pub open(crate) spec fn spec_len(&self) -> usize {
        self.len
    }

    /// The recorded byte count.
    pub open(crate) spec fn spec_byte_len(&self) -> usize {
        self.byte_len
    }

    /// Validity, held by every value of this type: the lines decompose the
    /// characters, and the recorded counts agree with them.
    #[verifier::type_invariant]
    pub open spec fn wf(&self) -> bool {
        &&& lines_wf(self.spec_chars(), self.spec_lines())
        &&& self.spec_len() == self.spec_chars().len()
        &&& self.spec_byte_len() == spec_utf8_len(self.spec_chars())
    }

    /// Split the given text into a [`Source`].
    #[verifier::rlimit(100)]
    pub fn from(input: &str) -> (r: Source)
        ensures
            r.wf(),
            r.spec_chars() == input@,
    {
        let chars = str_chars(input);
        let n = chars.len();
        let mut lines: Vec<Line> = Vec::new();
        let mut i: usize = 0;
        let mut line_start: usize = 0;
        let mut byte_pos: usize = 0;
        let mut line_byte_start: usize = 0;
        while i < n
            invariant
                n == chars@.len(),
                spec_utf8_len(chars@) <= usize::MAX,
                line_start <= i <= n,
                byte_pos == spec_utf8_len(chars@.take(i as int)),
                line_byte_start == spec_utf8_len(chars@.take(line_start as int)),
                lines@.len() == 0 ==> line_start == 0,
                lines@.len() > 0 ==> lines@.last().spec_end() == line_start
                    && lines@.last().spec_byte_end() == line_byte_start,
                forall|k: int| 0 <= k < lines@.len() ==> (#[trigger] lines@[k]).spec_char_len() >= 1,
                lines@.len() > 0 ==> lines@[0].spec_offset() == 0 && lines@[0].spec_byte_offset()
                    == 0,
                forall|k: int|
                    #![trigger lines@[k], lines@[k + 1]]
                    0 <= k < lines@.len() - 1 ==> lines@[k + 1].spec_offset()
                        == lines@[k].spec_end() && lines@[k + 1].spec_byte_offset()
                        == lines@[k].spec_byte_end(),
                forall|k: int|
                    0 <= k < lines@.len() ==> (#[trigger] lines@[k]).spec_byte_len()
                        == spec_utf8_len(
                        chars@.subrange(lines@[k].spec_offset() as int, lines@[k].spec_end()),
                    ),
                forall|k: int, j: int|
                    #![trigger lines@[k], spec_ends_line_at(chars@, j)]
                    0 <= k < lines@.len() && lines@[k].spec_offset() <= j < lines@[k].spec_end() - 1
                        ==> !spec_ends_line_at(chars@, j),
                forall|k: int|
                    0 <= k < lines@.len() ==> spec_ends_line_at(
                        chars@,
                        (#[trigger] lines@[k]).spec_end() - 1,
                    ),
                forall|j: int| line_start <= j < i ==> !spec_ends_line_at(chars@, j),
            decreases n - i,
        {
            let c = chars[i];
            let cb = char_utf8_len(c);
            proof {
                crate::text::lemma_utf8_len_take_succ(chars@, i as int);
                crate::text::lemma_utf8_len_take_le(chars@, i + 1);
            }
            let nb = byte_pos + cb;
            let pair_cr = c == '\r' && i + 1 < n && chars[i + 1] == '\n';
            if is_line_break(c) && !pair_cr {
                proof {
                    crate::text::lemma_utf8_len_subrange(chars@, line_start as int, i + 1);
                    assert(spec_ends_line_at(chars@, i as int));
                }
                let line = Line {
                    offset: line_start,
                    char_len: i + 1 - line_start,
                    byte_offset: line_byte_start,
                    byte_len: nb - line_byte_start,
                };
                lines.push(line);
                line_start = i + 1;
                line_byte_start = nb;
            }
            byte_pos = nb;
            i = i + 1;
        }
        if line_start < n {
            proof {
                assert(chars@.take(n as int) =~= chars@);
                crate::text::lemma_utf8_len_subrange(chars@, line_start as int, n as int);
            }
            let line = Line {
                offset: line_start,
                char_len: n - line_start,
                byte_offset: line_byte_start,
                byte_len: byte_pos - line_byte_start,
            };
            lines.push(line);
        }
        proof {
            assert(chars@.take(n as int) =~= chars@);
        }
        Source { chars, lines, len: n, byte_len: byte_pos }
    }

    /// The total number of characters in the source.
    pub fn len(&self) -> (r: usize)
        ensures
            r == self.spec_len(),
    {
        self.len
    }

    /// The total number of bytes in the source.
    pub(crate) fn byte_len(&self) -> (r: usize)
        ensures
            r == self.spec_byte_len(),
    {
        self.byte_len
    }

    /// The characters of the source, in order.
    pub fn chars(&self) -> (r: Vec<char>)
        ensures
            r@ == self.spec_chars(),
    {
        copy_vec(&self.chars)
    }

    /// The character at the given position.
    pub(crate) fn char_at(&self, k: usize) -> (r: char)
        requires
            k < self.spec_chars().len(),
        ensures
            r == self.spec_chars()[k as int],
    {
        proof {
            use_type_invariant(self);
        }
        self.chars[k]
    }

    /// The line with the given zero-based index, if there is one.
    pub fn line(&self, idx: usize) -> (r: Option<Line>)
        ensures
            r matches Some(l) ==> idx < self.spec_lines().len() && l == self.spec_lines()[
                idx as int],
            r is None <==> idx >= self.spec_lines().len(),
    {
        if idx < self.lines.len() {
            Some(self.lines[idx])
        } else {
            None
        }
    }

    /// All lines of this source, in order.
    pub fn lines(&self) -> (r: Vec<Line>)
        ensures
            r@ == self.spec_lines(),
    {
        copy_vec(&self.lines)
    }

    /// The number of lines of this source.
    pub fn line_count(&self) -> (r: usize)
        ensures
            r == self.spec_lines().len(),
    {
        self.lines.len()
    }

    /// The line containing the given character offset, its index, and the
    /// column of the offset within it. Offsets up to and including the
    /// character count resolve (the final offset falls on the last line);
    /// `None` past the end or for an empty source.
    #[verifier::rlimit(50)]
    pub fn get_offset_line(&self, offset: usize) -> (r: Option<(Line, usize, usize)>)
        ensures
            r is Some <==> offset <= self.spec_len() && self.spec_lines().len() > 0,
            r matches Some((line, idx, col)) ==> {
                &&& idx < self.spec_lines().len()
                &&& line == self.spec_lines()[idx as int]
                &&& line.spec_offset() <= offset
                &&& col == offset - line.spec_offset()
                &&& (offset < line.spec_end() || (idx == self.spec_lines().len() - 1 && offset
                    <= self.spec_len()))
            },
    {
        proof {
            use_type_invariant(self);
        }
        if offset <= self.len && self.lines.len() > 0 {
            let mut idx: usize = 0;
            while idx + 1 < self.lines.len() && self.lines[idx + 1].offset <= offset
                invariant
                    self.wf(),
                    self.spec_lines().len() <= usize::MAX,
                    idx < self.spec_lines().len(),
                    self.spec_lines()[idx as int].spec_offset() <= offset,
                decreases self.spec_lines().len() - idx,
            {
                idx = idx + 1;
            }
            let line = self.lines[idx];
            proof {
                if idx + 1 < self.spec_lines().len() {
                    assert(self.spec_lines()[idx as int + 1].spec_offset() == line.spec_end());
                }
            }
            Some((line, idx, offset - line.offset))
        } else {
            None
        }
    }

    /// The line containing the given byte offset, its index, and the byte
    /// column of the offset within it; `None` past the end or for an empty
    /// source.
    #[verifier::rlimit(50)]
    pub fn get_byte_line(&self, byte_offset: usize) -> (r: Option<(Line, usize, usize)>)
        ensures
            r is Some <==> byte_offset <= self.spec_byte_len() && self.spec_lines().len() > 0,
            r matches Some((line, idx, col)) ==> {
                &&& idx < self.spec_lines().len()
                &&& line == self.spec_lines()[idx as int]
                &&& line.spec_byte_offset() <= byte_offset
                &&& col == byte_offset - line.spec_byte_offset()
                &&& (byte_offset < line.spec_byte_end() || (idx == self.spec_lines().len() - 1
                    && byte_offset <= self.spec_byte_len()))
            },
    {
        proof {
            use_type_invariant(self);
        }
        if byte_offset <= self.byte_len && self.lines.len() > 0 {
            let mut idx: usize = 0;
            while idx + 1 < self.lines.len() && self.lines[idx + 1].byte_offset <= byte_offset
                invariant
                    self.wf(),
                    self.spec_lines().len() <= usize::MAX,
                    idx < self.spec_lines().len(),
                    self.spec_lines()[idx as int].spec_byte_offset() <= byte_offset,
                decreases self.spec_lines().len() - idx,
            {
                idx = idx + 1;
            }
            let line = self.lines[idx];
            Some((line, idx, byte_offset - line.byte_offset))
        } else {
            None
        }
    }

    /// The last character offset a span covers: one before its end, but
    /// never before its start.
    pub open spec fn spec_span_last(s: int, e: int) -> int {
        if e > s {
            e - 1
        } else {
            s
        }
    }

    /// The range of line indices that the given span runs across: the line
    /// of its start offset up to one past the line of its last offset. The
    /// bounds fall back to the first and one-past-last line for offsets
    /// outside the source, so the result always holds valid line indices.
    pub fn get_line_range<S: crate::Span>(&self, span: &S) -> (r: (usize, usize))
        ensures
            r.0 <= r.1,
            r.1 <= self.spec_lines().len(),
            r.0 < self.spec_lines().len() || r.0 == 0,
            (span.spec_start() <= self.spec_len() && self.spec_lines().len() > 0) ==> {
                &&& r.0 < self.spec_lines().len()
                &&& self.spec_lines()[r.0 as int].spec_offset() <= span.spec_start()
                &&& (span.spec_start() < self.spec_lines()[r.0 as int].spec_end() || r.0
                    == self.spec_lines().len() - 1)
            },
            !(span.spec_start() <= self.spec_len() && self.spec_lines().len() > 0) ==> r.0 == 0,
            ({
                let last = Source::spec_span_last(
                    span.spec_start() as int,
                    span.spec_end() as int,
                );
                &&& ((last <= self.spec_len() && self.spec_lines().len() > 0) ==> {
                    &&& r.1 >= 1
                    &&& r.1 - 1 < self.spec_lines().len()
                    &&& self.spec_lines()[r.1 - 1].spec_offset() <= last
                    &&& (last < self.spec_lines()[r.1 - 1].spec_end() || r.1
                        == self.spec_lines().len())
                })
                &&& (!(last <= self.spec_len() && self.spec_lines().len() > 0) ==> r.1
                    == self.spec_lines().len())
            }),
    {
        proof {
            use_type_invariant(self);
        }
        let start = match self.get_offset_line(span.start()) {
            Some(res) => res.1,
            None => 0,
        };
        let s_off = span.start();
        let e_off = span.end();
        let last = if e_off > 0 && e_off - 1 > s_off {
            e_off - 1
        } else {
            s_off
        };
        let lc = self.lines.len();
        let end = match self.get_offset_line(last) {
            Some(res) => {
                proof {
                    assert(res.1 < lc);
                }
                res.1 + 1
            },
            None => lc,
        };
        if start <= end {
            (start, end)
        } else {
            // The start offset never lies past the span's last offset, so
            // its line never lies past the last offset's line.
            proof {
                assert(s_off <= last);
                assert(end >= 1 && (end - 1) < self.spec_lines().len());
                assert(start < self.spec_lines().len());
                crate::source::lemma_line_offsets_monotone(
                    self.spec_chars(),
                    self.spec_lines(),
                    end as int,
                    start as int,
                );
                assert(self.spec_lines()[end as int].spec_offset() == self.spec_lines()[end
                    - 1].spec_end());
                assert(false);
            }
            (start, start)
        }
    }

    /// The characters of the given line, with trailing white space trimmed.
    /// `None` if the line does not lie within this source.
    pub fn line_text_chars(&self, line: Line) -> (r: Option<Vec<char>>)
        ensures
            r is Some <==> line.spec_end() <= self.spec_chars().len(),
            r matches Some(t) ==> t@ == spec_trim_end(
                self.spec_chars().subrange(line.spec_offset() as int, line.spec_end()),
            ),
    {
        proof {
            use_type_invariant(self);
        }
        if line.char_len <= self.chars.len() && line.offset <= self.chars.len() - line.char_len {
            let mut end: usize = line.offset + line.char_len;
            let ghost seg = self.spec_chars().subrange(line.spec_offset() as int, line.spec_end());
            while end > line.offset && is_whitespace(self.chars[end - 1])
                invariant
                    self.wf(),
                    line.spec_offset() <= end <= line.spec_end(),
                    line.spec_end() <= self.spec_chars().len(),
                    seg == self.spec_chars().subrange(line.spec_offset() as int, line.spec_end()),
                    spec_trim_end(seg) == spec_trim_end(
                        self.spec_chars().subrange(line.spec_offset() as int, end as int),
                    ),
                decreases end,
            {
                proof {
                    let pre = self.spec_chars().subrange(line.spec_offset() as int, end as int);
                    assert(pre.len() > 0 && spec_is_whitespace(pre.last()));
                    assert(pre.drop_last() =~= self.spec_chars().subrange(
                        line.spec_offset() as int,
                        end - 1,
                    ));
                }
                end = end - 1;
            }
            let mut out: Vec<char> = Vec::new();
            let mut k: usize = line.offset;
            while k < end
                invariant
                    self.wf(),
                    line.spec_offset() <= k <= end,
                    end <= self.spec_chars().len(),
                    out@ == self.spec_chars().subrange(line.spec_offset() as int, k as int),
                decreases end - k,
            {
                out.push(self.chars[k]);
                proof {
                    assert(self.spec_chars().subrange(line.spec_offset() as int, k + 1)
                        =~= self.spec_chars().subrange(line.spec_offset() as int, k as int).push(
                        self.spec_chars()[k as int],
                    ));
                }
                k = k + 1;
            }
            proof {
                let t = self.spec_chars().subrange(line.spec_offset() as int, end as int);
                if t.len() > 0 {
                    assert(t.last() == self.spec_chars()[end - 1]);
                }
                crate::text::lemma_trim_end_of_trimmed(t);
            }
            Some(out)
        } else {
            None
        }
    }

    /// The text of the given line, with trailing white space trimmed.
    /// `None` if the line does not lie within this source.
    pub fn get_line_text(&self, line: Line) -> (r: Option<String>)
        ensures
            r is Some <==> line.spec_end() <= self.spec_chars().len(),
            r matches Some(t) ==> t@ == spec_trim_end(
                self.spec_chars().subrange(line.spec_offset() as int, line.spec_end()),
            ),
    {
        match self.line_text_chars(line) {
            Some(t) => Some(chars_to_string(&t)),
            None => None,
        }
    }

    /// How many whole characters of the given line fit in its first
    /// `byte_col` bytes; a byte offset inside a multi-byte character is in
    /// effect clamped back to the previous character boundary.
    pub(crate) fn chars_before_byte(&self, line: Line, byte_col: usize) -> (r: usize)
        requires
            line.spec_end() <= self.spec_chars().len(),
        ensures
            r <= line.spec_char_len(),
            r <= byte_col,
            r == crate::text::spec_chars_fitting(
                self.spec_chars().subrange(line.spec_offset() as int, line.spec_end()),
                byte_col as int,
            ),
    {
        proof {
            use_type_invariant(self);
        }
        let ghost seg = self.spec_chars().subrange(line.spec_offset() as int, line.spec_end());
        proof {
            assert(seg.skip(0) =~= seg);
        }
        let mut k: usize = 0;
        let mut used: usize = 0;
        while k < line.char_len
            invariant
                self.wf(),
                line.spec_end() <= self.spec_chars().len(),
                seg == self.spec_chars().subrange(line.spec_offset() as int, line.spec_end()),
                k <= line.spec_char_len(),
                k <= used <= byte_col,
                crate::text::spec_chars_fitting(seg, byte_col as int) == k
                    + crate::text::spec_chars_fitting(seg.skip(k as int), byte_col - used),
            decreases line.spec_char_len() - k,
        {
            let cb = char_utf8_len(self.chars[line.offset + k]);
            proof {
                assert(seg.skip(k as int)[0] == seg[k as int]);
                assert(seg[k as int] == self.spec_chars()[line.spec_offset() + k]);
                assert(seg.skip(k as int).drop_first() =~= seg.skip(k + 1));
            }
            if cb > byte_col - used {
                proof {
                    assert(crate::text::spec_chars_fitting(seg.skip(k as int), byte_col - used)
                        == 0);
                }
                return k;
            }
            used = used + cb;
            k = k + 1;
        }
        proof {
            assert(seg.skip(line.spec_char_len() as int) =~= Seq::<char>::empty());
        }
        k
    }

    /// A duplicate of this source.
    pub(crate) fn duplicate(&self) -> (r: Source)
        ensures
            r.spec_chars() == self.spec_chars(),
            r.spec_lines() == self.spec_lines(),
            r.spec_len() == self.spec_len(),
            r.spec_byte_len() == self.spec_byte_len(),
    {
        proof {
            use_type_invariant(self);
        }
        Source {
            chars: copy_vec(&self.chars),
            lines: copy_vec(&self.lines),
            len: self.len,
            byte_len: self.byte_len,
        }
    }
}

impl Clone for Source {
    /// A clone carries the same characters and lines.
    fn clone(&self) -> (r: Source)
        ensures
            r.spec_chars() == self.spec_chars(),
            r.spec_lines() == self.spec_lines(),
            r.spec_len() == self.spec_len(),
            r.spec_byte_len() == self.spec_byte_len(),
    {
        self.duplicate()
    }
}

/// A source of [`Source`]s: the renderer fetches each referenced source by
/// its identifier and asks for a printable name for it.
pub trait Cache<Id> {
    /// Fetch the source identified by `id`, or explain why it cannot be had.
    fn fetch(&mut self, id: &Id) -> Result<Source, String>;

    /// A printable name for `id`, if it has one.
    fn display(&self, id: &Id) -> Option<String>;
}

impl Cache<()> for Source {
    /// A single anonymous source: every fetch yields it.
    fn fetch(&mut self, _id: &()) -> Result<Source, String> {
        Ok(self.duplicate())
    }

    fn display(&self, _id: &()) -> Option<String> {
        None
    }
}

/// An identifier that can print its own name.
pub trait SourceName {
    /// The name, in specification form.
    spec fn spec_name(&self) -> Seq<char>;

    /// A printable name for this identifier.
    fn name(&self) -> (r: String)
        ensures
            r@ == self.spec_name(),
    ;
}

impl SourceName for usize {
    open spec fn spec_name(&self) -> Seq<char> {
        spec_decimal(*self as nat)
    }

    fn name(&self) -> (r: String)
        ensures
            r@ == self.spec_name(),
    {
        let mut digits: Vec<char> = Vec::new();
        push_decimal(&mut digits, *self);
        chars_to_string(&digits)
    }
}

impl SourceName for String {
    open spec fn spec_name(&self) -> Seq<char> {
        self@
    }

    fn name(&self) -> (r: String)
        ensures
            r@ == self.spec_name(),
    {
        self.clone()
    }
}

/// A cache over a fixed list of identified sources. Unlike a cache built
/// around a user-supplied fetch function, every source is loaded up front;
/// a caller that fetches lazily or computes sources on demand implements
/// [`Cache`] itself.
pub struct FnCache<Id> {
    pub(crate) entries: Vec<(Id, Source)>,
}

impl<Id> FnCache<Id> {
    /// The entries of the cache.
    pub open(crate) spec fn spec_entries(&self) -> Seq<(Id, Source)> {
        self.entries@
    }

    /// An empty cache; fetches fail until sources are added.
    pub fn new() -> (r: FnCache<Id>)
        ensures
            r.spec_entries().len() == 0,
    {
        FnCache { entries: Vec::new() }
    }

    /// Add the given sources to this cache.
    pub fn with_sources(self, list: Vec<(Id, Source)>) -> (r: FnCache<Id>)
        ensures
            r.spec_entries() == self.spec_entries() + list@,
    {
        let ghost all = list@;
        let ghost base = self.spec_entries();
        let mut entries = self.entries;
        let mut rest = list;
        while rest.len() > 0
            invariant
                rest@.len() <= all.len(),
                rest@ == all.skip(all.len() - rest@.len()),
                entries@ == base + all.take(all.len() - rest@.len()),
            decreases rest@.len(),
        {
            let ghost k = all.len() - rest@.len();
            let e = rest.remove(0);
            assert(e == all[k]);
            assert(rest@ =~= all.skip(k + 1));
            entries.push(e);
            assert(entries@ =~= base + all.take(k + 1));
        }
        assert(entries@ =~= base + all);
        FnCache { entries }
    }
}

impl<Id: PartialEq + SourceName> FnCache<Id> {
    /// The entry that serves the given identifier: the last one whose
    /// identifier equals it, or none. The choice is pinned whenever the
    /// identifier's equality obeys its standard specification.
    pub fn lookup(&self, id: &Id) -> (r: Option<usize>)
        ensures
            r matches Some(k) ==> k < self.spec_entries().len(),
            <Id as vstd::std_specs::cmp::PartialEqSpec>::obeys_eq_spec() ==> {
                &&& (r is Some <==> exists|k: int|
                    0 <= k < self.spec_entries().len() && id.eq_spec(
                        &(#[trigger] self.spec_entries()[k]).0,
                    ))
                &&& (r matches Some(ki) ==> id.eq_spec(&self.spec_entries()[ki as int].0) && (
                forall|k: int|
                    ki < k < self.spec_entries().len() ==> !id.eq_spec(
                        &(#[trigger] self.spec_entries()[k]).0,
                    )))
            },
    {
        let ghost obeys = <Id as vstd::std_specs::cmp::PartialEqSpec>::obeys_eq_spec();
        let mut i: usize = self.entries.len();
        while i > 0
            invariant
                obeys == <Id as vstd::std_specs::cmp::PartialEqSpec>::obeys_eq_spec(),
                i <= self.spec_entries().len(),
                obeys ==> forall|k: int|
                    i <= k < self.spec_entries().len() ==> !id.eq_spec(
                        &(#[trigger] self.spec_entries()[k]).0,
                    ),
            decreases i,
        {
            i = i - 1;
            if *id == self.entries[i].0 {
                return Some(i);
            }
        }
        None
    }
}

impl<Id: PartialEq + SourceName> Cache<Id> for FnCache<Id> {
    /// Fetch through [`FnCache::lookup`]; a later entry with the same
    /// identifier overrides an earlier one. A miss reports the failed name.
    fn fetch(&mut self, id: &Id) -> Result<Source, String> {
        match self.lookup(id) {
            Some(k) => Ok(self.entries[k].1.duplicate()),
            None => {
                let mut msg: Vec<char> = str_chars("Failed to fetch source '");
                let name = id.name();
                let name_chars = str_chars(name.as_str());
                push_chars(&mut msg, &name_chars);
                msg.push('\'');
                Err(chars_to_string(&msg))
            },
        }
    }

    fn display(&self, id: &Id) -> Option<String> {
        Some(id.name())
    }
}

/// A cache over a list of identified sources: each entry is an identifier
/// and the text it refers to, parsed into a [`Source`].
pub fn sources<Id: PartialEq + SourceName>(list: Vec<(Id, String)>) -> (r: FnCache<Id>)
    ensures
        r.spec_entries().len() == list@.len(),
        forall|k: int|
            0 <= k < list@.len() ==> (#[trigger] r.spec_entries()[k]).0 == list@[k].0
                && r.spec_entries()[k].1.wf() && r.spec_entries()[k].1.spec_chars() == list@[
                k].1@,
{
    let ghost all = list@;
    let mut entries: Vec<(Id, Source)> = Vec::new();
    let mut rest = list;
    while rest.len() > 0
        invariant
            rest@.len() <= all.len(),
            rest@ == all.skip(all.len() - rest@.len()),
            entries@.len() == all.len() - rest@.len(),
            forall|k: int|
                0 <= k < entries@.len() ==> (#[trigger] entries@[k]).0 == all[k].0 && entries@[
                k].1.wf() && entries@[k].1.spec_chars() == all[k].1@,
        decreases rest@.len(),
    {
        let ghost k = all.len() - rest@.len();
        let e = rest.remove(0);
        proof {
            assert(e == all[k]);
            assert(rest@ =~= all.skip(k + 1));
        }
        let src = Source::from(e.1.as_str());
        entries.push((e.0, src));
    }
    let c = FnCache::<Id>::new();
    let r = c.with_sources(entries);
    proof {
        assert(forall|k: int|
            0 <= k < all.len() ==> #[trigger] r.spec_entries()[k] == entries@[k]);
    }
    r
}

} // verus!
