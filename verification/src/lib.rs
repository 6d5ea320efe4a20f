//! A compiler-style diagnostic renderer: labels pointing into source text are
//! laid out as annotated source lines with connector arrows, a gutter for
//! multi-line spans, and optional colour.
//!
//! A [`Report`] holds a kind, an optional code and message, help and note
//! strings, and a collection of [`Label`]s over one or more sources. Rendering
//! resolves each label against a [`Source`] fetched from a [`Cache`], lays the
//! labels out line by line, and produces the text of the diagnostic.
//!
//! The renderer is total: [`Report::write_to_string`] accepts every report,
//! clamps byte offsets that fall inside a multi-byte character back to the
//! previous boundary, drops labels whose offsets lie past the end of their
//! source, and always returns a newline-terminated text. The display plan
//! shows every chosen source line exactly once in increasing order
//! ([`plan_display_rows`]), the gutter holds one column per multi-line label
//! with a message ([`gutter_labels`], [`lemma_gutter_columns_are_max_alive`]),
//! and rendering a clean resolved report with colour off yields no escape
//! character, and with the ASCII glyph set only seven-bit characters
//! ([`render_resolved`]).

pub mod caused_by;
mod draw;
pub mod file;
pub mod next;
pub mod render;
mod source;
pub mod span;
mod text;
mod write;

pub use crate::draw::{Characters, Color, StreamType};
pub use crate::source::{
    lemma_line_extent, lemma_lines_wf_unique, lemma_source_lines_unique, lines_wf,
    spec_ends_line_at, sources, Cache, FnCache, Line, Source, SourceName,
};
pub use crate::write::{
    assign_gutter_slots, gutter_labels, gutter_width, plan_display_rows, render_resolved,
    LineLabel, ResolvedLabel, ResolvedReport, RowPlan, SourceGroup,
};

use vstd::prelude::*;

verus! {

/// A span within a character- or byte-indexed source.
pub trait Span {
    /// The identifier used to refer to a source; in most cases the path of
    /// the file.
    type SourceId: PartialEq;

    /// The start offset of the span, in specification form.
    spec fn spec_start(&self) -> usize;

    /// The (exclusive) end offset of the span, in specification form.
    spec fn spec_end(&self) -> usize;

    /// The identifier of the source that this span refers to.
    fn source(&self) -> &Self::SourceId;

    /// The start offset of this span, a zero-indexed offset from the
    /// beginning of the source.
    fn start(&self) -> (r: usize)
        ensures
            r == self.spec_start(),
    ;

    /// The (exclusive) end offset of this span; never less than the start
    /// offset for a well-formed span.
    fn end(&self) -> (r: usize)
        ensures
            r == self.spec_end(),
    ;

    /// The length of this span.
    fn len(&self) -> (r: usize)
        ensures
            r == if self.spec_end() >= self.spec_start() {
                self.spec_end() - self.spec_start()
            } else {
                0
            },
    {
        let e = self.end();
        let s = self.start();
        if e >= s {
            e - s
        } else {
            0
        }
    }

    /// Whether this span has length zero.
    fn is_empty(&self) -> (r: bool)
        ensures
            r == (self.spec_end() <= self.spec_start()),
    {
        self.len() == 0
    }

    /// Whether the span contains the given offset.
    fn contains(&self, offset: usize) -> (r: bool)
        ensures
            r == (self.spec_start() <= offset && offset < self.spec_end()),
    {
        self.start() <= offset && offset < self.end()
    }
}

impl Span for core::ops::Range<usize> {
    type SourceId = ();

    open spec fn spec_start(&self) -> usize {
        self.start
    }

    open spec fn spec_end(&self) -> usize {
        self.end
    }

    fn source(&self) -> &Self::SourceId {
        &()
    }

    fn start(&self) -> (r: usize)
        ensures
            r == self.spec_start(),
    {
        self.start
    }

    fn end(&self) -> (r: usize)
        ensures
            r == self.spec_end(),
    {
        self.end
    }
}

impl<Id: PartialEq> Span for (Id, core::ops::Range<usize>) {
    type SourceId = Id;

    open spec fn spec_start(&self) -> usize {
        self.1.start
    }

    open spec fn spec_end(&self) -> usize {
        self.1.end
    }

    fn source(&self) -> &Self::SourceId {
        &self.0
    }

    fn start(&self) -> (r: usize)
        ensures
            r == self.spec_start(),
    {
        self.1.start
    }

    fn end(&self) -> (r: usize)
        ensures
            r == self.spec_end(),
    {
        self.1.end
    }
}

/// A labelled section of source code.
#[derive(Clone, Debug)]
pub struct Label<S = core::ops::Range<usize>> {
    span: S,
    msg: Option<String>,
    color: Option<Color>,
    order: i32,
    priority: i32,
}

impl<S: Span> Label<S> {
    /// The label's span.
    pub closed spec fn spec_span(&self) -> S {
        self.span
    }

    /// The label's message, if any.
    pub closed spec fn spec_msg(&self) -> Option<String> {
        self.msg
    }

    /// The label's colour, if any.
    pub closed spec fn spec_color(&self) -> Option<Color> {
        self.color
    }

    /// The label's order value.
    pub closed spec fn spec_order(&self) -> i32 {
        self.order
    }

    /// The label's priority value.
    pub closed spec fn spec_priority(&self) -> i32 {
        self.priority
    }

    /// Create a new [`Label`]. The offsets are zero-indexed and the span must
    /// not be backwards.
    pub fn new(span: S) -> (r: Label<S>)
        requires
            span.spec_start() <= span.spec_end(),
        ensures
            r.spec_span() == span,
            r.spec_msg() is None,
            r.spec_color() is None,
            r.spec_order() == 0,
            r.spec_priority() == 0,
    {
        Label { span, msg: None, color: None, order: 0, priority: 0 }
    }

    /// Give this label a message.
    pub fn with_message(self, msg: &str) -> (r: Label<S>)
        ensures
            r.spec_span() == self.spec_span(),
            r.spec_msg() matches Some(m) && m@ == msg@,
            r.spec_color() == self.spec_color(),
            r.spec_order() == self.spec_order(),
            r.spec_priority() == self.spec_priority(),
    {
        Label { msg: Some(msg.to_owned()), ..self }
    }

    /// Give this label a highlight colour.
    pub fn with_color(self, color: Color) -> (r: Label<S>)
        ensures
            r.spec_span() == self.spec_span(),
            r.spec_msg() == self.spec_msg(),
            r.spec_color() == Some(color),
            r.spec_order() == self.spec_order(),
            r.spec_priority() == self.spec_priority(),
    {
        Label { color: Some(color), ..self }
    }

    /// Specify the order of this label relative to other labels; lower values
    /// are arranged first on a line. Defaults to `0`.
    pub fn with_order(self, order: i32) -> (r: Label<S>)
        ensures
            r.spec_span() == self.spec_span(),
            r.spec_msg() == self.spec_msg(),
            r.spec_color() == self.spec_color(),
            r.spec_order() == order,
            r.spec_priority() == self.spec_priority(),
    {
        Label { order, ..self }
    }

    /// Specify the priority of this label for highlighting when spans
    /// overlap; higher values win. Defaults to `0`.
    pub fn with_priority(self, priority: i32) -> (r: Label<S>)
        ensures
            r.spec_span() == self.spec_span(),
            r.spec_msg() == self.spec_msg(),
            r.spec_color() == self.spec_color(),
            r.spec_order() == self.spec_order(),
            r.spec_priority() == priority,
    {
        Label { priority, ..self }
    }
}

/// The attachment point of inline label arrows.
#[derive(Clone, Copy, Debug, PartialEq, Eq, Structural)]
pub enum LabelAttach {
    /// Arrows should attach to the start of the label span.
    Start,
    /// Arrows should attach to the middle of the label span (or as close to
    /// the middle as possible).
    Middle,
    /// Arrows should attach to the end of the label span.
    End,
}

/// Possible character sets to use when rendering diagnostics.
#[derive(Clone, Copy, Debug, PartialEq, Eq, Structural)]
pub enum CharSet {
    /// Unicode box-drawing characters.
    Unicode,
    /// ASCII-only characters.
    Ascii,
}

/// How span offsets are interpreted.
#[derive(Clone, Copy, Debug, PartialEq, Eq, Structural)]
pub enum IndexType {
    /// Byte offsets.
    Byte,
    /// Character offsets.
    Char,
}

/// Options that configure how a report is rendered.
#[derive(Clone, Copy, Debug, PartialEq, Eq, Structural)]
pub struct Config {
    /// Insert a gap where a horizontal connector crosses a vertical one,
    /// instead of a crossing glyph.
    pub cross_gap: bool,
    /// Where an inline label's arrow meets its span.
    pub label_attach: LabelAttach,
    /// Suppress blank spacer rows.
    pub compact: bool,
    /// Draw underlines below inline spans.
    pub underlines: bool,
    /// Draw arrow heads at multi-line span starts.
    pub multiline_arrows: bool,
    /// Emit colour escape codes.
    pub color: bool,
    /// Columns a tab occupies; zero is treated as one.
    pub tab_width: usize,
    /// The glyph set for boxes and arrows.
    pub char_set: CharSet,
    /// Whether span offsets count bytes or characters.
    pub index_type: IndexType,
    /// Reorder same-order labels to reduce crossings.
    pub minimise_crossings: bool,
    /// Extra source lines shown around each label.
    pub context_lines: usize,
}

impl Config {
    /// Create a new configuration holding every default.
    pub fn new() -> (r: Config)
        ensures
            r == Config::spec_default(),
    {
        Config {
            cross_gap: true,
            label_attach: LabelAttach::Middle,
            compact: false,
            underlines: true,
            multiline_arrows: true,
            color: true,
            tab_width: 4,
            char_set: CharSet::Unicode,
            index_type: IndexType::Char,
            minimise_crossings: false,
            context_lines: 0,
        }
    }

    /// The default configuration: Unicode, coloured, uncompacted output with
    /// character-indexed spans and four-column tabs.
    pub open spec fn spec_default() -> Config {
        Config {
            cross_gap: true,
            label_attach: LabelAttach::Middle,
            compact: false,
            underlines: true,
            multiline_arrows: true,
            color: true,
            tab_width: 4,
            char_set: CharSet::Unicode,
            index_type: IndexType::Char,
            minimise_crossings: false,
            context_lines: 0,
        }
    }

    /// When label lines cross one another, should there be a gap instead of a
    /// crossing glyph?
    pub fn with_cross_gap(self, cross_gap: bool) -> (r: Config)
        ensures
            r == (Config { cross_gap, ..self }),
    {
        Config { cross_gap, ..self }
    }

    /// Where inline labels should attach to their spans.
    pub fn with_label_attach(self, label_attach: LabelAttach) -> (r: Config)
        ensures
            r == (Config { label_attach, ..self }),
    {
        Config { label_attach, ..self }
    }

    /// Should the report remove gaps to minimise used space?
    pub fn with_compact(self, compact: bool) -> (r: Config)
        ensures
            r == (Config { compact, ..self }),
    {
        Config { compact, ..self }
    }

    /// Should underlines be used for label spans where possible?
    pub fn with_underlines(self, underlines: bool) -> (r: Config)
        ensures
            r == (Config { underlines, ..self }),
    {
        Config { underlines, ..self }
    }

    /// Should arrow heads point to the bounds of multi-line spans?
    pub fn with_multiline_arrows(self, multiline_arrows: bool) -> (r: Config)
        ensures
            r == (Config { multiline_arrows, ..self }),
    {
        Config { multiline_arrows, ..self }
    }

    /// Should coloured output be enabled?
    pub fn with_color(self, color: bool) -> (r: Config)
        ensures
            r == (Config { color, ..self }),
    {
        Config { color, ..self }
    }

    /// How many columns a tab character occupies; tabs expand to the next
    /// multiple of this value. A width of zero is treated as one.
    pub fn with_tab_width(self, tab_width: usize) -> (r: Config)
        ensures
            r == (Config { tab_width, ..self }),
    {
        Config { tab_width, ..self }
    }

    /// The character set used for boxes and arrows.
    pub fn with_char_set(self, char_set: CharSet) -> (r: Config)
        ensures
            r == (Config { char_set, ..self }),
    {
        Config { char_set, ..self }
    }

    /// Whether span offsets count bytes or characters.
    pub fn with_index_type(self, index_type: IndexType) -> (r: Config)
        ensures
            r == (Config { index_type, ..self }),
    {
        Config { index_type, ..self }
    }

    /// Should same-order label crossings be minimised rather than strictly
    /// keeping label order?
    pub fn with_minimise_crossings(self, minimise_crossings: bool) -> (r: Config)
        ensures
            r == (Config { minimise_crossings, ..self }),
    {
        Config { minimise_crossings, ..self }
    }

    /// How many extra context lines are shown around each label.
    pub fn with_context_lines(self, context_lines: usize) -> (r: Config)
        ensures
            r == (Config { context_lines, ..self }),
    {
        Config { context_lines, ..self }
    }
}

impl Default for Config {
    /// The default configuration, equal to [`Config::new`].
    fn default() -> (r: Config)
        ensures
            r == Config::spec_default(),
    {
        Config::new()
    }
}

/// The kind of a report: the fixed severities, or a custom heading with its
/// own colour.
#[derive(Clone, Copy, Debug, PartialEq, Eq)]
pub enum ReportKind {
    /// The report is an error and indicates a critical problem that prevents
    /// the requested action.
    Error,
    /// The report is a warning about a likely problem that does not prevent
    /// the requested action.
    Warning,
    /// The report is advice about a benign issue.
    Advice,
    /// A report of a kind not built in, with a display name and a colour.
    Custom(&'static str, Color),
}

/// A diagnostic that is ready to be rendered.
pub struct Report<S: Span = core::ops::Range<usize>> {
    /// The kind of the report.
    pub kind: ReportKind,
    /// An optional code identifying the diagnostic.
    pub code: Option<String>,
    /// The headline message.
    pub msg: Option<String>,
    /// Notes shown after the source blocks.
    pub notes: Vec<String>,
    /// Help texts shown after the source blocks, before the notes.
    pub help: Vec<String>,
    /// The primary location of the report.
    pub span: S,
    /// The labels pointing into the sources.
    pub labels: Vec<Label<S>>,
    /// How the report is rendered.
    pub config: Config,
}

impl<S: Span> Report<S> {
    /// Begin building a new [`Report`]; the span is the primary location the
    /// header points at.
    pub fn build(kind: ReportKind, span: S) -> (r: ReportBuilder<S>)
        ensures
            r.kind == kind,
            r.code is None,
            r.msg is None,
            r.notes@.len() == 0,
            r.help@.len() == 0,
            r.span == span,
            r.labels@.len() == 0,
            r.config == Config::spec_default(),
    {
        ReportBuilder {
            kind,
            code: None,
            msg: None,
            notes: Vec::new(),
            help: Vec::new(),
            span,
            labels: Vec::new(),
            config: Config::new(),
        }
    }
}

/// A builder for a [`Report`].
pub struct ReportBuilder<S: Span> {
    /// The kind of the report.
    pub kind: ReportKind,
    /// An optional code identifying the diagnostic.
    pub code: Option<String>,
    /// The headline message.
    pub msg: Option<String>,
    /// Notes shown after the source blocks.
    pub notes: Vec<String>,
    /// Help texts shown after the source blocks, before the notes.
    pub help: Vec<String>,
    /// The primary location of the report.
    pub span: S,
    /// The labels pointing into the sources.
    pub labels: Vec<Label<S>>,
    /// How the report is rendered.
    pub config: Config,
}

impl<S: Span> ReportBuilder<S> {
    /// Set the message of this report.
    pub fn set_message(&mut self, msg: &str)
        ensures
            final(self).msg matches Some(m) && m@ == msg@,
            final(self).kind == old(self).kind,
            final(self).code == old(self).code,
            final(self).notes == old(self).notes,
            final(self).help == old(self).help,
            final(self).labels == old(self).labels,
            final(self).config == old(self).config,
    {
        self.msg = Some(msg.to_owned());
    }

    /// Set the message of this report.
    pub fn with_message(self, msg: &str) -> (r: ReportBuilder<S>)
        ensures
            r.msg matches Some(m) && m@ == msg@,
            r.kind == self.kind,
            r.code == self.code,
            r.notes == self.notes,
            r.help == self.help,
            r.labels == self.labels,
            r.config == self.config,
    {
        ReportBuilder { msg: Some(msg.to_owned()), ..self }
    }

    /// Replace the notes of this report with the one given.
    pub fn set_note(&mut self, note: &str)
        ensures
            final(self).notes@.len() == 1 && final(self).notes@[0]@ == note@,
            final(self).kind == old(self).kind,
            final(self).code == old(self).code,
            final(self).msg == old(self).msg,
            final(self).help == old(self).help,
            final(self).labels == old(self).labels,
            final(self).config == old(self).config,
    {
        let mut notes: Vec<String> = Vec::new();
        notes.push(note.to_owned());
        self.notes = notes;
    }

    /// Add a note to this report.
    pub fn add_note(&mut self, note: &str)
        ensures
            final(self).notes@.len() == old(self).notes@.len() + 1,
            final(self).notes@.last()@ == note@,
            final(self).notes@.take(old(self).notes@.len() as int) == old(self).notes@,
            final(self).kind == old(self).kind,
            final(self).code == old(self).code,
            final(self).msg == old(self).msg,
            final(self).help == old(self).help,
            final(self).labels == old(self).labels,
            final(self).config == old(self).config,
    {
        self.notes.push(note.to_owned());
        assert(self.notes@.take(old(self).notes@.len() as int) =~= old(self).notes@);
    }

    /// Add each of the given notes to this report.
    pub fn with_notes(&mut self, notes: Vec<String>)
        ensures
            final(self).notes@ == old(self).notes@ + notes@,
            final(self).kind == old(self).kind,
            final(self).code == old(self).code,
            final(self).msg == old(self).msg,
            final(self).help == old(self).help,
            final(self).labels == old(self).labels,
            final(self).config == old(self).config,
    {
        let ghost all = notes@;
        let mut rest = notes;
        while rest.len() > 0
            invariant
                rest@.len() <= all.len(),
                rest@ == all.skip(all.len() - rest@.len()),
                self.notes@ == old(self).notes@ + all.take(all.len() - rest@.len()),
                self.kind == old(self).kind,
                self.code == old(self).code,
                self.msg == old(self).msg,
                self.help == old(self).help,
                self.labels == old(self).labels,
                self.config == old(self).config,
            decreases rest@.len(),
        {
            let ghost k = all.len() - rest@.len();
            let n = rest.remove(0);
            proof {
                assert(n == all[k]);
                assert(rest@ =~= all.skip(k + 1));
            }
            self.notes.push(n);
            proof {
                assert(self.notes@ =~= old(self).notes@ + all.take(k + 1));
            }
        }
        proof {
            assert(self.notes@ =~= old(self).notes@ + all);
        }
    }

    /// Add a note to this report.
    pub fn with_note(self, note: &str) -> (r: ReportBuilder<S>)
        ensures
            r.notes@.len() == self.notes@.len() + 1,
            r.notes@.last()@ == note@,
            r.notes@.take(self.notes@.len() as int) == self.notes@,
            r.kind == self.kind,
            r.code == self.code,
            r.msg == self.msg,
            r.help == self.help,
            r.labels == self.labels,
            r.config == self.config,
    {
        let mut this = self;
        this.add_note(note);
        this
    }

    /// Replace the help messages of this report with the one given.
    pub fn set_help(&mut self, help: &str)
        ensures
            final(self).help@.len() == 1 && final(self).help@[0]@ == help@,
            final(self).kind == old(self).kind,
            final(self).code == old(self).code,
            final(self).msg == old(self).msg,
            final(self).notes == old(self).notes,
            final(self).labels == old(self).labels,
            final(self).config == old(self).config,
    {
        let mut help_list: Vec<String> = Vec::new();
        help_list.push(help.to_owned());
        self.help = help_list;
    }

    /// Add a help message to this report.
    pub fn add_help(&mut self, help: &str)
        ensures
            final(self).help@.len() == old(self).help@.len() + 1,
            final(self).help@.last()@ == help@,
            final(self).help@.take(old(self).help@.len() as int) == old(self).help@,
            final(self).kind == old(self).kind,
            final(self).code == old(self).code,
            final(self).msg == old(self).msg,
            final(self).notes == old(self).notes,
            final(self).labels == old(self).labels,
            final(self).config == old(self).config,
    {
        self.help.push(help.to_owned());
        assert(self.help@.take(old(self).help@.len() as int) =~= old(self).help@);
    }

    /// Add each of the given help messages to this report.
    pub fn with_helps(&mut self, helps: Vec<String>)
        ensures
            final(self).help@ == old(self).help@ + helps@,
            final(self).kind == old(self).kind,
            final(self).code == old(self).code,
            final(self).msg == old(self).msg,
            final(self).notes == old(self).notes,
            final(self).labels == old(self).labels,
            final(self).config == old(self).config,
    {
        let ghost all = helps@;
        let mut rest = helps;
        while rest.len() > 0
            invariant
                rest@.len() <= all.len(),
                rest@ == all.skip(all.len() - rest@.len()),
                self.help@ == old(self).help@ + all.take(all.len() - rest@.len()),
                self.kind == old(self).kind,
                self.code == old(self).code,
                self.msg == old(self).msg,
                self.notes == old(self).notes,
                self.labels == old(self).labels,
                self.config == old(self).config,
            decreases rest@.len(),
        {
            let ghost k = all.len() - rest@.len();
            let h = rest.remove(0);
            proof {
                assert(h == all[k]);
                assert(rest@ =~= all.skip(k + 1));
            }
            self.help.push(h);
            proof {
                assert(self.help@ =~= old(self).help@ + all.take(k + 1));
            }
        }
        proof {
            assert(self.help@ =~= old(self).help@ + all);
        }
    }

    /// Add a help message to this report.
    pub fn with_help(self, help: &str) -> (r: ReportBuilder<S>)
        ensures
            r.help@.len() == self.help@.len() + 1,
            r.help@.last()@ == help@,
            r.help@.take(self.help@.len() as int) == self.help@,
            r.kind == self.kind,
            r.code == self.code,
            r.msg == self.msg,
            r.notes == self.notes,
            r.labels == self.labels,
            r.config == self.config,
    {
        let mut this = self;
        this.add_help(help);
        this
    }

    /// Give this report a numeric code, shown zero-padded to two digits.
    pub fn with_code(self, code: usize) -> (r: ReportBuilder<S>)
        ensures
            r.code matches Some(c) && c@ == (if code < 10 {
                seq!['0']
            } else {
                Seq::<char>::empty()
            }) + crate::text::spec_decimal(code as nat),
            r.kind == self.kind,
            r.msg == self.msg,
            r.notes == self.notes,
            r.help == self.help,
            r.labels == self.labels,
            r.config == self.config,
    {
        let mut digits: Vec<char> = Vec::new();
        if code < 10 {
            digits.push('0');
        }
        crate::text::push_decimal(&mut digits, code);
        ReportBuilder { code: Some(crate::text::chars_to_string(&digits)), ..self }
    }

    /// Add a label to the report.
    pub fn add_label(&mut self, label: Label<S>)
        ensures
            final(self).labels@.len() == old(self).labels@.len() + 1,
            final(self).labels@.last() == label,
            final(self).labels@.take(old(self).labels@.len() as int) == old(self).labels@,
            final(self).kind == old(self).kind,
            final(self).code == old(self).code,
            final(self).msg == old(self).msg,
            final(self).notes == old(self).notes,
            final(self).help == old(self).help,
            final(self).config == old(self).config,
    {
        self.labels.push(label);
        assert(self.labels@.take(old(self).labels@.len() as int) =~= old(self).labels@);
    }

    /// Add a label to the report.
    pub fn with_label(self, label: Label<S>) -> (r: ReportBuilder<S>)
        ensures
            r.labels@.len() == self.labels@.len() + 1,
            r.labels@.last() == label,
            r.labels@.take(self.labels@.len() as int) == self.labels@,
            r.kind == self.kind,
            r.code == self.code,
            r.msg == self.msg,
            r.notes == self.notes,
            r.help == self.help,
            r.config == self.config,
    {
        let mut this = self;
        this.add_label(label);
        this
    }

    /// Add multiple labels to the report.
    pub fn add_labels(&mut self, labels: Vec<Label<S>>)
        ensures
            final(self).labels@ == old(self).labels@ + labels@,
            final(self).kind == old(self).kind,
            final(self).code == old(self).code,
            final(self).msg == old(self).msg,
            final(self).notes == old(self).notes,
            final(self).help == old(self).help,
            final(self).config == old(self).config,
    {
        let ghost all = labels@;
        let mut rest = labels;
        while rest.len() > 0
            invariant
                rest@.len() <= all.len(),
                rest@ == all.skip(all.len() - rest@.len()),
                self.labels@ == old(self).labels@ + all.take(all.len() - rest@.len()),
                self.kind == old(self).kind,
                self.code == old(self).code,
                self.msg == old(self).msg,
                self.notes == old(self).notes,
                self.help == old(self).help,
                self.config == old(self).config,
            decreases rest@.len(),
        {
            let ghost k = all.len() - rest@.len();
            let l = rest.remove(0);
            assert(l == all[k]);
            assert(rest@ =~= all.skip(k + 1));
            self.labels.push(l);
            assert(self.labels@ =~= old(self).labels@ + all.take(k + 1));
        }
        assert(self.labels@ =~= old(self).labels@ + all);
    }

    /// Add multiple labels to the report.
    pub fn with_labels(self, labels: Vec<Label<S>>) -> (r: ReportBuilder<S>)
        ensures
            r.labels@ == self.labels@ + labels@,
            r.kind == self.kind,
            r.code == self.code,
            r.msg == self.msg,
            r.notes == self.notes,
            r.help == self.help,
            r.config == self.config,
    {
        let mut this = self;
        this.add_labels(labels);
        this
    }

    /// Use the given [`Config`] when rendering.
    pub fn with_config(self, config: Config) -> (r: ReportBuilder<S>)
        ensures
            r.config == config,
            r.kind == self.kind,
            r.code == self.code,
            r.msg == self.msg,
            r.notes == self.notes,
            r.help == self.help,
            r.labels == self.labels,
    {
        ReportBuilder { config, ..self }
    }

    /// Finish building the [`Report`].
    pub fn finish(self) -> (r: Report<S>)
        ensures
            r.kind == self.kind,
            r.code == self.code,
            r.msg == self.msg,
            r.notes == self.notes,
            r.help == self.help,
            r.span == self.span,
            r.labels == self.labels,
            r.config == self.config,
    {
        Report {
            kind: self.kind,
            code: self.code,
            msg: self.msg,
            notes: self.notes,
            help: self.help,
            span: self.span,
            labels: self.labels,
            config: self.config,
        }
    }
}

} // verus!
