//! The layout engine and renderer: groups resolved labels by source, plans
//! the lines to display, and emits the diagnostic text.

use crate::draw::{char_display_width, display_width_of, paint_fg, Characters, Color};
use crate::source::{Line, Source};
use crate::text::{
    chars_to_string, is_whitespace, push_chars, push_decimal, push_repeat, spec_is_whitespace,
};
use crate::{CharSet, Config};
use vstd::prelude::*;

verus! {

/// A label resolved against its source: character offsets, the lines they
/// fall on, and the display attributes the renderer consults.
pub struct ResolvedLabel {
    /// Start of the span, as a character offset.
    pub char_start: usize,
    /// End of the span (exclusive), as a character offset.
    pub char_end: usize,
    /// The line on which the span starts.
    pub start_line: usize,
    /// The line on which the span ends.
    pub end_line: usize,
    /// Whether the span crosses a line break.
    pub multiline: bool,
    /// The message, if any.
    pub msg: Option<Vec<char>>,
    /// The colour, already gated on the colour option.
    pub color: Option<Color>,
    /// Lower order values are arranged first on a line.
    pub order: i32,
    /// Higher priority wins overlapping highlights.
    pub priority: i32,
}

impl ResolvedLabel {
    /// The span's offsets are not backwards, its lines are ordered, and it
    /// is classified multi-line exactly when its lines differ.
    pub open spec fn wf(&self) -> bool {
        &&& self.char_start <= self.char_end
        &&& self.start_line <= self.end_line
        &&& self.multiline == (self.start_line != self.end_line)
    }

    /// The offset of the last character of the span, or of its start for an
    /// empty span.
    pub fn last_offset(&self) -> (r: usize)
        ensures
            r == spec_last_offset(*self),
    {
        if self.char_end > self.char_start {
            self.char_end - 1
        } else {
            self.char_start
        }
    }
}

/// The offset of the last character of a span, or of its start when empty.
pub open spec fn spec_last_offset(l: ResolvedLabel) -> usize {
    if l.char_end > l.char_start {
        (l.char_end - 1) as usize
    } else {
        l.char_start
    }
}

/// One group of labels over a single source, with the lines to display.
pub struct SourceGroup {
    /// The source the group's labels point into.
    pub src: Source,
    /// The printable name of the source, if it has one.
    pub name: Option<Vec<char>>,
    /// The header location, as a line index and column; `None` renders as
    /// unknown.
    pub location: Option<(usize, usize)>,
    /// The group's labels.
    pub labels: Vec<ResolvedLabel>,
    /// The first line to display.
    pub line_start: usize,
    /// One past the last line to display.
    pub line_end: usize,
}

impl SourceGroup {
    /// Labels are well formed and hold the grouping rule's marks: the group
    /// was swept up in order of non-decreasing end lines, its display range
    /// starts no later than any label, and displayed lines exist (or the
    /// source is empty and one synthetic line is shown).
    pub open spec fn wf(&self) -> bool {
        &&& self.labels@.len() > 0
        &&& forall|i: int| 0 <= i < self.labels@.len() ==> (#[trigger] self.labels@[i]).wf()
        &&& forall|i: int|
            #![trigger self.labels@[i], self.labels@[i + 1]]
            0 <= i < self.labels@.len() - 1 ==> self.labels@[i].end_line <= self.labels@[i
                + 1].end_line
        &&& forall|i: int|
            0 <= i < self.labels@.len() ==> self.line_start <= (#[trigger] self.labels@[
            i]).start_line
        &&& self.line_start <= self.line_end
        &&& self.line_end <= usize::MAX
        &&& (self.location matches Some(l) ==> l.0 < usize::MAX && l.1 < usize::MAX)
        &&& if self.src.spec_lines().len() == 0 {
            self.line_end <= 1
        } else {
            self.line_end <= self.src.spec_lines().len()
        }
    }
}

/// A fully resolved report: everything the renderer consumes, with all label
/// spans resolved and all text broken into characters.
pub struct ResolvedReport {
    /// The heading, for example `Error`.
    pub kind_text: Vec<char>,
    /// The heading's colour.
    pub kind_color: Option<Color>,
    /// The code shown in brackets before the heading.
    pub code: Option<Vec<char>>,
    /// The headline message.
    pub msg: Option<Vec<char>>,
    /// Help texts, shown before the notes.
    pub helps: Vec<Vec<char>>,
    /// Notes, shown last.
    pub notes: Vec<Vec<char>>,
    /// The source groups, in display order.
    pub groups: Vec<SourceGroup>,
    /// One warning line for each label whose source could not be fetched.
    pub warnings: Vec<Vec<char>>,
    /// The rendering options.
    pub config: Config,
}

impl ResolvedReport {
    /// Validity of every group; with colour off, no colour is recorded
    /// anywhere.
    pub open spec fn wf(&self) -> bool {
        &&& forall|i: int| 0 <= i < self.groups@.len() ==> (#[trigger] self.groups@[i]).wf()
        &&& (!self.config.color ==> self.kind_color is None)
        &&& (!self.config.color ==> forall|g: int, k: int|
            0 <= g < self.groups@.len() && 0 <= k < self.groups@[g].labels@.len()
                ==> (#[trigger] self.groups@[g].labels@[k]).color is None)
    }

    /// The texts of the report are clean under its options: no escape
    /// character when colour is off, seven-bit when the ASCII set is chosen.
    pub open spec fn clean(&self) -> bool {
        &&& spec_clean_text(self.config, self.kind_text@)
        &&& (self.code matches Some(c) ==> spec_clean_text(self.config, c@))
        &&& (self.msg matches Some(m) ==> spec_clean_text(self.config, m@))
        &&& forall|i: int|
            0 <= i < self.helps@.len() ==> spec_clean_text(self.config, (#[trigger] self.helps@[i])@)
        &&& forall|i: int|
            0 <= i < self.notes@.len() ==> spec_clean_text(self.config, (#[trigger] self.notes@[i])@)
        &&& forall|i: int|
            0 <= i < self.warnings@.len() ==> spec_clean_text(
                self.config,
                (#[trigger] self.warnings@[i])@,
            )
        &&& forall|g: int|
            0 <= g < self.groups@.len() ==> group_clean(self.config, #[trigger] self.groups@[g])
    }
}

/// The heading text of a report kind.
pub open spec fn spec_kind_text(k: crate::ReportKind) -> Seq<char> {
    match k {
        crate::ReportKind::Error => "Error"@,
        crate::ReportKind::Warning => "Warning"@,
        crate::ReportKind::Advice => "Advice"@,
        crate::ReportKind::Custom(s, _) => s@,
    }
}

/// The location text of a group's file reference: its name (or the unknown
/// placeholder) and the one-based line and column.
pub open spec fn spec_group_loc_text(g: SourceGroup, l: (usize, usize)) -> Seq<char> {
    spec_group_name_text(g) + seq![':'] + crate::text::spec_decimal((l.0 + 1) as nat) + seq![':']
        + crate::text::spec_decimal((l.1 + 1) as nat)
}

/// The texts of a group are clean under the given options.
pub open spec fn group_clean(cfg: Config, g: SourceGroup) -> bool {
    &&& (g.name matches Some(n) ==> spec_clean_text(cfg, n@))
    &&& spec_clean_text(cfg, g.src.spec_chars())
    &&& forall|k: int|
        0 <= k < g.labels@.len() ==> ((#[trigger] g.labels@[k]).msg matches Some(m)
            ==> spec_clean_text(cfg, m@))
}

/// A label attached to one displayed line: the column its arrow occupies,
/// the index of the label in the group, whether it is multi-line, and
/// whether its message is drawn on this line.
#[derive(Clone, Copy)]
pub struct LineLabel {
    /// The column the label's arrow occupies, relative to the line start.
    pub col: usize,
    /// The index of the label within its group.
    pub label: usize,
    /// Whether the label is multi-line.
    pub multi: bool,
    /// Whether the label's message is drawn on this line.
    pub draw_msg: bool,
}

impl Config {
    /// The colour for error headings, when colour is on.
    pub(crate) fn error_color(&self) -> (r: Option<Color>)
        ensures
            r == if self.color {
                Some(Color::Red)
            } else {
                None::<Color>
            },
    {
        if self.color {
            Some(Color::Red)
        } else {
            None
        }
    }

    /// The colour for warning headings, when colour is on.
    pub(crate) fn warning_color(&self) -> (r: Option<Color>)
        ensures
            r == if self.color {
                Some(Color::Yellow)
            } else {
                None::<Color>
            },
    {
        if self.color {
            Some(Color::Yellow)
        } else {
            None
        }
    }

    /// The colour for advice headings, when colour is on.
    pub(crate) fn advice_color(&self) -> (r: Option<Color>)
        ensures
            r == if self.color {
                Some(Color::Fixed(147))
            } else {
                None::<Color>
            },
    {
        if self.color {
            Some(Color::Fixed(147))
        } else {
            None
        }
    }

    /// The colour of the line-number margin, when colour is on.
    pub(crate) fn margin_color(&self) -> (r: Option<Color>)
        ensures
            r == if self.color {
                Some(Color::Fixed(246))
            } else {
                None::<Color>
            },
    {
        if self.color {
            Some(Color::Fixed(246))
        } else {
            None
        }
    }

    /// The colour of the margin on skipped rows, when colour is on.
    pub(crate) fn skipped_margin_color(&self) -> (r: Option<Color>)
        ensures
            r == if self.color {
                Some(Color::Fixed(240))
            } else {
                None::<Color>
            },
    {
        if self.color {
            Some(Color::Fixed(240))
        } else {
            None
        }
    }

    /// The colour of unhighlighted source text, when colour is on.
    pub(crate) fn unimportant_color(&self) -> (r: Option<Color>)
        ensures
            r == if self.color {
                Some(Color::Fixed(249))
            } else {
                None::<Color>
            },
    {
        if self.color {
            Some(Color::Fixed(249))
        } else {
            None
        }
    }

    /// The colour of help and note headings, when colour is on.
    pub(crate) fn note_color(&self) -> (r: Option<Color>)
        ensures
            r == if self.color {
                Some(Color::Fixed(115))
            } else {
                None::<Color>
            },
    {
        if self.color {
            Some(Color::Fixed(115))
        } else {
            None
        }
    }

    /// The tab width in force: the configured width, or one when it is
    /// zero.
    pub open spec fn spec_tab_width(&self) -> int {
        if self.tab_width == 0 {
            1
        } else {
            self.tab_width as int
        }
    }

    /// The character to draw for `c` at character position `col`, and how
    /// many columns it occupies: a tab becomes spaces up to the next tab
    /// stop (a zero tab width counts as one), other white space one space,
    /// and anything else itself at its display width.
    pub(crate) fn char_width(&self, c: char, col: usize) -> (r: (char, usize))
        ensures
            c == '\t' ==> r.0 == ' ' && r.1 >= 1,
            c == '\t' && col + self.spec_tab_width() <= usize::MAX ==> r.1
                == self.spec_tab_width() - (col as int) % self.spec_tab_width(),
            c != '\t' && spec_is_whitespace(c) ==> r == ((' ', 1usize)),
            !spec_is_whitespace(c) ==> r == ((c, display_width_of(c))),
            r.0 == c || r.0 == ' ',
    {
        if c == '\t' {
            let tw = if self.tab_width == 0 {
                1
            } else {
                self.tab_width
            };
            let q = col / tw;
            proof {
                if col + tw <= usize::MAX {
                    assert(q + 1 <= usize::MAX as int / tw as int && q < usize::MAX)
                        by (nonlinear_arith)
                        requires
                            tw >= 1,
                            q == col as int / tw as int,
                            col + tw <= usize::MAX,
                    {}
                }
            }
            if q < usize::MAX && (q + 1) <= usize::MAX / tw {
                proof {
                    assert((q + 1) * tw <= usize::MAX) by (nonlinear_arith)
                        requires
                            tw >= 1,
                            q + 1 <= usize::MAX as int / tw as int,
                    {}
                }
                let tab_end = (q + 1) * tw;
                proof {
                    assert(tab_end > col && tab_end - col == tw - (col as int) % (tw as int))
                        by (nonlinear_arith)
                        requires
                            tw >= 1,
                            q == col as int / tw as int,
                            tab_end == (q + 1) * tw,
                    {}
                }
                (' ', tab_end - col)
            } else {
                (' ', 1)
            }
        } else if is_whitespace(c) {
            (' ', 1)
        } else {
            (c, char_display_width(c))
        }
    }
}

/// Appends `text` to `out`, painted in `color` when one is given. A colour
/// may be given only when colouring is on, so that a colourless rendering
/// never holds an escape character it was not given.
pub(crate) fn push_styled(out: &mut Vec<char>, cfg: &Config, text: &Vec<char>, color: Option<
    Color,
>)
    requires
        color is Some ==> cfg.color,
    ensures
        color is None ==> final(out)@ == old(out)@ + text@,
        final(out)@.len() >= old(out)@.len(),
        spec_grew(old(out)@, final(out)@),
        contains_run(final(out)@, text@),
        spec_clean_text(*cfg, old(out)@) && spec_clean_text(*cfg, text@) ==> spec_clean_text(
            *cfg,
            final(out)@,
        ),
{
    match color {
        Some(c) => {
            let s = chars_to_string(text);
            let painted = crate::text::str_chars(paint_fg(s.as_str(), c).as_str());
            proof {
                let (p, q) = choose|p: Seq<char>, q: Seq<char>| painted@ == p + s@ + q;
            }
            push_chars(out, &painted);
            proof {
                let (p, q) = choose|p: Seq<char>, q: Seq<char>| painted@ == p + s@ + q;
                assert(out@.subrange(
                    (old(out)@.len() + p.len()) as int,
                    (old(out)@.len() + p.len() + text@.len()) as int,
                ) =~= text@);
                assert(contains_run(out@, text@));
            }
            proof {
                if spec_clean_text(*cfg, old(out)@) && spec_clean_text(*cfg, text@) {
                    if cfg.char_set == CharSet::Ascii {
                        assert(crate::text::spec_all_ascii(s@));
                        assert(crate::text::spec_all_ascii(painted@));
                    }
                    assert forall|i: int|
                        0 <= i < out@.len() implies spec_clean_char(*cfg, #[trigger] out@[i]) by {
                        if i < old(out)@.len() {
                            assert(out@[i] == old(out)@[i]);
                        } else {
                            assert(out@[i] == painted@[i - old(out)@.len()]);
                        }
                    }
                }
            }
        },
        None => {
            push_chars(out, text);
            proof {
                assert(out@.subrange(
                    old(out)@.len() as int,
                    (old(out)@.len() + text@.len()) as int,
                ) =~= text@);
                assert(contains_run(out@, text@));
                if spec_clean_text(*cfg, old(out)@) && spec_clean_text(*cfg, text@) {
                    assert forall|i: int|
                        0 <= i < out@.len() implies spec_clean_char(*cfg, #[trigger] out@[i]) by {
                        if i < old(out)@.len() {
                            assert(out@[i] == old(out)@[i]);
                        } else {
                            assert(out@[i] == text@[i - old(out)@.len()]);
                        }
                    }
                }
            }
        },
    }
}

/// Appends the left margin of one output row: a space, then the line number
/// and bar for a source row or blank space and a bar otherwise, then the
/// separating space unless the output is compact.
pub(crate) fn write_margin(
    out: &mut Vec<char>,
    cfg: &Config,
    draw: &Characters,
    w: usize,
    idx: usize,
    is_src_line: bool,
    is_ellipsis: bool,
)
    requires
        idx < usize::MAX,
        w <= 20,
    ensures
        final(out)@.len() >= old(out)@.len(),
        spec_grew(old(out)@, final(out)@),
        is_src_line && !is_ellipsis ==> contains_run(
            final(out)@,
            crate::text::spec_decimal((idx + 1) as nat),
        ),
        spec_clean_text(*cfg, old(out)@) && spec_clean_draw(*cfg, *draw) ==> spec_clean_text(
            *cfg,
            final(out)@,
        ),
{
    proof {
        crate::text::lemma_decimal_digits((idx + 1) as nat);
    }
    out.push(' ');
    let mut m: Vec<char> = Vec::new();
    if is_src_line && !is_ellipsis {
        let mut num: Vec<char> = Vec::new();
        push_decimal(&mut num, idx + 1);
        let ghost pad = m@;
        if num.len() < w {
            push_repeat(&mut m, ' ', w - num.len());
        }
        let ghost padded = m@;
        push_chars(&mut m, &num);
        m.push(' ');
        m.push(draw.vbar);
        proof {
            assert(m@ =~= padded + num@ + seq![' ', draw.vbar]);
        }
        push_styled(out, cfg, &m, cfg.margin_color());
        proof {
            lemma_contains_run_within(
                out@,
                padded,
                num@,
                seq![' ', draw.vbar],
            );
        }
        let ghost with_num = out@;
        if !cfg.compact {
            out.push(' ');
        }
        proof {
            lemma_contains_run_grew(with_num, out@, num@);
        }
        return ;
    } else {
        push_repeat(&mut m, ' ', w + 1);
        m.push(draw.vbar_of(is_ellipsis));
        push_styled(out, cfg, &m, cfg.skipped_margin_color());
    }
    if !cfg.compact {
        out.push(' ');
    }
}

/// Appends a spacer row: blank margin and a bar, unless the output is
/// compact.
pub(crate) fn write_spacer_line(out: &mut Vec<char>, cfg: &Config, draw: &Characters, w: usize)
    requires
        w <= 20,
    ensures
        final(out)@.len() >= old(out)@.len(),
        spec_grew(old(out)@, final(out)@),
        spec_ends_nl(old(out)@) ==> spec_ends_nl(final(out)@),
        spec_clean_text(*cfg, old(out)@) && spec_clean_draw(*cfg, *draw) ==> spec_clean_text(
            *cfg,
            final(out)@,
        ),
{
    if !cfg.compact {
        push_repeat(out, ' ', w + 2);
        push_styled_char(out, cfg, draw.vbar, cfg.margin_color());
        out.push('\n');
    }
}

/// Appends a group's file reference row: the corner or tee, a horizontal
/// bar, and the bracketed name and location.
#[verifier::rlimit(100)]
pub(crate) fn write_group_header(
    out: &mut Vec<char>,
    cfg: &Config,
    draw: &Characters,
    w: usize,
    group: &SourceGroup,
    is_first: bool,
)
    requires
        w <= 20,
        group.wf(),
    ensures
        final(out)@.len() >= old(out)@.len(),
        spec_grew(old(out)@, final(out)@),
        spec_ends_nl(final(out)@),
        group.location matches Some(l) ==> contains_run(
            final(out)@,
            spec_group_loc_text(*group, l),
        ),
        group.location is None ==> contains_run(final(out)@, ":?:?"@),
        spec_clean_text(*cfg, old(out)@) && spec_clean_draw(*cfg, *draw) && group_clean(
            *cfg,
            *group,
        ) ==> spec_clean_text(*cfg, final(out)@),
{
    if !is_first {
        write_spacer_line(out, cfg, draw, w);
    }
    push_repeat(out, ' ', w + 2);
    push_styled_char(out, cfg, draw.group_connector(is_first), cfg.margin_color());
    push_styled_char(out, cfg, draw.hbar, cfg.margin_color());
    push_styled_char(out, cfg, draw.lbox, cfg.margin_color());
    out.push(' ');
    write_location(out, cfg, group);
    let ghost after_loc = out@;
    out.push(' ');
    push_styled_char(out, cfg, draw.rbox, cfg.margin_color());
    out.push('\n');
    proof {
        match group.location {
            Some(l) => {
                lemma_contains_run_grew(after_loc, out@, spec_group_loc_text(*group, l));
            },
            None => {
                lemma_contains_run_grew(after_loc, out@, ":?:?"@);
            },
        }
    }
}

/// The display name of a group: its stored name, or the unknown
/// placeholder.
pub open spec fn spec_group_name_text(g: SourceGroup) -> Seq<char> {
    match g.name {
        Some(n) => n@,
        None => "<unknown>"@,
    }
}

/// Appends the group's display name.
pub(crate) fn push_group_name(out: &mut Vec<char>, cfg: &Config, group: &SourceGroup)
    ensures
        final(out)@ == old(out)@ + spec_group_name_text(*group),
        spec_clean_text(*cfg, old(out)@) && (group.name matches Some(n) ==> spec_clean_text(
            *cfg,
            n@,
        )) ==> spec_clean_text(*cfg, final(out)@),
{
    let ghost cl = spec_clean_text(*cfg, old(out)@) && (group.name is Some
        ==> spec_clean_text(*cfg, group.name->0@));
    match &group.name {
        Some(n) => {
            push_chars(out, n);
            proof {
                if cl {
                    assert forall|i: int|
                        0 <= i < out@.len() implies spec_clean_char(*cfg, #[trigger] out@[i]) by {
                        if i < old(out)@.len() {
                            assert(out@[i] == old(out)@[i]);
                        } else {
                            assert(out@[i] == n@[i - old(out)@.len()]);
                        }
                    }
                }
            }
        },
        None => {
            let unknown = crate::text::str_chars("<unknown>");
            proof {
                reveal_strlit("<unknown>");
            }
            push_chars(out, &unknown);
            proof {
                if cl {
                    assert forall|i: int|
                        0 <= i < out@.len() implies spec_clean_char(*cfg, #[trigger] out@[i]) by {
                        if i < old(out)@.len() {
                            assert(out@[i] == old(out)@[i]);
                        } else {
                            assert(out@[i] == "<unknown>"@[i - old(out)@.len()]);
                            reveal_strlit("<unknown>");
                        }
                    }
                }
            }
        },
    }
}

/// Appends the decimal digits of `n`, which are clean under any options.
pub(crate) fn push_decimal_clean(out: &mut Vec<char>, cfg: &Config, n: usize)
    ensures
        final(out)@ == old(out)@ + crate::text::spec_decimal(n as nat),
        spec_clean_text(*cfg, old(out)@) ==> spec_clean_text(*cfg, final(out)@),
{
    proof {
        crate::text::lemma_decimal_digits(n as nat);
    }
    push_decimal(out, n);
    proof {
        if spec_clean_text(*cfg, old(out)@) {
            assert forall|i: int|
                0 <= i < out@.len() implies spec_clean_char(*cfg, #[trigger] out@[i]) by {
                if i < old(out)@.len() {
                    assert(out@[i] == old(out)@[i]);
                } else {
                    assert(out@[i] == crate::text::spec_decimal(n as nat)[i - old(out)@.len()]);
                }
            }
        }
    }
}

/// Appends the name and one-based line and column of a group's location, or
/// the unknown-location placeholder.
#[verifier::rlimit(100)]
pub(crate) fn write_location(out: &mut Vec<char>, cfg: &Config, group: &SourceGroup)
    requires
        group.location matches Some(l) ==> l.0 < usize::MAX && l.1 < usize::MAX,
    ensures
        final(out)@.len() >= old(out)@.len(),
        spec_grew(old(out)@, final(out)@),
        group.location matches Some(l) ==> contains_run(
            final(out)@,
            spec_group_loc_text(*group, l),
        ),
        group.location is None ==> contains_run(final(out)@, ":?:?"@),
        spec_clean_text(*cfg, old(out)@) && (group.name matches Some(n) ==> spec_clean_text(
            *cfg,
            n@,
        )) ==> spec_clean_text(*cfg, final(out)@),
{
    let ghost before_loc = out@;
    let ghost cl = spec_clean_text(*cfg, before_loc) && (group.name is Some
        ==> spec_clean_text(*cfg, group.name->0@));
    match &group.location {
        Some(loc) => {
            write_known_location(out, cfg, group, *loc);
        },
        None => {
            write_unknown_location(out, cfg);
        },
    }
}

/// Appends the placeholder for a location that could not be resolved.
#[verifier::rlimit(100)]
pub(crate) fn write_unknown_location(out: &mut Vec<char>, cfg: &Config)
    ensures
        final(out)@ == old(out)@ + ":?:?"@,
        contains_run(final(out)@, ":?:?"@),
        spec_clean_text(*cfg, old(out)@) ==> spec_clean_text(*cfg, final(out)@),
{
    let q = crate::text::str_chars(":?:?");
    proof {
        reveal_strlit(":?:?");
        assert(spec_clean_text(*cfg, ":?:?"@));
    }
    push_chars(out, &q);
    proof {
        assert(out@.subrange(old(out)@.len() as int, out@.len() as int) =~= ":?:?"@);
        assert(contains_run(out@, ":?:?"@));
        if spec_clean_text(*cfg, old(out)@) {
            lemma_clean_append(*cfg, old(out)@, ":?:?"@);
        }
    }
}

/// Appends a resolved location: the group's display name, a colon, the
/// one-based line, a colon, and the one-based column.
#[verifier::rlimit(100)]
pub(crate) fn write_known_location(
    out: &mut Vec<char>,
    cfg: &Config,
    group: &SourceGroup,
    loc: (usize, usize),
)
    requires
        loc.0 < usize::MAX,
        loc.1 < usize::MAX,
    ensures
        final(out)@ == old(out)@ + spec_group_loc_text(*group, loc),
        contains_run(final(out)@, spec_group_loc_text(*group, loc)),
        spec_clean_text(*cfg, old(out)@) && (group.name matches Some(n) ==> spec_clean_text(
            *cfg,
            n@,
        )) ==> spec_clean_text(*cfg, final(out)@),
{
    let ghost before_loc = out@;
    let ghost cl = spec_clean_text(*cfg, before_loc) && (group.name is Some
        ==> spec_clean_text(*cfg, group.name->0@));
    push_group_name(out, cfg, group);
    out.push(':');
    proof {
        if cl {
            assert(spec_clean_char(*cfg, ':'));
            assert(spec_clean_text(*cfg, out@));
        }
    }
    let ghost with_name = out@;
    push_decimal_clean(out, cfg, loc.0 + 1);
    let ghost with_line = out@;
    out.push(':');
    proof {
        if cl {
            assert(spec_clean_char(*cfg, ':'));
            assert(spec_clean_text(*cfg, out@));
        }
    }
    push_decimal_clean(out, cfg, loc.1 + 1);
    proof {
        assert(with_name =~= before_loc + spec_group_name_text(*group) + seq![':']);
        assert(out@ =~= before_loc + spec_group_loc_text(*group, loc)) by {
            assert(with_name == before_loc + spec_group_name_text(*group) + seq![':']);
            assert(with_line == with_name + crate::text::spec_decimal((loc.0 + 1) as nat));
            assert(out@ =~= with_line + seq![':'] + crate::text::spec_decimal(
                (loc.1 + 1) as nat,
            ));
        }
        assert(out@.subrange(before_loc.len() as int, out@.len() as int) =~= spec_group_loc_text(
            *group,
            loc,
        ));
        assert(contains_run(out@, spec_group_loc_text(*group, loc)));
    }
}

/// Splits a text into its lines, as `str::lines` does: separated by line
/// feeds, each line's trailing carriage return removed, and no final empty
/// line for text that ends with a line feed.
pub(crate) fn split_lines(text: &Vec<char>) -> (r: Vec<Vec<char>>)
    ensures
        forall|k: int| 0 <= k < r@.len() ==> chars_from((#[trigger] r@[k])@, text@),
        !text@.contains('\n') && text@.len() > 0 ==> r@.len() == 1 && r@[0]@ == text@,
        text@.len() == 0 ==> r@.len() == 0,
        text@.len() > 0 ==> r@.len() > 0 && r@[0]@ == spec_first_line(text@),
{
    proof {
        lemma_first_nl(text@);
    }
    let mut result: Vec<Vec<char>> = Vec::new();
    let mut cur: Vec<char> = Vec::new();
    let mut i: usize = 0;
    while i < text.len()
        invariant
            i <= text@.len(),
            chars_from(cur@, text@),
            forall|k: int| 0 <= k < result@.len() ==> chars_from((#[trigger] result@[k])@, text@),
            !text@.contains('\n') ==> result@.len() == 0 && cur@ == text@.take(i as int),
            result@.len() == 0 ==> i <= spec_first_nl(text@) && cur@ == text@.take(i as int),
            result@.len() > 0 ==> result@[0]@ == spec_first_line(text@),
        decreases text@.len() - i,
    {
        let c = text[i];
        if c == '\n' {
            let ghost was_empty = result@.len() == 0;
            proof {
                assert(text@.contains('\n'));
                lemma_first_nl(text@);
                if was_empty {
                    assert(i == spec_first_nl(text@));
                    assert(cur@ == text@.take(spec_first_nl(text@)));
                }
            }
            if cur.len() > 0 && cur[cur.len() - 1] == '\r' {
                let _ = cur.pop();
            }
            proof {
                if was_empty {
                    assert(spec_first_nl(text@) < text@.len());
                    assert(cur@ == spec_first_line(text@));
                }
            }
            result.push(cur);
            proof {
                if was_empty {
                    assert(result@[0]@ == spec_first_line(text@));
                }
            }
            cur = Vec::new();
        } else {
            proof {
                assert(text@.contains(text@[i as int]));
                if !text@.contains('\n') {
                    assert(cur@.push(c) =~= text@.take(i + 1));
                }
                if result@.len() == 0 {
                    lemma_first_nl(text@);
                    assert(i < spec_first_nl(text@) || i >= spec_first_nl(text@));
                    if i >= spec_first_nl(text@) {
                        assert(spec_first_nl(text@) < text@.len());
                        assert(text@[spec_first_nl(text@)] == '\n');
                        assert(i == spec_first_nl(text@));
                        assert(false);
                    }
                    assert(cur@.push(c) =~= text@.take(i + 1));
                }
            }
            cur.push(c);
        }
        i = i + 1;
    }
    proof {
        if !text@.contains('\n') {
            assert(text@.take(text@.len() as int) =~= text@);
        }
        if result@.len() == 0 && text@.len() > 0 {
            lemma_first_nl(text@);
            assert(i == text@.len());
            assert(spec_first_nl(text@) == text@.len());
            assert(cur@ == text@.take(text@.len() as int));
            assert(cur@ =~= text@);
            assert(text@.take(spec_first_nl(text@)) =~= text@);
            assert(spec_first_line(text@) == text@.take(spec_first_nl(text@)));
            assert(spec_first_line(text@) =~= text@);
            assert(cur@.len() > 0);
        }
    }
    let ghost cv = cur@;
    let ghost had = result@.len();
    if cur.len() > 0 {
        result.push(cur);
        proof {
            if had == 0 {
                assert(result@[0]@ == cv);
            }
        }
    }
    result
}

/// Appends the help or note section: each item on its own row after a
/// spacer, numbered when there are several, with continuation lines
/// indented under the heading.
#[verifier::rlimit(100)]
pub(crate) fn write_sections(
    out: &mut Vec<char>,
    cfg: &Config,
    draw: &Characters,
    w: usize,
    items: &Vec<Vec<char>>,
    heading: &str,
)
    requires
        w <= 20,
        spec_clean_text(*cfg, heading@),
    ensures
        final(out)@.len() >= old(out)@.len(),
        spec_grew(old(out)@, final(out)@),
        spec_ends_nl(old(out)@) ==> spec_ends_nl(final(out)@),
        forall|i: int|
            0 <= i < items@.len() && !(#[trigger] items@[i])@.contains('\n') && items@[i]@.len()
                > 0 ==> contains_run(final(out)@, items@[i]@ + seq!['\n']),
        forall|i: int|
            0 <= i < items@.len() && (#[trigger] items@[i])@.len() > 0 ==> contains_run(
                final(out)@,
                spec_first_line(items@[i]@) + seq!['\n'],
            ),
        !cfg.color && items@.len() == 1 && !items@[0]@.contains('\n') && items@[0]@.len() > 0
            ==> contains_run(
            final(out)@,
            heading@ + seq![':', ' '] + items@[0]@ + seq!['\n'],
        ),
        !cfg.color && items@.len() > 1 ==> forall|i: int|
            0 <= i < items@.len() && !(#[trigger] items@[i])@.contains('\n') && items@[i]@.len()
                > 0 ==> contains_run(
                final(out)@,
                heading@ + seq![' '] + crate::text::spec_decimal((i + 1) as nat) + seq![':', ' ']
                    + items@[i]@ + seq!['\n'],
            ),
        spec_clean_text(*cfg, old(out)@) && spec_clean_draw(*cfg, *draw) && (forall|k: int|
            0 <= k < items@.len() ==> spec_clean_text(*cfg, (#[trigger] items@[k])@))
            ==> spec_clean_text(*cfg, final(out)@),
{
    let ghost all_clean = spec_clean_text(*cfg, old(out)@) && spec_clean_draw(*cfg, *draw) && (
    forall|k: int| 0 <= k < items@.len() ==> spec_clean_text(*cfg, (#[trigger] items@[k])@));
    let heading_chars = crate::text::str_chars(heading);
    let mut i: usize = 0;
    while i < items.len()
        invariant
            w <= 20,
            out@.len() >= old(out)@.len(),
            spec_grew(old(out)@, out@),
            spec_ends_nl(old(out)@) ==> spec_ends_nl(out@),
            all_clean == (spec_clean_text(*cfg, old(out)@) && spec_clean_draw(*cfg, *draw) && (
            forall|k: int| 0 <= k < items@.len() ==> spec_clean_text(*cfg, (#[trigger] items@[k])@))),
            spec_clean_text(*cfg, heading@),
            heading_chars@ == heading@,
            all_clean ==> spec_clean_text(*cfg, out@),
            forall|i2: int|
                0 <= i2 < i && !(#[trigger] items@[i2])@.contains('\n') && items@[i2]@.len() > 0
                    ==> contains_run(out@, items@[i2]@ + seq!['\n']),
            forall|i2: int|
                0 <= i2 < i && (#[trigger] items@[i2])@.len() > 0 ==> contains_run(
                    out@,
                    spec_first_line(items@[i2]@) + seq!['\n'],
                ),
            !cfg.color && items@.len() == 1 && i > 0 && !items@[0]@.contains('\n')
                && items@[0]@.len() > 0 ==> contains_run(
                out@,
                heading@ + seq![':', ' '] + items@[0]@ + seq!['\n'],
            ),
            !cfg.color && items@.len() > 1 ==> forall|i2: int|
                0 <= i2 < i && !(#[trigger] items@[i2])@.contains('\n') && items@[i2]@.len() > 0
                    ==> contains_run(
                    out@,
                    heading@ + seq![' '] + crate::text::spec_decimal((i2 + 1) as nat) + seq![
                        ':',
                        ' ',
                    ] + items@[i2]@ + seq!['\n'],
                ),
        decreases items@.len() - i,
    {
        let ghost iter_base = out@;
        if !cfg.compact {
            write_margin(out, cfg, draw, w, 0, false, false);
            out.push('\n');
            proof {
                if all_clean {
                    assert(spec_clean_char(*cfg, '\n'));
                    assert(spec_clean_text(*cfg, out@));
                }
            }
        }
        let mut prefix: Vec<char> = Vec::new();
        push_chars(&mut prefix, &heading_chars);
        if items.len() > 1 {
            prefix.push(' ');
            proof {
                assert(i < usize::MAX);
                crate::text::lemma_decimal_digits((i + 1) as nat);
            }
            push_decimal(&mut prefix, i + 1);
        }
        proof {
            if items@.len() > 1 {
                assert(prefix@ =~= heading@ + seq![' '] + crate::text::spec_decimal(
                    (i + 1) as nat,
                ));
            } else {
                assert(prefix@ =~= heading@);
            }
        }
        proof {
            if all_clean {
                assert(spec_clean_text(*cfg, prefix@));
            }
        }
        let prefix_len = if items.len() > 1 {
            prefix.len()
        } else {
            heading_chars.len()
        };
        let lines = split_lines(&items[i]);
        proof {
            if all_clean {
                assert(spec_clean_text(*cfg, items@[i as int]@));
                assert forall|k: int, c: int|
                    0 <= k < lines@.len() && 0 <= c < lines@[k]@.len() implies spec_clean_char(
                    *cfg,
                    #[trigger] lines@[k]@[c],
                ) by {
                    assert(chars_from(lines@[k]@, items@[i as int]@));
                    assert(items@[i as int]@.contains(lines@[k]@[c]));
                    let j = choose|j: int|
                        0 <= j < items@[i as int]@.len() && items@[i as int]@[j] == lines@[k]@[c];
                    assert(spec_clean_char(*cfg, items@[i as int]@[j]));
                }
            }
        }
        if lines.len() > 0 {
            write_margin(out, cfg, draw, w, 0, false, false);
            let ghost before_prefix = out@;
            push_styled(out, cfg, &prefix, cfg.note_color());
            out.push(':');
            out.push(' ');
            let ghost before_line = out@;
            push_chars(out, &lines[0]);
            out.push('\n');
            proof {
                if all_clean {
                    assert(spec_clean_text(*cfg, lines@[0]@));
                    assert(spec_clean_text(*cfg, out@));
                }
                if items@[i as int]@.len() > 0 {
                    assert(lines@[0]@ == spec_first_line(items@[i as int]@));
                    assert(out@ =~= before_line + spec_first_line(items@[i as int]@) + seq![
                        '\n',
                    ]);
                    assert(out@.subrange(before_line.len() as int, out@.len() as int)
                        =~= spec_first_line(items@[i as int]@) + seq!['\n']);
                    assert(contains_run(
                        out@,
                        spec_first_line(items@[i as int]@) + seq!['\n'],
                    ));
                }
                if !items@[i as int]@.contains('\n') && items@[i as int]@.len() > 0 {
                    assert(lines@[0]@ == items@[i as int]@);
                    assert(out@ =~= before_line + items@[i as int]@ + seq!['\n']);
                    assert(out@.subrange(before_line.len() as int, out@.len() as int)
                        =~= items@[i as int]@ + seq!['\n']);
                    assert(contains_run(out@, items@[i as int]@ + seq!['\n']));
                    if !cfg.color {
                        assert(before_line =~= before_prefix + prefix@ + seq![':', ' ']);
                        assert(out@ =~= before_prefix + (prefix@ + seq![':', ' '] + items@[
                        i as int]@ + seq!['\n']));
                        assert(out@.subrange(before_prefix.len() as int, out@.len() as int)
                            =~= prefix@ + seq![':', ' '] + items@[i as int]@ + seq!['\n']);
                        assert(contains_run(
                            out@,
                            prefix@ + seq![':', ' '] + items@[i as int]@ + seq!['\n'],
                        ));
                        if items@.len() > 1 {
                            assert(prefix@ + seq![':', ' '] + items@[i as int]@ + seq!['\n']
                                =~= heading@ + seq![' '] + crate::text::spec_decimal(
                                (i + 1) as nat,
                            ) + seq![':', ' '] + items@[i as int]@ + seq!['\n']);
                        } else {
                            assert(prefix@ + seq![':', ' '] + items@[i as int]@ + seq!['\n']
                                =~= heading@ + seq![':', ' '] + items@[i as int]@ + seq!['\n']);
                        }
                    }
                }
            }
        }
        let mut k: usize = 1;
        while k < lines.len()
            invariant
                w <= 20,
                i < items@.len(),
                out@.len() >= old(out)@.len(),
                spec_grew(old(out)@, out@),
                spec_grew(iter_base, out@),
                spec_ends_nl(old(out)@) ==> spec_ends_nl(out@),
                all_clean == (spec_clean_text(*cfg, old(out)@) && spec_clean_draw(*cfg, *draw) && (
                forall|q: int| 0 <= q < items@.len() ==> spec_clean_text(
                    *cfg,
                    (#[trigger] items@[q])@,
                ))),
                all_clean ==> spec_clean_text(*cfg, out@),
                forall|q: int, c: int|
                    0 <= q < lines@.len() && 0 <= c < lines@[q]@.len() && all_clean
                        ==> spec_clean_char(*cfg, #[trigger] lines@[q]@[c]),
                prefix_len <= usize::MAX,
                !items@[i as int]@.contains('\n') && items@[i as int]@.len() > 0 ==> contains_run(
                    out@,
                    items@[i as int]@ + seq!['\n'],
                ),
                items@[i as int]@.len() > 0 ==> contains_run(
                    out@,
                    spec_first_line(items@[i as int]@) + seq!['\n'],
                ),
                !cfg.color && !items@[i as int]@.contains('\n') && items@[i as int]@.len() > 0
                    && items@.len() == 1 ==> contains_run(
                    out@,
                    heading@ + seq![':', ' '] + items@[i as int]@ + seq!['\n'],
                ),
                !cfg.color && !items@[i as int]@.contains('\n') && items@[i as int]@.len() > 0
                    && items@.len() > 1 ==> contains_run(
                    out@,
                    heading@ + seq![' '] + crate::text::spec_decimal((i + 1) as nat) + seq![
                        ':',
                        ' ',
                    ] + items@[i as int]@ + seq!['\n'],
                ),
            decreases lines@.len() - k,
        {
            let ghost k_base = out@;
            write_margin(out, cfg, draw, w, 0, false, false);
            if prefix_len <= usize::MAX - 2 {
                push_repeat(out, ' ', prefix_len + 2);
            }
            push_chars(out, &lines[k]);
            out.push('\n');
            proof {
                if all_clean {
                    assert(spec_clean_text(*cfg, lines@[k as int]@));
                    assert(spec_clean_text(*cfg, out@));
                }
                if items@[i as int]@.len() > 0 {
                    lemma_contains_run_grew(
                        k_base,
                        out@,
                        spec_first_line(items@[i as int]@) + seq!['\n'],
                    );
                }
                if !items@[i as int]@.contains('\n') && items@[i as int]@.len() > 0 {
                    lemma_contains_run_grew(k_base, out@, items@[i as int]@ + seq!['\n']);
                    if !cfg.color && items@.len() == 1 {
                        lemma_contains_run_grew(
                            k_base,
                            out@,
                            heading@ + seq![':', ' '] + items@[i as int]@ + seq!['\n'],
                        );
                    }
                    if !cfg.color && items@.len() > 1 {
                        lemma_contains_run_grew(
                            k_base,
                            out@,
                            heading@ + seq![' '] + crate::text::spec_decimal((i + 1) as nat)
                                + seq![':', ' '] + items@[i as int]@ + seq!['\n'],
                        );
                    }
                }
            }
            k = k + 1;
        }
        proof {
            assert forall|i2: int|
                0 <= i2 < i + 1 && !(#[trigger] items@[i2])@.contains('\n') && items@[i2]@.len()
                    > 0 implies contains_run(out@, items@[i2]@ + seq!['\n']) by {
                if i2 < i {
                    lemma_contains_run_grew(iter_base, out@, items@[i2]@ + seq!['\n']);
                }
            }
            assert forall|i2: int|
                0 <= i2 < i + 1 && (#[trigger] items@[i2])@.len() > 0 implies contains_run(
                out@,
                spec_first_line(items@[i2]@) + seq!['\n'],
            ) by {
                if i2 < i {
                    lemma_contains_run_grew(
                        iter_base,
                        out@,
                        spec_first_line(items@[i2]@) + seq!['\n'],
                    );
                }
            }
            if !cfg.color && items@.len() == 1 && !items@[0]@.contains('\n') && items@[0]@.len()
                > 0 {
                assert(contains_run(out@, heading@ + seq![':', ' '] + items@[0]@ + seq!['\n']));
            }
            if !cfg.color && items@.len() > 1 {
                assert forall|i2: int|
                    0 <= i2 < i + 1 && !(#[trigger] items@[i2])@.contains('\n')
                        && items@[i2]@.len() > 0 implies contains_run(
                    out@,
                    heading@ + seq![' '] + crate::text::spec_decimal((i2 + 1) as nat) + seq![
                        ':',
                        ' ',
                    ] + items@[i2]@ + seq!['\n'],
                ) by {
                    if i2 < i {
                        lemma_contains_run_grew(
                            iter_base,
                            out@,
                            heading@ + seq![' '] + crate::text::spec_decimal((i2 + 1) as nat)
                                + seq![':', ' '] + items@[i2]@ + seq!['\n'],
                        );
                    }
                }
            }
        }
        i = i + 1;
    }
}

/// Appends the closing rail of the report.
pub(crate) fn write_footer(out: &mut Vec<char>, cfg: &Config, draw: &Characters, w: usize)
    requires
        w <= 20,
    ensures
        final(out)@.len() >= old(out)@.len(),
        spec_grew(old(out)@, final(out)@),
        spec_ends_nl(final(out)@),
        spec_clean_text(*cfg, old(out)@) && spec_clean_draw(*cfg, *draw) ==> spec_clean_text(
            *cfg,
            final(out)@,
        ),
{
    let mut m: Vec<char> = Vec::new();
    push_repeat(&mut m, draw.hbar, w + 2);
    m.push(draw.rbot);
    push_styled(out, cfg, &m, cfg.margin_color());
    out.push('\n');
}

/// Renders a fully resolved report as text. The result ends with a line
/// feed; a report whose texts are clean renders to clean text, so with
/// colour off the output holds no ANSI escape character, and with the ASCII
/// glyph set it holds only seven-bit characters. Every label with a message
/// that lies on a displayed line — an inline label contained in it, or a
/// multi-line label ending on it — contributes a message row: the output
/// The largest one-past-the-end displayed line index over the groups.
pub open spec fn spec_max_line_end(gs: Seq<SourceGroup>) -> int
    decreases gs.len(),
{
    if gs.len() == 0 {
        0
    } else if gs.last().line_end > spec_max_line_end(gs.drop_last()) {
        gs.last().line_end as int
    } else {
        spec_max_line_end(gs.drop_last())
    }
}

/// The width of the line-number margin: the digit count of the largest
/// displayed line number over all groups, or zero when there is no group.
pub fn margin_width(groups: &Vec<SourceGroup>) -> (w: usize)
    ensures
        groups@.len() == 0 ==> w == 0,
        groups@.len() > 0 ==> w == crate::text::spec_decimal(
            spec_max_line_end(groups@) as nat,
        ).len(),
        w <= 20,
{
    let mut max_end: usize = 0;
    let mut gi: usize = 0;
    while gi < groups.len()
        invariant
            gi <= groups@.len(),
            max_end == spec_max_line_end(groups@.take(gi as int)),
        decreases groups@.len() - gi,
    {
        proof {
            assert(groups@.take(gi + 1).drop_last() =~= groups@.take(gi as int));
            assert(groups@.take(gi + 1).last() == groups@[gi as int]);
        }
        if groups[gi].line_end > max_end {
            max_end = groups[gi].line_end;
        }
        gi = gi + 1;
    }
    proof {
        assert(groups@.take(groups@.len() as int) =~= groups@);
    }
    if groups.len() == 0 {
        0
    } else {
        crate::text::decimal_width(max_end)
    }
}

/// Appends the report's heading row: the bracketed code, the kind, a colon
/// and space, the message, and the line feed. The code and kind are painted
/// as one unit; the message is plain.
#[verifier::rlimit(100)]
#[verifier::spinoff_prover]
pub(crate) fn write_report_header(
    out: &mut Vec<char>,
    cfg: &Config,
    kind_text: &Vec<char>,
    kind_color: Option<Color>,
    code: &Option<Vec<char>>,
    msg: &Option<Vec<char>>,
)
    requires
        kind_color is Some ==> cfg.color,
    ensures
        final(out)@.len() >= old(out)@.len(),
        spec_grew(old(out)@, final(out)@),
        spec_ends_nl(final(out)@),
        contains_run(final(out)@, kind_text@),
        code matches Some(c) ==> contains_run(final(out)@, seq!['['] + c@ + seq![']', ' ']),
        msg matches Some(m) ==> contains_run(final(out)@, m@ + seq!['\n']),
        spec_clean_text(*cfg, old(out)@) && spec_clean_text(*cfg, kind_text@) && (code matches Some(
            c,
        ) ==> spec_clean_text(*cfg, c@)) && (msg matches Some(m) ==> spec_clean_text(*cfg, m@))
            ==> spec_clean_text(*cfg, final(out)@),
{
    let ghost cl = spec_clean_text(*cfg, old(out)@) && spec_clean_text(*cfg, kind_text@) && (
    code matches Some(c) ==> spec_clean_text(*cfg, c@)) && (msg matches Some(m)
        ==> spec_clean_text(*cfg, m@));
    let mut head: Vec<char> = Vec::new();
    match code {
        Some(c) => {
            head.push('[');
            push_chars(&mut head, c);
            head.push(']');
            head.push(' ');
        },
        None => {},
    }
    let ghost code_part = head@;
    push_chars(&mut head, kind_text);
    proof {
        if cl {
            assert(spec_clean_char(*cfg, '['));
            assert(spec_clean_char(*cfg, ']'));
            assert(spec_clean_char(*cfg, ' '));
            assert(spec_clean_text(*cfg, head@));
        }
    }
    push_styled(out, cfg, &head, kind_color);
    proof {
        assert(head@ =~= code_part + kind_text@ + Seq::<char>::empty());
        lemma_contains_run_within(out@, code_part, kind_text@, Seq::empty());
        match code {
            Some(c) => {
                assert(code_part =~= seq!['['] + c@ + seq![']', ' ']);
                assert(head@ =~= Seq::<char>::empty() + code_part + kind_text@);
                lemma_contains_run_within(out@, Seq::empty(), code_part, kind_text@);
            },
            None => {},
        }
    }
    let ghost after_head = out@;
    out.push(':');
    out.push(' ');
    let ghost before_msg = out@;
    match msg {
        Some(m) => {
            push_chars(out, m);
        },
        None => {},
    }
    out.push('\n');
    proof {
        if cl {
            assert(spec_clean_char(*cfg, ':'));
            assert(spec_clean_char(*cfg, ' '));
            assert(spec_clean_char(*cfg, '\n'));
            assert(spec_clean_text(*cfg, out@));
        }
        lemma_contains_run_grew(after_head, out@, kind_text@);
        match code {
            Some(c) => {
                lemma_contains_run_grew(after_head, out@, seq!['['] + c@ + seq![']', ' ']);
            },
            None => {},
        }
        match msg {
            Some(m) => {
                assert(out@ =~= before_msg + m@ + seq!['\n']);
                assert(out@.subrange(before_msg.len() as int, out@.len() as int) =~= m@ + seq![
                    '\n',
                ]);
                assert(contains_run(out@, m@ + seq!['\n']));
            },
            None => {},
        }
    }
}

/// contains a space, the message, and a line feed as one contiguous run.
#[verifier::rlimit(100)]
pub fn render_resolved(rr: &ResolvedReport) -> (out: Vec<char>)
    requires
        rr.wf(),
    ensures
        spec_ends_nl(out@),
        contains_run(out@, rr.kind_text@),
        rr.code matches Some(c) ==> contains_run(out@, seq!['['] + c@ + seq![']', ' ']),
        rr.msg matches Some(m) ==> contains_run(out@, m@ + seq!['\n']),
        forall|i: int|
            0 <= i < rr.helps@.len() && !(#[trigger] rr.helps@[i])@.contains('\n')
                && rr.helps@[i]@.len() > 0 ==> contains_run(out@, rr.helps@[i]@ + seq!['\n']),
        forall|i: int|
            0 <= i < rr.notes@.len() && !(#[trigger] rr.notes@[i])@.contains('\n')
                && rr.notes@[i]@.len() > 0 ==> contains_run(out@, rr.notes@[i]@ + seq!['\n']),
        forall|i: int|
            0 <= i < rr.helps@.len() && (#[trigger] rr.helps@[i])@.len() > 0 ==> contains_run(
                out@,
                spec_first_line(rr.helps@[i]@) + seq!['\n'],
            ),
        forall|i: int|
            0 <= i < rr.notes@.len() && (#[trigger] rr.notes@[i])@.len() > 0 ==> contains_run(
                out@,
                spec_first_line(rr.notes@[i]@) + seq!['\n'],
            ),
        !rr.config.color && rr.helps@.len() == 1 && !rr.helps@[0]@.contains('\n')
            && rr.helps@[0]@.len() > 0 ==> contains_run(
            out@,
            "Help"@ + seq![':', ' '] + rr.helps@[0]@ + seq!['\n'],
        ),
        !rr.config.color && rr.helps@.len() > 1 ==> forall|i: int|
            0 <= i < rr.helps@.len() && !(#[trigger] rr.helps@[i])@.contains('\n')
                && rr.helps@[i]@.len() > 0 ==> contains_run(
                out@,
                "Help"@ + seq![' '] + crate::text::spec_decimal((i + 1) as nat) + seq![':', ' ']
                    + rr.helps@[i]@ + seq!['\n'],
            ),
        !rr.config.color && rr.notes@.len() == 1 && !rr.notes@[0]@.contains('\n')
            && rr.notes@[0]@.len() > 0 ==> contains_run(
            out@,
            "Note"@ + seq![':', ' '] + rr.notes@[0]@ + seq!['\n'],
        ),
        !rr.config.color && rr.notes@.len() > 1 ==> forall|i: int|
            0 <= i < rr.notes@.len() && !(#[trigger] rr.notes@[i])@.contains('\n')
                && rr.notes@[i]@.len() > 0 ==> contains_run(
                out@,
                "Note"@ + seq![' '] + crate::text::spec_decimal((i + 1) as nat) + seq![':', ' ']
                    + rr.notes@[i]@ + seq!['\n'],
            ),
        rr.clean() ==> spec_clean_text(rr.config, out@),
        rr.clean() && !rr.config.color ==> forall|i: int|
            0 <= i < out@.len() ==> out@[i] != '\u{1b}',
        rr.clean() && rr.config.char_set == CharSet::Ascii ==> crate::text::spec_all_ascii(out@),
        forall|g: int, li: int|
            0 <= g < rr.groups@.len() && 0 <= li < rr.groups@[g].labels@.len() && !(
            #[trigger] rr.groups@[g].labels@[li]).multiline && rr.groups@[g].labels@[li].msg
                is Some && (exists|x: int|
                rr.groups@[g].line_start <= x < rr.groups@[g].line_end
                    && #[trigger] spec_inline_on_line(
                    rr.groups@[g].src,
                    rr.groups@[g].labels@[li],
                    x,
                )) ==> contains_run(out@, spec_message_row(rr.groups@[g].labels@[li])),
        forall|g: int, li: int|
            0 <= g < rr.groups@.len() && 0 <= li < rr.groups@[g].labels@.len() && (
            #[trigger] rr.groups@[g].labels@[li]).multiline && rr.groups@[g].labels@[li].msg
                is Some && (exists|x: int|
                rr.groups@[g].line_start <= x < rr.groups@[g].line_end
                    && #[trigger] spec_multi_end_on_line(
                    rr.groups@[g].src,
                    rr.groups@[g].labels@[li],
                    x,
                )) ==> contains_run(out@, spec_message_row(rr.groups@[g].labels@[li])),
{
    let ghost is_clean = rr.clean();
    let cfg = rr.config;
    let draw = match cfg.char_set {
        CharSet::Unicode => Characters::unicode(),
        CharSet::Ascii => Characters::ascii(),
    };
    proof {
        assert(spec_clean_draw(cfg, draw));
    }
    let mut out: Vec<char> = Vec::new();

    let mut wi: usize = 0;
    while wi < rr.warnings.len()
        invariant
            rr.wf(),
            cfg == rr.config,
            is_clean == rr.clean(),
            is_clean ==> spec_clean_text(cfg, out@),
        decreases rr.warnings@.len() - wi,
    {
        push_chars(&mut out, &rr.warnings[wi]);
        out.push('\n');
        proof {
            if is_clean {
                assert(spec_clean_text(cfg, rr.warnings@[wi as int]@));
                assert(spec_clean_char(cfg, '\n'));
                assert(spec_clean_text(cfg, out@));
            }
        }
        wi = wi + 1;
    }

    write_report_header(&mut out, &cfg, &rr.kind_text, rr.kind_color, &rr.code, &rr.msg);
    proof {
        if is_clean {
            assert(spec_clean_text(cfg, out@));
        }
    }
    let ghost after_header = out@;

    let w = margin_width(&rr.groups);

    proof {
        assert(spec_ends_nl(out@));
    }
    let mut g: usize = 0;
    while g < rr.groups.len()
        invariant
            rr.wf(),
            cfg == rr.config,
            is_clean == rr.clean(),
            spec_clean_draw(cfg, draw),
            is_clean ==> spec_clean_text(cfg, out@),
            w <= 20,
            spec_ends_nl(out@),
            spec_grew(after_header, out@),
            forall|g2: int, li: int|
                0 <= g2 < g && 0 <= li < rr.groups@[g2].labels@.len() && !(#[trigger] rr.groups@[
                g2].labels@[li]).multiline && rr.groups@[g2].labels@[li].msg is Some && (exists|
                    x: int,
                |
                    rr.groups@[g2].line_start <= x < rr.groups@[g2].line_end
                        && #[trigger] spec_inline_on_line(
                        rr.groups@[g2].src,
                        rr.groups@[g2].labels@[li],
                        x,
                    )) ==> contains_run(out@, spec_message_row(rr.groups@[g2].labels@[li])),
            forall|g2: int, li: int|
                0 <= g2 < g && 0 <= li < rr.groups@[g2].labels@.len() && (#[trigger] rr.groups@[
                g2].labels@[li]).multiline && rr.groups@[g2].labels@[li].msg is Some && (exists|
                    x: int,
                |
                    rr.groups@[g2].line_start <= x < rr.groups@[g2].line_end
                        && #[trigger] spec_multi_end_on_line(
                        rr.groups@[g2].src,
                        rr.groups@[g2].labels@[li],
                        x,
                    )) ==> contains_run(out@, spec_message_row(rr.groups@[g2].labels@[li])),
        decreases rr.groups@.len() - g,
    {
        let ghost iter_base = out@;
        proof {
            if is_clean {
                assert(group_clean(cfg, rr.groups@[g as int]));
            }
            if !cfg.color {
                assert(forall|k: int|
                    0 <= k < rr.groups@[g as int].labels@.len() ==> (#[trigger] rr.groups@[
                    g as int].labels@[k]).color is None);
            }
        }
        write_group_header(&mut out, &cfg, &draw, w, &rr.groups[g], g == 0);
        if !cfg.compact {
            write_spacer_line(&mut out, &cfg, &draw, w);
        }
        render_group_lines(&mut out, &cfg, &draw, w, &rr.groups[g]);
        proof {
            assert forall|g2: int, li: int|
                0 <= g2 < g + 1 && 0 <= li < rr.groups@[g2].labels@.len() && !(
                #[trigger] rr.groups@[g2].labels@[li]).multiline && rr.groups@[g2].labels@[li].msg
                    is Some && (exists|x: int|
                    rr.groups@[g2].line_start <= x < rr.groups@[g2].line_end
                        && #[trigger] spec_inline_on_line(
                        rr.groups@[g2].src,
                        rr.groups@[g2].labels@[li],
                        x,
                    )) implies contains_run(out@, spec_message_row(rr.groups@[g2].labels@[li])) by {
                if g2 < g {
                    lemma_contains_run_grew(
                        iter_base,
                        out@,
                        spec_message_row(rr.groups@[g2].labels@[li]),
                    );
                }
            }
            assert forall|g2: int, li: int|
                0 <= g2 < g + 1 && 0 <= li < rr.groups@[g2].labels@.len() && (
                #[trigger] rr.groups@[g2].labels@[li]).multiline && rr.groups@[g2].labels@[li].msg
                    is Some && (exists|x: int|
                    rr.groups@[g2].line_start <= x < rr.groups@[g2].line_end
                        && #[trigger] spec_multi_end_on_line(
                        rr.groups@[g2].src,
                        rr.groups@[g2].labels@[li],
                        x,
                    )) implies contains_run(out@, spec_message_row(rr.groups@[g2].labels@[li])) by {
                if g2 < g {
                    lemma_contains_run_grew(
                        iter_base,
                        out@,
                        spec_message_row(rr.groups@[g2].labels@[li]),
                    );
                }
            }
        }
        g = g + 1;
    }
    let ghost after_groups = out@;

    proof {
        reveal_strlit("Help");
        reveal_strlit("Note");
    }
    write_sections(&mut out, &cfg, &draw, w, &rr.helps, "Help");
    let ghost after_helps = out@;
    write_sections(&mut out, &cfg, &draw, w, &rr.notes, "Note");
    let ghost after_notes = out@;

    if !(cfg.compact || (rr.groups.len() == 0 && rr.helps.len() == 0 && rr.notes.len() == 0)) {
        write_footer(&mut out, &cfg, &draw, w);
    }
    proof {
        lemma_contains_run_grew(after_header, out@, rr.kind_text@);
        match &rr.code {
            Some(c) => {
                lemma_contains_run_grew(after_header, out@, seq!['['] + c@ + seq![']', ' ']);
            },
            None => {},
        }
        match &rr.msg {
            Some(m) => {
                lemma_contains_run_grew(after_header, out@, m@ + seq!['\n']);
            },
            None => {},
        }
        assert forall|i: int|
            0 <= i < rr.helps@.len() && !(#[trigger] rr.helps@[i])@.contains('\n')
                && rr.helps@[i]@.len() > 0 implies contains_run(
            out@,
            rr.helps@[i]@ + seq!['\n'],
        ) by {
            lemma_contains_run_grew(after_helps, out@, rr.helps@[i]@ + seq!['\n']);
        }
        assert forall|i: int|
            0 <= i < rr.notes@.len() && !(#[trigger] rr.notes@[i])@.contains('\n')
                && rr.notes@[i]@.len() > 0 implies contains_run(
            out@,
            rr.notes@[i]@ + seq!['\n'],
        ) by {
            lemma_contains_run_grew(after_notes, out@, rr.notes@[i]@ + seq!['\n']);
        }
        assert forall|i: int|
            0 <= i < rr.helps@.len() && (#[trigger] rr.helps@[i])@.len() > 0 implies contains_run(
            out@,
            spec_first_line(rr.helps@[i]@) + seq!['\n'],
        ) by {
            lemma_contains_run_grew(
                after_helps,
                out@,
                spec_first_line(rr.helps@[i]@) + seq!['\n'],
            );
        }
        assert forall|i: int|
            0 <= i < rr.notes@.len() && (#[trigger] rr.notes@[i])@.len() > 0 implies contains_run(
            out@,
            spec_first_line(rr.notes@[i]@) + seq!['\n'],
        ) by {
            lemma_contains_run_grew(
                after_notes,
                out@,
                spec_first_line(rr.notes@[i]@) + seq!['\n'],
            );
        }
        if !cfg.color {
            if rr.helps@.len() == 1 && !rr.helps@[0]@.contains('\n') && rr.helps@[0]@.len() > 0 {
                lemma_contains_run_grew(
                    after_helps,
                    out@,
                    "Help"@ + seq![':', ' '] + rr.helps@[0]@ + seq!['\n'],
                );
            }
            if rr.helps@.len() > 1 {
                assert forall|i: int|
                    0 <= i < rr.helps@.len() && !(#[trigger] rr.helps@[i])@.contains('\n')
                        && rr.helps@[i]@.len() > 0 implies contains_run(
                    out@,
                    "Help"@ + seq![' '] + crate::text::spec_decimal((i + 1) as nat) + seq![
                        ':',
                        ' ',
                    ] + rr.helps@[i]@ + seq!['\n'],
                ) by {
                    lemma_contains_run_grew(
                        after_helps,
                        out@,
                        "Help"@ + seq![' '] + crate::text::spec_decimal((i + 1) as nat) + seq![
                            ':',
                            ' ',
                        ] + rr.helps@[i]@ + seq!['\n'],
                    );
                }
            }
            if rr.notes@.len() == 1 && !rr.notes@[0]@.contains('\n') && rr.notes@[0]@.len() > 0 {
                lemma_contains_run_grew(
                    after_notes,
                    out@,
                    "Note"@ + seq![':', ' '] + rr.notes@[0]@ + seq!['\n'],
                );
            }
            if rr.notes@.len() > 1 {
                assert forall|i: int|
                    0 <= i < rr.notes@.len() && !(#[trigger] rr.notes@[i])@.contains('\n')
                        && rr.notes@[i]@.len() > 0 implies contains_run(
                    out@,
                    "Note"@ + seq![' '] + crate::text::spec_decimal((i + 1) as nat) + seq![
                        ':',
                        ' ',
                    ] + rr.notes@[i]@ + seq!['\n'],
                ) by {
                    lemma_contains_run_grew(
                        after_notes,
                        out@,
                        "Note"@ + seq![' '] + crate::text::spec_decimal((i + 1) as nat) + seq![
                            ':',
                            ' ',
                        ] + rr.notes@[i]@ + seq!['\n'],
                    );
                }
            }
        }
    }
    proof {
        assert forall|g2: int, li: int|
            0 <= g2 < rr.groups@.len() && 0 <= li < rr.groups@[g2].labels@.len() && !(
            #[trigger] rr.groups@[g2].labels@[li]).multiline && rr.groups@[g2].labels@[li].msg
                is Some && (exists|x: int|
                rr.groups@[g2].line_start <= x < rr.groups@[g2].line_end
                    && #[trigger] spec_inline_on_line(
                    rr.groups@[g2].src,
                    rr.groups@[g2].labels@[li],
                    x,
                )) implies contains_run(out@, spec_message_row(rr.groups@[g2].labels@[li])) by {
            lemma_contains_run_grew(
                after_groups,
                out@,
                spec_message_row(rr.groups@[g2].labels@[li]),
            );
        }
        assert forall|g2: int, li: int|
            0 <= g2 < rr.groups@.len() && 0 <= li < rr.groups@[g2].labels@.len() && (
            #[trigger] rr.groups@[g2].labels@[li]).multiline && rr.groups@[g2].labels@[li].msg
                is Some && (exists|x: int|
                rr.groups@[g2].line_start <= x < rr.groups@[g2].line_end
                    && #[trigger] spec_multi_end_on_line(
                    rr.groups@[g2].src,
                    rr.groups@[g2].labels@[li],
                    x,
                )) implies contains_run(out@, spec_message_row(rr.groups@[g2].labels@[li])) by {
            lemma_contains_run_grew(
                after_groups,
                out@,
                spec_message_row(rr.groups@[g2].labels@[li]),
            );
        }
    }
    out
}

/// The text is non-empty and ends with a line feed.
pub open spec fn spec_ends_nl(s: Seq<char>) -> bool {
    s.len() > 0 && s.last() == '\n'
}

/// A character the renderer may emit under the given options: never the
/// escape character when colour is off, and seven-bit when the ASCII glyph
/// set is chosen.
pub open spec fn spec_clean_char(cfg: Config, c: char) -> bool {
    &&& (!cfg.color ==> c != '\u{1b}')
    &&& (cfg.char_set == CharSet::Ascii ==> (c as u32) < 0x80)
}

/// Every character of the text is clean under the given options.
pub open spec fn spec_clean_text(cfg: Config, s: Seq<char>) -> bool {
    forall|i: int| 0 <= i < s.len() ==> spec_clean_char(cfg, #[trigger] s[i])
}

/// Clean texts stay clean under concatenation.
pub proof fn lemma_clean_append(cfg: Config, a: Seq<char>, b: Seq<char>)
    requires
        spec_clean_text(cfg, a),
        spec_clean_text(cfg, b),
    ensures
        spec_clean_text(cfg, a + b),
{
    assert forall|i: int| 0 <= i < (a + b).len() implies spec_clean_char(
        cfg,
        #[trigger] (a + b)[i],
    ) by {
        if i < a.len() {
            assert((a + b)[i] == a[i]);
        } else {
            assert((a + b)[i] == b[i - a.len()]);
        }
    }
}

/// Every glyph of the set is clean under the given options.
pub open spec fn spec_clean_draw(cfg: Config, d: Characters) -> bool {
    &&& spec_clean_char(cfg, d.hbar)
    &&& spec_clean_char(cfg, d.vbar)
    &&& spec_clean_char(cfg, d.xbar)
    &&& spec_clean_char(cfg, d.vbar_gap)
    &&& spec_clean_char(cfg, d.uarrow)
    &&& spec_clean_char(cfg, d.rarrow)
    &&& spec_clean_char(cfg, d.ltop)
    &&& spec_clean_char(cfg, d.mtop)
    &&& spec_clean_char(cfg, d.rtop)
    &&& spec_clean_char(cfg, d.lbot)
    &&& spec_clean_char(cfg, d.mbot)
    &&& spec_clean_char(cfg, d.rbot)
    &&& spec_clean_char(cfg, d.lbox)
    &&& spec_clean_char(cfg, d.rbox)
    &&& spec_clean_char(cfg, d.lcross)
    &&& spec_clean_char(cfg, d.rcross)
    &&& spec_clean_char(cfg, d.underbar)
    &&& spec_clean_char(cfg, d.underline)
}

/// Every character of every line of `a` occurs in `b`.
pub open spec fn chars_from(a: Seq<char>, b: Seq<char>) -> bool {
    forall|i: int| 0 <= i < a.len() ==> b.contains(#[trigger] a[i])
}

/// The index of the first line feed in `s`, or its length when it has
/// none.
pub open spec fn spec_first_nl(s: Seq<char>) -> int
    decreases s.len(),
{
    if s.len() == 0 {
        0
    } else if s[0] == '\n' {
        0
    } else {
        1 + spec_first_nl(s.drop_first())
    }
}

/// The first line of `s`: everything before its first line feed, with a
/// trailing carriage return removed.
pub open spec fn spec_first_line(s: Seq<char>) -> Seq<char> {
    let head = s.take(spec_first_nl(s));
    if spec_first_nl(s) < s.len() && head.len() > 0 && head.last() == '\r' {
        head.drop_last()
    } else {
        head
    }
}

/// The first line feed is within the text, nothing before it is a line
/// feed, and the character there (if any) is one.
pub proof fn lemma_first_nl(s: Seq<char>)
    ensures
        0 <= spec_first_nl(s) <= s.len(),
        forall|j: int| 0 <= j < spec_first_nl(s) ==> s[j] != '\n',
        spec_first_nl(s) < s.len() ==> s[spec_first_nl(s)] == '\n',
    decreases s.len(),
{
    if s.len() > 0 && s[0] != '\n' {
        lemma_first_nl(s.drop_first());
        assert forall|j: int| 0 <= j < spec_first_nl(s) implies s[j] != '\n' by {
            if j > 0 {
                assert(s.drop_first()[j - 1] == s[j]);
            }
        }
        if spec_first_nl(s) < s.len() {
            assert(s.drop_first()[spec_first_nl(s.drop_first())] == s[spec_first_nl(s)]);
        }
    }
}

/// `b` extends `a`: it begins with exactly the characters of `a`.
pub open spec fn spec_grew(a: Seq<char>, b: Seq<char>) -> bool {
    a.len() <= b.len() && forall|j: int| 0 <= j < a.len() ==> a[j] == #[trigger] b[j]
}

/// The needle occurs as a contiguous run somewhere in the haystack.
pub open spec fn contains_run(hay: Seq<char>, needle: Seq<char>) -> bool {
    exists|i: int|
        0 <= i && i + needle.len() <= hay.len() && #[trigger] hay.subrange(i, i + needle.len())
            == needle
}

/// A run stays where it is when the text grows at the end.
pub proof fn lemma_contains_run_grew(a: Seq<char>, b: Seq<char>, needle: Seq<char>)
    requires
        spec_grew(a, b),
        contains_run(a, needle),
    ensures
        contains_run(b, needle),
{
    let i = choose|i: int|
        0 <= i && i + needle.len() <= a.len() && #[trigger] a.subrange(i, i + needle.len())
            == needle;
    assert(b.subrange(i, i + needle.len()) =~= needle);
}

/// A middle piece of a contained run is itself contained.
pub proof fn lemma_contains_run_within(
    hay: Seq<char>,
    pre: Seq<char>,
    mid: Seq<char>,
    post: Seq<char>,
)
    requires
        contains_run(hay, pre + mid + post),
    ensures
        contains_run(hay, mid),
{
    let i = choose|i: int|
        0 <= i && i + (pre + mid + post).len() <= hay.len() && #[trigger] hay.subrange(
            i,
            i + (pre + mid + post).len(),
        ) == pre + mid + post;
    assert forall|k: int|
        0 <= k < mid.len() implies hay.subrange(
        (i + pre.len()) as int,
        (i + pre.len() + mid.len()) as int,
    )[k] == mid[k] by {
        assert(hay.subrange(i, i + (pre + mid + post).len())[pre.len() + k] == (pre + mid
            + post)[pre.len() + k]);
    }
    assert(hay.subrange((i + pre.len()) as int, (i + pre.len() + mid.len()) as int) =~= mid);
}

/// The message row tail a label contributes: a space, its message, and the
/// line feed.
pub open spec fn spec_message_row(l: ResolvedLabel) -> Seq<char> {
    seq![' '] + l.msg->0@ + seq!['\n']
}

/// The label is an inline label wholly contained in the given line.
pub open spec fn spec_inline_on_line(src: Source, l: ResolvedLabel, idx: int) -> bool {
    &&& 0 <= idx < src.spec_lines().len()
    &&& src.spec_lines()[idx].spec_offset() <= l.char_start
    &&& l.char_end <= src.spec_lines()[idx].spec_end()
}

/// The label's span ends on the given line without starting on it.
pub open spec fn spec_multi_end_on_line(src: Source, l: ResolvedLabel, idx: int) -> bool {
    &&& 0 <= idx < src.spec_lines().len()
    &&& src.spec_lines()[idx].spec_offset() <= spec_last_offset(l) < src.spec_lines()[
        idx].spec_end()
    &&& !(src.spec_lines()[idx].spec_offset() <= l.char_start < src.spec_lines()[idx].spec_end())
}

/// Every index in `v` points at a label of a group with `n` labels.
pub open spec fn idxs_ok(v: Seq<usize>, n: nat) -> bool {
    forall|k: int| 0 <= k < v.len() ==> (#[trigger] v[k]) < n
}

/// Every line label in `v` points at a label of a group with `n` labels.
pub open spec fn lls_ok(v: Seq<LineLabel>, n: nat) -> bool {
    forall|k: int| 0 <= k < v.len() ==> (#[trigger] v[k]).label < n
}

/// The margin label points at a label of a group with `n` labels.
pub open spec fn ml_ok(m: Option<LineLabel>, n: nat) -> bool {
    m matches Some(l) ==> l.label < n
}

/// Whether the margin label is the one with the given index.
pub(crate) fn is_margin(margin_label: &Option<LineLabel>, label: usize) -> (r: bool)
    ensures
        r == (margin_label matches Some(m) && m.label == label),
{
    match margin_label {
        Some(m) => m.label == label,
        None => false,
    }
}

/// The character length of a label's span.
pub open spec fn spec_span_len(l: ResolvedLabel) -> int {
    l.char_end - l.char_start
}

/// The character length of a label's span.
pub(crate) fn span_len(l: &ResolvedLabel) -> (r: usize)
    requires
        l.wf(),
    ensures
        r == spec_span_len(*l),
{
    l.char_end - l.char_start
}

/// The indices of the multi-line labels of the group, longest span first;
/// labels of equal length keep their relative order.
pub(crate) fn sorted_multi_labels(labels: &Vec<ResolvedLabel>) -> (r: Vec<usize>)
    requires
        forall|i: int| 0 <= i < labels@.len() ==> (#[trigger] labels@[i]).wf(),
    ensures
        idxs_ok(r@, labels@.len()),
        forall|x: int, y: int|
            0 <= x < y < r@.len() ==> spec_span_len(labels@[#[trigger] r@[x] as int])
                >= spec_span_len(labels@[#[trigger] r@[y] as int]),
{
    let mut v: Vec<usize> = Vec::new();
    let mut i: usize = 0;
    while i < labels.len()
        invariant
            idxs_ok(v@, labels@.len()),
            forall|k: int| 0 <= k < labels@.len() ==> (#[trigger] labels@[k]).wf(),
        decreases labels@.len() - i,
    {
        if labels[i].multiline {
            v.push(i);
        }
        i = i + 1;
    }
    // Insertion sort, keyed on descending span length.
    let ghost n0 = v@.len();
    let mut a: usize = 1;
    while a < v.len()
        invariant
            v@.len() == n0,
            idxs_ok(v@, labels@.len()),
            forall|k: int| 0 <= k < labels@.len() ==> (#[trigger] labels@[k]).wf(),
            forall|x: int, y: int|
                0 <= x < y < a && y < v@.len() ==> spec_span_len(
                    labels@[#[trigger] v@[x] as int],
                ) >= spec_span_len(labels@[#[trigger] v@[y] as int]),
        decreases v@.len() - a,
    {
        let mut b: usize = a;
        while b > 0 && span_len(&labels[v[b - 1]]) < span_len(&labels[v[b]])
            invariant
                v@.len() == n0,
                b <= a < v@.len(),
                idxs_ok(v@, labels@.len()),
                forall|k: int| 0 <= k < labels@.len() ==> (#[trigger] labels@[k]).wf(),
                forall|x: int, y: int|
                    0 <= x < y <= a && y != b ==> spec_span_len(labels@[#[trigger] v@[x] as int])
                        >= spec_span_len(labels@[#[trigger] v@[y] as int]),
                forall|y: int|
                    b < y <= a ==> spec_span_len(labels@[v@[b as int] as int]) >= spec_span_len(
                        labels@[(#[trigger] v@[y]) as int],
                    ),
            decreases b,
        {
            let x = v[b - 1];
            let y = v[b];
            v.set(b - 1, y);
            v.set(b, x);
            b = b - 1;
        }
        a = a + 1;
    }
    v
}

/// One planned output row of a group's line block.
pub enum RowPlan {
    /// A rendered source row; an ellipsis row stands for a stretch of
    /// unlabelled lines inside a multi-line span.
    Source {
        /// The line index.
        idx: usize,
        /// Whether the row is drawn as an ellipsis.
        ellipsis: bool,
    },
    /// A single blank margin row standing for a run of omitted lines.
    Gap {
        /// The first omitted line index.
        idx: usize,
    },
}

impl RowPlan {
    /// The line index the row stands for.
    pub open spec fn spec_idx(&self) -> usize {
        match self {
            RowPlan::Source { idx, .. } => *idx,
            RowPlan::Gap { idx } => *idx,
        }
    }
}

/// Chooses the rows of one group's line block. Every displayed source line
/// appears exactly once, and line indices are strictly increasing: a line
/// with labels is rendered, an unlabelled line inside a multi-line span
/// becomes an ellipsis row once per stretch, and other unlabelled lines are
/// left out after one gap row.
pub fn plan_display_rows(
    cfg: &Config,
    labels: &Vec<ResolvedLabel>,
    multi_all: &Vec<usize>,
    multi_msg: &Vec<usize>,
    src: &Source,
    line_start: usize,
    line_end: usize,
) -> (r: Vec<RowPlan>)
    requires
        idxs_ok(multi_all@, labels@.len()),
        idxs_ok(multi_msg@, labels@.len()),
        forall|i: int| 0 <= i < labels@.len() ==> (#[trigger] labels@[i]).wf(),
        forall|li: usize|
            li < labels@.len() && (#[trigger] labels@[li as int]).multiline && labels@[
                li as int].msg is Some ==> multi_msg@.contains(li),
        line_start <= line_end,
        line_end <= usize::MAX,
        src.spec_lines().len() == 0 ==> line_end <= 1,
        src.spec_lines().len() > 0 ==> line_end <= src.spec_lines().len(),
    ensures
        forall|i: int|
            0 <= i < r@.len() ==> line_start <= (#[trigger] r@[i]).spec_idx() < line_end,
        forall|i: int, j: int|
            0 <= i < j < r@.len() ==> (#[trigger] r@[i]).spec_idx() < (#[trigger] r@[j]).spec_idx(),
        forall|li: int|
            0 <= li < labels@.len() && !(#[trigger] labels@[li]).multiline && (exists|x: int|
                line_start <= x < line_end && #[trigger] spec_inline_on_line(
                    *src,
                    labels@[li],
                    x,
                )) ==> exists|k: int|
                0 <= k < r@.len() && (#[trigger] r@[k]) is Source && spec_inline_on_line(
                    *src,
                    labels@[li],
                    r@[k].spec_idx() as int,
                ),
        forall|li: int|
            0 <= li < labels@.len() && (#[trigger] labels@[li]).multiline && labels@[li].msg
                is Some && (exists|x: int|
                line_start <= x < line_end && #[trigger] spec_multi_end_on_line(
                    *src,
                    labels@[li],
                    x,
                )) ==> exists|k: int|
                0 <= k < r@.len() && (#[trigger] r@[k]) is Source && spec_multi_end_on_line(
                    *src,
                    labels@[li],
                    r@[k].spec_idx() as int,
                ),
{
    let nlabels = labels.len();
    let mut plan: Vec<RowPlan> = Vec::new();
    let mut is_ellipsis = false;
    let mut idx = line_start;
    while idx < line_end
        invariant
            nlabels == labels@.len(),
            idxs_ok(multi_all@, labels@.len()),
            idxs_ok(multi_msg@, labels@.len()),
            forall|i: int| 0 <= i < labels@.len() ==> (#[trigger] labels@[i]).wf(),
            forall|li: usize|
                li < labels@.len() && (#[trigger] labels@[li as int]).multiline && labels@[
                    li as int].msg is Some ==> multi_msg@.contains(li),
            line_start <= idx <= line_end,
            line_end <= usize::MAX,
            src.spec_lines().len() == 0 ==> line_end <= 1,
            src.spec_lines().len() > 0 ==> line_end <= src.spec_lines().len(),
            forall|i: int|
                0 <= i < plan@.len() ==> line_start <= (#[trigger] plan@[i]).spec_idx() < idx,
            forall|i: int, j: int|
                0 <= i < j < plan@.len() ==> (#[trigger] plan@[i]).spec_idx() < (
                #[trigger] plan@[j]).spec_idx(),
            forall|li: int|
                0 <= li < labels@.len() && !(#[trigger] labels@[li]).multiline && (exists|x: int|
                    line_start <= x < idx && #[trigger] spec_inline_on_line(
                        *src,
                        labels@[li],
                        x,
                    )) ==> exists|k: int|
                    0 <= k < plan@.len() && (#[trigger] plan@[k]) is Source && spec_inline_on_line(
                        *src,
                        labels@[li],
                        plan@[k].spec_idx() as int,
                    ),
            forall|li: int|
                0 <= li < labels@.len() && (#[trigger] labels@[li]).multiline && labels@[li].msg
                    is Some && (exists|x: int|
                    line_start <= x < idx && #[trigger] spec_multi_end_on_line(
                        *src,
                        labels@[li],
                        x,
                    )) ==> exists|k: int|
                    0 <= k < plan@.len() && (#[trigger] plan@[k]) is Source
                        && spec_multi_end_on_line(
                        *src,
                        labels@[li],
                        plan@[k].spec_idx() as int,
                    ),
        decreases line_end - idx,
    {
        let line: Line = match src.line(idx) {
            Some(l) => l,
            None => Line { offset: 0, char_len: 0, byte_offset: 0, byte_len: 0 },
        };
        proof {
            use_type_invariant(src);
            if idx < src.spec_lines().len() {
                crate::source::lemma_line_extent(src.spec_chars(), src.spec_lines(), idx as int);
            }
            assert(line.spec_end() <= usize::MAX);
        }
        let line_off = line.offset();
        let line_len = line.len();
        let line_span = (line_off, line_off + line_len);
        let margin_label = pick_margin_label(labels, multi_msg, line_span);
        let line_labels = build_line_labels(labels, multi_msg, &margin_label, line_span, cfg.label_attach);
        let ghost prev_plan = plan@;
        let mut pushed_source = false;
        if line_labels.len() == 0 && margin_label.is_none() {
            let mut within = false;
            let mut wi: usize = 0;
            while wi < multi_all.len()
                invariant
                    idxs_ok(multi_all@, labels@.len()),
                decreases multi_all@.len() - wi,
            {
                let li = multi_all[wi];
                if labels[li].char_start <= line_span.0 && line_span.0 < labels[li].char_end {
                    within = true;
                }
                wi = wi + 1;
            }
            if !is_ellipsis && within {
                is_ellipsis = true;
                plan.push(RowPlan::Source { idx, ellipsis: true });
                pushed_source = true;
            } else {
                if !is_ellipsis {
                    plan.push(RowPlan::Gap { idx });
                }
                is_ellipsis = true;
            }
        } else {
            is_ellipsis = false;
            plan.push(RowPlan::Source { idx, ellipsis: false });
            pushed_source = true;
        }
        proof {
            // No label sits on a line whose row was left out.
            if !pushed_source {
                assert forall|li: int|
                    0 <= li < labels@.len() implies !(!labels@[li].multiline
                    && spec_inline_on_line(*src, labels@[li], idx as int)) && !(
                labels@[li].multiline && labels@[li].msg is Some && spec_multi_end_on_line(
                    *src,
                    labels@[li],
                    idx as int,
                )) by {
                    if !labels@[li].multiline && spec_inline_on_line(*src, labels@[li], idx as int) {
                        assert(line == src.spec_lines()[idx as int]);
                        assert(exists|k: int|
                            0 <= k < line_labels@.len() && (#[trigger] line_labels@[k]).label == li
                                && line_labels@[k].draw_msg && !line_labels@[k].multi);
                    }
                    if labels@[li].multiline && labels@[li].msg is Some && spec_multi_end_on_line(
                        *src,
                        labels@[li],
                        idx as int,
                    ) {
                        assert(line == src.spec_lines()[idx as int]);
                        assert(li < nlabels);
                        assert((li as usize) as int == li);
                        assert(labels@[(li as usize) as int].multiline && labels@[(
                        li as usize) as int].msg is Some);
                        assert(multi_msg@.contains(li as usize));
                        let q = choose|q: int|
                            0 <= q < multi_msg@.len() && multi_msg@[q] == li as usize;
                        assert(exists|k: int|
                            0 <= k < line_labels@.len() && (#[trigger] line_labels@[k]).label
                                == multi_msg@[q] && line_labels@[k].draw_msg);
                    }
                }
            }
            // Earlier coverage survives the push, and this line's labels are
            // covered by the new row.
            assert forall|li: int|
                0 <= li < labels@.len() && !(#[trigger] labels@[li]).multiline && (exists|x: int|
                    line_start <= x < idx + 1 && #[trigger] spec_inline_on_line(
                        *src,
                        labels@[li],
                        x,
                    )) implies exists|k: int|
                    0 <= k < plan@.len() && (#[trigger] plan@[k]) is Source && spec_inline_on_line(
                        *src,
                        labels@[li],
                        plan@[k].spec_idx() as int,
                    ) by {
                let x = choose|x: int|
                    line_start <= x < idx + 1 && #[trigger] spec_inline_on_line(
                        *src,
                        labels@[li],
                        x,
                    );
                if x < idx {
                    let k = choose|k: int|
                        0 <= k < prev_plan.len() && (#[trigger] prev_plan[k]) is Source
                            && spec_inline_on_line(
                            *src,
                            labels@[li],
                            prev_plan[k].spec_idx() as int,
                        );
                    assert(plan@[k] == prev_plan[k]);
                } else {
                    assert(pushed_source);
                    assert(plan@[plan@.len() - 1] is Source && plan@[plan@.len()
                        - 1].spec_idx() == idx);
                }
            }
            assert forall|li: int|
                0 <= li < labels@.len() && (#[trigger] labels@[li]).multiline && labels@[li].msg
                    is Some && (exists|x: int|
                    line_start <= x < idx + 1 && #[trigger] spec_multi_end_on_line(
                        *src,
                        labels@[li],
                        x,
                    )) implies exists|k: int|
                    0 <= k < plan@.len() && (#[trigger] plan@[k]) is Source
                        && spec_multi_end_on_line(
                        *src,
                        labels@[li],
                        plan@[k].spec_idx() as int,
                    ) by {
                let x = choose|x: int|
                    line_start <= x < idx + 1 && #[trigger] spec_multi_end_on_line(
                        *src,
                        labels@[li],
                        x,
                    );
                if x < idx {
                    let k = choose|k: int|
                        0 <= k < prev_plan.len() && (#[trigger] prev_plan[k]) is Source
                            && spec_multi_end_on_line(
                            *src,
                            labels@[li],
                            prev_plan[k].spec_idx() as int,
                        );
                    assert(plan@[k] == prev_plan[k]);
                } else {
                    assert(pushed_source);
                    assert(plan@[plan@.len() - 1] is Source && plan@[plan@.len()
                        - 1].spec_idx() == idx);
                }
            }
        }
        idx = idx + 1;
    }
    plan
}

/// Whether a multi-line label's extent covers the given line.
pub open spec fn spec_alive_on(l: ResolvedLabel, line: int) -> bool {
    l.multiline && l.start_line <= line <= l.end_line
}

/// How many of the gutter labels (given by their positions in `ms`) are
/// alive on the given line.
pub open spec fn spec_gutter_alive(labels: Seq<ResolvedLabel>, ms: Seq<usize>, line: int) -> nat
    decreases ms.len(),
{
    if ms.len() == 0 {
        0
    } else {
        spec_gutter_alive(labels, ms.drop_last(), line) + if spec_alive_on(
            labels[ms.last() as int],
            line,
        ) {
            1nat
        } else {
            0nat
        }
    }
}

/// A line with a positive count has an alive gutter label.
proof fn lemma_alive_exists(labels: Seq<ResolvedLabel>, ms: Seq<usize>, line: int)
    requires
        spec_gutter_alive(labels, ms, line) > 0,
    ensures
        exists|q: int|
            0 <= q < ms.len() && spec_alive_on(labels[#[trigger] ms[q] as int], line),
    decreases ms.len(),
{
    if spec_alive_on(labels[ms.last() as int], line) {
        assert(spec_alive_on(labels[ms[ms.len() - 1] as int], line));
    } else {
        lemma_alive_exists(labels, ms.drop_last(), line);
        let q = choose|q: int|
            0 <= q < ms.drop_last().len() && spec_alive_on(
                labels[#[trigger] ms.drop_last()[q] as int],
                line,
            );
        assert(spec_alive_on(labels[ms[q] as int], line));
    }
}

/// Aliveness that holds pointwise on one line also bounds the counts.
proof fn lemma_alive_monotone(labels: Seq<ResolvedLabel>, ms: Seq<usize>, l1: int, l2: int)
    requires
        forall|q: int|
            0 <= q < ms.len() && spec_alive_on(labels[#[trigger] ms[q] as int], l1)
                ==> spec_alive_on(labels[ms[q] as int], l2),
    ensures
        spec_gutter_alive(labels, ms, l1) <= spec_gutter_alive(labels, ms, l2),
    decreases ms.len(),
{
    if ms.len() > 0 {
        assert(forall|q: int|
            0 <= q < ms.drop_last().len() && spec_alive_on(
                labels[#[trigger] ms.drop_last()[q] as int],
                l1,
            ) ==> spec_alive_on(labels[ms.drop_last()[q] as int], l2)) by {
            assert(forall|q: int|
                0 <= q < ms.len() - 1 ==> ms.drop_last()[q] == #[trigger] ms[q]);
        }
        lemma_alive_monotone(labels, ms.drop_last(), l1, l2);
        if spec_alive_on(labels[ms.last() as int], l1) {
            assert(spec_alive_on(labels[ms[ms.len() - 1] as int], l1));
        }
    }
}

/// Among the gutter labels alive on a line there is one whose start line is
/// the latest.
#[verifier::rlimit(100)]
proof fn lemma_alive_max_start(labels: Seq<ResolvedLabel>, ms: Seq<usize>, line: int)
    requires
        exists|q: int| 0 <= q < ms.len() && spec_alive_on(labels[#[trigger] ms[q] as int], line),
    ensures
        exists|q: int|
            0 <= q < ms.len() && spec_alive_on(labels[#[trigger] ms[q] as int], line) && (forall|
                p: int,
            |
                0 <= p < ms.len() && spec_alive_on(labels[#[trigger] ms[p] as int], line)
                    ==> labels[ms[p] as int].start_line <= labels[ms[q] as int].start_line),
    decreases ms.len(),
{
    let w = choose|q: int|
        0 <= q < ms.len() && spec_alive_on(labels[#[trigger] ms[q] as int], line);
    if ms.len() == 1 {
        assert(spec_alive_on(labels[ms[0] as int], line));
    } else {
        let sub = ms.drop_last();
        assert(forall|q: int| 0 <= q < sub.len() ==> #[trigger] sub[q] == ms[q]);
        if exists|q: int| 0 <= q < sub.len() && spec_alive_on(labels[#[trigger] sub[q] as int], line) {
            lemma_alive_max_start(labels, sub, line);
            let q0 = choose|q: int|
                0 <= q < sub.len() && spec_alive_on(labels[#[trigger] sub[q] as int], line) && (
                forall|p: int|
                    0 <= p < sub.len() && spec_alive_on(labels[#[trigger] sub[p] as int], line)
                        ==> labels[sub[p] as int].start_line <= labels[sub[q] as int].start_line);
            if spec_alive_on(labels[ms.last() as int], line) && labels[ms[ms.len()
                - 1] as int].start_line > labels[ms[q0] as int].start_line {
                let q1 = ms.len() - 1;
                assert(ms[q1] == ms.last());
                assert(spec_alive_on(labels[ms[q1] as int], line));
                assert forall|p: int|
                    0 <= p < ms.len() && spec_alive_on(labels[#[trigger] ms[p] as int], line)
                        implies labels[ms[p] as int].start_line <= labels[ms[q1] as int].start_line by {
                    if p < ms.len() - 1 {
                        assert(sub[p] == ms[p]);
                        assert(spec_alive_on(labels[sub[p] as int], line));
                        assert(labels[sub[p] as int].start_line <= labels[sub[q0] as int].start_line);
                    }
                }
                assert(0 <= q1 < ms.len() && spec_alive_on(labels[ms[q1] as int], line) && (
                forall|p: int|
                    0 <= p < ms.len() && spec_alive_on(labels[#[trigger] ms[p] as int], line)
                        ==> labels[ms[p] as int].start_line <= labels[ms[q1] as int].start_line));
            } else {
                assert(sub[q0] == ms[q0]);
                assert(spec_alive_on(labels[ms[q0] as int], line));
                assert forall|p: int|
                    0 <= p < ms.len() && spec_alive_on(labels[#[trigger] ms[p] as int], line)
                        implies labels[ms[p] as int].start_line <= labels[ms[q0] as int].start_line by {
                    if p < ms.len() - 1 {
                        assert(sub[p] == ms[p]);
                        assert(spec_alive_on(labels[sub[p] as int], line));
                        assert(labels[sub[p] as int].start_line <= labels[sub[q0] as int].start_line);
                    } else {
                        assert(ms[p] == ms.last());
                    }
                }
                assert(0 <= q0 < ms.len() && spec_alive_on(labels[ms[q0] as int], line) && (
                forall|p: int|
                    0 <= p < ms.len() && spec_alive_on(labels[#[trigger] ms[p] as int], line)
                        ==> labels[ms[p] as int].start_line <= labels[ms[q0] as int].start_line));
            }
        } else {
            assert(w == ms.len() - 1) by {
                if w < ms.len() - 1 {
                    assert(sub[w] == ms[w]);
                    assert(spec_alive_on(labels[sub[w] as int], line));
                }
            }
            let q1 = ms.len() - 1;
            assert(spec_alive_on(labels[ms[q1] as int], line));
            assert forall|p: int|
                0 <= p < ms.len() && spec_alive_on(labels[#[trigger] ms[p] as int], line)
                    implies labels[ms[p] as int].start_line <= labels[ms[q1] as int].start_line by {
                if p < ms.len() - 1 {
                    assert(sub[p] == ms[p]);
                    assert(spec_alive_on(labels[sub[p] as int], line));
                }
            }
            assert(0 <= q1 < ms.len() && spec_alive_on(labels[ms[q1] as int], line) && (forall|
                p: int,
            |
                0 <= p < ms.len() && spec_alive_on(labels[#[trigger] ms[p] as int], line)
                    ==> labels[ms[p] as int].start_line <= labels[ms[q1] as int].start_line));
        }
    }
}

/// Distinct gutter positions alive on one line bound the count from below.
proof fn lemma_alive_count_ge_witnesses(
    labels: Seq<ResolvedLabel>,
    ms: Seq<usize>,
    line: int,
    ws: Seq<int>,
)
    requires
        forall|a: int, b: int| 0 <= a < b < ws.len() ==> ws[a] != ws[b],
        forall|a: int|
            0 <= a < ws.len() ==> 0 <= #[trigger] ws[a] < ms.len() && spec_alive_on(
                labels[ms[ws[a]] as int],
                line,
            ),
    ensures
        spec_gutter_alive(labels, ms, line) >= ws.len(),
    decreases ms.len(),
{
    if ms.len() == 0 {
        if ws.len() > 0 {
            assert(0 <= ws[0] < ms.len());
            assert(false);
        }
    } else {
        let sub = ms.drop_last();
        assert(forall|q: int| 0 <= q < sub.len() ==> #[trigger] sub[q] == ms[q]);
        if exists|a: int| 0 <= a < ws.len() && ws[a] == ms.len() - 1 {
            let a = choose|a: int| 0 <= a < ws.len() && #[trigger] ws[a] == ms.len() - 1;
            let ws2 = ws.subrange(0, a) + ws.subrange(a + 1, ws.len() as int);
            assert forall|x: int|
                0 <= x < ws2.len() implies #[trigger] ws2[x] == (if x < a {
                ws[x]
            } else {
                ws[x + 1]
            }) by {
                if x < a {
                    assert(ws2[x] == ws.subrange(0, a)[x]);
                } else {
                    assert(ws2[x] == ws.subrange(a + 1, ws.len() as int)[x - a]);
                }
            }
            assert forall|x: int, y: int| 0 <= x < y < ws2.len() implies ws2[x] != ws2[y] by {
                assert(ws2[x] == if x < a {
                    ws[x]
                } else {
                    ws[x + 1]
                });
                assert(ws2[y] == if y < a {
                    ws[y]
                } else {
                    ws[y + 1]
                });
            }
            assert forall|x: int|
                0 <= x < ws2.len() implies 0 <= #[trigger] ws2[x] < sub.len() && spec_alive_on(
                labels[sub[ws2[x]] as int],
                line,
            ) by {
                assert(ws2[x] == if x < a {
                    ws[x]
                } else {
                    ws[x + 1]
                });
                assert(ws2[x] != ms.len() - 1);
                assert(sub[ws2[x]] == ms[ws2[x]]);
            }
            lemma_alive_count_ge_witnesses(labels, sub, line, ws2);
            assert(spec_alive_on(labels[ms[ws[a]] as int], line));
        } else {
            assert forall|x: int|
                0 <= x < ws.len() implies 0 <= #[trigger] ws[x] < sub.len() && spec_alive_on(
                labels[sub[ws[x]] as int],
                line,
            ) by {
                assert(ws[x] != ms.len() - 1);
            }
            lemma_alive_count_ge_witnesses(labels, sub, line, ws);
        }
    }
}

/// Counts the gutter labels alive on the given line.
pub(crate) fn count_alive(
    labels: &Vec<ResolvedLabel>,
    ms: &Vec<usize>,
    line: usize,
) -> (c: usize)
    requires
        idxs_ok(ms@, labels@.len()),
    ensures
        c == spec_gutter_alive(labels@, ms@, line as int),
        c <= ms@.len(),
{
    let mut c: usize = 0;
    let mut q: usize = 0;
    while q < ms.len()
        invariant
            idxs_ok(ms@, labels@.len()),
            q <= ms@.len(),
            c <= q,
            c == spec_gutter_alive(labels@, ms@.take(q as int), line as int),
        decreases ms@.len() - q,
    {
        proof {
            assert(ms@.take(q + 1).drop_last() =~= ms@.take(q as int));
            assert(ms@.take(q + 1).last() == ms@[q as int]);
        }
        let li = ms[q];
        if labels[li].multiline && labels[li].start_line <= line && line <= labels[li].end_line {
            c = c + 1;
        }
        q = q + 1;
    }
    proof {
        assert(ms@.take(ms@.len() as int) =~= ms@);
    }
    c
}

/// The number of gutter columns: the greatest number of gutter labels alive
/// on any one line — never more, never less. Each multi-line label with a
/// message is alive from its start line through its end line.
pub fn gutter_width(labels: &Vec<ResolvedLabel>, ms: &Vec<usize>) -> (width: usize)
    requires
        idxs_ok(ms@, labels@.len()),
        forall|i: int| 0 <= i < labels@.len() ==> (#[trigger] labels@[i]).wf(),
    ensures
        forall|line: int| #[trigger] spec_gutter_alive(labels@, ms@, line) <= width,
        ms@.len() > 0 ==> exists|line: int|
            #[trigger] spec_gutter_alive(labels@, ms@, line) == width,
        ms@.len() == 0 ==> width == 0,
        width <= ms@.len(),
{
    let mut width: usize = 0;
    let ghost mut wit: int = 0int;
    let mut q: usize = 0;
    while q < ms.len()
        invariant
            idxs_ok(ms@, labels@.len()),
            q <= ms@.len(),
            width <= ms@.len(),
            forall|p: int|
                0 <= p < q ==> spec_gutter_alive(
                    labels@,
                    ms@,
                    labels@[#[trigger] ms@[p] as int].start_line as int,
                ) <= width,
            q > 0 && width > 0 ==> spec_gutter_alive(labels@, ms@, wit) == width,
            q == 0 ==> width == 0,
            width == 0 ==> forall|p: int|
                0 <= p < q ==> spec_gutter_alive(
                    labels@,
                    ms@,
                    labels@[#[trigger] ms@[p] as int].start_line as int,
                ) == 0,
        decreases ms@.len() - q,
    {
        let li = ms[q];
        let c = count_alive(labels, ms, labels[li].start_line);
        if c > width {
            width = c;
            proof {
                wit = labels@[ms@[q as int] as int].start_line as int;
            }
        }
        q = q + 1;
    }
    proof {
        assert forall|line: int| #[trigger] spec_gutter_alive(labels@, ms@, line)
            <= width by {
            if spec_gutter_alive(labels@, ms@, line) > 0 {
                lemma_alive_exists(labels@, ms@, line);
                lemma_alive_max_start(labels@, ms@, line);
                let q = choose|q: int|
                    0 <= q < ms@.len() && spec_alive_on(labels@[#[trigger] ms@[q] as int], line)
                        && (forall|p: int|
                        0 <= p < ms@.len() && spec_alive_on(
                            labels@[#[trigger] ms@[p] as int],
                            line,
                        ) ==> labels@[ms@[p] as int].start_line <= labels@[ms@[q] as int].start_line);
                let start_q = labels@[ms@[q] as int].start_line as int;
                assert forall|p: int|
                    0 <= p < ms@.len() && spec_alive_on(labels@[#[trigger] ms@[p] as int], line)
                        implies spec_alive_on(labels@[ms@[p] as int], start_q) by {
                    assert(labels@[ms@[p] as int].start_line <= start_q);
                    assert(start_q <= line <= labels@[ms@[p] as int].end_line);
                }
                lemma_alive_monotone(labels@, ms@, line, start_q);
            }
        }
        if ms@.len() > 0 {
            if width > 0 {
                assert(spec_gutter_alive(labels@, ms@, wit) == width);
            } else {
                assert(spec_gutter_alive(
                    labels@,
                    ms@,
                    labels@[ms@[0] as int].start_line as int,
                ) == 0);
            }
        }
    }
    width
}

/// How many of the labels get a gutter column: the multi-line ones that
/// carry a message.
pub open spec fn spec_gutter_count(ls: Seq<ResolvedLabel>) -> nat
    decreases ls.len(),
{
    if ls.len() == 0 {
        0
    } else {
        spec_gutter_count(ls.drop_last()) + if ls.last().multiline && ls.last().msg is Some {
            1nat
        } else {
            0nat
        }
    }
}

/// The indices of the labels that occupy gutter columns — the multi-line
/// labels with messages — longest span first, labels of equal length in
/// their given order. The renderer draws exactly one gutter column per
/// entry.
pub fn gutter_labels(labels: &Vec<ResolvedLabel>) -> (r: Vec<usize>)
    requires
        forall|i: int| 0 <= i < labels@.len() ==> (#[trigger] labels@[i]).wf(),
    ensures
        idxs_ok(r@, labels@.len()),
        r@.len() == spec_gutter_count(labels@),
        forall|k: int|
            0 <= k < r@.len() ==> labels@[#[trigger] r@[k] as int].multiline && labels@[r@[k] as int].msg is Some,
        forall|li: usize|
            li < labels@.len() && (#[trigger] labels@[li as int]).multiline && labels@[
                li as int].msg is Some ==> r@.contains(li),
        forall|x: int, y: int|
            0 <= x < y < r@.len() ==> spec_span_len(labels@[#[trigger] r@[x] as int])
                >= spec_span_len(labels@[#[trigger] r@[y] as int]),
{
    let mut v: Vec<usize> = Vec::new();
    let mut i: usize = 0;
    while i < labels.len()
        invariant
            i <= labels@.len(),
            idxs_ok(v@, labels@.len()),
            v@.len() == spec_gutter_count(labels@.take(i as int)),
            forall|k: int|
                0 <= k < v@.len() ==> labels@[#[trigger] v@[k] as int].multiline && labels@[v@[k] as int].msg is Some,
            forall|li: usize|
                li < i && (#[trigger] labels@[li as int]).multiline && labels@[li as int].msg
                    is Some ==> v@.contains(li),
            forall|k: int| 0 <= k < labels@.len() ==> (#[trigger] labels@[k]).wf(),
        decreases labels@.len() - i,
    {
        proof {
            assert(labels@.take(i + 1).drop_last() =~= labels@.take(i as int));
            assert(labels@.take(i + 1).last() == labels@[i as int]);
        }
        if labels[i].multiline && labels[i].msg.is_some() {
            let ghost prev = v@;
            v.push(i);
            proof {
                assert(v@[v@.len() - 1] == i);
                assert forall|li: usize|
                    li < i + 1 && (#[trigger] labels@[li as int]).multiline && labels@[
                    li as int].msg is Some implies v@.contains(li) by {
                    if li < i {
                        assert(prev.contains(li));
                        let k = choose|k: int| 0 <= k < prev.len() && prev[k] == li;
                        assert(v@[k] == li);
                    } else {
                        assert(v@[v@.len() - 1] == li);
                    }
                }
            }
        } else {
            proof {
                assert forall|li: usize|
                    li < i + 1 && (#[trigger] labels@[li as int]).multiline && labels@[
                    li as int].msg is Some implies v@.contains(li) by {
                    assert(li < i || li == i);
                }
            }
        }
        i = i + 1;
    }
    proof {
        assert(labels@.take(labels@.len() as int) =~= labels@);
    }
    // Insertion sort, keyed on descending span length; stable, so equal
    // lengths keep their order.
    let ghost n0 = v@.len();
    let ghost kept = v@;
    let mut a: usize = 1;
    while a < v.len()
        invariant
            v@.len() == n0,
            idxs_ok(v@, labels@.len()),
            forall|k: int|
                0 <= k < v@.len() ==> labels@[#[trigger] v@[k] as int].multiline && labels@[v@[k] as int].msg is Some,
            forall|li: usize| kept.contains(li) ==> v@.contains(li),
            forall|k: int| 0 <= k < labels@.len() ==> (#[trigger] labels@[k]).wf(),
            forall|x: int, y: int|
                0 <= x < y < a && y < v@.len() ==> spec_span_len(
                    labels@[#[trigger] v@[x] as int],
                ) >= spec_span_len(labels@[#[trigger] v@[y] as int]),
        decreases v@.len() - a,
    {
        let mut b: usize = a;
        while b > 0 && span_len(&labels[v[b - 1]]) < span_len(&labels[v[b]])
            invariant
                v@.len() == n0,
                b <= a < v@.len(),
                idxs_ok(v@, labels@.len()),
                forall|k: int|
                    0 <= k < v@.len() ==> labels@[#[trigger] v@[k] as int].multiline && labels@[v@[k] as int].msg is Some,
                forall|li: usize| kept.contains(li) ==> v@.contains(li),
                forall|k: int| 0 <= k < labels@.len() ==> (#[trigger] labels@[k]).wf(),
                forall|x: int, y: int|
                    0 <= x < y <= a && y != b ==> spec_span_len(labels@[#[trigger] v@[x] as int])
                        >= spec_span_len(labels@[#[trigger] v@[y] as int]),
                forall|y: int|
                    b < y <= a ==> spec_span_len(labels@[v@[b as int] as int]) >= spec_span_len(
                        labels@[(#[trigger] v@[y]) as int],
                    ),
            decreases b,
        {
            let ghost before = v@;
            let x = v[b - 1];
            let y = v[b];
            v.set(b - 1, y);
            v.set(b, x);
            proof {
                assert forall|li: usize| kept.contains(li) implies v@.contains(li) by {
                    let k1 = choose|k1: int| 0 <= k1 < before.len() && before[k1] == li;
                    if k1 == b - 1 {
                        assert(v@[b as int] == li);
                    } else if k1 == b {
                        assert(v@[b - 1] == li);
                    } else {
                        assert(v@[k1] == li);
                    }
                }
            }
            b = b - 1;
        }
        a = a + 1;
    }
    v
}

/// Whether the line extents of two labels share a line.
pub open spec fn spec_extents_overlap(a: ResolvedLabel, b: ResolvedLabel) -> bool {
    a.start_line <= b.end_line && b.start_line <= a.end_line
}

/// The gutter column of each gutter label, assigned as the lines are walked
/// downward: a label takes the smallest column not occupied by a label
/// still alive on its start line, and frees it after its end line. Labels
/// whose extents share a line always sit in different columns, and every
/// column is below the gutter width.
#[verifier::rlimit(100)]
pub fn assign_gutter_slots(
    labels: &Vec<ResolvedLabel>,
    ms: &Vec<usize>,
    width: usize,
) -> (slots: Vec<usize>)
    requires
        idxs_ok(ms@, labels@.len()),
        forall|i: int| 0 <= i < labels@.len() ==> (#[trigger] labels@[i]).wf(),
        forall|k: int| 0 <= k < ms@.len() ==> labels@[#[trigger] ms@[k] as int].multiline,
        forall|line: int| #[trigger] spec_gutter_alive(labels@, ms@, line) <= width,
    ensures
        slots@.len() == ms@.len(),
        forall|q: int| 0 <= q < slots@.len() ==> (#[trigger] slots@[q]) < width,
        forall|q1: int, q2: int|
            0 <= q1 < ms@.len() && 0 <= q2 < ms@.len() && q1 != q2 && spec_extents_overlap(
                labels@[ms@[q1] as int],
                labels@[ms@[q2] as int],
            ) ==> slots@[q1] != slots@[q2],
{
    let n = ms.len();
    // Process the labels in order of their start lines; equal starts keep
    // their gutter order.
    let mut ord: Vec<usize> = Vec::new();
    let mut v0: usize = 0;
    while v0 < n
        invariant
            ord@.len() == v0,
            v0 <= n,
            forall|k: int| 0 <= k < ord@.len() ==> (#[trigger] ord@[k]) == k,
        decreases n - v0,
    {
        ord.push(v0);
        v0 = v0 + 1;
    }
    proof {
        assert(forall|k1: int, k2: int|
            #![trigger ord@[k1], ord@[k2]]
            0 <= k1 < k2 < ord@.len() ==> ord@[k1] != ord@[k2]);
        assert forall|j: usize| j < n implies ord@.contains(j) by {
            assert(ord@[j as int] == j);
        }
    }
    let ghost n0 = ord@.len();
    let mut a: usize = 1;
    while a < ord.len()
        invariant
            ord@.len() == n0,
            n0 == n,
            n == ms@.len(),
            idxs_ok(ms@, labels@.len()),
            forall|k: int| 0 <= k < ord@.len() ==> (#[trigger] ord@[k]) < n,
            forall|k1: int, k2: int|
                #![trigger ord@[k1], ord@[k2]]
                0 <= k1 < k2 < ord@.len() ==> ord@[k1] != ord@[k2],
            forall|j: usize| j < n ==> ord@.contains(j),
            forall|k1: int, k2: int|
                0 <= k1 < k2 < a && k2 < ord@.len()
                    ==> labels@[ms@[#[trigger] ord@[k1] as int] as int].start_line <= labels@[ms@[
                    #[trigger] ord@[k2] as int] as int].start_line,
        decreases ord@.len() - a,
    {
        let mut b: usize = a;
        while b > 0 && labels[ms[ord[b]]].start_line < labels[ms[ord[b - 1]]].start_line
            invariant
                b <= a < ord@.len(),
                ord@.len() == n0,
                n0 == n,
                n == ms@.len(),
                idxs_ok(ms@, labels@.len()),
                forall|k: int| 0 <= k < ord@.len() ==> (#[trigger] ord@[k]) < n,
                forall|k1: int, k2: int|
                    #![trigger ord@[k1], ord@[k2]]
                    0 <= k1 < k2 < ord@.len() ==> ord@[k1] != ord@[k2],
                forall|j: usize| j < n ==> ord@.contains(j),
                forall|k1: int, k2: int|
                    0 <= k1 < k2 <= a && k2 < ord@.len() && k2 != b
                        ==> labels@[ms@[#[trigger] ord@[k1] as int] as int].start_line <= labels@[
                        ms@[#[trigger] ord@[k2] as int] as int].start_line,
                forall|k2: int|
                    b < k2 <= a ==> labels@[ms@[ord@[b as int] as int] as int].start_line
                        <= labels@[ms@[(#[trigger] ord@[k2]) as int] as int].start_line,
            decreases b,
        {
            let ghost before = ord@;
            let x = ord[b - 1];
            let y = ord[b];
            ord.set(b - 1, y);
            ord.set(b, x);
            proof {
                assert forall|j: usize| j < n implies ord@.contains(j) by {
                    assert(before.contains(j));
                    let k1 = choose|k1: int| 0 <= k1 < before.len() && before[k1] == j;
                    if k1 == b - 1 {
                        assert(ord@[b as int] == j);
                    } else if k1 == b {
                        assert(ord@[b - 1] == j);
                    } else {
                        assert(ord@[k1] == j);
                    }
                }
            }
            b = b - 1;
        }
        a = a + 1;
    }
    // Assign columns in that order.
    let mut slots: Vec<usize> = Vec::new();
    let mut v1: usize = 0;
    while v1 < n
        invariant
            slots@.len() == v1,
            v1 <= n,
        decreases n - v1,
    {
        slots.push(0);
        v1 = v1 + 1;
    }
    let mut done: Vec<bool> = Vec::new();
    let mut v2: usize = 0;
    while v2 < n
        invariant
            done@.len() == v2,
            v2 <= n,
            forall|j: int| 0 <= j < done@.len() ==> !(#[trigger] done@[j]),
        decreases n - v2,
    {
        done.push(false);
        v2 = v2 + 1;
    }
    let mut k: usize = 0;
    while k < n
        invariant
            n == ms@.len(),
            n == ord@.len(),
            slots@.len() == n,
            done@.len() == n,
            k <= n,
            idxs_ok(ms@, labels@.len()),
            forall|i: int| 0 <= i < labels@.len() ==> (#[trigger] labels@[i]).wf(),
            forall|p: int| 0 <= p < ms@.len() ==> labels@[#[trigger] ms@[p] as int].multiline,
            forall|line: int| #[trigger] spec_gutter_alive(labels@, ms@, line) <= width,
            forall|q: int| 0 <= q < ord@.len() ==> (#[trigger] ord@[q]) < n,
            forall|k1: int, k2: int|
                #![trigger ord@[k1], ord@[k2]]
                0 <= k1 < k2 < ord@.len() ==> ord@[k1] != ord@[k2],
            forall|j: usize| j < n ==> ord@.contains(j),
            forall|k1: int, k2: int|
                0 <= k1 < k2 < ord@.len()
                    ==> labels@[ms@[#[trigger] ord@[k1] as int] as int].start_line <= labels@[ms@[
                    #[trigger] ord@[k2] as int] as int].start_line,
            forall|j: int|
                0 <= j < n ==> ((#[trigger] done@[j]) <==> exists|k1: int|
                    0 <= k1 < k && ord@[k1] == j),
            forall|j: int| 0 <= j < n && done@[j] ==> (#[trigger] slots@[j]) < width,
            forall|j1: int, j2: int|
                #![trigger slots@[j1], slots@[j2]]
                0 <= j1 < n && 0 <= j2 < n && j1 != j2 && done@[j1] && done@[j2]
                    && spec_extents_overlap(
                    labels@[ms@[j1] as int],
                    labels@[ms@[j2] as int],
                ) ==> slots@[j1] != slots@[j2],
        decreases n - k,
    {
        let i = ord[k];
        let start_i = labels[ms[i]].start_line;
        proof {
            if done@[i as int] {
                let k1 = choose|k1: int| 0 <= k1 < k && ord@[k1] == i as int;
                assert(ord@[k1] == ord@[k as int]);
                assert(false);
            }
        }
        let mut s: usize = 0;
        let mut chosen = width;
        let ghost mut holders: Seq<int> = Seq::empty();
        while s < width && chosen == width
            invariant
                n == ms@.len(),
                slots@.len() == n,
                done@.len() == n,
                i < n,
                k < n,
                i == ord@[k as int],
                !done@[i as int],
                start_i == labels@[ms@[i as int] as int].start_line,
                idxs_ok(ms@, labels@.len()),
                forall|p: int| 0 <= p < ms@.len() ==> labels@[#[trigger] ms@[p] as int].multiline,
                s <= width,
                chosen == width || (chosen < width && (forall|j: int|
                    0 <= j < n && done@[j] && (#[trigger] slots@[j]) == chosen ==> !(labels@[ms@[
                    j] as int].start_line <= start_i <= labels@[ms@[j] as int].end_line))),
                chosen == width ==> holders.len() == s,
                forall|t: int|
                    0 <= t < holders.len() ==> 0 <= #[trigger] holders[t] < n && done@[holders[t]]
                        && slots@[holders[t]] == t && labels@[ms@[holders[t]] as int].start_line
                        <= start_i <= labels@[ms@[holders[t]] as int].end_line,
            decreases width - s,
        {
            let mut occupied = false;
            let mut j: usize = 0;
            let ghost mut holder: int = 0int;
            while j < n
                invariant
                    n == ms@.len(),
                    slots@.len() == n,
                    done@.len() == n,
                    j <= n,
                    start_i == labels@[ms@[i as int] as int].start_line,
                    i < n,
                    idxs_ok(ms@, labels@.len()),
                    occupied ==> 0 <= holder < n && done@[holder] && slots@[holder] == s as int
                        && labels@[ms@[holder] as int].start_line <= start_i <= labels@[ms@[
                        holder] as int].end_line,
                    !occupied ==> forall|j2: int|
                        0 <= j2 < j && done@[j2] && (#[trigger] slots@[j2]) == s ==> !(labels@[
                        ms@[j2] as int].start_line <= start_i <= labels@[ms@[j2] as int].end_line),
                decreases n - j,
            {
                if done[j] && slots[j] == s && labels[ms[j]].start_line <= start_i && start_i
                    <= labels[ms[j]].end_line {
                    occupied = true;
                    proof {
                        holder = j as int;
                    }
                }
                j = j + 1;
            }
            if !occupied {
                chosen = s;
            } else {
                proof {
                    holders = holders.push(holder);
                }
            }
            s = s + 1;
        }
        if chosen == width {
            // Impossible: the holders of every column, together with this
            // label, put more labels on this start line than any line can
            // carry.
            proof {
                let ws = holders.push(i as int);
                assert forall|x: int, y: int| 0 <= x < y < ws.len() implies ws[x] != ws[y] by {
                    if y < holders.len() {
                        assert(slots@[holders[x]] == x && slots@[holders[y]] == y);
                    } else {
                        assert(ws[y] == i as int);
                        if x < holders.len() {
                            assert(done@[holders[x]] && !done@[i as int]);
                        }
                    }
                }
                assert forall|x: int|
                    0 <= x < ws.len() implies 0 <= #[trigger] ws[x] < ms@.len() && spec_alive_on(
                    labels@[ms@[ws[x]] as int],
                    start_i as int,
                ) by {
                    if x < holders.len() {
                        assert(ws[x] == holders[x]);
                    } else {
                        assert(ws[x] == i as int);
                        assert(labels@[ms@[i as int] as int].wf());
                    }
                }
                lemma_alive_count_ge_witnesses(labels@, ms@, start_i as int, ws);
                assert(spec_gutter_alive(labels@, ms@, start_i as int) <= width);
                assert(false);
            }
        }
        let ghost slots_before = slots@;
        let ghost done_before = done@;
        slots.set(i, chosen);
        done.set(i, true);
        proof {
            assert forall|j1: int, j2: int|
                #![trigger slots@[j1], slots@[j2]]
                0 <= j1 < n && 0 <= j2 < n && j1 != j2 && done@[j1] && done@[j2]
                    && spec_extents_overlap(
                    labels@[ms@[j1] as int],
                    labels@[ms@[j2] as int],
                ) implies slots@[j1] != slots@[j2] by {
                if j1 == i as int || j2 == i as int {
                    let other = if j1 == i as int {
                        j2
                    } else {
                        j1
                    };
                    assert(done_before[other]);
                    // The other label was processed earlier, so it starts
                    // no later, and the overlap keeps it alive on this
                    // label's start line.
                    let k1 = choose|k1: int| 0 <= k1 < k && ord@[k1] == other;
                    assert(labels@[ms@[other] as int].start_line <= start_i);
                    assert(labels@[ms@[other] as int].start_line <= start_i <= labels@[ms@[
                    other] as int].end_line);
                    assert(slots@[other] != chosen);
                }
            }
            assert forall|j: int|
                0 <= j < n && done@[j] implies (#[trigger] slots@[j]) < width by {
                if j != i as int {
                    assert(done_before[j] && slots@[j] == slots_before[j]);
                }
            }
            assert forall|j: int|
                0 <= j < n implies ((#[trigger] done@[j]) <==> exists|k1: int|
                    0 <= k1 < k + 1 && ord@[k1] == j) by {
                if j == i as int {
                    assert(0 <= k < k + 1 && ord@[k as int] == j);
                } else {
                    if done@[j] {
                        assert(done_before[j]);
                        let k1 = choose|k1: int| 0 <= k1 < k && ord@[k1] == j;
                        assert(0 <= k1 < k + 1 && ord@[k1] == j);
                    }
                    if exists|k1: int| 0 <= k1 < k + 1 && ord@[k1] == j {
                        let k1 = choose|k1: int| 0 <= k1 < k + 1 && ord@[k1] == j;
                        assert(k1 != k);
                        assert(done_before[j]);
                    }
                }
            }
        }
        k = k + 1;
    }
    proof {
        assert forall|q: int| 0 <= q < slots@.len() implies (#[trigger] slots@[q]) < width by {
            assert(ord@.contains(q as usize));
            let k1 = choose|k1: int| 0 <= k1 < ord@.len() && ord@[k1] == q as usize;
            assert(done@[q]);
        }
        assert forall|q1: int, q2: int|
            0 <= q1 < ms@.len() && 0 <= q2 < ms@.len() && q1 != q2 && spec_extents_overlap(
                labels@[ms@[q1] as int],
                labels@[ms@[q2] as int],
            ) implies slots@[q1] != slots@[q2] by {
            assert(ord@.contains(q1 as usize));
            assert(ord@.contains(q2 as usize));
            let k1 = choose|k1: int| 0 <= k1 < ord@.len() && ord@[k1] == q1 as usize;
            let k2 = choose|k2: int| 0 <= k2 < ord@.len() && ord@[k2] == q2 as usize;
            assert(done@[q1] && done@[q2]);
        }
    }
    slots
}

/// The multi-line label promoted to the margin of this line: among those
/// starting or ending here, the one with the smallest column, then the
/// latest span start, then the earliest position in the gutter order.
pub(crate) fn pick_margin_label(
    labels: &Vec<ResolvedLabel>,
    multi_msg: &Vec<usize>,
    line_span: (usize, usize),
) -> (r: Option<LineLabel>)
    requires
        idxs_ok(multi_msg@, labels@.len()),
        forall|i: int| 0 <= i < labels@.len() ==> (#[trigger] labels@[i]).wf(),
    ensures
        ml_ok(r, labels@.len()),
        r matches Some(m) ==> {
            &&& m.multi
            &&& (exists|q: int| 0 <= q < multi_msg@.len() && #[trigger] multi_msg@[q] == m.label)
            &&& (!m.draw_msg ==> line_span.0 <= labels@[m.label as int].char_start < line_span.1
                && m.col == labels@[m.label as int].char_start - line_span.0)
            &&& (m.draw_msg ==> line_span.0 <= spec_last_offset(labels@[m.label as int])
                < line_span.1 && m.col == spec_last_offset(labels@[m.label as int]) - line_span.0)
        },
{
    let mut best: Option<LineLabel> = None;
    let mut mi: usize = 0;
    while mi < multi_msg.len()
        invariant
            idxs_ok(multi_msg@, labels@.len()),
            forall|i: int| 0 <= i < labels@.len() ==> (#[trigger] labels@[i]).wf(),
            ml_ok(best, labels@.len()),
            best matches Some(m) ==> {
                &&& m.multi
                &&& (exists|q: int|
                    0 <= q < multi_msg@.len() && #[trigger] multi_msg@[q] == m.label)
                &&& (!m.draw_msg ==> line_span.0 <= labels@[m.label as int].char_start
                    < line_span.1 && m.col == labels@[m.label as int].char_start - line_span.0)
                &&& (m.draw_msg ==> line_span.0 <= spec_last_offset(labels@[m.label as int])
                    < line_span.1 && m.col == spec_last_offset(labels@[m.label as int])
                    - line_span.0)
            },
        decreases multi_msg@.len() - mi,
    {
        let li = multi_msg[mi];
        let start = labels[li].char_start;
        let lo = labels[li].last_offset();
        let is_start = line_span.0 <= start && start < line_span.1;
        let is_end = line_span.0 <= lo && lo < line_span.1;
        let cand: Option<LineLabel> = if is_start {
            Some(LineLabel { col: start - line_span.0, label: li, multi: true, draw_msg: false })
        } else if is_end {
            Some(LineLabel { col: lo - line_span.0, label: li, multi: true, draw_msg: true })
        } else {
            None
        };
        match cand {
            Some(c) => {
                match best {
                    Some(b) => {
                        let cs = labels[c.label].char_start;
                        let bs = labels[b.label].char_start;
                        if c.col < b.col || (c.col == b.col && cs > bs) {
                            best = Some(c);
                        }
                    },
                    None => {
                        best = Some(c);
                    },
                }
            },
            None => {},
        }
        mi = mi + 1;
    }
    best
}

/// The labels attached to this line: the gutter labels that start or end
/// here, then the inline labels contained in it, each with the column its
/// arrow occupies.
pub(crate) fn build_line_labels(
    labels: &Vec<ResolvedLabel>,
    multi_msg: &Vec<usize>,
    margin_label: &Option<LineLabel>,
    line_span: (usize, usize),
    attach: crate::LabelAttach,
) -> (r: Vec<LineLabel>)
    requires
        idxs_ok(multi_msg@, labels@.len()),
        forall|i: int| 0 <= i < labels@.len() ==> (#[trigger] labels@[i]).wf(),
    ensures
        lls_ok(r@, labels@.len()),
        forall|mi: int|
            0 <= mi < multi_msg@.len() && (line_span.0 <= spec_last_offset(
                labels@[#[trigger] multi_msg@[mi] as int],
            ) < line_span.1) && !(line_span.0 <= labels@[multi_msg@[mi] as int].char_start
                < line_span.1) ==> exists|k: int|
                0 <= k < r@.len() && (#[trigger] r@[k]).label == multi_msg@[mi] && r@[k].draw_msg,
        forall|li: int|
            0 <= li < labels@.len() && !(#[trigger] labels@[li]).multiline
                && labels@[li].char_start >= line_span.0 && labels@[li].char_end <= line_span.1
                ==> exists|k: int|
                0 <= k < r@.len() && (#[trigger] r@[k]).label == li && r@[k].draw_msg && !r@[
                k].multi,
{
    let mut v: Vec<LineLabel> = Vec::new();
    let mut mi: usize = 0;
    while mi < multi_msg.len()
        invariant
            mi <= multi_msg@.len(),
            idxs_ok(multi_msg@, labels@.len()),
            forall|i: int| 0 <= i < labels@.len() ==> (#[trigger] labels@[i]).wf(),
            lls_ok(v@, labels@.len()),
            forall|q: int|
                0 <= q < mi && (line_span.0 <= spec_last_offset(
                    labels@[#[trigger] multi_msg@[q] as int],
                ) < line_span.1) && !(line_span.0 <= labels@[multi_msg@[q] as int].char_start
                    < line_span.1) ==> exists|k: int|
                    0 <= k < v@.len() && (#[trigger] v@[k]).label == multi_msg@[q] && v@[
                    k].draw_msg,
        decreases multi_msg@.len() - mi,
    {
        let li = multi_msg[mi];
        let start = labels[li].char_start;
        let lo = labels[li].last_offset();
        let is_start = line_span.0 <= start && start < line_span.1;
        let is_end = line_span.0 <= lo && lo < line_span.1;
        let ghost prev = v@;
        if is_start && !is_margin(margin_label, li) {
            v.push(LineLabel { col: start - line_span.0, label: li, multi: true, draw_msg: false });
        } else if is_end {
            v.push(LineLabel { col: lo - line_span.0, label: li, multi: true, draw_msg: true });
            proof {
                assert(v@[v@.len() - 1].label == li && v@[v@.len() - 1].draw_msg);
            }
        }
        proof {
            assert forall|q: int|
                0 <= q < mi + 1 && (line_span.0 <= spec_last_offset(
                    labels@[#[trigger] multi_msg@[q] as int],
                ) < line_span.1) && !(line_span.0 <= labels@[multi_msg@[q] as int].char_start
                    < line_span.1) implies exists|k: int|
                    0 <= k < v@.len() && (#[trigger] v@[k]).label == multi_msg@[q] && v@[
                    k].draw_msg by {
                if q < mi {
                    let k = choose|k: int|
                        0 <= k < prev.len() && (#[trigger] prev[k]).label == multi_msg@[q]
                            && prev[k].draw_msg;
                    assert(v@[k] == prev[k]);
                } else {
                    assert(v@[v@.len() - 1].label == multi_msg@[q] && v@[v@.len() - 1].draw_msg);
                }
            }
        }
        mi = mi + 1;
    }
    let ghost after_multi = v@;
    let mut li: usize = 0;
    while li < labels.len()
        invariant
            li <= labels@.len(),
            forall|i: int| 0 <= i < labels@.len() ==> (#[trigger] labels@[i]).wf(),
            lls_ok(v@, labels@.len()),
            after_multi.is_prefix_of(v@),
            forall|q: int|
                0 <= q < multi_msg@.len() && (line_span.0 <= spec_last_offset(
                    labels@[#[trigger] multi_msg@[q] as int],
                ) < line_span.1) && !(line_span.0 <= labels@[multi_msg@[q] as int].char_start
                    < line_span.1) ==> exists|k: int|
                    0 <= k < v@.len() && (#[trigger] v@[k]).label == multi_msg@[q] && v@[
                    k].draw_msg,
            forall|q: int|
                0 <= q < li && !(#[trigger] labels@[q]).multiline && labels@[q].char_start
                    >= line_span.0 && labels@[q].char_end <= line_span.1 ==> exists|k: int|
                    0 <= k < v@.len() && (#[trigger] v@[k]).label == q && v@[k].draw_msg && !v@[
                    k].multi,
        decreases labels@.len() - li,
    {
        let l = &labels[li];
        let ghost prev = v@;
        if !l.multiline && l.char_start >= line_span.0 && l.char_end <= line_span.1 {
            let base = match attach {
                crate::LabelAttach::Start => l.char_start,
                crate::LabelAttach::Middle => l.char_start + (l.char_end - l.char_start) / 2,
                crate::LabelAttach::End => l.last_offset(),
            };
            let col_abs = if base > l.char_start {
                base
            } else {
                l.char_start
            };
            v.push(LineLabel { col: col_abs - line_span.0, label: li, multi: false, draw_msg: true });
            proof {
                assert(v@[v@.len() - 1].label == li && v@[v@.len() - 1].draw_msg && !v@[v@.len()
                    - 1].multi);
            }
        }
        proof {
            assert(prev.is_prefix_of(v@));
            assert(after_multi.is_prefix_of(v@));
            assert forall|q: int|
                0 <= q < multi_msg@.len() && (line_span.0 <= spec_last_offset(
                    labels@[#[trigger] multi_msg@[q] as int],
                ) < line_span.1) && !(line_span.0 <= labels@[multi_msg@[q] as int].char_start
                    < line_span.1) implies exists|k: int|
                    0 <= k < v@.len() && (#[trigger] v@[k]).label == multi_msg@[q] && v@[
                    k].draw_msg by {
                let k = choose|k: int|
                    0 <= k < prev.len() && (#[trigger] prev[k]).label == multi_msg@[q] && prev[
                    k].draw_msg;
                assert(v@[k] == prev[k]);
            }
            assert forall|q: int|
                0 <= q < li + 1 && !(#[trigger] labels@[q]).multiline && labels@[q].char_start
                    >= line_span.0 && labels@[q].char_end <= line_span.1 implies exists|k: int|
                    0 <= k < v@.len() && (#[trigger] v@[k]).label == q && v@[k].draw_msg && !v@[
                    k].multi by {
                if q < li {
                    let k = choose|k: int|
                        0 <= k < prev.len() && (#[trigger] prev[k]).label == q && prev[
                        k].draw_msg && !prev[k].multi;
                    assert(v@[k] == prev[k]);
                } else {
                    assert(v@[v@.len() - 1].label == q && v@[v@.len() - 1].draw_msg && !v@[
                    v@.len() - 1].multi);
                }
            }
        }
        li = li + 1;
    }
    v
}

/// Whether `a` must come after `b` in the per-line arrow order: by order
/// value, then column, then descending span start.
pub open spec fn spec_ll_key_gt(labels: Seq<ResolvedLabel>, a: LineLabel, b: LineLabel) -> bool {
    if labels[a.label as int].order != labels[b.label as int].order {
        labels[a.label as int].order > labels[b.label as int].order
    } else if a.col != b.col {
        a.col > b.col
    } else {
        labels[a.label as int].char_start < labels[b.label as int].char_start
    }
}

/// Decides the per-line arrow order.
pub(crate) fn ll_key_gt(labels: &Vec<ResolvedLabel>, a: &LineLabel, b: &LineLabel) -> (r: bool)
    requires
        a.label < labels@.len(),
        b.label < labels@.len(),
    ensures
        r == spec_ll_key_gt(labels@, *a, *b),
{
    let ao = labels[a.label].order;
    let bo = labels[b.label].order;
    if ao != bo {
        ao > bo
    } else if a.col != b.col {
        a.col > b.col
    } else {
        let sa = labels[a.label].char_start;
        let sb = labels[b.label].char_start;
        sa < sb
    }
}

/// Sorts the line labels by their per-line arrow order; equal keys keep
/// their relative order.
pub(crate) fn sort_line_labels(labels: &Vec<ResolvedLabel>, v: &mut Vec<LineLabel>)
    requires
        lls_ok(old(v)@, labels@.len()),
    ensures
        lls_ok(final(v)@, labels@.len()),
        final(v)@.len() == old(v)@.len(),
        forall|k: int| 0 <= k < old(v)@.len() ==> final(v)@.contains(#[trigger] old(v)@[k]),
        forall|x: int, y: int|
            0 <= x < y < final(v)@.len() ==> !spec_ll_key_gt(
                labels@,
                #[trigger] final(v)@[x],
                #[trigger] final(v)@[y],
            ),
{
    proof {
        assert forall|k: int|
            0 <= k < old(v)@.len() implies v@.contains(#[trigger] old(v)@[k]) by {
            assert(v@[k] == old(v)@[k]);
        }
    }
    let mut a: usize = 1;
    while a < v.len()
        invariant
            lls_ok(v@, labels@.len()),
            v@.len() == old(v)@.len(),
            forall|k: int| 0 <= k < old(v)@.len() ==> v@.contains(#[trigger] old(v)@[k]),
            forall|x: int, y: int|
                0 <= x < y < a && y < v@.len() ==> !spec_ll_key_gt(
                    labels@,
                    #[trigger] v@[x],
                    #[trigger] v@[y],
                ),
        decreases v@.len() - a,
    {
        let mut b: usize = a;
        while b > 0 && ll_key_gt(labels, &v[b - 1], &v[b])
            invariant
                b <= a < v@.len(),
                lls_ok(v@, labels@.len()),
                v@.len() == old(v)@.len(),
                forall|k: int| 0 <= k < old(v)@.len() ==> v@.contains(#[trigger] old(v)@[k]),
                forall|x: int, y: int|
                    0 <= x < y <= a && y != b ==> !spec_ll_key_gt(
                        labels@,
                        #[trigger] v@[x],
                        #[trigger] v@[y],
                    ),
                forall|y: int|
                    b < y <= a ==> !spec_ll_key_gt(labels@, v@[b as int], #[trigger] v@[y]),
            decreases b,
        {
            let ghost before = v@;
            let x = v[b - 1];
            let y = v[b];
            v.set(b - 1, y);
            v.set(b, x);
            proof {
                assert forall|k: int|
                    0 <= k < old(v)@.len() implies v@.contains(#[trigger] old(v)@[k]) by {
                    assert(before.contains(old(v)@[k]));
                    let k1 = choose|k1: int|
                        0 <= k1 < before.len() && before[k1] == old(v)@[k];
                    if k1 == b - 1 {
                        assert(v@[b as int] == old(v)@[k]);
                    } else if k1 == b {
                        assert(v@[b - 1] == old(v)@[k]);
                    } else {
                        assert(v@[k1] == old(v)@[k]);
                    }
                }
            }
            b = b - 1;
        }
        a = a + 1;
    }
}

/// The first row occupied by the label with the given index, or row zero if
/// it has none.
pub(crate) fn find_label_row(line_labels: &Vec<LineLabel>, li: usize) -> usize {
    let mut j: usize = 0;
    while j < line_labels.len()
        decreases line_labels@.len() - j,
    {
        if line_labels[j].label == li {
            return j;
        }
        j = j + 1;
    }
    0
}

/// Whether the line label at `j` carries a vertical arrow through column
/// `col` on row `row`: it has a message, is not the margin label, its arrow
/// sits at that column, and its own row is not above this one.
pub open spec fn spec_vbar_cand(
    labels: Seq<ResolvedLabel>,
    lls: Seq<LineLabel>,
    ml: Option<LineLabel>,
    j: int,
    col: int,
    row: int,
) -> bool {
    &&& 0 <= j < lls.len()
    &&& labels[lls[j].label as int].msg is Some
    &&& !(ml matches Some(m) && m.label == lls[j].label)
    &&& lls[j].col == col
    &&& row <= j
}

/// The label whose vertical arrow passes through the given column on the
/// given row: the first messaged, non-margin line label at that column whose
/// own row is not above this one.
pub(crate) fn get_vbar(
    labels: &Vec<ResolvedLabel>,
    line_labels: &Vec<LineLabel>,
    margin_label: &Option<LineLabel>,
    col: usize,
    row: usize,
) -> (r: Option<LineLabel>)
    requires
        lls_ok(line_labels@, labels@.len()),
    ensures
        r matches Some(ll) ==> ll.label < labels@.len(),
        r is Some <==> exists|j: int|
            #![trigger line_labels@[j]]
            spec_vbar_cand(labels@, line_labels@, *margin_label, j, col as int, row as int),
        r matches Some(ll) ==> exists|j: int|
            #![trigger line_labels@[j]]
            spec_vbar_cand(labels@, line_labels@, *margin_label, j, col as int, row as int)
                && line_labels@[j] == ll && (forall|j2: int|
                0 <= j2 < j ==> !spec_vbar_cand(
                    labels@,
                    #[trigger] line_labels@,
                    *margin_label,
                    j2,
                    col as int,
                    row as int,
                )),
{
    let mut j: usize = 0;
    while j < line_labels.len()
        invariant
            lls_ok(line_labels@, labels@.len()),
            forall|j2: int|
                0 <= j2 < j ==> !spec_vbar_cand(
                    labels@,
                    #[trigger] line_labels@,
                    *margin_label,
                    j2,
                    col as int,
                    row as int,
                ),
        decreases line_labels@.len() - j,
    {
        let ll = line_labels[j];
        if labels[ll.label].msg.is_some() && !is_margin(margin_label, ll.label) && ll.col == col
            && row <= j {
            proof {
                assert(spec_vbar_cand(
                    labels@,
                    line_labels@,
                    *margin_label,
                    j as int,
                    col as int,
                    row as int,
                ));
            }
            return Some(ll);
        }
        j = j + 1;
    }
    None
}

/// Whether `a` takes the highlight or underline from `b`: a higher
/// priority, or the same priority with a shorter span.
pub open spec fn spec_beats(a: ResolvedLabel, b: ResolvedLabel) -> bool {
    a.priority > b.priority || (a.priority == b.priority && spec_span_len(a) < spec_span_len(b))
}

/// Whether the line label at `j` is underlined at character position `pos`:
/// an inline label whose span contains the position.
pub open spec fn spec_underline_cand(
    labels: Seq<ResolvedLabel>,
    lls: Seq<LineLabel>,
    j: int,
    pos: int,
) -> bool {
    &&& 0 <= j < lls.len()
    &&& !lls[j].multi
    &&& labels[lls[j].label as int].char_start <= pos < labels[lls[j].label as int].char_end
}

/// The inline label underlined at the given column, when underlines are on:
/// the highest-priority, then shortest, then first label whose span
/// contains the column.
pub(crate) fn get_underline(
    cfg: &Config,
    labels: &Vec<ResolvedLabel>,
    line_labels: &Vec<LineLabel>,
    line_offset: usize,
    col: usize,
) -> (r: Option<LineLabel>)
    requires
        lls_ok(line_labels@, labels@.len()),
        forall|i: int| 0 <= i < labels@.len() ==> (#[trigger] labels@[i]).wf(),
    ensures
        r matches Some(ll) ==> ll.label < labels@.len(),
        r matches Some(ll) ==> cfg.underlines && line_offset + col <= usize::MAX && (exists|
            j: int,
        |
            #![trigger line_labels@[j]]
            0 <= j < line_labels@.len() && line_labels@[j] == ll && spec_underline_cand(
                labels@,
                line_labels@,
                j,
                line_offset + col,
            )),
        r matches Some(ll) ==> forall|j: int|
            #![trigger line_labels@[j]]
            spec_underline_cand(labels@, line_labels@, j, line_offset + col) ==> !spec_beats(
                labels@[line_labels@[j].label as int],
                labels@[ll.label as int],
            ),
        r is None && cfg.underlines && line_offset + col <= usize::MAX ==> forall|j: int|
            #![trigger line_labels@[j]]
            !spec_underline_cand(labels@, line_labels@, j, line_offset + col),
{
    if !cfg.underlines {
        return None;
    }
    if col > usize::MAX - line_offset {
        return None;
    }
    let pos = line_offset + col;
    let mut best: Option<LineLabel> = None;
    let mut j: usize = 0;
    while j < line_labels.len()
        invariant
            pos == line_offset + col,
            lls_ok(line_labels@, labels@.len()),
            forall|i: int| 0 <= i < labels@.len() ==> (#[trigger] labels@[i]).wf(),
            best matches Some(bb) ==> bb.label < labels@.len() && (exists|j2: int|
                #![trigger line_labels@[j2]]
                0 <= j2 < j && line_labels@[j2] == bb && spec_underline_cand(
                    labels@,
                    line_labels@,
                    j2,
                    pos as int,
                )),
            best matches Some(bb) ==> forall|j2: int|
                #![trigger line_labels@[j2]]
                0 <= j2 < j && spec_underline_cand(labels@, line_labels@, j2, pos as int)
                    ==> !spec_beats(
                    labels@[line_labels@[j2].label as int],
                    labels@[bb.label as int],
                ),
            best is None ==> forall|j2: int|
                #![trigger line_labels@[j2]]
                0 <= j2 < j ==> !spec_underline_cand(labels@, line_labels@, j2, pos as int),
        decreases line_labels@.len() - j,
    {
        let ll = line_labels[j];
        let l = &labels[ll.label];
        if !ll.multi && l.char_start <= pos && pos < l.char_end {
            match best {
                Some(b) => {
                    let bp = labels[b.label].priority;
                    let blen = span_len(&labels[b.label]);
                    let cp = l.priority;
                    let clen = span_len(l);
                    if cp > bp || (cp == bp && clen < blen) {
                        best = Some(ll);
                    }
                },
                None => {
                    best = Some(ll);
                },
            }
        }
        j = j + 1;
    }
    best
}

/// The label index at chain position `t` of the highlight candidates: the
/// margin label first, then the gutter labels, then the line labels.
pub open spec fn spec_hl_label(
    ml: Option<LineLabel>,
    multi: Seq<usize>,
    lls: Seq<LineLabel>,
    t: int,
) -> int {
    if t < spec_margin_len(ml) {
        ml->0.label as int
    } else if t < spec_margin_len(ml) + multi.len() {
        multi[t - spec_margin_len(ml)] as int
    } else {
        lls[t - spec_margin_len(ml) - multi.len()].label as int
    }
}

/// The number of highlight candidates.
pub open spec fn spec_hl_total(ml: Option<LineLabel>, multi: Seq<usize>, lls: Seq<LineLabel>) -> int {
    spec_margin_len(ml) + multi.len() + lls.len()
}

/// The label that owns the highlight of the given source column: margin
/// label first, then gutter labels, then line labels; the highest-priority,
/// then shortest, then first span containing the column wins.
pub(crate) fn get_highlight(
    labels: &Vec<ResolvedLabel>,
    multi_all: &Vec<usize>,
    line_labels: &Vec<LineLabel>,
    margin_label: &Option<LineLabel>,
    line_offset: usize,
    col: usize,
) -> (r: Option<usize>)
    requires
        idxs_ok(multi_all@, labels@.len()),
        lls_ok(line_labels@, labels@.len()),
        ml_ok(*margin_label, labels@.len()),
        forall|i: int| 0 <= i < labels@.len() ==> (#[trigger] labels@[i]).wf(),
    ensures
        r matches Some(li) ==> li < labels@.len(),
        r matches Some(li) ==> line_offset + col <= usize::MAX && (exists|t: int|
            0 <= t < spec_hl_total(*margin_label, multi_all@, line_labels@)
                && #[trigger] spec_hl_label(*margin_label, multi_all@, line_labels@, t)
                == li as int && labels@[li as int].char_start <= line_offset + col < labels@[
                li as int].char_end),
        r matches Some(li) ==> spec_hl_total(*margin_label, multi_all@, line_labels@)
            <= usize::MAX ==> forall|t: int|
            0 <= t < spec_hl_total(*margin_label, multi_all@, line_labels@) && labels@[
                #[trigger] spec_hl_label(
                    *margin_label,
                    multi_all@,
                    line_labels@,
                    t,
                )].char_start <= line_offset + col < labels@[spec_hl_label(
                *margin_label,
                multi_all@,
                line_labels@,
                t,
            )].char_end ==> !spec_beats(
                labels@[spec_hl_label(*margin_label, multi_all@, line_labels@, t)],
                labels@[li as int],
            ),
        r is None && line_offset + col <= usize::MAX && spec_hl_total(
            *margin_label,
            multi_all@,
            line_labels@,
        ) <= usize::MAX ==> forall|t: int|
            0 <= t < spec_hl_total(*margin_label, multi_all@, line_labels@) ==> !(labels@[
                #[trigger] spec_hl_label(
                    *margin_label,
                    multi_all@,
                    line_labels@,
                    t,
                )].char_start <= line_offset + col < labels@[spec_hl_label(
                *margin_label,
                multi_all@,
                line_labels@,
                t,
            )].char_end),
{
    if col > usize::MAX - line_offset {
        return None;
    }
    let pos = line_offset + col;
    let mut best: Option<usize> = None;
    let total = margin_len(margin_label).saturating_add(multi_all.len()).saturating_add(
        line_labels.len(),
    );
    let ghost stotal = spec_hl_total(*margin_label, multi_all@, line_labels@);
    proof {
        if stotal <= usize::MAX {
            assert(total == stotal);
        }
    }
    let mut j: usize = 0;
    while j < total
        invariant
            pos == line_offset + col,
            stotal == spec_hl_total(*margin_label, multi_all@, line_labels@),
            stotal <= usize::MAX ==> total == stotal,
            j <= total,
            idxs_ok(multi_all@, labels@.len()),
            lls_ok(line_labels@, labels@.len()),
            ml_ok(*margin_label, labels@.len()),
            forall|i: int| 0 <= i < labels@.len() ==> (#[trigger] labels@[i]).wf(),
            best matches Some(bi) ==> bi < labels@.len() && (exists|t: int|
                0 <= t < j && #[trigger] spec_hl_label(*margin_label, multi_all@, line_labels@, t)
                    == bi as int && labels@[bi as int].char_start <= pos < labels@[
                bi as int].char_end),
            best matches Some(bi) ==> forall|t: int|
                0 <= t < j && labels@[#[trigger] spec_hl_label(
                    *margin_label,
                    multi_all@,
                    line_labels@,
                    t,
                )].char_start <= pos < labels@[spec_hl_label(
                    *margin_label,
                    multi_all@,
                    line_labels@,
                    t,
                )].char_end ==> !spec_beats(
                    labels@[spec_hl_label(*margin_label, multi_all@, line_labels@, t)],
                    labels@[bi as int],
                ),
            best is None ==> forall|t: int|
                0 <= t < j ==> !(labels@[#[trigger] spec_hl_label(
                    *margin_label,
                    multi_all@,
                    line_labels@,
                    t,
                )].char_start <= pos < labels@[spec_hl_label(
                    *margin_label,
                    multi_all@,
                    line_labels@,
                    t,
                )].char_end),
            total <= spec_margin_len(*margin_label) + multi_all@.len() + line_labels@.len(),
        decreases total - j,
    {
        let m = margin_len(margin_label);
        let li: usize = if j < m {
            match margin_label {
                Some(ml) => ml.label,
                None => 0,
            }
        } else if j - m < multi_all.len() {
            multi_all[j - m]
        } else {
            line_labels[j - m - multi_all.len()].label
        };
        proof {
            assert(li as int == spec_hl_label(*margin_label, multi_all@, line_labels@, j as int));
        }
        let l = &labels[li];
        if l.char_start <= pos && pos < l.char_end {
            match best {
                Some(b) => {
                    let bp = labels[b].priority;
                    let blen = span_len(&labels[b]);
                    if l.priority > bp || (l.priority == bp && span_len(l) < blen) {
                        best = Some(li);
                    }
                },
                None => {
                    best = Some(li);
                },
            }
        }
        j = j + 1;
    }
    proof {
        match best {
            Some(bi) => {
                let t = choose|t: int|
                    0 <= t < j && #[trigger] spec_hl_label(
                        *margin_label,
                        multi_all@,
                        line_labels@,
                        t,
                    ) == bi as int && labels@[bi as int].char_start <= pos < labels@[
                    bi as int].char_end;
                assert(0 <= t < stotal);
            },
            None => {},
        }
    }
    best
}

/// One when there is a margin label, zero otherwise.
pub open spec fn spec_margin_len(m: Option<LineLabel>) -> int {
    if m is Some {
        1
    } else {
        0
    }
}

/// One when there is a margin label, zero otherwise.
pub(crate) fn margin_len(margin_label: &Option<LineLabel>) -> (r: usize)
    ensures
        r == if margin_label is Some {
            1int
        } else {
            0int
        },
        r <= 1,
{
    match margin_label {
        Some(_) => 1,
        None => 0,
    }
}

/// Appends the left margin of a row together with the multi-line gutter
/// cells: for each gutter column, the corner, bar, arrow or space that this
/// row carries there.
#[verifier::rlimit(100)]
pub(crate) fn write_margin_and_arrows(
    out: &mut Vec<char>,
    cfg: &Config,
    draw: &Characters,
    w: usize,
    labels: &Vec<ResolvedLabel>,
    multi_msg: &Vec<usize>,
    slots: &Vec<usize>,
    width: usize,
    line_span: (usize, usize),
    idx: usize,
    is_src_line: bool,
    is_ellipsis: bool,
    report_row: Option<(usize, bool)>,
    line_labels: &Vec<LineLabel>,
    margin_label: &Option<LineLabel>,
)
    requires
        idx < usize::MAX,
        w <= 20,
        idxs_ok(multi_msg@, labels@.len()),
        slots@.len() == multi_msg@.len(),
        lls_ok(line_labels@, labels@.len()),
        ml_ok(*margin_label, labels@.len()),
        forall|i: int| 0 <= i < labels@.len() ==> (#[trigger] labels@[i]).wf(),
        !cfg.color ==> forall|i: int|
            0 <= i < labels@.len() ==> (#[trigger] labels@[i]).color is None,
    ensures
        final(out)@.len() >= old(out)@.len(),
        spec_grew(old(out)@, final(out)@),
        spec_clean_text(*cfg, old(out)@) && spec_clean_draw(*cfg, *draw) ==> spec_clean_text(
            *cfg,
            final(out)@,
        ),
{
    write_margin(out, cfg, draw, w, idx, is_src_line, is_ellipsis);
    // The gutter column the margin label occupies, if there is one.
    let mut margin_slot: usize = usize::MAX;
    match margin_label {
        Some(m) => {
            let mut f: usize = 0;
            while f < multi_msg.len()
                invariant
                    slots@.len() == multi_msg@.len(),
                decreases multi_msg@.len() - f,
            {
                if multi_msg[f] == m.label {
                    margin_slot = slots[f];
                    break ;
                }
                f = f + 1;
            }
        },
        None => {},
    }
    let ncols = if multi_msg.len() > 0 {
        width.saturating_add(1)
    } else {
        0
    };
    let mut col: usize = 0;
    while col < ncols
        invariant
            out@.len() >= old(out)@.len(),
            spec_grew(old(out)@, out@),
            idxs_ok(multi_msg@, labels@.len()),
            slots@.len() == multi_msg@.len(),
            lls_ok(line_labels@, labels@.len()),
            ml_ok(*margin_label, labels@.len()),
            forall|i: int| 0 <= i < labels@.len() ==> (#[trigger] labels@[i]).wf(),
            !cfg.color ==> forall|i: int|
                0 <= i < labels@.len() ==> (#[trigger] labels@[i]).color is None,
            spec_clean_text(*cfg, old(out)@) && spec_clean_draw(*cfg, *draw) ==> spec_clean_text(
                *cfg,
                out@,
            ),
        decreases ncols - col,
    {
        let mut corner: Option<(usize, bool)> = None;
        let mut hbar_l: Option<usize> = None;
        let mut vbar_l: Option<usize> = None;
        let mut margin_ptr: Option<(LineLabel, bool)> = None;
        let mut i: usize = 0;
        while i < multi_msg.len()
            invariant
                idxs_ok(multi_msg@, labels@.len()),
                slots@.len() == multi_msg@.len(),
                lls_ok(line_labels@, labels@.len()),
                ml_ok(*margin_label, labels@.len()),
                forall|k: int| 0 <= k < labels@.len() ==> (#[trigger] labels@[k]).wf(),
                corner matches Some(c) ==> c.0 < labels@.len(),
                hbar_l matches Some(h) ==> h < labels@.len(),
                vbar_l matches Some(vv) ==> vv < labels@.len(),
                margin_ptr matches Some(mp) ==> mp.0.label < labels@.len(),
            decreases multi_msg@.len() - i,
        {
            if slots[i] > col {
                i = i + 1;
                continue ;
            }
            let li = multi_msg[i];
            let l_start = labels[li].char_start;
            let l_end = labels[li].char_end;
            let margin_is = is_margin(margin_label, li);
            if l_start <= line_span.1 && l_end > line_span.0 {
                let is_parent = slots[i] != col;
                let is_start = line_span.0 <= l_start && l_start < line_span.1;
                let lo = labels[li].last_offset();
                let is_end = line_span.0 <= lo && lo < line_span.1;
                if margin_is && is_src_line {
                    match margin_label {
                        Some(ml) => {
                            margin_ptr = Some((*ml, is_start));
                        },
                        None => {},
                    }
                } else if !is_start && (!is_end || is_src_line) {
                    if vbar_l.is_none() && !is_parent {
                        vbar_l = Some(li);
                    }
                } else {
                    match report_row {
                        Some(rr) => {
                            let rrow = rr.0;
                            let is_arrow = rr.1;
                            let label_row = find_label_row(line_labels, li);
                            if rrow == label_row {
                                let mut skip = false;
                                if margin_is {
                                    vbar_l = if col == i {
                                        Some(li)
                                    } else {
                                        None
                                    };
                                    if is_start {
                                        skip = true;
                                    }
                                }
                                if !skip {
                                    if is_arrow {
                                        hbar_l = Some(li);
                                        if !is_parent {
                                            corner = Some((li, is_start));
                                        }
                                    } else if !is_start {
                                        if vbar_l.is_none() && !is_parent {
                                            vbar_l = Some(li);
                                        }
                                    }
                                }
                            } else {
                                if vbar_l.is_none() && !is_parent && (is_start != (rrow
                                    < label_row)) {
                                    vbar_l = Some(li);
                                }
                            }
                        },
                        None => {},
                    }
                }
            }
            i = i + 1;
        }
        match margin_ptr {
            Some(mp) => {
                if is_src_line {
                    let is_col = margin_slot == col;
                    let is_limit = col + 1 == width;
                    if !is_col && !is_limit && hbar_l.is_none() {
                        hbar_l = Some(mp.0.label);
                    }
                }
            },
            None => {},
        }
        match hbar_l {
            Some(h) => {
                if is_margin(margin_label, h) && is_src_line {
                    hbar_l = None;
                }
            },
            None => {},
        }
        let a: Option<(char, usize)>;
        let b: Option<(char, usize)>;
        match corner {
            Some(c) => {
                a = Some((draw.arrow_bend(c.1), c.0));
                b = Some((draw.hbar, c.0));
            },
            None => {
                match hbar_l {
                    Some(h) => {
                        let ch = if vbar_l.is_some() && !cfg.cross_gap {
                            draw.xbar
                        } else {
                            draw.hbar
                        };
                        a = Some((ch, h));
                        b = Some((draw.hbar, h));
                    },
                    None => {
                        match vbar_l {
                            Some(vv) => {
                                a = Some((draw.vbar_of(is_ellipsis), vv));
                                b = None;
                            },
                            None => {
                                match margin_ptr {
                                    Some(mp) => {
                                        if is_src_line {
                                            let is_col = margin_slot == col;
                                            let is_limit = col == width;
                                            let ch = if is_limit {
                                                draw.rarrow
                                            } else if is_col {
                                                if mp.1 {
                                                    draw.ltop
                                                } else {
                                                    draw.lcross
                                                }
                                            } else {
                                                draw.hbar
                                            };
                                            a = Some((ch, mp.0.label));
                                            b = Some(
                                                (
                                                    if is_limit {
                                                        ' '
                                                    } else {
                                                        draw.hbar
                                                    },
                                                    mp.0.label,
                                                ),
                                            );
                                        } else {
                                            a = None;
                                            b = None;
                                        }
                                    },
                                    None => {
                                        a = None;
                                        b = None;
                                    },
                                }
                            },
                        }
                    },
                }
            },
        }
        proof {
            if spec_clean_text(*cfg, old(out)@) && spec_clean_draw(*cfg, *draw) {
                assert(spec_clean_char(*cfg, ' '));
            }
        }
        match a {
            Some(p) => {
                push_styled_char(out, cfg, p.0, labels[p.1].color);
            },
            None => {
                out.push(' ');
            },
        }
        if !cfg.compact {
            match b {
                Some(p) => {
                    push_styled_char(out, cfg, p.0, labels[p.1].color);
                },
                None => {
                    out.push(' ');
                },
            }
        }
        col = col + 1;
    }
}


/// Renders one source row: the margin and gutter, the source text (unless
/// this is an ellipsis row), and one pair of arrow rows per messaged label of
/// the line, each message row ending in a space, the message, and a line
/// feed.
#[verifier::rlimit(100)]
pub(crate) fn render_source_row(
    out: &mut Vec<char>,
    cfg: &Config,
    draw: &Characters,
    w: usize,
    group: &SourceGroup,
    multi_all: &Vec<usize>,
    multi_msg: &Vec<usize>,
    slots: &Vec<usize>,
    width: usize,
    idx: usize,
    is_ellipsis: bool,
)
    requires
        w <= 20,
        group.wf(),
        idx < group.line_end,
        idxs_ok(multi_all@, group.labels@.len()),
        idxs_ok(multi_msg@, group.labels@.len()),
        slots@.len() == multi_msg@.len(),
        !cfg.color ==> forall|i: int|
            0 <= i < group.labels@.len() ==> (#[trigger] group.labels@[i]).color is None,
        forall|k: int|
            0 <= k < multi_msg@.len() ==> group.labels@[#[trigger] multi_msg@[k] as int].multiline
                && group.labels@[multi_msg@[k] as int].msg is Some,
        forall|li: usize|
            li < group.labels@.len() && (#[trigger] group.labels@[li as int]).multiline
                && group.labels@[li as int].msg is Some ==> multi_msg@.contains(li),
    ensures
        final(out)@.len() >= old(out)@.len(),
        spec_grew(old(out)@, final(out)@),
        spec_ends_nl(final(out)@),
        spec_clean_text(*cfg, old(out)@) && spec_clean_draw(*cfg, *draw) && group_clean(
            *cfg,
            *group,
        ) ==> spec_clean_text(*cfg, final(out)@),
        forall|li: int|
            0 <= li < group.labels@.len() && !(#[trigger] group.labels@[li]).multiline
                && group.labels@[li].msg is Some && spec_inline_on_line(
                group.src,
                group.labels@[li],
                idx as int,
            ) ==> contains_run(final(out)@, spec_message_row(group.labels@[li])),
        forall|li: int|
            0 <= li < group.labels@.len() && (#[trigger] group.labels@[li]).multiline
                && group.labels@[li].msg is Some && spec_multi_end_on_line(
                group.src,
                group.labels@[li],
                idx as int,
            ) ==> contains_run(final(out)@, spec_message_row(group.labels@[li])),
{
    let ghost all_clean = spec_clean_text(*cfg, old(out)@) && spec_clean_draw(*cfg, *draw)
        && group_clean(*cfg, *group);
    let labels = &group.labels;
    let nlabels = labels.len();
        let line: Line = match group.src.line(idx) {
            Some(l) => l,
            None => Line { offset: 0, char_len: 0, byte_offset: 0, byte_len: 0 },
        };
        proof {
            use_type_invariant(&group.src);
            if idx < group.src.spec_lines().len() {
                crate::source::lemma_line_extent(
                    group.src.spec_chars(),
                    group.src.spec_lines(),
                    idx as int,
                );
            }
            assert(line.spec_end() <= usize::MAX);
        }
        let line_off = line.offset();
        let line_len = line.len();
        let line_span = (line_off, line_off + line_len);

        let margin_label = pick_margin_label(labels, &multi_msg, line_span);
        let mut line_labels = build_line_labels(
            labels,
            &multi_msg,
            &margin_label,
            line_span,
            cfg.label_attach,
        );

        let ghost pre_sort = line_labels@;
        sort_line_labels(labels, &mut line_labels);

        let text: Vec<char> = match group.src.line_text_chars(line) {
            Some(t) => t,
            None => Vec::new(),
        };
        proof {
            if all_clean {
                assert forall|i: int|
                    0 <= i < text@.len() implies spec_clean_char(*cfg, #[trigger] text@[i]) by {
                    let seg = group.src.spec_chars().subrange(
                        line.spec_offset() as int,
                        line.spec_end(),
                    );
                    crate::text::lemma_trim_end_prefix(seg);
                    assert(text@[i] == seg[i]);
                    assert(seg[i] == group.src.spec_chars()[line.spec_offset() + i]);
                }
            }
        }

        let space: usize = if cfg.compact {
            1
        } else {
            2
        };
        let mut acc: usize = 0;
        let mut ai: usize = 0;
        while ai < line_labels.len()
            invariant
                lls_ok(line_labels@, labels@.len()),
            decreases line_labels@.len() - ai,
        {
            let ll = line_labels[ai];
            if ll.multi {
                acc = line_len;
            } else {
                let e = labels[ll.label].char_end;
                let v = if e > line_off {
                    e - line_off
                } else {
                    0
                };
                if v > acc {
                    acc = v;
                }
            }
            ai = ai + 1;
        }
        let arrow_len = acc.saturating_add(space);

        // The source row itself.
        write_margin_and_arrows(
            out,
            cfg,
            draw,
            w,
            labels,
            multi_msg,
            slots,
            width,
            line_span,
            idx,
            true,
            is_ellipsis,
            None,
            &line_labels,
            &margin_label,
        );
        if !is_ellipsis {
            let mut col: usize = 0;
            while col < text.len()
                invariant
                    out@.len() >= old(out)@.len(),
                    spec_grew(old(out)@, out@),
                    idxs_ok(multi_all@, labels@.len()),
                    lls_ok(line_labels@, labels@.len()),
                    ml_ok(margin_label, labels@.len()),
                    forall|i: int| 0 <= i < labels@.len() ==> (#[trigger] labels@[i]).wf(),
                    !cfg.color ==> forall|i: int|
                        0 <= i < labels@.len() ==> (#[trigger] labels@[i]).color is None,
                    forall|i: int|
                        0 <= i < text@.len() && all_clean ==> spec_clean_char(
                            *cfg,
                            #[trigger] text@[i],
                        ),
                    all_clean ==> spec_clean_text(*cfg, out@),
                decreases text@.len() - col,
            {
                let c = text[col];
                let color = match get_highlight(
                    labels,
                    &multi_all,
                    &line_labels,
                    &margin_label,
                    line_off,
                    col,
                ) {
                    Some(li) => labels[li].color,
                    None => cfg.unimportant_color(),
                };
                let cw = cfg.char_width(c, col);
                proof {
                    if all_clean {
                        assert(spec_clean_char(*cfg, ' '));
                        assert(spec_clean_char(*cfg, cw.0));
                    }
                }
                if is_whitespace(cw.0) {
                    let mut k: usize = 0;
                    while k < cw.1
                        invariant
                            out@.len() >= old(out)@.len(),
                            spec_grew(old(out)@, out@),
                            all_clean && spec_clean_char(*cfg, cw.0) ==> spec_clean_text(
                                *cfg,
                                out@,
                            ),
                            color is Some ==> cfg.color,
                        decreases cw.1 - k,
                    {
                        push_styled_char(out, cfg, cw.0, color);
                        k = k + 1;
                    }
                } else {
                    push_styled_char(out, cfg, cw.0, color);
                }
                col = col + 1;
            }
        }
        out.push('\n');
        proof {
            if all_clean {
                assert(spec_clean_char(*cfg, '\n'));
                assert(spec_clean_text(*cfg, out@));
            }
        }

        // Arrow rows, one pair per messaged label of this line.
        let mut row: usize = 0;
        while row < line_labels.len()
            invariant
                out@.len() >= old(out)@.len(),
                spec_grew(old(out)@, out@),
                spec_ends_nl(out@),
                w <= 20,
                idx < usize::MAX,
                group.wf(),
                labels == &group.labels,
                idxs_ok(multi_all@, labels@.len()),
                idxs_ok(multi_msg@, labels@.len()),
                slots@.len() == multi_msg@.len(),
                lls_ok(line_labels@, labels@.len()),
                ml_ok(margin_label, labels@.len()),
                !cfg.color ==> forall|i: int|
                    0 <= i < labels@.len() ==> (#[trigger] labels@[i]).color is None,
                forall|i: int|
                    0 <= i < text@.len() && all_clean ==> spec_clean_char(
                        *cfg,
                        #[trigger] text@[i],
                    ),
                all_clean == (spec_clean_text(*cfg, old(out)@) && spec_clean_draw(*cfg, *draw)
                    && group_clean(*cfg, *group)),
                all_clean ==> spec_clean_text(*cfg, out@),
                forall|r2: int|
                    0 <= r2 < row && (#[trigger] line_labels@[r2]).draw_msg && labels@[line_labels@[
                    r2].label as int].msg is Some ==> contains_run(
                        out@,
                        spec_message_row(labels@[line_labels@[r2].label as int]),
                    ),
            decreases line_labels@.len() - row,
        {
            let ghost row_base = out@;
            let ll = line_labels[row];
            if labels[ll.label].msg.is_none() {
                row = row + 1;
                continue ;
            }
            if !cfg.compact {
                write_margin_and_arrows(
                    out,
                    cfg,
                    draw,
                    w,
                    labels,
                    multi_msg,
                    slots,
                    width,
                    line_span,
                    idx,
                    false,
                    is_ellipsis,
                    Some((row, false)),
                    &line_labels,
                    &margin_label,
                );
                let mut col: usize = 0;
                while col < arrow_len
                    invariant
                        out@.len() >= old(out)@.len(),
                        spec_grew(old(out)@, out@),
                        spec_grew(row_base, out@),
                        idxs_ok(multi_all@, labels@.len()),
                        lls_ok(line_labels@, labels@.len()),
                        ml_ok(margin_label, labels@.len()),
                        forall|i: int| 0 <= i < labels@.len() ==> (#[trigger] labels@[i]).wf(),
                        !cfg.color ==> forall|i: int|
                            0 <= i < labels@.len() ==> (#[trigger] labels@[i]).color is None,
                        all_clean == (spec_clean_text(*cfg, old(out)@) && spec_clean_draw(
                            *cfg,
                            *draw,
                        ) && group_clean(*cfg, *group)),
                        all_clean ==> spec_clean_text(*cfg, out@),
                    decreases arrow_len - col,
                {
                    let width: usize = if col < text.len() {
                        cfg.char_width(text[col], col).1
                    } else {
                        1
                    };
                    let vbar = get_vbar(labels, &line_labels, &margin_label, col, row);
                    let underline = if row == 0 {
                        get_underline(cfg, labels, &line_labels, line_off, col)
                    } else {
                        None
                    };
                    let cpair: ((char, Option<Color>), (char, Option<Color>)) = match vbar {
                        Some(vll) => {
                            let vcolor = labels[vll.label].color;
                            if underline.is_some() {
                                ((draw.underbar, vcolor), (draw.underline, vcolor))
                            } else if vll.multi && row == 0 && cfg.multiline_arrows {
                                ((draw.uarrow, vcolor), (' ', vcolor))
                            } else {
                                ((draw.vbar, vcolor), (' ', vcolor))
                            }
                        },
                        None => {
                            match underline {
                                Some(ull) => {
                                    let ucolor = labels[ull.label].color;
                                    ((draw.underline, ucolor), (draw.underline, ucolor))
                                },
                                None => ((' ', None), (' ', None)),
                            }
                        },
                    };
                    proof {
                        if all_clean {
                            assert(spec_clean_char(*cfg, ' '));
                        }
                    }
                    let mut k: usize = 0;
                    while k < width
                        invariant
                            out@.len() >= old(out)@.len(),
                            spec_grew(old(out)@, out@),
                            spec_grew(row_base, out@),
                            all_clean && spec_clean_char(*cfg, cpair.0.0) && spec_clean_char(
                                *cfg,
                                cpair.1.0,
                            ) ==> spec_clean_text(*cfg, out@),
                            cpair.0.1 is Some ==> cfg.color,
                            cpair.1.1 is Some ==> cfg.color,
                        decreases width - k,
                    {
                        if k == 0 {
                            push_styled_char(out, cfg, cpair.0.0, cpair.0.1);
                        } else {
                            push_styled_char(out, cfg, cpair.1.0, cpair.1.1);
                        }
                        k = k + 1;
                    }
                    col = col + 1;
                }
                out.push('\n');
                proof {
                    if all_clean {
                        assert(spec_clean_char(*cfg, '\n'));
                        assert(spec_clean_text(*cfg, out@));
                    }
                }
            }
            write_margin_and_arrows(
                out,
                cfg,
                draw,
                w,
                labels,
                multi_msg,
                slots,
                width,
                line_span,
                idx,
                false,
                is_ellipsis,
                Some((row, true)),
                &line_labels,
                &margin_label,
            );
            let ll_color = labels[ll.label].color;
            let mut col: usize = 0;
            while col < arrow_len
                invariant
                    out@.len() >= old(out)@.len(),
                    spec_grew(old(out)@, out@),
                    spec_grew(row_base, out@),
                    idxs_ok(multi_all@, labels@.len()),
                    lls_ok(line_labels@, labels@.len()),
                    ml_ok(margin_label, labels@.len()),
                    ll.label < labels@.len(),
                    forall|i: int| 0 <= i < labels@.len() ==> (#[trigger] labels@[i]).wf(),
                    !cfg.color ==> forall|i: int|
                        0 <= i < labels@.len() ==> (#[trigger] labels@[i]).color is None,
                    ll_color is Some ==> cfg.color,
                    all_clean == (spec_clean_text(*cfg, old(out)@) && spec_clean_draw(*cfg, *draw)
                        && group_clean(*cfg, *group)),
                    all_clean ==> spec_clean_text(*cfg, out@),
                decreases arrow_len - col,
            {
                let width: usize = if col < text.len() {
                    cfg.char_width(text[col], col).1
                } else {
                    1
                };
                let has_msg = labels[ll.label].msg.is_some();
                let is_hbar = (((col > ll.col) != ll.multi) || (has_msg && ll.draw_msg && col
                    > ll.col)) && has_msg;
                let cpair: ((char, Option<Color>), (char, Option<Color>));
                if col == ll.col && has_msg && !is_margin(&margin_label, ll.label) {
                    let ch = if ll.multi {
                        if ll.draw_msg {
                            draw.mbot
                        } else {
                            draw.rbot
                        }
                    } else {
                        draw.lbot
                    };
                    cpair = ((ch, ll_color), (draw.hbar, ll_color));
                } else {
                    let vbar = if col != ll.col || has_msg {
                        get_vbar(labels, &line_labels, &margin_label, col, row)
                    } else {
                        None
                    };
                    match vbar {
                        Some(vll) => {
                            if !cfg.cross_gap && is_hbar {
                                cpair = ((draw.xbar, ll_color), (' ', ll_color));
                            } else if is_hbar {
                                cpair = ((draw.hbar, ll_color), (draw.hbar, ll_color));
                            } else {
                                let ch = if vll.multi && row == 0 && cfg.compact {
                                    draw.uarrow
                                } else {
                                    draw.vbar
                                };
                                cpair = ((ch, labels[vll.label].color), (' ', ll_color));
                            }
                        },
                        None => {
                            if is_hbar {
                                cpair = ((draw.hbar, ll_color), (draw.hbar, ll_color));
                            } else {
                                cpair = ((' ', None), (' ', None));
                            }
                        },
                    }
                }
                proof {
                    if all_clean {
                        assert(spec_clean_char(*cfg, ' '));
                    }
                }
                if width > 0 {
                    push_styled_char(out, cfg, cpair.0.0, cpair.0.1);
                }
                let mut k: usize = 1;
                while k < width
                    invariant
                        out@.len() >= old(out)@.len(),
                        spec_grew(old(out)@, out@),
                        spec_grew(row_base, out@),
                        all_clean && spec_clean_char(*cfg, cpair.1.0) ==> spec_clean_text(
                            *cfg,
                            out@,
                        ),
                        cpair.1.1 is Some ==> cfg.color,
                    decreases width - k,
                {
                    push_styled_char(out, cfg, cpair.1.0, cpair.1.1);
                    k = k + 1;
                }
                col = col + 1;
            }
            let ghost before_msg = out@;
            if ll.draw_msg {
                match &labels[ll.label].msg {
                    Some(m) => {
                        out.push(' ');
                        push_chars(out, m);
                        proof {
                            if all_clean {
                                assert(spec_clean_char(*cfg, ' '));
                                assert(spec_clean_text(*cfg, m@));
                                assert(spec_clean_text(*cfg, out@));
                            }
                        }
                    },
                    None => {},
                }
            }
            out.push('\n');
            proof {
                if all_clean {
                    assert(spec_clean_char(*cfg, '\n'));
                    assert(spec_clean_text(*cfg, out@));
                }
                if ll.draw_msg {
                    let m = labels@[ll.label as int].msg->0;
                    assert(out@ =~= before_msg + seq![' '] + m@ + seq!['\n']);
                    let needle = spec_message_row(labels@[ll.label as int]);
                    assert(out@.subrange(
                        before_msg.len() as int,
                        before_msg.len() as int + needle.len() as int,
                    ) =~= needle);
                    assert(contains_run(out@, needle));
                }
                assert forall|r2: int|
                    0 <= r2 < row + 1 && (#[trigger] line_labels@[r2]).draw_msg && labels@[
                line_labels@[r2].label as int].msg is Some implies contains_run(
                    out@,
                    spec_message_row(labels@[line_labels@[r2].label as int]),
                ) by {
                    if r2 < row {
                        lemma_contains_run_grew(
                            row_base,
                            out@,
                            spec_message_row(labels@[line_labels@[r2].label as int]),
                        );
                    }
                }
            }
            row = row + 1;
        }
    proof {
        assert forall|li: int|
            0 <= li < labels@.len() && !(#[trigger] labels@[li]).multiline && labels@[li].msg
                is Some && spec_inline_on_line(group.src, labels@[li], idx as int) implies
            contains_run(out@, spec_message_row(labels@[li])) by {
            assert(line == group.src.spec_lines()[idx as int]);
            assert(labels@[li].char_start >= line_span.0 && labels@[li].char_end <= line_span.1);
            let k = choose|k: int|
                0 <= k < pre_sort.len() && (#[trigger] pre_sort[k]).label == li && pre_sort[
                k].draw_msg && !pre_sort[k].multi;
            assert(line_labels@.contains(pre_sort[k]));
            let k2 = choose|k2: int| 0 <= k2 < line_labels@.len() && line_labels@[k2] == pre_sort[k];
            assert(line_labels@[k2].draw_msg && labels@[line_labels@[k2].label as int].msg
                is Some);
            assert(contains_run(out@, spec_message_row(labels@[line_labels@[k2].label as int])));
        }
        assert forall|li: int|
            0 <= li < labels@.len() && (#[trigger] labels@[li]).multiline && labels@[li].msg
                is Some && spec_multi_end_on_line(group.src, labels@[li], idx as int) implies
            contains_run(out@, spec_message_row(labels@[li])) by {
            assert(line == group.src.spec_lines()[idx as int]);
            assert(li < nlabels);
            assert((li as usize) as int == li);
            assert(labels@[(li as usize) as int].multiline && labels@[(li as usize) as int].msg
                is Some);
            assert(multi_msg@.contains(li as usize));
            let q = choose|q: int| 0 <= q < multi_msg@.len() && multi_msg@[q] == li as usize;
            assert(line_span.0 <= spec_last_offset(labels@[multi_msg@[q] as int]) < line_span.1);
            assert(!(line_span.0 <= labels@[multi_msg@[q] as int].char_start < line_span.1));
            let k = choose|k: int|
                0 <= k < pre_sort.len() && (#[trigger] pre_sort[k]).label == multi_msg@[q]
                    && pre_sort[k].draw_msg;
            assert(line_labels@.contains(pre_sort[k]));
            let k2 = choose|k2: int| 0 <= k2 < line_labels@.len() && line_labels@[k2] == pre_sort[k];
            assert(line_labels@[k2].draw_msg && labels@[line_labels@[k2].label as int].msg
                is Some);
            assert(contains_run(out@, spec_message_row(labels@[line_labels@[k2].label as int])));
        }
    }
}

/// Renders the displayed lines of one group: source rows with their margins
/// and gutters, and the arrow rows of their labels.
#[verifier::rlimit(100)]
pub(crate) fn render_group_lines(
    out: &mut Vec<char>,
    cfg: &Config,
    draw: &Characters,
    w: usize,
    group: &SourceGroup,
)
    requires
        w <= 20,
        group.wf(),
        !cfg.color ==> forall|i: int|
            0 <= i < group.labels@.len() ==> (#[trigger] group.labels@[i]).color is None,
    ensures
        final(out)@.len() >= old(out)@.len(),
        spec_grew(old(out)@, final(out)@),
        spec_ends_nl(old(out)@) ==> spec_ends_nl(final(out)@),
        spec_clean_text(*cfg, old(out)@) && spec_clean_draw(*cfg, *draw) && group_clean(
            *cfg,
            *group,
        ) ==> spec_clean_text(*cfg, final(out)@),
        forall|li: int|
            0 <= li < group.labels@.len() && !(#[trigger] group.labels@[li]).multiline
                && group.labels@[li].msg is Some && (exists|x: int|
                group.line_start <= x < group.line_end && #[trigger] spec_inline_on_line(
                    group.src,
                    group.labels@[li],
                    x,
                )) ==> contains_run(final(out)@, spec_message_row(group.labels@[li])),
        forall|li: int|
            0 <= li < group.labels@.len() && (#[trigger] group.labels@[li]).multiline
                && group.labels@[li].msg is Some && (exists|x: int|
                group.line_start <= x < group.line_end && #[trigger] spec_multi_end_on_line(
                    group.src,
                    group.labels@[li],
                    x,
                )) ==> contains_run(final(out)@, spec_message_row(group.labels@[li])),
{
    let ghost all_clean = spec_clean_text(*cfg, old(out)@) && spec_clean_draw(*cfg, *draw)
        && group_clean(*cfg, *group);
    let labels = &group.labels;
    let multi_all = sorted_multi_labels(labels);
    let multi_msg = gutter_labels(labels);
    let gwidth = gutter_width(labels, &multi_msg);
    let slots = assign_gutter_slots(labels, &multi_msg, gwidth);
    let plan = plan_display_rows(
        cfg,
        labels,
        &multi_all,
        &multi_msg,
        &group.src,
        group.line_start,
        group.line_end,
    );
    let ghost full_plan = plan@;
    let mut pi: usize = 0;
    while pi < plan.len()
        invariant
            plan@ == full_plan,
            out@.len() >= old(out)@.len(),
            spec_grew(old(out)@, out@),
            spec_ends_nl(old(out)@) ==> spec_ends_nl(out@),
            w <= 20,
            group.wf(),
            labels == &group.labels,
            idxs_ok(multi_all@, labels@.len()),
            idxs_ok(multi_msg@, labels@.len()),
            slots@.len() == multi_msg@.len(),
            forall|k: int|
                0 <= k < multi_msg@.len() ==> labels@[#[trigger] multi_msg@[k] as int].multiline
                    && labels@[multi_msg@[k] as int].msg is Some,
            forall|li: usize|
                li < labels@.len() && (#[trigger] labels@[li as int]).multiline && labels@[
                li as int].msg is Some ==> multi_msg@.contains(li),
            !cfg.color ==> forall|i: int|
                0 <= i < labels@.len() ==> (#[trigger] labels@[i]).color is None,
            all_clean == (spec_clean_text(*cfg, old(out)@) && spec_clean_draw(*cfg, *draw)
                && group_clean(*cfg, *group)),
            all_clean ==> spec_clean_text(*cfg, out@),
            forall|i: int|
                0 <= i < plan@.len() ==> group.line_start <= (#[trigger] plan@[i]).spec_idx()
                    < group.line_end,
            forall|li: int|
                0 <= li < labels@.len() && !(#[trigger] labels@[li]).multiline && labels@[li].msg
                    is Some && (exists|k: int|
                    0 <= k < pi && (#[trigger] plan@[k]) is Source && spec_inline_on_line(
                        group.src,
                        labels@[li],
                        plan@[k].spec_idx() as int,
                    )) ==> contains_run(out@, spec_message_row(labels@[li])),
            forall|li: int|
                0 <= li < labels@.len() && (#[trigger] labels@[li]).multiline && labels@[li].msg
                    is Some && (exists|k: int|
                    0 <= k < pi && (#[trigger] plan@[k]) is Source && spec_multi_end_on_line(
                        group.src,
                        labels@[li],
                        plan@[k].spec_idx() as int,
                    )) ==> contains_run(out@, spec_message_row(labels@[li])),
        decreases plan@.len() - pi,
    {
        let ghost iter_base = out@;
        let entry_idx: usize;
        let is_ellipsis: bool;
        match &plan[pi] {
            RowPlan::Gap { idx } => {
                if !cfg.compact {
                    write_margin(out, cfg, draw, w, *idx, false, false);
                    out.push('\n');
                    proof {
                        if all_clean {
                            assert(spec_clean_char(*cfg, '\n'));
                            assert(spec_clean_text(*cfg, out@));
                        }
                    }
                }
                proof {
                    assert forall|li: int|
                        0 <= li < labels@.len() && !(#[trigger] labels@[li]).multiline && labels@[
                        li].msg is Some && (exists|k: int|
                        0 <= k < pi + 1 && (#[trigger] plan@[k]) is Source && spec_inline_on_line(
                            group.src,
                            labels@[li],
                            plan@[k].spec_idx() as int,
                        )) implies contains_run(out@, spec_message_row(labels@[li])) by {
                        let k = choose|k: int|
                            0 <= k < pi + 1 && (#[trigger] plan@[k]) is Source
                                && spec_inline_on_line(
                                group.src,
                                labels@[li],
                                plan@[k].spec_idx() as int,
                            );
                        assert(k < pi);
                        lemma_contains_run_grew(
                            iter_base,
                            out@,
                            spec_message_row(labels@[li]),
                        );
                    }
                    assert forall|li: int|
                        0 <= li < labels@.len() && (#[trigger] labels@[li]).multiline && labels@[
                        li].msg is Some && (exists|k: int|
                        0 <= k < pi + 1 && (#[trigger] plan@[k]) is Source
                            && spec_multi_end_on_line(
                            group.src,
                            labels@[li],
                            plan@[k].spec_idx() as int,
                        )) implies contains_run(out@, spec_message_row(labels@[li])) by {
                        let k = choose|k: int|
                            0 <= k < pi + 1 && (#[trigger] plan@[k]) is Source
                                && spec_multi_end_on_line(
                                group.src,
                                labels@[li],
                                plan@[k].spec_idx() as int,
                            );
                        assert(k < pi);
                        lemma_contains_run_grew(
                            iter_base,
                            out@,
                            spec_message_row(labels@[li]),
                        );
                    }
                }
                pi = pi + 1;
                continue ;
            },
            RowPlan::Source { idx, ellipsis } => {
                entry_idx = *idx;
                is_ellipsis = *ellipsis;
            },
        }
        let idx = entry_idx;
        proof {
            assert(plan@[pi as int].spec_idx() == idx);
        }
        render_source_row(
            out,
            cfg,
            draw,
            w,
            group,
            &multi_all,
            &multi_msg,
            &slots,
            gwidth,
            idx,
            is_ellipsis,
        );
        proof {
            assert forall|li: int|
                0 <= li < labels@.len() && !(#[trigger] labels@[li]).multiline && labels@[li].msg
                    is Some && (exists|k: int|
                    0 <= k < pi + 1 && (#[trigger] plan@[k]) is Source && spec_inline_on_line(
                        group.src,
                        labels@[li],
                        plan@[k].spec_idx() as int,
                    )) implies contains_run(out@, spec_message_row(labels@[li])) by {
                let k = choose|k: int|
                    0 <= k < pi + 1 && (#[trigger] plan@[k]) is Source && spec_inline_on_line(
                        group.src,
                        labels@[li],
                        plan@[k].spec_idx() as int,
                    );
                if k < pi {
                    lemma_contains_run_grew(iter_base, out@, spec_message_row(labels@[li]));
                } else {
                    assert(plan@[k].spec_idx() == idx);
                }
            }
            assert forall|li: int|
                0 <= li < labels@.len() && (#[trigger] labels@[li]).multiline && labels@[li].msg
                    is Some && (exists|k: int|
                    0 <= k < pi + 1 && (#[trigger] plan@[k]) is Source && spec_multi_end_on_line(
                        group.src,
                        labels@[li],
                        plan@[k].spec_idx() as int,
                    )) implies contains_run(out@, spec_message_row(labels@[li])) by {
                let k = choose|k: int|
                    0 <= k < pi + 1 && (#[trigger] plan@[k]) is Source && spec_multi_end_on_line(
                        group.src,
                        labels@[li],
                        plan@[k].spec_idx() as int,
                    );
                if k < pi {
                    lemma_contains_run_grew(iter_base, out@, spec_message_row(labels@[li]));
                } else {
                    assert(plan@[k].spec_idx() == idx);
                }
            }
        }
        pi = pi + 1;
    }
    proof {
        assert forall|li: int|
            0 <= li < labels@.len() && !(#[trigger] labels@[li]).multiline && labels@[li].msg
                is Some && (exists|x: int|
                group.line_start <= x < group.line_end && #[trigger] spec_inline_on_line(
                    group.src,
                    labels@[li],
                    x,
                )) implies contains_run(out@, spec_message_row(labels@[li])) by {
            let k = choose|k: int|
                0 <= k < plan@.len() && (#[trigger] plan@[k]) is Source && spec_inline_on_line(
                    group.src,
                    labels@[li],
                    plan@[k].spec_idx() as int,
                );
        }
        assert forall|li: int|
            0 <= li < labels@.len() && (#[trigger] labels@[li]).multiline && labels@[li].msg
                is Some && (exists|x: int|
                group.line_start <= x < group.line_end && #[trigger] spec_multi_end_on_line(
                    group.src,
                    labels@[li],
                    x,
                )) implies contains_run(out@, spec_message_row(labels@[li])) by {
            let k = choose|k: int|
                0 <= k < plan@.len() && (#[trigger] plan@[k]) is Source && spec_multi_end_on_line(
                    group.src,
                    labels@[li],
                    plan@[k].spec_idx() as int,
                );
        }
    }
}

/// A resolved label together with the index of the label it came from.
pub struct PendingLabel {
    /// The resolved form.
    pub rl: ResolvedLabel,
    /// The index, in the report, of the label it was resolved from.
    pub orig: usize,
}

/// Whether `a` must come after `b` in grouping order: by order value, then
/// end line, then start line.
pub open spec fn spec_pending_key_gt(a: PendingLabel, b: PendingLabel) -> bool {
    if a.rl.order != b.rl.order {
        a.rl.order > b.rl.order
    } else if a.rl.end_line != b.rl.end_line {
        a.rl.end_line > b.rl.end_line
    } else {
        a.rl.start_line > b.rl.start_line
    }
}

/// Decides the grouping order.
pub(crate) fn pending_key_gt(a: &PendingLabel, b: &PendingLabel) -> (r: bool)
    ensures
        r == spec_pending_key_gt(*a, *b),
{
    if a.rl.order != b.rl.order {
        a.rl.order > b.rl.order
    } else if a.rl.end_line != b.rl.end_line {
        a.rl.end_line > b.rl.end_line
    } else {
        a.rl.start_line > b.rl.start_line
    }
}

/// Sorts the resolved labels into grouping order — by order value, then end
/// line, then start line; equal keys keep their relative order — and keeps
/// exactly the given labels.
pub(crate) fn sort_pending(v: &mut Vec<PendingLabel>)
    ensures
        final(v)@.len() == old(v)@.len(),
        forall|k: int| 0 <= k < final(v)@.len() ==> old(v)@.contains(#[trigger] final(v)@[k]),
        forall|i: int, j: int|
            0 <= i < j < final(v)@.len() ==> !spec_pending_key_gt(
                #[trigger] final(v)@[i],
                #[trigger] final(v)@[j],
            ),
{
    proof {
        assert forall|k: int|
            0 <= k < v@.len() implies old(v)@.contains(#[trigger] v@[k]) by {
            assert(old(v)@[k] == v@[k]);
        }
    }
    let mut a: usize = 1;
    while a < v.len()
        invariant
            v@.len() == old(v)@.len(),
            forall|k: int| 0 <= k < v@.len() ==> old(v)@.contains(#[trigger] v@[k]),
            forall|i: int, j: int|
                0 <= i < j < a && j < v@.len() ==> !spec_pending_key_gt(
                    #[trigger] v@[i],
                    #[trigger] v@[j],
                ),
        decreases v@.len() - a,
    {
        let mut b: usize = a;
        while b > 0 && pending_key_gt(&v[b - 1], &v[b])
            invariant
                b <= a < v@.len(),
                v@.len() == old(v)@.len(),
                forall|k: int| 0 <= k < v@.len() ==> old(v)@.contains(#[trigger] v@[k]),
                forall|i: int, j: int|
                    0 <= i < j <= a && j != b ==> !spec_pending_key_gt(
                        #[trigger] v@[i],
                        #[trigger] v@[j],
                    ),
                forall|j: int|
                    b < j <= a ==> !spec_pending_key_gt(v@[b as int], #[trigger] v@[j]),
            decreases b,
        {
            let ghost before = v@;
            let x = v.remove(b);
            v.insert(b - 1, x);
            proof {
                assert forall|k: int|
                    0 <= k < v@.len() implies old(v)@.contains(#[trigger] v@[k]) by {
                    assert(v@[k] == before[k] || v@[k] == before[b as int] || v@[k] == before[b
                        - 1]);
                }
            }
            b = b - 1;
        }
        a = a + 1;
    }
}

impl<S: crate::Span> crate::Report<S> {
    /// Whether the labels at the two indices point into the same source.
    fn same_source(&self, a: usize, b: usize) -> bool
        requires
            a < self.labels@.len(),
            b < self.labels@.len(),
    {
        *self.labels[a].span.source() == *self.labels[b].span.source()
    }

    /// Render this report against the given cache and return the text.
    ///
    /// Each label is resolved against its source using the configured index
    /// type; offsets past the end of the source drop the label, and byte
    /// offsets inside a multi-byte character count back to the previous
    /// character boundary. One warning line is placed before the header for
    /// each label whose source the cache refuses. The result is never empty
    /// and always ends with a line feed; it carries the heading (the
    /// bracketed code and the kind's name), the message followed by a line
    /// feed, and one row for every single-line help and note.
    pub fn write_to_string<C: crate::Cache<S::SourceId>>(&self, cache: C) -> (r: String)
        ensures
            r@.len() > 0,
            r@.last() == '\n',
            contains_run(r@, spec_kind_text(self.kind)),
            self.code matches Some(c) ==> contains_run(r@, seq!['['] + c@ + seq![']', ' ']),
            self.msg matches Some(m) ==> contains_run(r@, m@ + seq!['\n']),
            forall|i: int|
                0 <= i < self.help@.len() && !(#[trigger] self.help@[i])@.contains('\n')
                    && self.help@[i]@.len() > 0 ==> contains_run(r@, self.help@[i]@ + seq!['\n']),
            forall|i: int|
                0 <= i < self.notes@.len() && !(#[trigger] self.notes@[i])@.contains('\n')
                    && self.notes@[i]@.len() > 0 ==> contains_run(r@, self.notes@[i]@ + seq![
                    '\n',
                ]),
            forall|i: int|
                0 <= i < self.help@.len() && (#[trigger] self.help@[i])@.len() > 0
                    ==> contains_run(r@, spec_first_line(self.help@[i]@) + seq!['\n']),
            forall|i: int|
                0 <= i < self.notes@.len() && (#[trigger] self.notes@[i])@.len() > 0
                    ==> contains_run(r@, spec_first_line(self.notes@[i]@) + seq!['\n']),
            !self.config.color && self.help@.len() == 1 && !self.help@[0]@.contains('\n')
                && self.help@[0]@.len() > 0 ==> contains_run(
                r@,
                "Help"@ + seq![':', ' '] + self.help@[0]@ + seq!['\n'],
            ),
            !self.config.color && self.notes@.len() == 1 && !self.notes@[0]@.contains('\n')
                && self.notes@[0]@.len() > 0 ==> contains_run(
                r@,
                "Note"@ + seq![':', ' '] + self.notes@[0]@ + seq!['\n'],
            ),
            !self.config.color && self.help@.len() > 1 ==> forall|i: int|
                0 <= i < self.help@.len() && !(#[trigger] self.help@[i])@.contains('\n')
                    && self.help@[i]@.len() > 0 ==> contains_run(
                    r@,
                    "Help"@ + seq![' '] + crate::text::spec_decimal((i + 1) as nat) + seq![
                        ':',
                        ' ',
                    ] + self.help@[i]@ + seq!['\n'],
                ),
            !self.config.color && self.notes@.len() > 1 ==> forall|i: int|
                0 <= i < self.notes@.len() && !(#[trigger] self.notes@[i])@.contains('\n')
                    && self.notes@[i]@.len() > 0 ==> contains_run(
                    r@,
                    "Note"@ + seq![' '] + crate::text::spec_decimal((i + 1) as nat) + seq![
                        ':',
                        ' ',
                    ] + self.notes@[i]@ + seq!['\n'],
                ),
    {
        let mut cache = cache;
        let cfg = self.config;

        let kind_text: Vec<char> = match &self.kind {
            crate::ReportKind::Error => crate::text::str_chars("Error"),
            crate::ReportKind::Warning => crate::text::str_chars("Warning"),
            crate::ReportKind::Advice => crate::text::str_chars("Advice"),
            crate::ReportKind::Custom(s, _) => crate::text::str_chars(s),
        };
        proof {
            assert(kind_text@ == spec_kind_text(self.kind));
        }
        let kind_color: Option<Color> = match &self.kind {
            crate::ReportKind::Error => cfg.error_color(),
            crate::ReportKind::Warning => cfg.warning_color(),
            crate::ReportKind::Advice => cfg.advice_color(),
            crate::ReportKind::Custom(_, c) => if cfg.color {
                Some(*c)
            } else {
                None
            },
        };

        let mut warnings: Vec<Vec<char>> = Vec::new();
        let mut pending: Vec<PendingLabel> = Vec::new();
        let mut j: usize = 0;
        while j < self.labels.len()
            invariant
                forall|k: int| 0 <= k < pending@.len() ==> (#[trigger] pending@[k]).rl.wf()
                    && pending@[k].orig < self.labels@.len(),
                !self.config.color ==> forall|k: int|
                    0 <= k < pending@.len() ==> (#[trigger] pending@[k]).rl.color is None,
            decreases self.labels@.len() - j,
        {
            match cache.fetch(self.labels[j].span.source()) {
                Err(e) => {
                    let name = match cache.display(self.labels[j].span.source()) {
                        Some(n) => n,
                        None => "<unknown>".to_owned(),
                    };
                    warnings.push(fetch_warning(&name, &e));
                },
                Ok(src) => {
                    match self.resolve_label(&src, j) {
                        Some(rl) => {
                            pending.push(PendingLabel { rl, orig: j });
                        },
                        None => {},
                    }
                },
            }
            j = j + 1;
        }

        // Stable sort into grouping order.
        let ghost unsorted = pending@;
        sort_pending(&mut pending);
        proof {
            assert forall|k: int|
                0 <= k < pending@.len() implies (#[trigger] pending@[k]).rl.wf() && pending@[
            k].orig < self.labels@.len() && (!self.config.color ==> pending@[k].rl.color
                is None) by {
                assert(unsorted.contains(pending@[k]));
                let k0 = choose|k0: int| 0 <= k0 < unsorted.len() && unsorted[k0] == pending@[k];
                assert(unsorted[k0].rl.wf());
            }
        }

        // Sweep adjacent labels of one source into groups; a label whose end
        // line steps backwards opens a fresh group for the same source.
        let mut groups: Vec<SourceGroup> = Vec::new();
        while pending.len() > 0
            invariant
                forall|q: int| 0 <= q < pending@.len() ==> (#[trigger] pending@[q]).rl.wf()
                    && pending@[q].orig < self.labels@.len(),
                forall|q: int| 0 <= q < groups@.len() ==> (#[trigger] groups@[q]).wf(),
                !self.config.color ==> forall|k: int|
                    0 <= k < pending@.len() ==> (#[trigger] pending@[k]).rl.color is None,
                !self.config.color ==> forall|g: int, k: int|
                    0 <= g < groups@.len() && 0 <= k < groups@[g].labels@.len()
                        ==> (#[trigger] groups@[g].labels@[k]).color is None,
            decreases pending@.len(),
        {
            let ghost pn = pending@.len();
            let first = pending.remove(0);
            let rep_orig = first.orig;
            let mut glabels: Vec<ResolvedLabel> = Vec::new();
            let mut last_end = first.rl.end_line;
            let mut min_sl = first.rl.start_line;
            let mut max_el = first.rl.end_line;
            glabels.push(first.rl);
            while pending.len() > 0 && self.same_source(rep_orig, pending[0].orig) && pending[
                0
            ].rl.end_line >= last_end
                invariant
                    pending@.len() < pn,
                    glabels@.len() > 0,
                    rep_orig < self.labels@.len(),
                    forall|q: int| 0 <= q < pending@.len() ==> (#[trigger] pending@[q]).rl.wf()
                        && pending@[q].orig < self.labels@.len(),
                    forall|q: int| 0 <= q < glabels@.len() ==> (#[trigger] glabels@[q]).wf(),
                    forall|q: int|
                        #![trigger glabels@[q], glabels@[q + 1]]
                        0 <= q < glabels@.len() - 1 ==> glabels@[q].end_line <= glabels@[q
                            + 1].end_line,
                    glabels@.last().end_line == last_end,
                    forall|q: int|
                        0 <= q < glabels@.len() ==> (#[trigger] glabels@[q]).end_line <= last_end,
                    forall|q: int|
                        0 <= q < glabels@.len() ==> min_sl <= (#[trigger] glabels@[q]).start_line,
                    !self.config.color ==> forall|k: int|
                        0 <= k < pending@.len() ==> (#[trigger] pending@[k]).rl.color is None,
                    !self.config.color ==> forall|q: int|
                        0 <= q < glabels@.len() ==> (#[trigger] glabels@[q]).color is None,
                    min_sl <= max_el,
                decreases pending@.len(),
            {
                let nxt = pending.remove(0);
                last_end = nxt.rl.end_line;
                if nxt.rl.start_line < min_sl {
                    min_sl = nxt.rl.start_line;
                }
                if nxt.rl.end_line > max_el {
                    max_el = nxt.rl.end_line;
                }
                glabels.push(nxt.rl);
            }
            // Close the group.
            match cache.fetch(self.labels[rep_orig].span.source()) {
                Err(e) => {
                    let name = match cache.display(self.labels[rep_orig].span.source()) {
                        Some(n) => n,
                        None => "<unknown>".to_owned(),
                    };
                    warnings.push(fetch_warning(&name, &e));
                },
                Ok(src) => {
                    let name: Option<Vec<char>> = match cache.display(
                        self.labels[rep_orig].span.source(),
                    ) {
                        Some(n) => Some(crate::text::str_chars(n.as_str())),
                        None => None,
                    };
                    let primary = *self.labels[rep_orig].span.source() == *self.span.source();
                    let loc_off = if primary {
                        self.span.start()
                    } else {
                        glabels[0].char_start
                    };
                    let location = resolve_location(&src, cfg.index_type, loc_off);
                    let lc = src.line_count();
                    let ls0 = min_sl.saturating_sub(cfg.context_lines);
                    let le0 = max_el.saturating_add(1).saturating_add(cfg.context_lines);
                    let le = if lc == 0 {
                        1
                    } else {
                        if le0 < lc {
                            le0
                        } else {
                            lc
                        }
                    };
                    let ls = if ls0 < le {
                        ls0
                    } else {
                        if le > 0 {
                            le - 1
                        } else {
                            0
                        }
                    };
                    let group = SourceGroup {
                        src,
                        name,
                        location,
                        labels: glabels,
                        line_start: ls,
                        line_end: le,
                    };
                    proof {
                        assert(group.wf());
                    }
                    groups.push(group);
                },
            }
        }

        let code: Option<Vec<char>> = match &self.code {
            Some(c) => Some(crate::text::str_chars(c.as_str())),
            None => None,
        };
        let msg: Option<Vec<char>> = match &self.msg {
            Some(m) => Some(crate::text::str_chars(m.as_str())),
            None => None,
        };
        let helps = strings_to_chars(&self.help);
        let notes = strings_to_chars(&self.notes);

        let rr = ResolvedReport {
            kind_text,
            kind_color,
            code,
            msg,
            helps,
            notes,
            groups,
            warnings,
            config: cfg,
        };
        let out = render_resolved(&rr);
        proof {
            match &self.code {
                Some(c) => {
                    assert(rr.code matches Some(cc) && cc@ == c@);
                },
                None => {},
            }
            match &self.msg {
                Some(m) => {
                    assert(rr.msg matches Some(mm) && mm@ == m@);
                },
                None => {},
            }
            assert forall|i: int|
                0 <= i < self.help@.len() && !(#[trigger] self.help@[i])@.contains('\n')
                    && self.help@[i]@.len() > 0 implies contains_run(
                out@,
                self.help@[i]@ + seq!['\n'],
            ) by {
                assert(rr.helps@[i]@ == self.help@[i]@);
                assert(contains_run(out@, rr.helps@[i]@ + seq!['\n']));
            }
            assert forall|i: int|
                0 <= i < self.notes@.len() && !(#[trigger] self.notes@[i])@.contains('\n')
                    && self.notes@[i]@.len() > 0 implies contains_run(
                out@,
                self.notes@[i]@ + seq!['\n'],
            ) by {
                assert(rr.notes@[i]@ == self.notes@[i]@);
                assert(contains_run(out@, rr.notes@[i]@ + seq!['\n']));
            }
            assert forall|i: int|
                0 <= i < self.help@.len() && (#[trigger] self.help@[i])@.len() > 0 implies
                contains_run(out@, spec_first_line(self.help@[i]@) + seq!['\n']) by {
                assert(rr.helps@[i]@ == self.help@[i]@);
                assert(contains_run(out@, spec_first_line(rr.helps@[i]@) + seq!['\n']));
            }
            assert forall|i: int|
                0 <= i < self.notes@.len() && (#[trigger] self.notes@[i])@.len() > 0 implies
                contains_run(out@, spec_first_line(self.notes@[i]@) + seq!['\n']) by {
                assert(rr.notes@[i]@ == self.notes@[i]@);
                assert(contains_run(out@, spec_first_line(rr.notes@[i]@) + seq!['\n']));
            }
            if !self.config.color {
                if self.help@.len() == 1 && !self.help@[0]@.contains('\n') && self.help@[
                0]@.len() > 0 {
                    assert(rr.helps@[0]@ == self.help@[0]@);
                    assert(contains_run(
                        out@,
                        "Help"@ + seq![':', ' '] + rr.helps@[0]@ + seq!['\n'],
                    ));
                }
                if self.notes@.len() == 1 && !self.notes@[0]@.contains('\n') && self.notes@[
                0]@.len() > 0 {
                    assert(rr.notes@[0]@ == self.notes@[0]@);
                    assert(contains_run(
                        out@,
                        "Note"@ + seq![':', ' '] + rr.notes@[0]@ + seq!['\n'],
                    ));
                }
                if self.help@.len() > 1 {
                    assert forall|i: int|
                        0 <= i < self.help@.len() && !(#[trigger] self.help@[i])@.contains('\n')
                            && self.help@[i]@.len() > 0 implies contains_run(
                        out@,
                        "Help"@ + seq![' '] + crate::text::spec_decimal((i + 1) as nat) + seq![
                            ':',
                            ' ',
                        ] + self.help@[i]@ + seq!['\n'],
                    ) by {
                        assert(rr.helps@[i]@ == self.help@[i]@);
                        assert(contains_run(
                            out@,
                            "Help"@ + seq![' '] + crate::text::spec_decimal((i + 1) as nat)
                                + seq![':', ' '] + rr.helps@[i]@ + seq!['\n'],
                        ));
                    }
                }
                if self.notes@.len() > 1 {
                    assert forall|i: int|
                        0 <= i < self.notes@.len() && !(#[trigger] self.notes@[i])@.contains(
                        '\n') && self.notes@[i]@.len() > 0 implies contains_run(
                        out@,
                        "Note"@ + seq![' '] + crate::text::spec_decimal((i + 1) as nat) + seq![
                            ':',
                            ' ',
                        ] + self.notes@[i]@ + seq!['\n'],
                    ) by {
                        assert(rr.notes@[i]@ == self.notes@[i]@);
                        assert(contains_run(
                            out@,
                            "Note"@ + seq![' '] + crate::text::spec_decimal((i + 1) as nat)
                                + seq![':', ' '] + rr.notes@[i]@ + seq!['\n'],
                        ));
                    }
                }
            }
        }
        chars_to_string(&out)
    }

    /// Resolve the label at the given index against its source: its
    /// character span and the lines it covers. `None` drops a label whose
    /// offsets lie past the end of the source.
    fn resolve_label(&self, src: &Source, j: usize) -> (r: Option<ResolvedLabel>)
        requires
            j < self.labels@.len(),
        ensures
            r matches Some(rl) ==> rl.wf(),
            !self.config.color ==> (r matches Some(rl) ==> rl.color is None),
            r matches Some(rl) ==> {
                &&& rl.multiline == (rl.start_line != rl.end_line)
                &&& rl.order == self.labels@[j as int].spec_order()
                &&& rl.priority == self.labels@[j as int].spec_priority()
                &&& (rl.msg is Some <==> self.labels@[j as int].spec_msg() is Some)
                &&& (self.labels@[j as int].spec_msg() matches Some(m) ==> rl.msg matches Some(mc)
                    && mc@ == m@)
                &&& rl.start_line <= rl.end_line
            },
            self.config.index_type == crate::IndexType::Char ==> (r matches Some(rl) ==> {
                &&& rl.char_start == self.labels@[j as int].spec_span().spec_start()
                &&& rl.char_end == if self.labels@[j as int].spec_span().spec_end()
                    >= self.labels@[j as int].spec_span().spec_start() {
                    self.labels@[j as int].spec_span().spec_end()
                } else {
                    self.labels@[j as int].spec_span().spec_start()
                }
                &&& rl.start_line < src.spec_lines().len() || (src.spec_lines().len() == 0
                    && rl.start_line == 0)
            }),
            self.config.index_type == crate::IndexType::Char ==> (r is Some <==> {
                let s = self.labels@[j as int].spec_span().spec_start();
                let e = self.labels@[j as int].spec_span().spec_end();
                let e2 = if e >= s {
                    e
                } else {
                    s
                };
                &&& (s <= src.spec_len() && src.spec_lines().len() > 0 || (src.spec_lines().len()
                    == 0 && s == 0))
                &&& (s < e2 ==> e2 - 1 <= src.spec_len() && src.spec_lines().len() > 0)
            }),
    {
        let lab = &self.labels[j];
        let s_off = lab.span.start();
        let e_raw = lab.span.end();
        let e_off = if e_raw < s_off {
            s_off
        } else {
            e_raw
        };
        let cfg = self.config;
        let resolved: Option<(usize, usize, usize, usize)> = match cfg.index_type {
            crate::IndexType::Char => {
                let start_line: Option<usize> = match src.get_offset_line(s_off) {
                    Some(sres) => Some(sres.1),
                    None => if src.line_count() == 0 && s_off == 0 {
                        Some(0)
                    } else {
                        None
                    },
                };
                match start_line {
                    None => None,
                    Some(sl) => {
                        if s_off >= e_off {
                            Some((s_off, e_off, sl, sl))
                        } else {
                            match src.get_offset_line(e_off - 1) {
                                None => None,
                                Some(eres) => Some((s_off, e_off, sl, eres.1)),
                            }
                        }
                    },
                }
            },
            crate::IndexType::Byte => {
                let start_res: Option<(usize, usize)> = match src.get_byte_line(s_off) {
                    Some(sres) => {
                        let sline = sres.0;
                        let sl = sres.1;
                        let scol = sres.2;
                        proof {
                            use_type_invariant(src);
                            crate::source::lemma_line_extent(
                                src.spec_chars(),
                                src.spec_lines(),
                                sl as int,
                            );
                        }
                        let nb = src.chars_before_byte(sline, scol);
                        Some((sline.offset() + nb, sl))
                    },
                    None => if src.line_count() == 0 && s_off == 0 {
                        Some((0, 0))
                    } else {
                        None
                    },
                };
                match start_res {
                    None => None,
                    Some(sres2) => {
                        let start_char = sres2.0;
                        let sl = sres2.1;
                        if s_off >= e_off {
                            Some((start_char, start_char, sl, sl))
                        } else {
                            match src.get_byte_line(e_off - 1) {
                                None => None,
                                Some(eres) => {
                                    let eline = eres.0;
                                    let el = eres.1;
                                    let ecol = eres.2;
                                    proof {
                                        use_type_invariant(src);
                                        crate::source::lemma_line_extent(
                                            src.spec_chars(),
                                            src.spec_lines(),
                                            el as int,
                                        );
                                    }
                                    let ne = src.chars_before_byte(
                                        eline,
                                        ecol.saturating_add(1),
                                    );
                                    let end_char = eline.offset() + ne;
                                    Some((start_char, end_char, sl, el))
                                },
                            }
                        }
                    },
                }
            },
        };
        match resolved {
            None => None,
            Some(t) => {
                let cs = t.0;
                let ce = if t.1 < t.0 {
                    t.0
                } else {
                    t.1
                };
                let sl = t.2;
                let el = if t.3 < t.2 {
                    t.2
                } else {
                    t.3
                };
                let msg: Option<Vec<char>> = match &lab.msg {
                    Some(m) => Some(crate::text::str_chars(m.as_str())),
                    None => None,
                };
                Some(
                    ResolvedLabel {
                        char_start: cs,
                        char_end: ce,
                        start_line: sl,
                        end_line: el,
                        multiline: sl != el,
                        msg,
                        color: if cfg.color {
                            lab.color
                        } else {
                            None
                        },
                        order: lab.order,
                        priority: lab.priority,
                    },
                )
            },
        }
    }
}

/// The location shown in a group's file reference: the line index and
/// character column of the given offset, resolved per the index type.
/// Character offsets resolve directly; byte offsets resolve to a byte
/// column that is then counted back to whole characters. An offset past
/// the end of the source yields no location; offset zero of an empty
/// source is its first line and column.
pub(crate) fn resolve_location(src: &Source, index_type: crate::IndexType, off: usize) -> (r:
    Option<(usize, usize)>)
    ensures
        r matches Some(l) ==> l.0 < usize::MAX && l.1 < usize::MAX,
        index_type == crate::IndexType::Char && off < usize::MAX ==> (r is Some <==> (off
            <= src.spec_len() && src.spec_lines().len() > 0) || (src.spec_lines().len() == 0
            && off == 0)),
        index_type == crate::IndexType::Char ==> (r matches Some(l) ==> if src.spec_lines().len()
            > 0 {
            &&& l.0 < src.spec_lines().len()
            &&& src.spec_lines()[l.0 as int].spec_offset() <= off
            &&& l.1 == off - src.spec_lines()[l.0 as int].spec_offset()
            &&& (off < src.spec_lines()[l.0 as int].spec_end() || l.0 == src.spec_lines().len()
                - 1)
        } else {
            l == (0usize, 0usize)
        }),
        index_type == crate::IndexType::Byte && off < usize::MAX ==> (r is Some <==> (off
            <= src.spec_byte_len() && src.spec_lines().len() > 0) || (src.spec_lines().len() == 0
            && off == 0)),
        index_type == crate::IndexType::Byte ==> (r matches Some(l) ==> if src.spec_lines().len()
            > 0 {
            &&& l.0 < src.spec_lines().len()
            &&& src.spec_lines()[l.0 as int].spec_byte_offset() <= off
            &&& l.1 == crate::text::spec_chars_fitting(
                src.spec_chars().subrange(
                    src.spec_lines()[l.0 as int].spec_offset() as int,
                    src.spec_lines()[l.0 as int].spec_end(),
                ),
                off - src.spec_lines()[l.0 as int].spec_byte_offset(),
            )
        } else {
            l == (0usize, 0usize)
        }),
{
    let lc = src.line_count();
    let empty_src = lc == 0;
    let raw: Option<(usize, usize)> = match index_type {
        crate::IndexType::Char => {
            match src.get_offset_line(off) {
                Some(res) => Some((res.1, res.2)),
                None => if empty_src && off == 0 {
                    Some((0, 0))
                } else {
                    None
                },
            }
        },
        crate::IndexType::Byte => {
            match src.get_byte_line(off) {
                Some(res) => {
                    proof {
                        use_type_invariant(src);
                        crate::source::lemma_line_extent(
                            src.spec_chars(),
                            src.spec_lines(),
                            res.1 as int,
                        );
                    }
                    let c = src.chars_before_byte(res.0, res.2);
                    Some((res.1, c))
                },
                None => if empty_src && off == 0 {
                    Some((0, 0))
                } else {
                    None
                },
            }
        },
    };
    match raw {
        Some(l) => {
            if l.0 < usize::MAX && l.1 < usize::MAX {
                Some(l)
            } else {
                None
            }
        },
        None => None,
    }
}

/// The warning emitted when a source cannot be fetched: the failed name and
/// the cache's explanation.
pub(crate) fn fetch_warning(name: &String, err: &String) -> (r: Vec<char>)
    ensures
        r@ == "Unable to fetch source "@ + name@ + seq![':', ' '] + err@,
{
    let mut line = crate::text::str_chars("Unable to fetch source ");
    let name_chars = crate::text::str_chars(name.as_str());
    push_chars(&mut line, &name_chars);
    line.push(':');
    line.push(' ');
    let err_chars = crate::text::str_chars(err.as_str());
    push_chars(&mut line, &err_chars);
    proof {
        assert(line@ =~= "Unable to fetch source "@ + name@ + seq![':', ' '] + err@);
    }
    line
}

/// Each string of the list, as its characters.
pub(crate) fn strings_to_chars(v: &Vec<String>) -> (r: Vec<Vec<char>>)
    ensures
        r@.len() == v@.len(),
        forall|i: int| 0 <= i < v@.len() ==> (#[trigger] r@[i])@ == v@[i]@,
{
    let mut out: Vec<Vec<char>> = Vec::new();
    let mut i: usize = 0;
    while i < v.len()
        invariant
            out@.len() == i,
            i <= v@.len(),
            forall|k: int| 0 <= k < i ==> (#[trigger] out@[k])@ == v@[k]@,
        decreases v@.len() - i,
    {
        out.push(crate::text::str_chars(v[i].as_str()));
        i = i + 1;
    }
    out
}

/// Appends the single character `c` to `out`, painted in `color` when one is
/// given.
pub(crate) fn push_styled_char(out: &mut Vec<char>, cfg: &Config, c: char, color: Option<Color>)
    requires
        color is Some ==> cfg.color,
    ensures
        color is None ==> final(out)@ == old(out)@ + seq![c],
        final(out)@.len() >= old(out)@.len(),
        spec_grew(old(out)@, final(out)@),
        spec_clean_text(*cfg, old(out)@) && spec_clean_char(*cfg, c) ==> spec_clean_text(
            *cfg,
            final(out)@,
        ),
{
    let mut text: Vec<char> = Vec::new();
    text.push(c);
    proof {
        assert(forall|i: int| 0 <= i < text@.len() ==> #[trigger] text@[i] == c);
    }
    push_styled(out, cfg, &text, color);
}

} // verus!
