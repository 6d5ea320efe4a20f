//! Unit behaviour: colour emission and suppression, ASCII-only output,
//! deterministic rendering, codes, builder mutators, display widths, fetch
//! failures, source queries, and the small value types.

use ariadne::caused_by::{CausedBy, CausedByConfig, CausedByFrame};
use ariadne::file::File;
use ariadne::next::{Color as StyleColor, Style};
use ariadne::render::{CharacterSet, FmtWriter, IoWriter, TextConfig};
use ariadne::span::{ByteSpan, CharSpan, Offset, Span};
use ariadne::file::{files, NamedCache};
use ariadne::{
    assign_gutter_slots, gutter_labels, gutter_width, Cache, CharSet, Config, FnCache, Label,
    Report, ReportKind, ResolvedLabel, Source,
};

fn no_color() -> Config {
    Config::default().with_color(false)
}

fn remove_trailing(s: String) -> String {
    s.lines().flat_map(|l| [l.trim_end(), "\n"]).collect()
}

#[test]
fn colored_output_carries_escapes_and_message() {
    let msg = Report::build(ReportKind::Error, 0..0)
        .with_message("boom")
        .with_label(Label::new(0..5).with_message("here"))
        .finish()
        .write_to_string(Source::from("apple == orange;"));
    assert!(msg.contains('\u{1b}'));
    assert!(msg.contains("boom"));
    assert!(msg.contains("here"));
}

#[test]
fn colorless_output_has_no_escapes() {
    let msg = Report::build(ReportKind::Error, 0..0)
        .with_config(no_color())
        .with_message("boom")
        .with_label(Label::new(0..5).with_message("here"))
        .finish()
        .write_to_string(Source::from("apple == orange;"));
    assert!(!msg.contains('\u{1b}'));
}

#[test]
fn ascii_charset_stays_ascii() {
    let msg = Report::build(ReportKind::Error, 0..0)
        .with_config(no_color().with_char_set(CharSet::Ascii))
        .with_message("boom")
        .with_label(Label::new(0..5).with_message("here"))
        .with_help("peel it")
        .with_note("stop")
        .finish()
        .write_to_string(Source::from("apple == orange;"));
    assert!(msg.bytes().all(|b| b < 128));
}

#[test]
fn rendering_twice_is_identical() {
    let report = Report::build(ReportKind::Error, 0..0)
        .with_config(no_color())
        .with_message("boom")
        .with_label(Label::new(0..5).with_message("here"))
        .finish();
    let a = report.write_to_string(Source::from("apple == orange;"));
    let b = report.write_to_string(Source::from("apple == orange;"));
    assert_eq!(a, b);
}

#[test]
fn code_is_zero_padded() {
    let msg = Report::build(ReportKind::Error, 0..0)
        .with_config(no_color())
        .with_code(3)
        .with_message("boom")
        .finish()
        .write_to_string(Source::from(""));
    assert!(msg.starts_with("[03] Error: boom"));
    let msg = Report::build(ReportKind::Warning, 0..0)
        .with_config(no_color())
        .with_code(214)
        .with_message("hm")
        .finish()
        .write_to_string(Source::from(""));
    assert!(msg.starts_with("[214] Warning: hm"));
}

#[test]
fn custom_kind_uses_its_name() {
    let msg = Report::build(
        ReportKind::Custom("Lint", ariadne::Color::Fixed(12)),
        0..0,
    )
    .with_config(no_color())
    .with_message("dusty")
    .finish()
    .write_to_string(Source::from(""));
    assert!(msg.starts_with("Lint: dusty"));
}

#[test]
fn builder_mutators_match_builder_chain() {
    let mut b = Report::build(ReportKind::Error, 0..0).with_config(no_color());
    b.set_message("boom");
    b.add_label(Label::new(0..5).with_message("here"));
    b.add_help("peel it");
    b.add_note("stop");
    let via_mutators = b.finish().write_to_string(Source::from("apple == orange;"));

    let via_chain = Report::build(ReportKind::Error, 0..0)
        .with_config(no_color())
        .with_message("boom")
        .with_label(Label::new(0..5).with_message("here"))
        .with_help("peel it")
        .with_note("stop")
        .finish()
        .write_to_string(Source::from("apple == orange;"));
    assert_eq!(via_mutators, via_chain);
}

#[test]
fn set_note_and_set_help_replace() {
    let mut b = Report::build(ReportKind::Error, 0..0).with_config(no_color());
    b.add_note("first");
    b.set_note("only note");
    b.add_help("first");
    b.set_help("only help");
    let msg = remove_trailing(b.finish().write_to_string(Source::from("")));
    assert!(msg.contains("Help: only help"));
    assert!(msg.contains("Note: only note"));
    assert!(!msg.contains("first"));
}

#[test]
fn with_labels_adds_all() {
    let labels = vec![
        Label::new(0..5).with_message("This is an apple"),
        Label::new(9..15).with_message("This is an orange"),
    ];
    let via_list = Report::build(ReportKind::Error, 0..0)
        .with_config(no_color())
        .with_labels(labels)
        .finish()
        .write_to_string(Source::from("apple == orange;"));
    let via_single = Report::build(ReportKind::Error, 0..0)
        .with_config(no_color())
        .with_label(Label::new(0..5).with_message("This is an apple"))
        .with_label(Label::new(9..15).with_message("This is an orange"))
        .finish()
        .write_to_string(Source::from("apple == orange;"));
    assert_eq!(via_list, via_single);
}

#[test]
fn wide_character_occupies_two_columns() {
    let expected = "Error:
   ╭─[ <unknown>:1:1 ]
   │
 1 │ 好!
   │ ──┬
   │   ╰── w
───╯
";
    let msg = remove_trailing(
        Report::build(ReportKind::Error, 0..0)
            .with_config(no_color())
            .with_label(Label::new(0..2).with_message("w"))
            .finish()
            .write_to_string(Source::from("好!")),
    );
    assert_eq!(msg, expected);
}

#[test]
fn unfetchable_source_warns_and_skips() {
    let expected = "Unable to fetch source 5: Failed to fetch source '5'
Error:
";
    let mut v: Vec<(usize, Source)> = Vec::new();
    v.push((0, Source::from("apple")));
    let cache = FnCache::new().with_sources(v);
    let msg = remove_trailing(
        Report::build(ReportKind::Error, (5, 0..0))
            .with_config(no_color())
            .with_label(Label::new((5, 0..3)).with_message("x"))
            .finish()
            .write_to_string(cache),
    );
    assert_eq!(msg, expected);
}

#[test]
fn offsets_past_the_end_drop_the_label() {
    let msg = remove_trailing(
        Report::build(ReportKind::Error, 0..0)
            .with_config(no_color())
            .with_message("boom")
            .with_label(Label::new(90..95).with_message("gone"))
            .finish()
            .write_to_string(Source::from("apple")),
    );
    assert_eq!(msg, "Error: boom\n");
}

#[test]
fn source_queries() {
    let src = Source::from("ab\ncd");
    assert_eq!(src.len(), 5);
    assert_eq!(src.line_count(), 2);
    let (line, idx, col) = src.get_offset_line(4).unwrap();
    assert_eq!(idx, 1);
    assert_eq!(col, 1);
    assert_eq!(line.offset(), 3);
    assert_eq!(line.len(), 2);
    assert_eq!(src.get_line_text(line).unwrap(), "cd");
    assert!(src.get_offset_line(6).is_none());
    let (_, bidx, bcol) = src.get_byte_line(3).unwrap();
    assert_eq!(bidx, 1);
    assert_eq!(bcol, 0);
    assert_eq!(src.chars(), vec!['a', 'b', '\n', 'c', 'd']);
    assert_eq!(src.line(0).unwrap().span(), (0, 3));
    assert!(src.line(2).is_none());
    assert_eq!(src.get_line_range(&(0..5)), (0, 2));
    assert_eq!(src.get_line_range(&(0..2)), (0, 1));
    assert_eq!(src.get_line_range(&(4..5)), (1, 2));
}

#[test]
fn config_builders_set_their_fields() {
    let c = Config::new()
        .with_cross_gap(false)
        .with_compact(true)
        .with_underlines(false)
        .with_multiline_arrows(false)
        .with_color(false)
        .with_tab_width(8)
        .with_char_set(CharSet::Ascii)
        .with_index_type(ariadne::IndexType::Byte)
        .with_minimise_crossings(true)
        .with_context_lines(2)
        .with_label_attach(ariadne::LabelAttach::End);
    assert!(!c.cross_gap);
    assert!(c.compact);
    assert!(!c.underlines);
    assert!(!c.multiline_arrows);
    assert!(!c.color);
    assert_eq!(c.tab_width, 8);
    assert_eq!(c.char_set, CharSet::Ascii);
    assert_eq!(c.index_type, ariadne::IndexType::Byte);
    assert!(c.minimise_crossings);
    assert_eq!(c.context_lines, 2);
    assert_eq!(c.label_attach, ariadne::LabelAttach::End);
}

#[test]
fn caused_by_frames() {
    let cfg = CausedByConfig::default();
    assert!(cfg.show_label_numbers);
    assert_eq!(cfg.label_index_start, 1);
    let frame = CausedByFrame::new("main.rs")
        .with_object("core::run")
        .with_position(3, 7);
    assert_eq!(frame.file, "main.rs");
    assert_eq!(frame.object.as_deref(), Some("core::run"));
    assert_eq!(frame.position, Some((3, 7)));
    let mut trace = CausedBy::default();
    trace.push_frame(frame);
    assert_eq!(trace.frames.len(), 1);
    trace.clear();
    assert_eq!(trace.frames.len(), 0);
}

#[test]
fn offset_spans() {
    let b = ByteSpan::new(2..5, ());
    assert_eq!(b.start, 2);
    assert_eq!(b.end, 5);
    assert_eq!(b.range(), (Offset::Byte(2), Offset::Byte(5)));
    let c = CharSpan::new(1..4, 7u32);
    assert_eq!(*c.file_id(), 7);
    let (id, range) = c.into_parts();
    assert_eq!(id, 7);
    assert_eq!(range, (Offset::Char(1), Offset::Char(4)));
}

#[test]
fn file_lines() {
    let f = File::new("ab\ncd");
    assert_eq!(f.line(0).unwrap(), "ab\n");
    assert_eq!(f.line(1).unwrap(), "cd");
    assert!(f.line(2).is_none());
    let empty = File::new("");
    assert_eq!(empty.line(0).unwrap(), "");
}

#[test]
fn render_targets_hold_their_sinks() {
    assert_eq!(CharacterSet::ascii().margin_bar, '|');
    assert_eq!(CharacterSet::unicode().margin_bar, '│');
    assert_eq!(TextConfig::default().chars.margin_bar, '│');
    assert_eq!(FmtWriter::new(5u32).into_inner(), 5);
    assert_eq!(IoWriter::new(String::new()).into_inner(), "");
}

fn multi_label(start_line: usize, end_line: usize) -> ResolvedLabel {
    ResolvedLabel {
        char_start: 0,
        char_end: 1,
        start_line,
        end_line,
        multiline: true,
        msg: Some(vec!['m']),
        color: None,
        order: 0,
        priority: 0,
    }
}

#[test]
fn gutter_reuses_columns_of_disjoint_labels() {
    let labels = vec![multi_label(0, 1), multi_label(4, 5)];
    let ms = gutter_labels(&labels);
    assert_eq!(ms, vec![0, 1]);
    let width = gutter_width(&labels, &ms);
    assert_eq!(width, 1);
    assert_eq!(assign_gutter_slots(&labels, &ms, width), vec![0, 0]);
}

#[test]
fn gutter_separates_overlapping_labels() {
    let labels = vec![multi_label(0, 5), multi_label(2, 3), multi_label(4, 6)];
    let ms = gutter_labels(&labels);
    assert_eq!(ms, vec![0, 1, 2]);
    let width = gutter_width(&labels, &ms);
    assert_eq!(width, 2);
    assert_eq!(assign_gutter_slots(&labels, &ms, width), vec![0, 1, 1]);
}

#[test]
fn later_source_with_same_id_wins() {
    let mut cache = FnCache::new().with_sources(vec![
        (0usize, Source::from("first")),
        (0usize, Source::from("second")),
    ]);
    let fetched = cache.fetch(&0).unwrap();
    assert_eq!(fetched.chars(), "second".chars().collect::<Vec<char>>());
}

#[test]
fn named_cache_serves_names_and_sources() {
    let mut cache: NamedCache<u32> = files(vec![
        (1, "one.txt".to_string(), "alpha".to_string()),
        (2, "two.txt".to_string(), "beta".to_string()),
    ]);
    assert_eq!(cache.display(&2).as_deref(), Some("two.txt"));
    assert!(cache.display(&9).is_none());
    assert_eq!(cache.fetch(&1).unwrap().len(), 5);
    assert!(cache.fetch(&9).is_err());
    let msg = remove_trailing(
        Report::build(ReportKind::Error, (1u32, 0..5))
            .with_config(no_color())
            .with_label(Label::new((1u32, 0..5)).with_message("here"))
            .finish()
            .write_to_string(cache),
    );
    assert!(msg.contains("one.txt:1:1"));
    assert!(msg.contains("here"));
}

#[test]
fn with_notes_and_with_helps_append_all() {
    let mut b = Report::build(ReportKind::Error, 0..0).with_config(no_color());
    b.with_helps(vec!["first help".to_string(), "second help".to_string()]);
    b.with_notes(vec!["first note".to_string(), "second note".to_string()]);
    let msg = remove_trailing(b.finish().write_to_string(Source::from("")));
    assert!(msg.contains("Help 1: first help"));
    assert!(msg.contains("Help 2: second help"));
    assert!(msg.contains("Note 1: first note"));
    assert!(msg.contains("Note 2: second note"));
}

#[test]
fn styles() {
    assert_eq!(Style::default().text_color, None);
    assert_eq!(Style::default().with_text_color(StyleColor::Red).text_color, Some(StyleColor::Red));
}
