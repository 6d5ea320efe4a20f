//! Scenario renderings with the ASCII character set: inline labels, a
//! multi-line span, a zero-width span at the end of file, two sources, tab
//! expansion, and help with note on empty input.

use ariadne::{CharSet, Config, FnCache, IndexType, Label, Report, ReportKind, Source};

fn ascii_plain() -> Config {
    Config::default()
        .with_color(false)
        .with_char_set(CharSet::Ascii)
}

fn remove_trailing(s: String) -> String {
    s.lines().flat_map(|l| [l.trim_end(), "\n"]).collect()
}

fn multi_sources(sources: &[&str]) -> FnCache<usize> {
    let mut v: Vec<(usize, Source)> = Vec::new();
    for (i, s) in sources.iter().enumerate() {
        v.push((i, Source::from(s)));
    }
    FnCache::new().with_sources(v)
}

#[test]
fn two_inline_labels_one_line_ascii() {
    let expected = "Error:
   ,-[ <unknown>:1:1 ]
   |
 1 | apple == orange;
   | --|--    ---|--
   |   `-------------- This is an apple
   |             |
   |             `---- This is an orange
---'
";
    let msg = remove_trailing(
        Report::build(ReportKind::Error, 0..0)
            .with_config(ascii_plain())
            .with_label(Label::new(0..5).with_message("This is an apple"))
            .with_label(Label::new(9..15).with_message("This is an orange"))
            .finish()
            .write_to_string(Source::from("apple == orange;")),
    );
    assert_eq!(msg, expected);
}

#[test]
fn multi_line_span_ascii() {
    let expected = "Error:
   ,-[ <unknown>:1:1 ]
   |
 1 | ,-> apple
   : :
 3 | |-> orange
   | |
   | `----------- illegal comparison
---'
";
    let source = "apple\n==\norange";
    let msg = remove_trailing(
        Report::build(ReportKind::Error, 0..0)
            .with_config(ascii_plain())
            .with_label(Label::new(0..source.len()).with_message("illegal comparison"))
            .finish()
            .write_to_string(Source::from(source)),
    );
    assert_eq!(msg, expected);
}

#[test]
fn zero_width_at_end_of_file_ascii() {
    let expected = "Error:
   ,-[ <unknown>:1:1 ]
   |
 1 | apple ==
   |          |
   |          `- Unexpected end of file
---'
";
    let msg = remove_trailing(
        Report::build(ReportKind::Error, 0..0)
            .with_config(ascii_plain().with_index_type(IndexType::Byte))
            .with_label(Label::new(9..9).with_message("Unexpected end of file"))
            .finish()
            .write_to_string(Source::from("apple ==\n")),
    );
    assert_eq!(msg, expected);
}

#[test]
fn two_sources_two_groups_ascii() {
    let expected = "Error:
   ,-[ 0:1:1 ]
   |
 1 | apple == orange;
   | --|--    ---|--
   |   `-------------- This is an apple
   |             |
   |             `---- This is an orange
   |
   |-[ 1:1:1 ]
   |
 1 | apple == pear;
   | --|--    --|-
   |   `------------ This is an apple
   |            |
   |            `--- This is a pear
---'
";
    let msg = remove_trailing(
        Report::build(ReportKind::Error, (0, 0..0))
            .with_config(ascii_plain())
            .with_label(Label::new((0, 0..5)).with_message("This is an apple"))
            .with_label(Label::new((0, 9..15)).with_message("This is an orange"))
            .with_label(Label::new((1, 0..5)).with_message("This is an apple"))
            .with_label(Label::new((1, 9..13)).with_message("This is a pear"))
            .finish()
            .write_to_string(multi_sources(&["apple == orange;", "apple == pear;"])),
    );
    assert_eq!(msg, expected);
}

#[test]
fn tab_expansion_ascii() {
    let expected = "Error:
   ,-[ <unknown>:1:1 ]
   |
 1 | a   b
   | -|---
   |  `----- x
---'
";
    let msg = remove_trailing(
        Report::build(ReportKind::Error, 0..0)
            .with_config(ascii_plain().with_tab_width(4))
            .with_label(Label::new(0..3).with_message("x"))
            .finish()
            .write_to_string(Source::from("a\tb")),
    );
    assert_eq!(msg, expected);
}

#[test]
fn help_and_note_on_empty_input_ascii() {
    let expected = "Error:
   ,-[ <unknown>:1:1 ]
   |
 1 |
   |
   | Help: have you tried the farmer's market?
   |
   | Note: eat your greens!
---'
";
    let msg = remove_trailing(
        Report::build(ReportKind::Error, 0..0)
            .with_config(ascii_plain())
            .with_label(Label::new(0..0))
            .with_help("have you tried the farmer's market?")
            .with_note("eat your greens!")
            .finish()
            .write_to_string(Source::from("")),
    );
    assert_eq!(msg, expected);
}
