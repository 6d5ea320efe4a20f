//! Rendering behaviour of whole reports: headers, margins, underlines,
//! connector arrows, multi-line gutters, byte-indexed spans, help and note
//! sections, and multi-source output.

use ariadne::{Config, FnCache, IndexType, Label, Report, ReportKind, Source};

fn no_color() -> Config {
    Config::default().with_color(false)
}

fn remove_trailing(s: String) -> String {
    s.lines().flat_map(|l| [l.trim_end(), "\n"]).collect()
}

fn multi_sources(sources: &[&str]) -> FnCache<usize> {
    let mut v: Vec<(usize, Source)> = Vec::new();
    for (i, s) in sources.iter().enumerate() {
        v.push((i, Source::from(s)));
    }
    FnCache::new().with_sources(v)
}

#[test]
fn one_message() {
    let expected = "Error: can't compare apples with oranges
";
    let msg = remove_trailing(
        Report::build(ReportKind::Error, 0..0)
            .with_config(no_color())
            .with_message("can't compare apples with oranges")
            .finish()
            .write_to_string(Source::from("")),
    );
    assert_eq!(msg, expected);
}

#[test]
fn two_labels_without_messages() {
    let expected = "Error: can't compare apples with oranges
   ╭─[ <unknown>:1:1 ]
   │
 1 │ apple == orange;
───╯
";
    let source = "apple == orange;";
    let msg = remove_trailing(
        Report::build(ReportKind::Error, 0..0)
            .with_config(no_color())
            .with_message("can't compare apples with oranges")
            .with_label(Label::new(0..5))
            .with_label(Label::new(9..15))
            .finish()
            .write_to_string(Source::from(source)),
    );
    assert_eq!(msg, expected);
}

#[test]
fn two_labels_with_messages() {
    let expected = "Error: can't compare apples with oranges
   ╭─[ <unknown>:1:1 ]
   │
 1 │ apple == orange;
   │ ──┬──    ───┬──
   │   ╰────────────── This is an apple
   │             │
   │             ╰──── This is an orange
───╯
";
    let source = "apple == orange;";
    let msg = remove_trailing(
        Report::build(ReportKind::Error, 0..0)
            .with_config(no_color())
            .with_message("can't compare apples with oranges")
            .with_label(Label::new(0..5).with_message("This is an apple"))
            .with_label(Label::new(9..15).with_message("This is an orange"))
            .finish()
            .write_to_string(Source::from(source)),
    );
    assert_eq!(msg, expected);
}

#[test]
fn duplicate_label() {
    let expected = "Error: can't compare apples with oranges
   ╭─[ <unknown>:1:1 ]
   │
 1 │ apple == orange;
   │ ──┬──
   │   ╰──── This is an apple
   │   │
   │   ╰──── This is an apple
───╯
";
    let source = "apple == orange;";
    let msg = remove_trailing(
        Report::build(ReportKind::Error, 0..0)
            .with_config(no_color())
            .with_message("can't compare apples with oranges")
            .with_label(Label::new(0..5).with_message("This is an apple"))
            .with_label(Label::new(0..5).with_message("This is an apple"))
            .finish()
            .write_to_string(Source::from(source)),
    );
    assert_eq!(msg, expected);
}

#[test]
fn multi_byte_chars() {
    let expected = "Error: can't compare äpplës with örängës
   ╭─[ <unknown>:1:1 ]
   │
 1 │ äpplë == örängë;
   │ ──┬──    ───┬──
   │   ╰────────────── This is an äpplë
   │             │
   │             ╰──── This is an örängë
───╯
";
    let source = "äpplë == örängë;";
    let msg = remove_trailing(
        Report::build(ReportKind::Error, 0..0)
            .with_config(no_color().with_index_type(IndexType::Char))
            .with_message("can't compare äpplës with örängës")
            .with_label(Label::new(0..5).with_message("This is an äpplë"))
            .with_label(Label::new(9..15).with_message("This is an örängë"))
            .finish()
            .write_to_string(Source::from(source)),
    );
    assert_eq!(msg, expected);
}

#[test]
fn byte_label() {
    let expected = "Error: can't compare äpplës with örängës
   ╭─[ <unknown>:1:1 ]
   │
 1 │ äpplë == örängë;
   │ ──┬──    ───┬──
   │   ╰────────────── This is an äpplë
   │             │
   │             ╰──── This is an örängë
───╯
";
    let source = "äpplë == örängë;";
    let msg = remove_trailing(
        Report::build(ReportKind::Error, 0..0)
            .with_config(no_color().with_index_type(IndexType::Byte))
            .with_message("can't compare äpplës with örängës")
            .with_label(Label::new(0..7).with_message("This is an äpplë"))
            .with_label(Label::new(11..20).with_message("This is an örängë"))
            .finish()
            .write_to_string(Source::from(source)),
    );
    assert_eq!(msg, expected);
}

#[test]
fn byte_column() {
    let expected = "Error: can't compare äpplës with örängës
   ╭─[ <unknown>:1:10 ]
   │
 1 │ äpplë == örängë;
   │ ──┬──    ───┬──
   │   ╰────────────── This is an äpplë
   │             │
   │             ╰──── This is an örängë
───╯
";
    let source = "äpplë == örängë;";
    let msg = remove_trailing(
        Report::build(ReportKind::Error, 11..11)
            .with_config(no_color().with_index_type(IndexType::Byte))
            .with_message("can't compare äpplës with örängës")
            .with_label(Label::new(0..7).with_message("This is an äpplë"))
            .with_label(Label::new(11..20).with_message("This is an örängë"))
            .finish()
            .write_to_string(Source::from(source)),
    );
    assert_eq!(msg, expected);
}

#[test]
fn crossing_lines() {
    let expected = "Error: can't compare äpplës with örängës
   ╭─[ <unknown>:1:12 ]
   │
 1 │ äpplë == örängë;
   │ ──┬──    ───┬──  
   │   ╰─────────┼──── This is an äpplë
   │             │    
   │             ╰──── This is an örängë
───╯
";
    let source = "äpplë == örängë;";
    let msg = Report::build(ReportKind::Error, 11..11)
        .with_config(no_color().with_cross_gap(false))
        .with_message("can't compare äpplës with örängës")
        .with_label(Label::new(0..5).with_message("This is an äpplë"))
        .with_label(Label::new(9..15).with_message("This is an örängë"))
        .finish()
        .write_to_string(Source::from(source));
    assert_eq!(msg, expected);
}

#[test]
fn label_at_end_of_long_line() {
    let expected = "Error: can't compare apples with oranges
   ╭─[ <unknown>:1:1 ]
   │
 1 │ apple == apple == apple == apple == apple == apple == apple == apple == apple == apple == apple == apple == apple == apple == apple == apple == apple == apple == apple == apple == apple == apple == apple == apple == apple == apple == apple == apple == apple == apple == apple == apple == apple == apple == apple == apple == apple == apple == apple == apple == apple == apple == apple == apple == apple == apple == apple == apple == apple == apple == apple == apple == apple == apple == apple == apple == apple == apple == apple == apple == apple == apple == apple == apple == apple == apple == apple == apple == apple == apple == apple == apple == apple == apple == apple == apple == apple == apple == apple == apple == apple == apple == apple == apple == apple == apple == apple == apple == apple == apple == apple == apple == apple == apple == apple == apple == apple == apple == apple == apple == orange
   │                                                                                                                                                                                                                                                                                                                                                                                                                                                                                                                                                                                                                                                                                                                                                                                                                                                                                                                                      ──┬──
   │                                                                                                                                                                                                                                                                                                                                                                                                                                                                                                                                                                                                                                                                                                                                                                                                                                                                                                                                        ╰──── This is an orange
───╯
";
    let source = format!("{}orange", "apple == ".repeat(100));
    let msg = remove_trailing(
        Report::build(ReportKind::Error, 0..0)
            .with_config(no_color())
            .with_message("can't compare apples with oranges")
            .with_label(
                Label::new(source.len() - 5..source.len()).with_message("This is an orange"),
            )
            .finish()
            .write_to_string(Source::from(source.as_str())),
    );
    assert_eq!(msg, expected);
}

#[test]
fn label_of_width_zero_at_end_of_line() {
    let expected = "Error: unexpected end of file
   ╭─[ <unknown>:1:1 ]
   │
 1 │ apple ==
   │          │
   │          ╰─ Unexpected end of file
───╯
";
    let source = "apple ==\n";
    let msg = remove_trailing(
        Report::build(ReportKind::Error, 0..0)
            .with_config(no_color().with_index_type(IndexType::Byte))
            .with_message("unexpected end of file")
            .with_label(Label::new(9..9).with_message("Unexpected end of file"))
            .finish()
            .write_to_string(Source::from(source)),
    );

    assert_eq!(msg, expected);
}

#[test]
fn empty_input() {
    let expected = "Error: unexpected end of file
   ╭─[ <unknown>:1:1 ]
   │
 1 │
   │ │
   │ ╰─ No more fruit!
───╯
";
    let source = "";
    let msg = remove_trailing(
        Report::build(ReportKind::Error, 0..0)
            .with_config(no_color())
            .with_message("unexpected end of file")
            .with_label(Label::new(0..0).with_message("No more fruit!"))
            .finish()
            .write_to_string(Source::from(source)),
    );

    assert_eq!(msg, expected);
}

#[test]
fn empty_input_help() {
    let expected = "Error: unexpected end of file
   ╭─[ <unknown>:1:1 ]
   │
 1 │
   │ │
   │ ╰─ No more fruit!
   │
   │ Help: have you tried going to the farmer's market?
───╯
";
    let source = "";
    let msg = remove_trailing(
        Report::build(ReportKind::Error, 0..0)
            .with_config(no_color())
            .with_message("unexpected end of file")
            .with_label(Label::new(0..0).with_message("No more fruit!"))
            .with_help("have you tried going to the farmer's market?")
            .finish()
            .write_to_string(Source::from(source)),
    );

    assert_eq!(msg, expected);
}

#[test]
fn empty_input_note() {
    let expected = "Error: unexpected end of file
   ╭─[ <unknown>:1:1 ]
   │
 1 │
   │ │
   │ ╰─ No more fruit!
   │
   │ Note: eat your greens!
───╯
";
    let source = "";
    let msg = remove_trailing(
        Report::build(ReportKind::Error, 0..0)
            .with_config(no_color())
            .with_message("unexpected end of file")
            .with_label(Label::new(0..0).with_message("No more fruit!"))
            .with_note("eat your greens!")
            .finish()
            .write_to_string(Source::from(source)),
    );

    assert_eq!(msg, expected);
}

#[test]
fn empty_input_help_note() {
    let expected = "Error: unexpected end of file
   ╭─[ <unknown>:1:1 ]
   │
 1 │
   │ │
   │ ╰─ No more fruit!
   │
   │ Help: have you tried going to the farmer's market?
   │
   │ Note: eat your greens!
───╯
";
    let source = "";
    let msg = remove_trailing(
        Report::build(ReportKind::Error, 0..0)
            .with_config(no_color())
            .with_message("unexpected end of file")
            .with_label(Label::new(0..0).with_message("No more fruit!"))
            .with_note("eat your greens!")
            .with_help("have you tried going to the farmer's market?")
            .finish()
            .write_to_string(Source::from(source)),
    );

    assert_eq!(msg, expected);
}

#[test]
fn byte_spans_never_crash() {
    let source = "apple\np\n\nempty\n";

    for i in 0..=source.len() {
        for j in i..=source.len() {
            let _ = remove_trailing(
                Report::build(ReportKind::Error, 0..0)
                    .with_config(no_color().with_index_type(IndexType::Byte))
                    .with_message("Label")
                    .with_label(Label::new(i..j).with_message("Label"))
                    .finish()
                    .write_to_string(Source::from(source)),
            );
        }
    }
}

#[test]
fn multiline_label() {
    let expected = "Error:
   ╭─[ <unknown>:1:1 ]
   │
 1 │ ╭─▶ apple
   ┆ ┆
 3 │ ├─▶ orange
   │ │
   │ ╰─────────── illegal comparison
───╯
";
    let source = "apple\n==\norange";
    let msg = remove_trailing(
        Report::build(ReportKind::Error, 0..0)
            .with_config(no_color())
            .with_label(Label::new(0..source.len()).with_message("illegal comparison"))
            .finish()
            .write_to_string(Source::from(source)),
    );
    assert_eq!(msg, expected);
}

#[test]
fn multiple_multilines_same_span() {
    let expected = "Error: 
   ╭─[ <unknown>:1:1 ]
   │
 1 │ ╭─────▶ apple
   │ │       ▲       
   │ │ ╭─────╯       
   │ │ │     │       
   │ │ │ ╭───╯       
   ┆ ┆ ┆ ┆   
 3 │ ├─│ │ ▶ orange
   │ │ │ │        ▲  
   │ ╰─────────────── illegal comparison
   │   │ │        │  
   │   ╰──────────┴── do not do this
   │     │        │  
   │     ╰────────┴── please reconsider
───╯
";
    let source = "apple\n==\norange";
    let msg = Report::build(ReportKind::Error, 0..0)
        .with_config(no_color())
        .with_label(Label::new(0..source.len()).with_message("illegal comparison"))
        .with_label(Label::new(0..source.len()).with_message("do not do this"))
        .with_label(Label::new(0..source.len()).with_message("please reconsider"))
        .finish()
        .write_to_string(Source::from(source));
    assert_eq!(msg, expected);
}

#[test]
fn partially_overlapping_labels() {
    let expected = "Error:
   ╭─[ <unknown>:1:1 ]
   │
 1 │ https://example.com/
   │ ──┬───────┬─────────
   │   ╰─────────────────── scheme
   │           │
   │           ╰─────────── URL
───╯
";
    let source = "https://example.com/";
    let msg = remove_trailing(
        Report::build(ReportKind::Error, 0..0)
            .with_config(no_color())
            .with_label(Label::new(0..source.len()).with_message("URL"))
            .with_label(Label::new(0..source.find(':').unwrap()).with_message("scheme"))
            .finish()
            .write_to_string(Source::from(source)),
    );
    assert_eq!(msg, expected);
}

#[test]
fn multiple_labels_same_span() {
    let expected = "Error: can't compare apples with oranges
   ╭─[ <unknown>:1:1 ]
   │
 1 │ apple == orange;
   │ ──┬──    ───┬──
   │   ╰────────────── This is an apple
   │   │         │
   │   ╰────────────── Have I mentioned that this is an apple?
   │   │         │
   │   ╰────────────── No really, have I mentioned that?
   │             │
   │             ╰──── This is an orange
   │             │
   │             ╰──── Have I mentioned that this is an orange?
   │             │
   │             ╰──── No really, have I mentioned that?
───╯
";
    let source = "apple == orange;";
    let msg = remove_trailing(
        Report::build(ReportKind::Error, 0..0)
            .with_config(no_color())
            .with_message("can't compare apples with oranges")
            .with_label(Label::new(0..5).with_message("This is an apple"))
            .with_label(
                Label::new(0..5).with_message("Have I mentioned that this is an apple?"),
            )
            .with_label(Label::new(0..5).with_message("No really, have I mentioned that?"))
            .with_label(Label::new(9..15).with_message("This is an orange"))
            .with_label(
                Label::new(9..15).with_message("Have I mentioned that this is an orange?"),
            )
            .with_label(Label::new(9..15).with_message("No really, have I mentioned that?"))
            .finish()
            .write_to_string(Source::from(source)),
    );
    assert_eq!(msg, expected);
}

#[test]
fn note() {
    let expected = "Error: can't compare apples with oranges
   ╭─[ <unknown>:1:1 ]
   │
 1 │ apple == orange;
   │ ──┬──    ───┬──
   │   ╰────────────── This is an apple
   │             │
   │             ╰──── This is an orange
   │
   │ Note: stop trying ... this is a fruitless endeavor
───╯
";
    let source = "apple == orange;";
    let msg = remove_trailing(
        Report::build(ReportKind::Error, 0..0)
            .with_config(no_color())
            .with_message("can't compare apples with oranges")
            .with_label(Label::new(0..5).with_message("This is an apple"))
            .with_label(Label::new(9..15).with_message("This is an orange"))
            .with_note("stop trying ... this is a fruitless endeavor")
            .finish()
            .write_to_string(Source::from(source)),
    );
    assert_eq!(msg, expected);
}

#[test]
fn help() {
    let expected = "Error: can't compare apples with oranges
   ╭─[ <unknown>:1:1 ]
   │
 1 │ apple == orange;
   │ ──┬──    ───┬──
   │   ╰────────────── This is an apple
   │             │
   │             ╰──── This is an orange
   │
   │ Help: have you tried peeling the orange?
───╯
";
    let source = "apple == orange;";
    let msg = remove_trailing(
        Report::build(ReportKind::Error, 0..0)
            .with_config(no_color())
            .with_message("can't compare apples with oranges")
            .with_label(Label::new(0..5).with_message("This is an apple"))
            .with_label(Label::new(9..15).with_message("This is an orange"))
            .with_help("have you tried peeling the orange?")
            .finish()
            .write_to_string(Source::from(source)),
    );
    assert_eq!(msg, expected);
}

#[test]
fn help_and_note() {
    let expected = "Error: can't compare apples with oranges
   ╭─[ <unknown>:1:1 ]
   │
 1 │ apple == orange;
   │ ──┬──    ───┬──
   │   ╰────────────── This is an apple
   │             │
   │             ╰──── This is an orange
   │
   │ Help: have you tried peeling the orange?
   │
   │ Note: stop trying ... this is a fruitless endeavor
───╯
";
    let source = "apple == orange;";
    let msg = remove_trailing(
        Report::build(ReportKind::Error, 0..0)
            .with_config(no_color())
            .with_message("can't compare apples with oranges")
            .with_label(Label::new(0..5).with_message("This is an apple"))
            .with_label(Label::new(9..15).with_message("This is an orange"))
            .with_help("have you tried peeling the orange?")
            .with_note("stop trying ... this is a fruitless endeavor")
            .finish()
            .write_to_string(Source::from(source)),
    );
    assert_eq!(msg, expected);
}

#[test]
fn single_note_single_line() {
    let expected = "Error: can't compare apples with oranges
   ╭─[ <unknown>:1:1 ]
   │
 1 │ apple == orange;
   │ ───────┬───────
   │        ╰───────── This is a strange comparison
   │
   │ Note: No need to try, they can't be compared.
───╯
";
    let source = "apple == orange;";
    let msg = remove_trailing(
        Report::build(ReportKind::Error, 0..0)
            .with_config(no_color())
            .with_message("can't compare apples with oranges")
            .with_label(Label::new(0..15).with_message("This is a strange comparison"))
            .with_note("No need to try, they can't be compared.")
            .finish()
            .write_to_string(Source::from(source)),
    );
    assert_eq!(msg, expected);
}

#[test]
fn multi_notes_single_lines() {
    let expected = "Error: can't compare apples with oranges
   ╭─[ <unknown>:1:1 ]
   │
 1 │ apple == orange;
   │ ───────┬───────
   │        ╰───────── This is a strange comparison
   │
   │ Note 1: No need to try, they can't be compared.
   │
   │ Note 2: Yeah, really, please stop.
───╯
";
    let source = "apple == orange;";
    let msg = remove_trailing(
        Report::build(ReportKind::Error, 0..0)
            .with_config(no_color())
            .with_message("can't compare apples with oranges")
            .with_label(Label::new(0..15).with_message("This is a strange comparison"))
            .with_note("No need to try, they can't be compared.")
            .with_note("Yeah, really, please stop.")
            .finish()
            .write_to_string(Source::from(source)),
    );
    assert_eq!(msg, expected);
}

#[test]
fn multi_notes_multi_lines() {
    let expected = "Error: can't compare apples with oranges
   ╭─[ <unknown>:1:1 ]
   │
 1 │ apple == orange;
   │ ───────┬───────
   │        ╰───────── This is a strange comparison
   │
   │ Note 1: No need to try, they can't be compared.
   │
   │ Note 2: Yeah, really, please stop.
   │         It has no resemblance.
───╯
";
    let source = "apple == orange;";
    let msg = remove_trailing(
        Report::build(ReportKind::Error, 0..0)
            .with_config(no_color())
            .with_message("can't compare apples with oranges")
            .with_label(Label::new(0..15).with_message("This is a strange comparison"))
            .with_note("No need to try, they can't be compared.")
            .with_note("Yeah, really, please stop.\nIt has no resemblance.")
            .finish()
            .write_to_string(Source::from(source)),
    );
    assert_eq!(msg, expected);
}

#[test]
fn only_help_and_note() {
    let expected = "Error: Programming language \"Rest\" not found
  │
  │ Help: a language with a similar name exists: Rust
  │
  │ Note: perhaps you'd like some sleep?
──╯
";
    let source = "this should not be printed";
    let msg = remove_trailing(
        Report::build(ReportKind::Error, 0..0)
            .with_config(no_color())
            .with_message("Programming language \"Rest\" not found")
            .with_help("a language with a similar name exists: Rust")
            .with_note("perhaps you'd like some sleep?")
            .finish()
            .write_to_string(Source::from(source)),
    );
    assert_eq!(msg, expected);
}

#[test]
fn multi_source() {
    let expected = "Error: can't compare apples with oranges or pears
   ╭─[ 0:1:1 ]
   │
 1 │ apple == orange;
   │ ──┬──    ───┬──
   │   ╰────────────── This is an apple
   │             │
   │             ╰──── This is an orange
   │
   ├─[ 1:1:1 ]
   │
 1 │ apple == pear;
   │ ──┬──    ──┬─
   │   ╰──────────── This is an apple
   │            │
   │            ╰─── This is a pear
───╯
";
    let msg = remove_trailing(
        Report::build(ReportKind::Error, (0, 0..0))
            .with_config(no_color())
            .with_message("can't compare apples with oranges or pears")
            .with_label(Label::new((0, 0..5)).with_message("This is an apple"))
            .with_label(Label::new((0, 9..15)).with_message("This is an orange"))
            .with_label(Label::new((1, 0..5)).with_message("This is an apple"))
            .with_label(Label::new((1, 9..13)).with_message("This is a pear"))
            .finish()
            .write_to_string(multi_sources(&["apple == orange;", "apple == pear;"])),
    );
    assert_eq!(msg, expected);
}

#[test]
fn help_and_note_multi() {
    let expected = "Error: can't compare apples with oranges or pears
   ╭─[ 0:1:1 ]
   │
 1 │ apple == orange;
   │ ──┬──    ───┬──
   │   ╰────────────── This is an apple
   │             │
   │             ╰──── This is an orange
   │
   ├─[ 1:1:1 ]
   │
 1 │ apple == pear;
   │ ──┬──    ──┬─
   │   ╰──────────── This is an apple
   │            │
   │            ╰─── This is a pear
   │
   │ Help: have you tried peeling the orange?
   │
   │ Note: stop trying ... this is a fruitless endeavor
───╯
";
    let msg = remove_trailing(
        Report::build(ReportKind::Error, (0, 0..0))
            .with_config(no_color())
            .with_message("can't compare apples with oranges or pears")
            .with_label(Label::new((0, 0..5)).with_message("This is an apple"))
            .with_label(Label::new((0, 9..15)).with_message("This is an orange"))
            .with_label(Label::new((1, 0..5)).with_message("This is an apple"))
            .with_label(Label::new((1, 9..13)).with_message("This is a pear"))
            .with_help("have you tried peeling the orange?")
            .with_note("stop trying ... this is a fruitless endeavor")
            .finish()
            .write_to_string(multi_sources(&["apple == orange;", "apple == pear;"])),
    );
    assert_eq!(msg, expected);
}
