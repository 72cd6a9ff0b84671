use brewcolor::color::{ColorTier, Color};
use brewcolor::error::Error;
use brewcolor::table::{count_columns, table_line, tabulate, tabulate_raw, trim_end, visible_width, width_of_column};
use brewcolor::terminal::{Terminal, TerminalInfo};

fn rows(items: &[&[&str]]) -> Vec<Vec<String>> {
    items.iter().map(|row| row.iter().map(|cell| cell.to_string()).collect()).collect()
}

#[test]
fn a_coloured_cell_is_as_wide_as_the_text_that_is_seen() {
    assert_eq!(visible_width("\u{1b}[31mab\u{1b}[0m"), 2);
    assert_eq!(visible_width("ab"), 2);
    let coloured = rows(&[&["\u{1b}[31mab\u{1b}[0m", "x"], &["c", "y"]]);
    let bare = rows(&[&["ab", "x"], &["c", "y"]]);
    assert_eq!(width_of_column(&coloured, 0), width_of_column(&bare, 0));
    assert_eq!(tabulate(&coloured), "\u{1b}[31mab\u{1b}[0m    x\nc     y");
    assert_eq!(tabulate(&bare), "ab    x\nc     y");
}

#[test]
fn visible_width_leaves_escape_sequences_out() {
    assert_eq!(visible_width(""), 0);
    assert_eq!(visible_width("\u{1b}[1;31m"), 0);
    assert_eq!(visible_width("\u{1b}x"), 1);
    assert_eq!(visible_width("\u{1b}\u{1b}[0mz"), 4);
    assert_eq!(visible_width("\u{1b}[31"), 0);
    assert_eq!(visible_width("a\u{e9}\u{2714}"), 3);
}

#[test]
fn tabulate_pads_every_column_but_the_last() {
    let table = rows(&[&["a", "bcd", "e"], &["fgh", "i", "jkl"]]);
    assert_eq!(count_columns(&table), 3);
    assert_eq!(width_of_column(&table, 1), 3);
    assert_eq!(width_of_column(&table, 7), 0);
    assert_eq!(table_line(&table, 0), "a      bcd    e    ");
    assert_eq!(tabulate(&table), "a      bcd    e\nfgh    i      jkl");
    assert_eq!(tabulate_raw(&table), "a      bcd    e    \nfgh    i      jkl    \n");
}

#[test]
fn tabulate_fills_short_rows_with_empty_cells() {
    let table = rows(&[&["a"], &["bc", "d"]]);
    assert_eq!(tabulate(&table), "a\nbc    d");
    assert_eq!(tabulate(&rows(&[])), "");
    assert_eq!(tabulate_raw(&rows(&[])), "");
    assert_eq!(tabulate(&rows(&[&[]])), "");
}

#[test]
fn trim_end_takes_white_space_from_the_end_alone() {
    assert_eq!(trim_end("  a b \t\n"), "  a b");
    assert_eq!(trim_end("   "), "");
    assert_eq!(trim_end(""), "");
    assert_eq!(trim_end("a\u{3000}\u{a0}"), "a");
    for text in ["x \u{2028}", "\u{85}", "a\u{200b}", "\u{1680} b\u{205f}", "c\u{180e}"] {
        assert_eq!(trim_end(text), text.trim_end());
    }
}

#[test]
fn tiers_follow_the_part_that_changed() {
    assert_eq!(ColorTier::from_position(0), ColorTier::Major);
    assert_eq!(ColorTier::from_position(1), ColorTier::Minor);
    assert_eq!(ColorTier::from_position(2), ColorTier::Other);
    assert_eq!(ColorTier::from_position(usize::MAX), ColorTier::Other);
    assert_eq!(ColorTier::Major.color(), Color::Red);
    assert_eq!(ColorTier::Minor.color(), Color::Blue);
    assert_eq!(ColorTier::Other.color(), Color::Green);
}

#[test]
fn errors_have_messages() {
    assert_eq!(Error::IndexOutOfRange.message(), "The index out of range.");
    assert_eq!(Error::Csv("bad".to_owned()).message(), "bad");
    assert_eq!(Error::CsvIntoInner("inner".to_owned()).message(), "inner");
    assert_eq!(Error::Command("no brew".to_owned()).message(), "no brew");
    assert_eq!(Error::FromUtf8("not text".to_owned()).message(), "not text");
    assert!(Error::VersionRangeStartError.message().contains("same"));
    assert!(Error::VersionRangeEndError.message().contains("greater than"));
    assert_eq!(Error::TerminalWidthError.message(), "The terminal width is unknown.");
    assert_eq!(Error::NoCapturesError.message(), "The text does not match the pattern.");
}

#[test]
fn the_terminal_tells_its_width_or_that_it_has_none() {
    match (TerminalInfo {}).width() {
        Ok(width) => assert!(width > 0),
        Err(error) => assert_eq!(error.message(), "The terminal width is unknown."),
    }
}

#[test]
fn the_width_is_the_first_of_the_dimensions() {
    assert_eq!(brewcolor::terminal::width_of(Some((80, 24))).ok(), Some(80));
    assert_eq!(brewcolor::terminal::width_of(Some((0, 24))).ok(), Some(0));
    match brewcolor::terminal::width_of(None) {
        Err(Error::TerminalWidthError) => {},
        Err(error) => panic!("another error: {}", error.message()),
        Ok(width) => panic!("a width: {}", width),
    }
}
