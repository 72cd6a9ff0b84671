use brewcolor::brew::formatter::brew_update::{cell, grid, layout, layout_with, longest};
use brewcolor::brew::formatter::BrewUpdate;
use brewcolor::brew::parser::{BrewOutdatedData, BrewUpdateData};
use brewcolor::error::Error;
use brewcolor::terminal::Terminal;

struct Fixed(usize);

impl Terminal for Fixed {
    fn width(&self) -> Result<usize, Error> {
        Ok(self.0)
    }
}

struct Unknown;

impl Terminal for Unknown {
    fn width(&self) -> Result<usize, Error> {
        Err(Error::TerminalWidthError)
    }
}

fn owned(items: &[&str]) -> Vec<String> {
    items.iter().map(|item| item.to_string()).collect()
}

fn plain(names: &[&str], width: usize) -> String {
    let names = owned(names);
    let flags = vec![false; names.len()];
    let none = vec![String::new(); names.len()];
    layout_with(&names, &flags, width, &none, &none)
}

#[test]
fn a_narrow_terminal_shows_one_name_per_line() {
    let names = owned(&["a", "bb", "ccc"]);
    assert_eq!(layout(&names, &owned(&["bb"]), 3), "a\nbb\nccc");
    assert_eq!(layout(&names, &owned(&["bb"]), 0), "a\nbb\nccc");
    assert_eq!(layout(&names, &owned(&["bb"]), 7), "a\nbb\nccc");
}

#[test]
fn two_columns_fit_from_twice_the_longest_name_on() {
    assert_eq!(plain(&["a", "bb", "ccc", ""], 7), "a\nbb\nccc\n");
    assert_eq!(plain(&["a", "bb", "ccc", ""], 8), "a    ccc  \nbb     ");
    assert_eq!(plain(&["a", "bb", "ccc"], 8), "a    ccc  \nbb  ");
}

#[test]
fn the_grid_is_filled_column_by_column() {
    assert_eq!(plain(&["a", "b", "c", "d", "e", "f"], 5), "a  d  \nb  e  \nc  f  ");
    assert_eq!(plain(&["a", "b", "c", "d", "e", "f"], 9), "a  c  e  \nb  d  f  ");
    assert_eq!(plain(&["a", "b", "c", "d", "e", "f", "g"], 9), "a  d  g  \nb  e  \nc  f  ");
    assert_eq!(
        plain(&["a", "b", "c", "d", "e", "f"], 80),
        "a            b            c            d            e            f  "
    );
}

#[test]
fn every_name_is_shown_once() {
    assert_eq!(plain(&["rust", "typescript"], 80), "rust".to_owned() + &" ".repeat(37) + "typescript  ");
    assert_eq!(plain(&["rust"], 80), "rust  ");
    assert_eq!(plain(&["a", "b"], 10), "a     b  ");
}

#[test]
fn a_single_empty_name_shows_nothing() {
    assert_eq!(plain(&[""], 80), "");
    assert_eq!(plain(&[""], 0), "");
}

#[test]
fn outdated_names_are_bold_and_have_a_check_mark() {
    colored::control::set_override(true);
    let names = owned(&["rust", "typescript"]);
    assert_eq!(
        layout(&names, &owned(&["rust"]), 80),
        "\u{1b}[1mrust\u{1b}[0m\u{1b}[32m \u{2714}\u{1b}[0m".to_owned() + &" ".repeat(35) + "typescript  "
    );
    assert_eq!(
        layout(&names, &owned(&["typescript"]), 80),
        "rust".to_owned() + &" ".repeat(37) + "\u{1b}[1mtypescript\u{1b}[0m\u{1b}[32m \u{2714}\u{1b}[0m"
    );
}

#[test]
fn cell_puts_the_check_mark_in_place_of_two_spaces() {
    assert_eq!(cell("ab", 3, false, "AB", "!"), "ab   ");
    assert_eq!(cell("ab", 3, true, "AB", "!"), "AB! ");
    assert_eq!(cell("ab", 2, true, "AB", "!"), "AB!");
    assert_eq!(cell("ab", 1, true, "AB", "!"), "AB ");
    assert_eq!(cell("ab", 0, true, "AB", "!"), "AB");
}

#[test]
fn grid_takes_the_styles_as_they_are_given() {
    let names = owned(&["a", "bb", "c", ""]);
    let flags = vec![true, false, true, false];
    let bolds = owned(&["A", "", "C", ""]);
    let checks = owned(&["+", "", "*", ""]);
    assert_eq!(grid(&names, &flags, 6, &bolds, &checks), "A   C*\nbb    ");
    assert_eq!(grid(&names, &flags, 10, &bolds, &checks), "A+   C*\nbb      ");
}

#[test]
fn longest_counts_bytes() {
    assert_eq!(longest(&owned(&["a", "bcd", "\u{e9}\u{e9}"])), 4);
    assert_eq!(longest(&owned(&[])), 0);
}

#[test]
fn a_very_wide_terminal_is_no_trouble() {
    let names = owned(&["a"]);
    let flags = vec![false];
    let none = vec![String::new()];
    assert_eq!(layout_with(&names, &flags, usize::MAX, &none, &none), "a  ");
}

#[test]
fn an_update_is_shown_with_its_sections_in_columns() {
    colored::control::set_override(true);
    let update = BrewUpdateData::new("==> Updated Formulae\nrust\ntypescript\n");
    let outdated = BrewOutdatedData::new("rust (1.38.0) < 1.40.0\n");
    let formatter = BrewUpdate::new(&update, &outdated, Fixed(80));
    assert_eq!(
        formatter.format().ok(),
        Some(
            "\u{1b}[34m==>\u{1b}[0m \u{1b}[1mUpdated Formulae\u{1b}[0m\n\u{1b}[1mrust\u{1b}[0m\u{1b}[32m \u{2714}\u{1b}[0m"
                .to_owned() + &" ".repeat(35) + "typescript  "
        )
    );
}

#[test]
fn an_update_without_a_known_width_shows_one_name_per_line() {
    colored::control::set_override(true);
    let update = BrewUpdateData::new("Already up-to-date.\n==> Updated Formulae\nrust\ntypescript\n");
    let outdated = BrewOutdatedData::new("rust (1.38.0) < 1.40.0\n");
    let formatter = BrewUpdate::new(&update, &outdated, Unknown);
    assert_eq!(
        formatter.format().ok(),
        Some("Already up-to-date.\n\u{1b}[34m==>\u{1b}[0m \u{1b}[1mUpdated Formulae\u{1b}[0m\nrust\ntypescript".to_owned())
    );
    assert_eq!(formatter.tabulate(&owned(&["rust", "typescript"])), "rust\ntypescript");
}

#[test]
fn an_update_with_messages_alone_shows_the_messages() {
    let update = BrewUpdateData::new("Updated 1 tap (homebrew/core).\nNo changes to formulae.\n");
    let outdated = BrewOutdatedData::new("");
    let formatter = BrewUpdate::new(&update, &outdated, Fixed(80));
    assert_eq!(formatter.format().ok(), Some("Updated 1 tap (homebrew/core).\nNo changes to formulae.".to_owned()));
    let nothing = BrewUpdate::new(&BrewUpdateData::new(""), &outdated, Fixed(80));
    assert_eq!(nothing.format().ok(), Some(String::new()));
}

#[test]
fn assemble_puts_messages_above_sections() {
    assert_eq!(BrewUpdate::<Fixed>::assemble(&owned(&["m", "n"]), &owned(&["s", "t"])), "m\nn\ns\nt");
    assert_eq!(BrewUpdate::<Fixed>::assemble(&owned(&[]), &owned(&["s"])), "s");
    assert_eq!(BrewUpdate::<Fixed>::assemble(&owned(&["m"]), &owned(&[])), "m");
}

#[test]
fn colorize_kind_wants_the_marker_and_a_label() {
    colored::control::set_override(true);
    assert_eq!(
        BrewUpdate::<Fixed>::colorize_kind("==> Deleted Formulae").ok(),
        Some("\u{1b}[34m==>\u{1b}[0m \u{1b}[1mDeleted Formulae\u{1b}[0m".to_owned())
    );
    match BrewUpdate::<Fixed>::colorize_kind("==>") {
        Err(error) => assert_eq!(error.message(), "The text does not match the pattern."),
        Ok(text) => panic!("coloured {}", text),
    }
}

#[test]
fn no_names_show_nothing() {
    assert_eq!(plain(&[], 80), "");
    assert_eq!(plain(&[], 0), "");
    assert_eq!(layout(&owned(&[]), &owned(&["rust"]), 80), "");
}
