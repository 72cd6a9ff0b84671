use brewcolor::brew::version::{Version, VersionComparison};
use colored::Colorize;

fn owned(items: &[&str]) -> Vec<String> {
    items.iter().map(|item| item.to_string()).collect()
}

#[test]
fn split_should_return_tuple_of_version_parts_list_and_delimiters_list() {
    assert_eq!(
        Version::split("1.2_3-4"),
        (
            owned(&["1", ".", "2", "_", "3", "-", "4"]),
            owned(&["1", "2", "3", "4"]),
            owned(&[".", "_", "-"]),
        ),
    );
    assert_eq!(
        Version::split("0001.0002a.0"),
        (
            owned(&["0001", ".", "0002a", ".", "0"]),
            owned(&["0001", "0002a", "0"]),
            owned(&[".", "."]),
        ),
    );
}

#[test]
fn get_diff_position_should_return_position() {
    assert_eq!(VersionComparison::new("2.0", "1.0").get_diff_position(), Some(0));
    assert_eq!(VersionComparison::new("1", "1.1").get_diff_position(), Some(1));
    assert_eq!(VersionComparison::new("1.0a", "1.0b").get_diff_position(), Some(1));
    assert_eq!(VersionComparison::new("1.0", "1.0.1").get_diff_position(), Some(2));
    assert_eq!(VersionComparison::new("9d", "9e").get_diff_position(), Some(0));
    assert_eq!(VersionComparison::new("1.0", "1.0").get_diff_position(), None);
}

fn colorized(installed: &str, current: &str) -> String {
    colored::control::set_override(true);
    match VersionComparison::new(installed, current).colorize() {
        Ok(text) => text,
        Err(error) => panic!("{}", error.message()),
    }
}

#[test]
fn colorize_should_return_version_colored() {
    colored::control::set_override(true);
    let major = colored::Color::Red;
    let minor = colored::Color::Blue;
    let other = colored::Color::Green;

    assert_eq!(colorized("1.0.0", "2.0.0"), format!("{}{}", "", "2.0.0".color(major)));
    assert_eq!(colorized("1.0.0", "1.1.0"), format!("{}{}", "1.", "1.0".color(minor)));
    assert_eq!(colorized("1.0.0", "1.0.1"), format!("{}{}", "1.0.", "1".color(other)));
    assert_eq!(colorized("1.0.0_0", "1.0.0_1"), format!("{}{}", "1.0.0_", "1".color(other)));
    assert_eq!(colorized("1.0.0-0", "1.0.0-1"), format!("{}{}", "1.0.0-", "1".color(other)));
    assert_eq!(colorized("1.0", "1.0.1"), format!("{}{}", "1.0.", "1".color(other)));
    assert_eq!(
        colorized("2.4+20150115", "2.4+20151223_1"),
        format!("{}{}", "2.4+", "20151223_1".color(other))
    );
    assert_eq!(colorized("9d", "9e"), format!("{}{}", "", "9e".color(major)));
    assert_eq!(colorized("3.1", "3.1a"), format!("{}{}", "3.", "1a".color(minor)));
    assert_eq!(colorized("3.1", "3.2a"), format!("{}{}", "3.", "2a".color(minor)));
    assert_eq!(colorized("r2917_1", "r2999"), format!("{}{}", "", "r2999".color(major)));
    assert_eq!(
        colorized("3.4.1,3041", "3.4.2,3043"),
        format!("{}{}", "3.4.", "2,3043".color(other))
    );
    assert_eq!(colorized("3.1.1", "3.1#2"), format!("{}{}", "3.1#", "2".color(other)));
    assert_eq!(
        colorized("0.1.1~git0", "0.1.1~git1"),
        format!("{}{}", "0.1.1~", "git1".color(other))
    );
    assert_eq!(
        colorized("2021,32.1.0:try2", "2021,32.1.0:try3"),
        format!("{}{}", "2021,32.1.0:", "try3".color(other))
    );
}

#[test]
fn colorize_writes_the_escape_sequences_of_each_tier() {
    assert_eq!(colorized("1.0.0", "2.0.0"), "\u{1b}[31m2.0.0\u{1b}[0m");
    assert_eq!(colorized("1.0.0", "1.1.0"), "1.\u{1b}[34m1.0\u{1b}[0m");
    assert_eq!(colorized("1.0.0", "1.0.1"), "1.0.\u{1b}[32m1\u{1b}[0m");
}

#[test]
fn colorize_leaves_an_unchanged_version_as_it_is() {
    assert_eq!(colorized("1.0", "1.0"), "1.0");
    assert_eq!(colorized("", ""), "");
}

#[test]
fn colorize_marks_everything_without_an_installed_version() {
    assert_eq!(VersionComparison::new("", "1.2").get_diff_position(), Some(0));
    assert_eq!(colorized("", "1.2"), "\u{1b}[31m1.2\u{1b}[0m");
}

#[test]
fn colorize_of_a_shorter_version_has_an_empty_coloured_end() {
    assert_eq!(VersionComparison::new("1.0.1", "1.0").get_diff_position(), Some(2));
    assert_eq!(colorized("1.0.1", "1.0"), "1.0\u{1b}[32m\u{1b}[0m");
}

#[test]
fn tokens_put_together_give_the_version_back() {
    for text in ["", "1.0.0", "..1", "1..", "2.4+20151223_1", "a\u{e9}b", "3,beta:2021-06-17", "-"] {
        let (all, parts, delimiters) = Version::split(text);
        assert_eq!(all.concat(), text);
        assert_eq!(all.len(), parts.len() + delimiters.len());
        assert!(all.iter().all(|token| !token.is_empty()));
    }
}

#[test]
fn split_keeps_leading_and_trailing_delimiters() {
    assert_eq!(Version::split(".1."), (owned(&[".", "1", "."]), owned(&["1"]), owned(&[".", "."])));
    assert_eq!(Version::split(""), (owned(&[]), owned(&[]), owned(&[])));
    assert_eq!(
        Version::split("1\u{e9}2"),
        (owned(&["1", "\u{e9}", "2"]), owned(&["1", "2"]), owned(&["\u{e9}"]))
    );
}

#[test]
fn halves_cut_the_version_in_front_of_a_part() {
    let version = VersionComparison::new("1.0", "1.2.3");
    assert_eq!(version.halves(0), (String::new(), "1.2.3".to_string()));
    assert_eq!(version.halves(1), ("1.".to_string(), "2.3".to_string()));
    assert_eq!(version.halves(2), ("1.2.".to_string(), "3".to_string()));
    assert_eq!(version.halves(3), ("1.2.3".to_string(), String::new()));
    assert_eq!(version.halves(usize::MAX), ("1.2.3".to_string(), String::new()));
    assert_eq!(version.part_index(0), 0);
    assert_eq!(version.part_index(1), 2);
    assert_eq!(version.part_index(2), 4);
    assert_eq!(version.part_index(3), 5);
}

#[test]
fn delimiters_make_no_difference() {
    assert_eq!(VersionComparison::new("1.0", "1-0").get_diff_position(), None);
    assert_eq!(colorized("1.0", "1-0"), "1-0");
    assert_eq!(VersionComparison::new("1.0", "1.0.").get_diff_position(), None);
    assert_eq!(VersionComparison::new("1_2", "1.3").get_diff_position(), Some(1));
    assert_eq!(colorized("1_2", "1.3"), "1.\u{1b}[34m3\u{1b}[0m");
}

#[test]
fn the_delimiter_in_front_of_the_changed_part_keeps_its_colour() {
    assert_eq!(colorized("1.0", "1.0.1"), "1.0.\u{1b}[32m1\u{1b}[0m");
    assert_eq!(colorized("2", ".1"), ".\u{1b}[31m1\u{1b}[0m");
    assert_eq!(colorized("7.80.0", "7.80.0_1"), "7.80.0_\u{1b}[32m1\u{1b}[0m");
}

#[test]
fn parts_are_the_tokens_of_letters_and_digits() {
    assert_eq!(Version::new("1.2_3-4").parts(), owned(&["1", "2", "3", "4"]));
    assert_eq!(Version::new("..").parts(), owned(&[]));
    assert_eq!(Version::new("").parts(), owned(&[]));
}
