use brewcolor::range::{range, Bound, Bounds};
use brewcolor::version::{interleave, is_safe_version, Version};

fn owned(items: &[&str]) -> Vec<String> {
    items.iter().map(|item| item.to_string()).collect()
}

fn printed_parts(version: &str) -> Vec<String> {
    match version_compare::Version::from(version) {
        Some(version) => version.parts().iter().map(|part| part.to_string()).collect(),
        None => panic!("not a version: {}", version),
    }
}

fn before() -> (Version, Vec<String>) {
    let latest_version = "1.0.0_1";
    (Version::new(&[""], latest_version), printed_parts(latest_version))
}

#[test]
fn generate_delimiters_should_return_delimiters_list() {
    assert_eq!(
        Version::generate_delimiters("1.2_3-4"),
        [".".to_owned(), "_".to_owned(), "-".to_owned()]
    );
}

#[test]
fn build_version_should_return_string() {
    let (version, parts) = before();
    let parts = &parts;

    assert_eq!(version.build_version(parts, &Bounds::to(1), &Bounds::to(0)).ok(), Some("1".to_owned()));
    assert_eq!(version.build_version(parts, &Bounds::to(2), &Bounds::to(1)).ok(), Some("1.0".to_owned()));
    assert_eq!(version.build_version(parts, &Bounds::to(3), &Bounds::to(2)).ok(), Some("1.0.0".to_owned()));
    assert_eq!(version.build_version(parts, &Bounds::to(4), &Bounds::to(3)).ok(), Some("1.0.0_1".to_owned()));

    assert_eq!(
        version.build_version(parts, &Bounds::from(0), &Bounds::from(0)).ok(),
        Some("1.0.0_1".to_owned())
    );
    assert_eq!(
        version.build_version(parts, &Bounds::from(1), &Bounds::from(1)).ok(),
        Some("0.0_1".to_owned())
    );
    assert_eq!(version.build_version(parts, &Bounds::from(2), &Bounds::from(2)).ok(), Some("0_1".to_owned()));
    assert_eq!(version.build_version(parts, &Bounds::from(3), &Bounds::from(3)).ok(), Some("1".to_owned()));
}

#[test]
fn build_version_reports_a_range_beyond_the_list() {
    let (version, parts) = before();
    let result = version.build_version(&parts, &Bounds::to(5), &Bounds::to(3));
    match result {
        Err(error) => assert_eq!(error.message(), "The index out of range."),
        Ok(text) => panic!("built {}", text),
    }
    assert!(version.build_version(&parts, &Bounds::from(0), &Bounds::from(4)).is_err());
}

#[test]
fn generate_delimiters_ignores_other_punctuation() {
    assert_eq!(Version::generate_delimiters("2.4+2015_1,3"), owned(&[".", "_"]));
    assert_eq!(Version::generate_delimiters(""), Vec::<String>::new());
}

#[test]
fn colorize_by_parts_colours_from_the_first_part_that_differs() {
    colored::control::set_override(true);
    assert_eq!(Version::new(&["1.38.0", "1.39.0"], "1.40.0").colorize(), "1.\u{1b}[34m40.0\u{1b}[0m");
    assert_eq!(Version::new(&["1.0.0"], "2.0.0").colorize(), "\u{1b}[31m2.0.0\u{1b}[0m");
    assert_eq!(Version::new(&["1.0.0"], "1.0.1").colorize(), "1.0.\u{1b}[32m1\u{1b}[0m");
    assert_eq!(Version::new(&["1.0.0_0"], "1.0.0_1").colorize(), "1.0.0_\u{1b}[32m1\u{1b}[0m");
}

#[test]
fn colorize_by_parts_leaves_the_version_where_nothing_differs() {
    colored::control::set_override(true);
    assert_eq!(Version::new(&["1.0.0"], "1.0.0").colorize(), "1.0.0");
    assert_eq!(Version::new(&["1.0"], "1.00").colorize(), "1.00");
    assert_eq!(Version::new(&["abc"], "1.0").colorize(), "1.0");
    assert_eq!(Version::new(&["1.0"], "abc").colorize(), "abc");
}

#[test]
fn colorize_by_parts_without_installed_versions_colours_everything() {
    colored::control::set_override(true);
    let none: [&str; 0] = [];
    assert_eq!(Version::new(&none, "1.2").colorize(), "\u{1b}[31m1.2\u{1b}[0m");
    assert_eq!(Version::new(&[""], "1.2").colorize(), "\u{1b}[31m1.2\u{1b}[0m");
}

#[test]
fn colorize_by_parts_gives_up_where_delimiters_are_missing() {
    colored::control::set_override(true);
    assert_eq!(Version::new(&["1+0+1"], "1+0+2").colorize(), "1+0+2");
    assert_eq!(Version::new(&["1.0.1"], "1.0").colorize(), "1.0");
}

#[test]
fn colorize_by_parts_gives_up_on_a_number_that_is_too_long() {
    colored::control::set_override(true);
    assert!(!is_safe_version("12345678901a"));
    assert!(is_safe_version("12345678901"));
    assert!(is_safe_version("123456789a"));
    assert_eq!(Version::new(&["1.0"], "12345678901a").colorize(), "12345678901a");
}

#[test]
fn parts_differ_by_value_and_else_by_text() {
    assert!(!Version::parts_differ("1", "01"));
    assert!(Version::parts_differ("1", "2"));
    assert!(Version::parts_differ("a", "b"));
    assert!(!Version::parts_differ("a", "a"));
}

#[test]
fn find_different_part_position_walks_both_lists() {
    let version = Version::new(&["1.0", "1.2.3"], "1.2.4");
    assert_eq!(version.find_different_part_position(&owned(&["1", "2", "4"])), Some(2));
    assert_eq!(version.find_different_part_position(&owned(&["1", "2", "3"])), None);
    assert_eq!(version.find_different_part_position(&owned(&["1", "2"])), Some(2));
    assert_eq!(version.find_different_part_position(&owned(&["1", "2", "3", "0"])), Some(3));
}

#[test]
fn interleave_takes_turns_and_then_the_rest() {
    let a = owned(&["a", "b", "c"]);
    let b = owned(&["1"]);
    assert_eq!(interleave(&a, 0, 3, &b, 0, 1), owned(&["a", "1", "b", "c"]));
    assert_eq!(interleave(&b, 0, 1, &a, 0, 3), owned(&["1", "a", "b", "c"]));
    assert_eq!(interleave(&a, 1, 3, &b, 1, 1), owned(&["b", "c"]));
}

#[test]
fn range_follows_the_bounds() {
    assert_eq!(range(4, &Bounds::to(2)), Some((0, 2)));
    assert_eq!(range(4, &Bounds::from(4)), Some((4, 4)));
    assert_eq!(range(4, &Bounds::from(5)), None);
    assert_eq!(range(4, &Bounds { start: Bound::Excluded(0), end: Bound::Included(3) }), Some((1, 4)));
    assert_eq!(range(4, &Bounds { start: Bound::Included(3), end: Bound::Excluded(2) }), None);
    assert_eq!(range(4, &Bounds { start: Bound::Unbounded, end: Bound::Included(usize::MAX) }), None);
    assert_eq!(range(4, &Bounds { start: Bound::Unbounded, end: Bound::Unbounded }), Some((0, 4)));
}
