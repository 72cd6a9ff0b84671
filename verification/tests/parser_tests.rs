use brewcolor::brew::parser::{BrewOutdatedData, BrewOutdatedDetail, BrewUpdateData};
use brewcolor::text::{lines, split, starts_with};

const UPDATE_TEXT: &str = "Updated 1 tap (homebrew/core).\nAlready up-to-date.\nNo changes to formulae.\n==> Updated Formulae\nphp\nrust\ntypescript\nvim\n==> Deleted Formulae\ngo\npython\nruby\n==> TEST\ntest1\ntest2\n";

#[test]
fn detail() {
    assert_eq!(
        BrewOutdatedData::detail("rust (1.38.0, 1.39.0) < 1.40.0"),
        Some(BrewOutdatedDetail::new("rust", &["1.38.0", "1.39.0"], "1.40.0"))
    );
    assert_eq!(BrewOutdatedData::detail(""), None);
}

#[test]
fn messages() {
    let text = "Updated 1 tap (homebrew/core).\nAlready up-to-date.\nNo changes to formulae.\n==> Updated Formulae\nrust\ntypescript\n";
    let messages = BrewUpdateData::new(text).messages();

    assert_eq!(
        messages.ok(),
        Some(vec![
            "Updated 1 tap (homebrew/core).".to_owned(),
            "Already up-to-date.".to_owned(),
            "No changes to formulae.".to_owned(),
        ])
    );
    assert_eq!(BrewUpdateData::new("").messages().ok(), Some(vec![]));
}

#[test]
fn update_items() {
    let items = BrewUpdateData::new(UPDATE_TEXT).items();
    let mut items = items.into_iter();

    assert_eq!(
        items.next(),
        Some((
            vec!["==> Updated Formulae".to_owned()],
            vec!["php".to_owned(), "rust".to_owned(), "typescript".to_owned(), "vim".to_owned()]
        ))
    );
    assert_eq!(
        items.next(),
        Some((
            vec!["==> Deleted Formulae".to_owned()],
            vec!["go".to_owned(), "python".to_owned(), "ruby".to_owned()]
        ))
    );
    assert_eq!(
        items.next(),
        Some((vec!["==> TEST".to_owned()], vec!["test1".to_owned(), "test2".to_owned()]))
    );
    assert_eq!(items.next(), None);

    let mut empty = BrewUpdateData::new("").items().into_iter();

    assert_eq!(empty.next(), None);
}

#[test]
fn a_header_without_lines_below_is_no_section() {
    assert_eq!(BrewUpdateData::new("==> Updated Formulae\n").items(), vec![]);
    assert_eq!(
        BrewUpdateData::new("==> A\nx\n==> B\n").items(),
        vec![(vec!["==> A".to_owned()], vec!["x".to_owned()])]
    );
    assert_eq!(BrewUpdateData::new("x\ny\n").items(), vec![]);
}

#[test]
fn neighbouring_headers_head_one_section() {
    assert_eq!(
        BrewUpdateData::new("==> A\n==> B\nx\ny").items(),
        vec![(vec!["==> A".to_owned(), "==> B".to_owned()], vec!["x".to_owned(), "y".to_owned()])]
    );
}

#[test]
fn runs_group_lines_by_kind() {
    assert_eq!(
        BrewUpdateData::new("a\nb\n==> H\nc\n").runs(),
        vec![
            vec!["a".to_owned(), "b".to_owned()],
            vec!["==> H".to_owned()],
            vec!["c".to_owned()]
        ]
    );
    assert_eq!(BrewUpdateData::new("").runs(), Vec::<Vec<String>>::new());
}

#[test]
fn detail_takes_the_last_brackets_for_the_versions() {
    assert_eq!(
        BrewOutdatedData::detail("a (b) (1.0) < 2.0"),
        Some(BrewOutdatedDetail::new("a (b)", &["1.0"], "2.0"))
    );
    assert_eq!(BrewOutdatedData::detail("rust 1.38.0 < 1.40.0"), None);
    assert_eq!(BrewOutdatedData::detail("rust (1.38.0) 1.40.0"), None);
}

#[test]
fn items_and_names_skip_lines_of_another_shape() {
    let data = BrewOutdatedData::new("rust (1.38.0, 1.39.0) < 1.40.0\nnothing here\nphp (8.0.12) < 8.0.13\n");
    assert_eq!(
        data.items(),
        vec![
            BrewOutdatedDetail::new("rust", &["1.38.0", "1.39.0"], "1.40.0"),
            BrewOutdatedDetail::new("php", &["8.0.12"], "8.0.13"),
        ]
    );
    assert_eq!(data.names(), vec!["rust".to_owned(), "php".to_owned()]);
    assert_eq!(BrewOutdatedData::new("").names(), Vec::<String>::new());
}

#[test]
fn detail_colorize_keeps_name_and_installed_versions() {
    colored::control::set_override(true);
    let detail = BrewOutdatedDetail::new("rust", &["1.38.0", "1.39.0"], "1.40.0");
    let colored = detail.colorize();
    assert_eq!(colored.name, "rust");
    assert_eq!(colored.current_versions, vec!["1.38.0".to_owned(), "1.39.0".to_owned()]);
    assert_eq!(colored.latest_version, "1.\u{1b}[34m40.0\u{1b}[0m");
}

#[test]
fn lines_end_at_line_feeds() {
    assert_eq!(lines("a\nb"), vec!["a".to_owned(), "b".to_owned()]);
    assert_eq!(lines("a\r\nb\n"), vec!["a".to_owned(), "b".to_owned()]);
    assert_eq!(lines("a\n\nb\r"), vec!["a".to_owned(), "".to_owned(), "b\r".to_owned()]);
    assert_eq!(lines(""), Vec::<String>::new());
    assert_eq!(lines("\n"), vec!["".to_owned()]);
    for text in ["a\nb", "a\r\nb\n", "a\n\nb\r", "", "\n", "\r\n\r", "x\r\r\ny"] {
        let expected: Vec<String> = text.lines().map(String::from).collect();
        assert_eq!(lines(text), expected);
    }
}

#[test]
fn split_cuts_at_every_separator() {
    assert_eq!(split("1.0, 2.0", ", "), vec!["1.0".to_owned(), "2.0".to_owned()]);
    assert_eq!(split("1.0", ", "), vec!["1.0".to_owned()]);
    assert_eq!(split("", ", "), vec!["".to_owned()]);
    assert_eq!(split(", a, ", ", "), vec!["".to_owned(), "a".to_owned(), "".to_owned()]);
    for (text, separator) in [("aaa", "aa"), ("3.4.0,3038, 3.4.1,3041", ", "), ("a,b", ",")] {
        let expected: Vec<String> = text.split(separator).map(String::from).collect();
        assert_eq!(split(text, separator), expected);
    }
}

#[test]
fn starts_with_looks_at_the_start_alone() {
    assert!(starts_with("==> Updated", "==>"));
    assert!(starts_with("==>", "==>"));
    assert!(!starts_with("a ==>", "==>"));
    assert!(!starts_with("==", "==>"));
    assert!(starts_with("", ""));
    assert!(starts_with("x", ""));
    assert!(!starts_with("", "x"));
}

#[test]
fn a_line_with_the_marker_inside_belongs_to_the_lines_below() {
    assert_eq!(
        BrewUpdateData::new("==> A\nx ==> y\nb").items(),
        vec![(vec!["==> A".to_owned()], vec!["x ==> y".to_owned(), "b".to_owned()])]
    );
    assert_eq!(BrewUpdateData::new(" ==> A\nb").items(), vec![]);
}

#[test]
fn stringify_gives_the_text_or_nothing() {
    assert_eq!(brewcolor::text::stringify(b"caf\xc3\xa9"), "caf\u{e9}");
    assert_eq!(brewcolor::text::stringify(b""), "");
    assert_eq!(brewcolor::text::stringify(b"caf\xc3"), "");
    assert_eq!(brewcolor::text::stringify(b"\xff\xfe"), "");
}
