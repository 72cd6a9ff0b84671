use brewcolor::brew::outdated::{Cask, Formula, Json, Outdated};
use brewcolor::brew::Brew;
use brewcolor::brew::{BrewOutdated, BrewOutdatedData};
use colored::Colorize;

fn formula(name: &str, installed_versions: &[&str], current_version: &str) -> Formula {
    Formula {
        name: name.to_owned(),
        installed_versions: installed_versions.iter().map(|version| version.to_string()).collect(),
        current_version: current_version.to_owned(),
    }
}

fn cask(name: &str, installed_versions: &str, current_version: &str) -> Cask {
    Cask {
        name: name.to_owned(),
        installed_versions: installed_versions.to_owned(),
        current_version: current_version.to_owned(),
    }
}

fn data() -> Json {
    Json {
        formulae: vec![
            formula("curl", &["7.80.0", "7.80.0"], "7.80.0_1"),
            formula("jpeg", &["9d"], "9e"),
            formula("php", &["8.0.12"], "8.0.13"),
            formula("picat", &["3.1.1"], "3.1#2"),
            formula("srmio", &["0.1.0"], "0.1.1~git1"),
        ],
        casks: vec![
            cask("atok", "2021,32.1.0:try2", "2021,32.1.0:try3"),
            cask("duplicati", "2.0.6.1,beta:2021-05-03", "2.0.6.3,beta:2021-06-17"),
            cask("powershell", "7.1.0", "7.2.0"),
            cask("sequel-ace", "3.4.0,3038, 3.4.1,3041", "3.4.2,3043"),
        ],
    }
}

#[test]
fn new_should_return_outdated_struct() {
    assert_eq!(
        Outdated::new(data()).unwrap(),
        Outdated {
            formulae: vec![
                formula("curl", &["7.80.0", "7.80.0"], "7.80.0_1"),
                formula("jpeg", &["9d"], "9e"),
                formula("php", &["8.0.12"], "8.0.13"),
                formula("picat", &["3.1.1"], "3.1#2"),
                formula("srmio", &["0.1.0"], "0.1.1~git1"),
            ],
            casks: vec![
                formula("atok", &["2021,32.1.0:try2"], "2021,32.1.0:try3"),
                formula("duplicati", &["2.0.6.1,beta:2021-05-03"], "2.0.6.3,beta:2021-06-17"),
                formula("powershell", &["7.1.0"], "7.2.0"),
                formula("sequel-ace", &["3.4.0,3038", "3.4.1,3041"], "3.4.2,3043"),
            ],
        }
    );

    assert!(Outdated::new(Json { formulae: vec![], casks: vec![] }).is_none());
}

#[test]
fn to_csv_should_return_csv_with_color() {
    colored::control::set_override(true);
    let major = colored::Color::Red;
    let minor = colored::Color::Blue;
    let other = colored::Color::Green;
    let outdated = Outdated::new(data()).unwrap();
    let expected = [
        format!("curl,7.80.0,->,7.80.0_{}\n", "1".color(other)),
        format!("jpeg,9d,->,{}\n", "9e".color(major)),
        format!("php,8.0.12,->,8.0.{}\n", "13".color(other)),
        format!("picat,3.1.1,->,3.1#{}\n", "2".color(other)),
        format!("srmio,0.1.0,->,0.1.{}\n", "1~git1".color(other)),
        format!("atok,\"2021,32.1.0:try2\",->,\"2021,32.1.0:{}\"\n", "try3".color(other)),
        format!(
            "duplicati,\"2.0.6.1,beta:2021-05-03\",->,\"2.0.6.{}\"\n",
            "3,beta:2021-06-17".color(other)
        ),
        format!("powershell,7.1.0,->,7.{}\n", "2.0".color(minor)),
        format!("sequel-ace,\"3.4.1,3041\",->,\"3.4.{}\"\n", "2,3043".color(other)),
    ]
    .concat();
    assert_eq!(outdated.to_csv().ok(), Some(expected));
}

#[test]
fn format_should_return_tabular_formulae() {
    colored::control::set_override(true);
    let major = colored::Color::Red;
    let minor = colored::Color::Blue;
    let other = colored::Color::Green;
    let outdated = Outdated::new(data()).unwrap();
    let expected = [
        format!("curl          7.80.0                     ->    7.80.0_{}", "1".color(other)),
        format!("jpeg          9d                         ->    {}", "9e".color(major)),
        format!("php           8.0.12                     ->    8.0.{}", "13".color(other)),
        format!("picat         3.1.1                      ->    3.1#{}", "2".color(other)),
        format!("srmio         0.1.0                      ->    0.1.{}", "1~git1".color(other)),
        format!("atok          2021,32.1.0:try2           ->    2021,32.1.0:{}", "try3".color(other)),
        format!(
            "duplicati     2.0.6.1,beta:2021-05-03    ->    2.0.6.{}",
            "3,beta:2021-06-17".color(other)
        ),
        format!("powershell    7.1.0                      ->    7.{}", "2.0".color(minor)),
        format!("sequel-ace    3.4.1,3041                 ->    3.4.{}", "2,3043".color(other)),
    ]
    .join("\n");
    assert_eq!(outdated.format().ok(), Some(expected));
}

#[test]
fn csv() {
    colored::control::set_override(true);
    let data = BrewOutdatedData::new("rust (1.38.0, 1.39.0) < 1.40.0");
    let outdated = BrewOutdated::new(&data);

    assert_eq!(outdated.csv(), "rust,\"1.38.0, 1.39.0\",->,1.\u{1b}[34m40.0\u{1b}[0m",)
}

#[test]
fn a_record_of_php_is_shown_with_its_last_part_in_colour() {
    colored::control::set_override(true);
    let outdated = Outdated::new(Json { formulae: vec![formula("php", &["8.0.12"], "8.0.13")], casks: vec![] });
    let outdated = outdated.unwrap();
    assert_eq!(outdated.format().ok(), Some("php    8.0.12    ->    8.0.\u{1b}[32m13\u{1b}[0m".to_owned()));
}

#[test]
fn a_document_without_packages_has_nothing_to_show() {
    assert!(Outdated::new(Json { formulae: vec![], casks: vec![] }).is_none());
    assert!(Outdated::new(Json { formulae: vec![formula("a", &[], "1")], casks: vec![] }).is_some());
    assert!(Outdated::new(Json { formulae: vec![], casks: vec![cask("a", "1", "2")] }).is_some());
}

#[test]
fn a_package_without_installed_versions_is_left_out_and_named() {
    colored::control::set_override(true);
    let outdated = Outdated {
        formulae: vec![formula("ghost", &[], "1.0"), formula("php", &["8.0.12"], "8.0.13")],
        casks: vec![formula("none", &[], "2"), formula("powershell", &["7.1.0"], "7.2.0")],
    };
    assert_eq!(outdated.skipped(), vec!["ghost".to_owned(), "none".to_owned()]);
    assert_eq!(
        outdated.diagnostics(),
        vec![
            "[ERROR] There are no installed versions: ghost".to_owned(),
            "[ERROR] There are no installed versions: none".to_owned()
        ]
    );
    assert_eq!(
        outdated.format().ok(),
        Some(
            "php           8.0.12    ->    8.0.\u{1b}[32m13\u{1b}[0m\npowershell    7.1.0     ->    7.\u{1b}[34m2.0\u{1b}[0m"
                .to_owned()
        )
    );
    assert_eq!(
        outdated.to_csv().ok(),
        Some(
            "php,8.0.12,->,8.0.\u{1b}[32m13\u{1b}[0m\npowershell,7.1.0,->,7.\u{1b}[34m2.0\u{1b}[0m\n"
                .to_owned()
        )
    );
    let names: Vec<String> = outdated.comparable().into_iter().map(|item| item.name).collect();
    assert_eq!(names, vec!["php".to_owned(), "powershell".to_owned()]);
}

#[test]
fn a_cask_becomes_a_formula_with_its_versions_cut() {
    assert_eq!(
        Formula::from(cask("sequel-ace", "3.4.0,3038, 3.4.1,3041", "3.4.2,3043")),
        formula("sequel-ace", &["3.4.0,3038", "3.4.1,3041"], "3.4.2,3043")
    );
    assert_eq!(Formula::from(cask("a", "", "1")), formula("a", &[""], "1"));
}

#[test]
fn table_with_takes_the_versions_as_they_are_given() {
    let outdated = Outdated { formulae: vec![formula("a", &["1"], "2"), formula("bcd", &["10"], "11")], casks: vec![] };
    let shown = vec!["x".to_owned(), "\u{1b}[31myz\u{1b}[0m".to_owned()];
    assert_eq!(outdated.table_with(&shown), "a      1     ->    x\nbcd    10    ->    \u{1b}[31myz\u{1b}[0m");
    assert_eq!(outdated.csv_with(&shown), "a,1,->,x\nbcd,10,->,\u{1b}[31myz\u{1b}[0m\n");
}

#[test]
fn the_listing_is_shown_as_a_table() {
    colored::control::set_override(true);
    let brew = Brew::new("rust (1.38.0, 1.39.0) < 1.40.0\nphp (8.0.12) < 8.0.13\n");
    assert_eq!(
        brew.outdated.format().ok(),
        Some(
            "rust    1.38.0, 1.39.0    ->    1.\u{1b}[34m40.0\u{1b}[0m    \nphp     8.0.12            ->    8.0.\u{1b}[32m13\u{1b}[0m    \n"
                .to_owned()
        )
    );
}

#[test]
fn format_csv_reports_lines_that_are_no_csv() {
    let result = BrewOutdated::format_csv("a,b\nc\n");
    match result {
        Err(error) => assert!(error.message().contains("found record with 1 field")),
        Ok(text) => panic!("made a table: {}", text),
    }
    assert_eq!(BrewOutdated::format_csv("a,\"b,c\"\nde,f\n").ok(), Some("a     b,c    \nde    f    \n".to_owned()));
}

#[test]
fn packages_with_installed_versions_have_no_diagnostic() {
    let outdated = Outdated { formulae: vec![formula("php", &["8.0.12"], "8.0.13")], casks: vec![] };
    assert_eq!(outdated.diagnostics(), Vec::<String>::new());
    assert_eq!(outdated.skipped(), Vec::<String>::new());
    let outdated = Outdated { formulae: vec![formula("a", &[], "1"), formula("php", &["8.0.12"], "8.0.13")], casks: vec![] };
    assert_eq!(outdated.diagnostics(), vec!["[ERROR] There are no installed versions: a".to_owned()]);
}
