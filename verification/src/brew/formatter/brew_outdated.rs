use crate::brew::parser::brew_outdated::{all_fields, all_fields_of, Fields};
use crate::brew::parser::{BrewOutdatedData, BrewOutdatedDetail};
use crate::error::Error;
use crate::records::{csv_rows, csv_rows_of};
use crate::table::{raw_table_text, tabulate_raw};
use crate::text::{join, joined, lines_spec, views};
use crate::version::{delimiters_in, is_colorized};
use vstd::prelude::*;
use vstd::string::StringExecFns;

verus! {

/// The line of a package: its name, the installed versions in quotes, an
/// arrow, and the latest version as it is shown.
pub open spec fn csv_line_text(fields: Fields, shown: Seq<char>) -> Seq<char> {
    fields.name + seq![',', '"'] + joined(fields.current_versions, seq![',', ' ']) + seq![
        '"',
        ',',
        '-',
        '>',
        ',',
    ] + shown
}

/// Each of `shown` is the latest version of the package of `details` at the
/// same place, with its changed end in colour.
pub open spec fn are_shown(shown: Seq<Seq<char>>, details: Seq<Fields>) -> bool {
    shown.len() == details.len() && forall|i: int|
        0 <= i < details.len() ==> is_colorized(
            #[trigger] shown[i],
            details[i].current_versions,
            details[i].latest_version,
            delimiters_in(details[i].latest_version),
        )
}

/// The lines of the packages `details`, one per package.
pub open spec fn csv_text(details: Seq<Fields>, shown: Seq<Seq<char>>) -> Seq<char> {
    joined(Seq::new(details.len(), |i: int| csv_line_text(details[i], shown[i])), seq!['\n'])
}

/// `out` holds a line for each of the packages `details`, with the latest
/// versions shown in colour as the environment allowed.
pub open spec fn is_csv(out: Seq<char>, details: Seq<Fields>) -> bool {
    exists|shown: Seq<Seq<char>>| are_shown(shown, details) && out == csv_text(details, shown)
}

/// What the table of `csv` is: the table of its records, or the error that
/// reading gave.
pub open spec fn is_table_of(out: Result<String, Error>, csv: Seq<char>) -> bool {
    match csv_rows_of(csv) {
        Ok(rows) => out matches Ok(text) && text@ == raw_table_text(rows),
        Err(message) => out matches Err(Error::Csv(text)) && text@ == message,
    }
}

/// Shows the outdated packages as a table.
#[derive(Clone, Debug)]
pub struct BrewOutdated {
    pub data: BrewOutdatedData,
}

impl BrewOutdated {
    /// Keeps a copy of `data`.
    pub fn new(data: &BrewOutdatedData) -> (out: Self)
        ensures
            out.data.text@ == data.text@,
    {
        BrewOutdated { data: BrewOutdatedData { text: data.text.clone() } }
    }

    /// The line of a package whose latest version is shown as `shown`.
    pub fn csv_line(detail: &BrewOutdatedDetail, shown: &str) -> (out: String)
        ensures
            out@ == csv_line_text(detail.fields(), shown@),
    {
        proof {
            reveal_strlit(", ");
            reveal_strlit(",\"");
            reveal_strlit("\",->,");
            assert(", "@ =~= seq![',', ' ']);
            assert(",\""@ =~= seq![',', '"']);
            assert("\",->,"@ =~= seq!['"', ',', '-', '>', ',']);
        }
        let versions = join(&detail.current_versions, ", ");
        detail.name.clone().concat(",\"").concat(versions.as_str()).concat("\",->,").concat(shown)
    }

    /// A line for each outdated package, with the changed end of its latest
    /// version in colour.
    pub fn csv(&self) -> (out: String)
        ensures
            is_csv(out@, all_fields_of(lines_spec(self.data.text@))),
    {
        let items = self.data.items();
        let ghost details = all_fields(items@);
        let mut lines: Vec<String> = Vec::new();
        let ghost mut shown: Seq<Seq<char>> = Seq::empty();
        let mut i: usize = 0;
        while i < items.len()
            invariant
                i <= items.len(),
                details == all_fields(items@),
                lines@.len() == i,
                shown.len() == i,
                forall|k: int|
                    0 <= k < i ==> is_colorized(
                        #[trigger] shown[k],
                        details[k].current_versions,
                        details[k].latest_version,
                        delimiters_in(details[k].latest_version),
                    ),
                forall|k: int|
                    0 <= k < i ==> (#[trigger] lines@[k])@ == csv_line_text(details[k], shown[k]),
            decreases items.len() - i,
        {
            let colored = items[i].colorize();
            let text = Self::csv_line(&items[i], colored.latest_version.as_str());
            lines.push(text);
            proof {
                shown = shown.push(colored.latest_version@);
            }
            i += 1;
        }
        proof {
            reveal_strlit("\n");
            assert("\n"@ =~= seq!['\n']);
            assert(views(lines@) =~= Seq::new(
                details.len(),
                |k: int| csv_line_text(details[k], shown[k]),
            ));
            assert(are_shown(shown, details));
        }
        join(&lines, "\n")
    }

    /// The table of the records of `csv`.
    pub fn format_csv(csv: &str) -> (out: Result<String, Error>)
        ensures
            is_table_of(out, csv@),
    {
        match csv_rows(csv) {
            Ok(rows) => Ok(tabulate_raw(&rows)),
            Err(message) => Err(Error::Csv(message)),
        }
    }

    /// The outdated packages as a table: name, installed versions, an arrow
    /// and the latest version, with 4 spaces behind each column.
    pub fn format(&self) -> (out: Result<String, Error>)
        ensures
            exists|csv: Seq<char>|
                is_csv(csv, all_fields_of(lines_spec(self.data.text@))) && is_table_of(out, csv),
    {
        let csv = self.csv();
        let out = Self::format_csv(csv.as_str());
        assert(is_csv(csv@, all_fields_of(lines_spec(self.data.text@))) && is_table_of(out, csv@));
        out
    }
}

} // verus!
