use crate::brew::version::{is_colorization, is_tokenization, VersionComparison};
use crate::error::Error;
use crate::records::{csv_record, csv_record_of};
use crate::table::{table_text, tabulate};
use crate::text::{clone_strings, concat, join, nested_views, split, split_spec, views};
use vstd::prelude::*;
use vstd::string::StringExecFns;

verus! {

/// A package as the logic sees it: its name, the installed versions from the
/// oldest to the latest, and the version that it can be updated to.
pub struct Record {
    pub name: Seq<char>,
    pub installed_versions: Seq<Seq<char>>,
    pub current_version: Seq<char>,
}

/// An outdated formula.
#[derive(Debug, PartialEq)]
pub struct Formula {
    pub name: String,
    pub installed_versions: Vec<String>,
    pub current_version: String,
}

/// An outdated cask: its installed versions come as one text, with a comma
/// and a space between two versions.
#[derive(Debug, PartialEq)]
pub struct Cask {
    pub name: String,
    pub installed_versions: String,
    pub current_version: String,
}

/// The document that lists the outdated packages.
#[derive(Debug, PartialEq)]
pub struct Json {
    pub formulae: Vec<Formula>,
    pub casks: Vec<Cask>,
}

/// The outdated packages, casks in the form of formulae.
#[derive(Debug, PartialEq)]
pub struct Outdated {
    pub formulae: Vec<Formula>,
    pub casks: Vec<Formula>,
}

impl Formula {
    /// The formula as the logic sees it.
    pub open spec fn record(&self) -> Record {
        Record {
            name: self.name@,
            installed_versions: views(self.installed_versions@),
            current_version: self.current_version@,
        }
    }

    /// The cask as a formula: its installed versions cut at every comma
    /// followed by a space.
    pub fn from(c: Cask) -> (out: Formula)
        ensures
            out.record() == c.record(),
    {
        proof {
            reveal_strlit(", ");
        }
        Formula {
            name: c.name,
            installed_versions: split(c.installed_versions.as_str(), ", "),
            current_version: c.current_version,
        }
    }

    /// A copy of the formula.
    pub fn copy(&self) -> (out: Formula)
        ensures
            out.record() == self.record(),
    {
        Formula {
            name: self.name.clone(),
            installed_versions: clone_strings(&self.installed_versions),
            current_version: self.current_version.clone(),
        }
    }
}

impl Cask {
    /// The cask as the logic sees it.
    pub open spec fn record(&self) -> Record {
        Record {
            name: self.name@,
            installed_versions: split_spec(self.installed_versions@, ", "@),
            current_version: self.current_version@,
        }
    }
}

/// The formulae as the logic sees them.
pub open spec fn records(formulae: Seq<Formula>) -> Seq<Record> {
    Seq::new(formulae.len(), |i: int| formulae[i].record())
}

/// The casks as the logic sees them.
pub open spec fn cask_records(casks: Seq<Cask>) -> Seq<Record> {
    Seq::new(casks.len(), |i: int| casks[i].record())
}

/// Whether a version of the package is installed.
pub open spec fn has_installed(record: Record) -> bool {
    record.installed_versions.len() > 0
}

/// The packages that can be compared: those with an installed version.
pub open spec fn kept(all: Seq<Record>) -> Seq<Record> {
    all.filter(|record: Record| has_installed(record))
}

/// The packages that cannot be compared: those without an installed version.
pub open spec fn dropped(all: Seq<Record>) -> Seq<Record> {
    all.filter(|record: Record| !has_installed(record))
}

/// The names of the packages.
pub open spec fn names(all: Seq<Record>) -> Seq<Seq<char>> {
    Seq::new(all.len(), |i: int| all[i].name)
}

/// `out` shows the version `current` with everything from the first part
/// that differs from `installed` in the colour of that part's tier.
pub open spec fn is_version_shown(out: Seq<char>, installed: Seq<char>, current: Seq<char>) -> bool {
    exists|from: Seq<Seq<char>>, to: Seq<Seq<char>>|
        is_tokenization(from, installed) && is_tokenization(to, current) && is_colorization(
            out,
            from,
            to,
        )
}

/// Each of `shown` shows the new version of the package of `all` at the same
/// place, compared with the latest version that is installed.
pub open spec fn are_versions_shown(shown: Seq<Seq<char>>, all: Seq<Record>) -> bool {
    shown.len() == all.len() && forall|i: int|
        0 <= i < all.len() ==> is_version_shown(
            #[trigger] shown[i],
            all[i].installed_versions.last(),
            all[i].current_version,
        )
}

/// The arrow between the installed and the new version.
pub open spec fn arrow() -> Seq<char> {
    seq!['-', '>']
}

/// The rows of the table: name, latest installed version, arrow, new version.
pub open spec fn rows_text(all: Seq<Record>, shown: Seq<Seq<char>>) -> Seq<Seq<Seq<char>>> {
    Seq::new(
        all.len(),
        |i: int| seq![all[i].name, all[i].installed_versions.last(), arrow(), shown[i]],
    )
}

/// The lines of the packages as the `csv` crate writes them; a package that
/// it refuses has no line.
pub open spec fn csv_lines(all: Seq<Record>, shown: Seq<Seq<char>>) -> Seq<Seq<char>> {
    Seq::new(
        all.len(),
        |i: int|
            match csv_record_of(all[i].name, all[i].installed_versions.last(), arrow(), shown[i]) {
                Some(line) => line,
                None => Seq::empty(),
            },
    )
}

/// `out` is the table of the packages `all` that have an installed version,
/// the new versions shown in colour as the environment allowed.
pub open spec fn is_table(out: Seq<char>, all: Seq<Record>) -> bool {
    exists|shown: Seq<Seq<char>>|
        are_versions_shown(shown, kept(all)) && out == table_text(rows_text(kept(all), shown))
}

/// `out` lists the packages of `all` that have an installed version as CSV,
/// the new versions shown in colour as the environment allowed.
pub open spec fn is_csv_list(out: Seq<char>, all: Seq<Record>) -> bool {
    exists|shown: Seq<Seq<char>>|
        are_versions_shown(shown, kept(all)) && out == concat(csv_lines(kept(all), shown))
}

/// What is said of a package that is left out because no version of it is
/// installed.
pub const NOT_INSTALLED: &'static str = "[ERROR] There are no installed versions: ";

/// The diagnostics of the packages `all`: one line for each package without
/// an installed version, which names the package; none for any other.
pub open spec fn diagnostics_of(all: Seq<Record>) -> Seq<Seq<char>> {
    Seq::new(dropped(all).len(), |i: int| NOT_INSTALLED@ + dropped(all)[i].name)
}

/// Every package is either compared or left out with a diagnostic: one with
/// an installed version is among those that are kept and not among those that
/// are dropped, one without is among those that are dropped and not among
/// those that are kept.
pub proof fn lemma_kept_or_dropped(all: Seq<Record>, i: int)
    requires
        0 <= i < all.len(),
    ensures
        has_installed(all[i]) ==> kept(all).contains(all[i]) && !dropped(all).contains(all[i]),
        !has_installed(all[i]) ==> dropped(all).contains(all[i]) && !kept(all).contains(all[i]),
{
    let keep = |record: Record| has_installed(record);
    let drop = |record: Record| !has_installed(record);
    if has_installed(all[i]) {
        all.lemma_filter_contains(keep, i);
    } else {
        all.lemma_filter_contains(drop, i);
    }
    if kept(all).contains(all[i]) {
        let k = choose|k: int| 0 <= k < kept(all).len() && kept(all)[k] == all[i];
        all.lemma_filter_pred(keep, k);
    }
    if dropped(all).contains(all[i]) {
        let k = choose|k: int| 0 <= k < dropped(all).len() && dropped(all)[k] == all[i];
        all.lemma_filter_pred(drop, k);
    }
}

/// No package is lost: those that are kept and those that are dropped are
/// as many as there are packages.
pub proof fn lemma_kept_and_dropped_are_all(all: Seq<Record>)
    ensures
        kept(all).len() + dropped(all).len() == all.len(),
    decreases all.len(),
{
    reveal(Seq::filter);
    if all.len() > 0 {
        lemma_kept_and_dropped_are_all(all.drop_last());
    }
}

impl Outdated {
    /// All packages, formulae first.
    pub open spec fn all(&self) -> Seq<Record> {
        records(self.formulae@) + records(self.casks@)
    }

    /// The packages of the document; `None` where it lists neither a formula
    /// nor a cask, so that there is nothing to show.
    pub fn new(data: Json) -> (out: Option<Self>)
        ensures
            out is None <==> data.formulae@.len() == 0 && data.casks@.len() == 0,
            out matches Some(outdated) ==> records(outdated.formulae@) == records(data.formulae@)
                && records(outdated.casks@) == cask_records(data.casks@),
    {
        let Json { formulae, casks: listed } = data;
        let mut casks: Vec<Formula> = Vec::new();
        let mut i: usize = 0;
        while i < listed.len()
            invariant
                i <= listed.len(),
                casks@.len() == i,
                forall|k: int| 0 <= k < i ==> (#[trigger] casks@[k]).record() == listed@[k].record(),
            decreases listed.len() - i,
        {
            let cask = Cask {
                name: listed[i].name.clone(),
                installed_versions: listed[i].installed_versions.clone(),
                current_version: listed[i].current_version.clone(),
            };
            casks.push(Formula::from(cask));
            i += 1;
        }
        if formulae.len() == 0 && casks.len() == 0 {
            return None;
        }
        assert(records(casks@) =~= cask_records(listed@));
        Some(Outdated { formulae, casks })
    }

    /// Copies of all packages, formulae first.
    pub fn items(&self) -> (out: Vec<Formula>)
        ensures
            records(out@) == self.all(),
    {
        let mut out: Vec<Formula> = Vec::new();
        let mut i: usize = 0;
        while i < self.formulae.len()
            invariant
                i <= self.formulae.len(),
                out@.len() == i,
                forall|k: int|
                    0 <= k < i ==> (#[trigger] out@[k]).record() == self.formulae@[k].record(),
            decreases self.formulae.len() - i,
        {
            out.push(self.formulae[i].copy());
            i += 1;
        }
        let mut j: usize = 0;
        while j < self.casks.len()
            invariant
                j <= self.casks.len(),
                out@.len() == self.formulae@.len() + j,
                forall|k: int|
                    0 <= k < self.formulae@.len() ==> (#[trigger] out@[k]).record()
                        == self.formulae@[k].record(),
                forall|k: int|
                    0 <= k < j ==> (#[trigger] out@[self.formulae@.len() + k]).record()
                        == self.casks@[k].record(),
            decreases self.casks.len() - j,
        {
            out.push(self.casks[j].copy());
            j += 1;
        }
        assert forall|k: int| 0 <= k < out@.len() implies records(out@)[k] == self.all()[k] by {
            if k >= self.formulae@.len() {
                assert(out@[self.formulae@.len() + (k - self.formulae@.len())].record()
                    == self.casks@[k - self.formulae@.len()].record());
            }
        }
        assert(records(out@) =~= self.all());
        out
    }

    /// Copies of the packages that have an installed version, in order.
    pub fn comparable(&self) -> (out: Vec<Formula>)
        ensures
            records(out@) == kept(self.all()),
            forall|k: int| 0 <= k < out@.len() ==> (#[trigger] out@[k]).installed_versions@.len() > 0,
    {
        let all = self.items();
        let mut out: Vec<Formula> = Vec::new();
        let mut i: usize = 0;
        proof {
            assert(records(all@).take(0) =~= Seq::<Record>::empty());
            assert(records(out@) =~= Seq::<Record>::empty());
            assert(kept(Seq::<Record>::empty()) =~= Seq::<Record>::empty()) by {
                reveal(Seq::filter);
            }
        }
        while i < all.len()
            invariant
                i <= all.len(),
                records(all@) == self.all(),
                records(out@) == kept(records(all@).take(i as int)),
                forall|k: int|
                    0 <= k < out@.len() ==> (#[trigger] out@[k]).installed_versions@.len() > 0,
            decreases all.len() - i,
        {
            let ghost before = records(out@);
            let ghost old_out = out@;
            let ghost next = records(all@).take(i + 1);
            proof {
                assert(next.drop_last() =~= records(all@).take(i as int));
                assert(next.last() == all@[i as int].record());
                assert(kept(next) == if has_installed(next.last()) {
                    kept(next.drop_last()).push(next.last())
                } else {
                    kept(next.drop_last())
                }) by {
                    reveal(Seq::filter);
                }
            }
            if all[i].installed_versions.len() > 0 {
                let item = all[i].copy();
                assert(views(item.installed_versions@).len() == views(
                    all@[i as int].installed_versions@,
                ).len());
                out.push(item);
                assert(records(out@) =~= before.push(all@[i as int].record()));
                assert forall|k: int| 0 <= k < out@.len() implies (
                #[trigger] out@[k]).installed_versions@.len() > 0 by {
                    if k < old_out.len() {
                        assert(out@[k] == old_out[k]);
                    }
                }
            }
            i += 1;
        }
        proof {
            assert(records(all@).take(all.len() as int) =~= records(all@));
        }
        out
    }

    /// The names of the packages that are left out of the table because no
    /// version of them is installed, in order.
    pub fn skipped(&self) -> (out: Vec<String>)
        ensures
            views(out@) == names(dropped(self.all())),
    {
        let all = self.items();
        let mut out: Vec<String> = Vec::new();
        let mut i: usize = 0;
        proof {
            reveal(Seq::filter);
            assert(records(all@).take(0) =~= Seq::<Record>::empty());
            assert(views(out@) =~= names(dropped(records(all@).take(0))));
        }
        while i < all.len()
            invariant
                i <= all.len(),
                records(all@) == self.all(),
                views(out@) == names(dropped(records(all@).take(i as int))),
            decreases all.len() - i,
        {
            let ghost before = views(out@);
            proof {
                reveal(Seq::filter);
                assert(records(all@).take(i + 1).drop_last() =~= records(all@).take(i as int));
                assert(records(all@).take(i + 1).last() == all@[i as int].record());
            }
            if all[i].installed_versions.len() == 0 {
                out.push(all[i].name.clone());
                assert(views(out@) =~= before.push(all@[i as int].name@));
                assert(views(out@) =~= names(dropped(records(all@).take(i + 1))));
            } else {
                assert(views(out@) =~= names(dropped(records(all@).take(i + 1))));
            }
            i += 1;
        }
        proof {
            assert(records(all@).take(all.len() as int) =~= records(all@));
        }
        out
    }

    /// The diagnostics: one line for each package that is left out of the
    /// table because no version of it is installed, in order.
    pub fn diagnostics(&self) -> (out: Vec<String>)
        ensures
            views(out@) == diagnostics_of(self.all()),
    {
        let left_out = self.skipped();
        let mut out: Vec<String> = Vec::new();
        let mut i: usize = 0;
        while i < left_out.len()
            invariant
                i <= left_out.len(),
                views(left_out@) == names(dropped(self.all())),
                out@.len() == i,
                forall|k: int|
                    0 <= k < i ==> (#[trigger] out@[k])@ == NOT_INSTALLED@ + left_out@[k]@,
            decreases left_out.len() - i,
        {
            out.push(NOT_INSTALLED.to_owned().concat(left_out[i].as_str()));
            i += 1;
        }
        proof {
            assert(views(left_out@).len() == dropped(self.all()).len());
            assert forall|k: int| 0 <= k < out@.len() implies views(out@)[k] == diagnostics_of(
                self.all(),
            )[k] by {
                assert(views(left_out@)[k] == dropped(self.all())[k].name);
            }
            assert(views(out@) =~= diagnostics_of(self.all()));
        }
        out
    }

    /// The new version of every package that has an installed version, with
    /// what changed since the latest installed version in colour.
    pub fn shown_versions(&self) -> (out: Vec<String>)
        ensures
            are_versions_shown(views(out@), kept(self.all())),
    {
        let items = self.comparable();
        let mut out: Vec<String> = Vec::new();
        let mut i: usize = 0;
        proof {
            assert forall|k: int| 0 <= k < items@.len() implies has_installed(
                #[trigger] records(items@)[k],
            ) by {
                assert(items@[k].installed_versions@.len() > 0);
            }
        }
        while i < items.len()
            invariant
                i <= items.len(),
                out@.len() == i,
                forall|k: int|
                    0 <= k < items@.len() ==> has_installed(#[trigger] records(items@)[k]),
                forall|k: int|
                    0 <= k < i ==> is_version_shown(
                        (#[trigger] out@[k])@,
                        items@[k].record().installed_versions.last(),
                        items@[k].current_version@,
                    ),
            decreases items.len() - i,
        {
            let versions = &items[i].installed_versions;
            assert(has_installed(records(items@)[i as int]));
            let latest = &versions[versions.len() - 1];
            let version = VersionComparison::new(latest.as_str(), items[i].current_version.as_str());
            let text = match version.colorize() {
                Ok(text) => text,
                Err(_) => items[i].current_version.clone(),
            };
            proof {
                assert(is_tokenization(version.installed_version.tokens(), latest@)
                    && is_tokenization(version.current_version.tokens(), items@[i as int].current_version@)
                    && is_colorization(
                    text@,
                    version.installed_version.tokens(),
                    version.current_version.tokens(),
                ));
            }
            out.push(text);
            i += 1;
        }
        out
    }

    /// The table of the packages that have an installed version, where
    /// `shown` holds the new version of each as it is to be shown.
    pub fn table_with(&self, shown: &Vec<String>) -> (out: String)
        requires
            shown@.len() == kept(self.all()).len(),
        ensures
            out@ == table_text(rows_text(kept(self.all()), views(shown@))),
    {
        let rows = self.rows_with(shown);
        tabulate(&rows)
    }

    /// The rows of the table, where `shown` holds the new version of each
    /// package as it is to be shown.
    pub fn rows_with(&self, shown: &Vec<String>) -> (out: Vec<Vec<String>>)
        requires
            shown@.len() == kept(self.all()).len(),
        ensures
            nested_views(out@) == rows_text(kept(self.all()), views(shown@)),
    {
        let items = self.comparable();
        let mut out: Vec<Vec<String>> = Vec::new();
        let mut i: usize = 0;
        proof {
            assert forall|k: int| 0 <= k < items@.len() implies has_installed(
                #[trigger] records(items@)[k],
            ) by {
                assert(items@[k].installed_versions@.len() > 0);
            }
        }
        while i < items.len()
            invariant
                i <= items.len(),
                items@.len() == shown@.len(),
                out@.len() == i,
                forall|k: int|
                    0 <= k < items@.len() ==> has_installed(#[trigger] records(items@)[k]),
                forall|k: int|
                    0 <= k < i ==> views((#[trigger] out@[k])@) == seq![
                        items@[k].name@,
                        items@[k].record().installed_versions.last(),
                        arrow(),
                        shown@[k]@,
                    ],
            decreases items.len() - i,
        {
            let versions = &items[i].installed_versions;
            assert(has_installed(records(items@)[i as int]));
            let mut row: Vec<String> = Vec::new();
            row.push(items[i].name.clone());
            row.push(versions[versions.len() - 1].clone());
            proof {
                reveal_strlit("->");
                assert("->"@ =~= arrow());
            }
            row.push("->".to_owned());
            row.push(shown[i].clone());
            assert(views(row@) =~= seq![
                items@[i as int].name@,
                items@[i as int].record().installed_versions.last(),
                arrow(),
                shown@[i as int]@,
            ]);
            out.push(row);
            i += 1;
        }
        assert(nested_views(out@) =~= rows_text(records(items@), views(shown@)));
        out
    }

    /// The packages that have an installed version as CSV, where `shown`
    /// holds the new version of each as it is to be shown.
    pub fn csv_with(&self, shown: &Vec<String>) -> (out: String)
        requires
            shown@.len() == kept(self.all()).len(),
        ensures
            out@ == concat(csv_lines(kept(self.all()), views(shown@))),
    {
        let rows = self.rows_with(shown);
        let ghost all = kept(self.all());
        assert(nested_views(rows@).len() == all.len());
        let mut lines: Vec<String> = Vec::new();
        let mut i: usize = 0;
        while i < rows.len()
            invariant
                i <= rows.len(),
                all == kept(self.all()),
                nested_views(rows@) == rows_text(all, views(shown@)),
                rows@.len() == all.len(),
                lines@.len() == i,
                forall|k: int|
                    0 <= k < i ==> (#[trigger] lines@[k])@ == csv_lines(all, views(shown@))[k],
            decreases rows.len() - i,
        {
            let row = &rows[i];
            assert(views(row@) == nested_views(rows@)[i as int]);
            assert(views(row@) == rows_text(all, views(shown@))[i as int]);
            assert(views(row@).len() == 4);
            assert(row@.len() == 4);
            let line = match csv_record(
                row[0].as_str(),
                row[1].as_str(),
                row[2].as_str(),
                row[3].as_str(),
            ) {
                Some(line) => line,
                None => String::new(),
            };
            assert(views(row@)[0] == row@[0]@);
            assert(views(row@)[1] == row@[1]@);
            assert(views(row@)[2] == row@[2]@);
            assert(views(row@)[3] == row@[3]@);
            lines.push(line);
            i += 1;
        }
        proof {
            assert(views(lines@) =~= csv_lines(all, views(shown@)));
            reveal_strlit("");
            assert(""@ =~= Seq::<char>::empty());
        }
        join(&lines, "")
    }

    /// The packages that have an installed version as a table: name, latest
    /// installed version, an arrow, and the new version with what changed in
    /// colour. Always succeeds.
    pub fn format(&self) -> (out: Result<String, Error>)
        ensures
            out matches Ok(text) && is_table(text@, self.all()),
    {
        let shown = self.shown_versions();
        Ok(self.table_with(&shown))
    }

    /// The packages that have an installed version as CSV: name, latest
    /// installed version, an arrow, and the new version with what changed in
    /// colour. Always succeeds.
    pub fn to_csv(&self) -> (out: Result<String, Error>)
        ensures
            out matches Ok(text) && is_csv_list(text@, self.all()),
    {
        let shown = self.shown_versions();
        Ok(self.csv_with(&shown))
    }
}

} // verus!
