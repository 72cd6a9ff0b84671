use crate::error::Error;
use crate::pattern::{all_matches, matches_of};
use crate::text::{lines, lines_spec, nested_views, starts_with, views};
use vstd::prelude::*;

verus! {

/// The lines that say how the update went: what was updated, that everything
/// is up to date, or that no formula changed.
pub const MESSAGE_PATTERN: &'static str =
    "(?m)^(?:Updated .+|Already up-to-date\\.|No changes to formulae\\.)$(?-m)";

/// The marker of a line that heads a section.
pub const HEADER_MARK: &'static str = "==>";

/// Whether `line` heads a section: it starts with the marker.
pub open spec fn is_header(line: Seq<char>) -> bool {
    HEADER_MARK@.is_prefix_of(line)
}

/// The runs of `lines`: neighbouring lines are in one run where both are
/// headers or neither is. No run is empty.
pub open spec fn runs_of(lines: Seq<Seq<char>>) -> Seq<Seq<Seq<char>>>
    decreases lines.len(),
{
    if lines.len() == 0 {
        Seq::empty()
    } else {
        let before = runs_of(lines.drop_last());
        let line = lines.last();
        if before.len() > 0 && is_header(before.last().last()) == is_header(line) {
            before.drop_last().push(before.last().push(line))
        } else {
            before.push(seq![line])
        }
    }
}

/// A section: the lines that head it and the lines below them.
pub type Section = (Seq<Seq<char>>, Seq<Seq<char>>);

/// The sections of `runs`: every run of headers with the run that follows
/// it. A run of headers at the end, with nothing below, is no section.
pub open spec fn sections_of(runs: Seq<Seq<Seq<char>>>) -> Seq<Section>
    decreases runs.len(),
{
    if runs.len() < 2 {
        Seq::empty()
    } else {
        let before = sections_of(runs.drop_last());
        let header = runs[runs.len() - 2];
        if is_header(header[0]) {
            before.push((header, runs.last()))
        } else {
            before
        }
    }
}

/// The sections of `items` as texts.
pub open spec fn section_views(items: Seq<(Vec<String>, Vec<String>)>) -> Seq<Section> {
    Seq::new(items.len(), |i: int| (views(items[i].0@), views(items[i].1@)))
}

/// Every run has a line.
pub proof fn lemma_runs_not_empty(lines: Seq<Seq<char>>, i: int)
    requires
        0 <= i < runs_of(lines).len(),
    ensures
        runs_of(lines)[i].len() > 0,
    decreases lines.len(),
{
    if lines.len() > 0 {
        let before = runs_of(lines.drop_last());
        if i < before.len() - 1 || (i < before.len() && !(is_header(before.last().last())
            == is_header(lines.last()))) {
            lemma_runs_not_empty(lines.drop_last(), i);
        }
    }
}

/// What the package manager prints on an update.
#[derive(Clone, Debug)]
pub struct BrewUpdateData {
    pub text: String,
}

impl BrewUpdateData {
    /// Keeps `text`.
    pub fn new(text: &str) -> (out: Self)
        ensures
            out.text@ == text@,
    {
        BrewUpdateData { text: text.to_owned() }
    }

    /// The lines that say how the update went, in the order of the text.
    /// Always succeeds.
    pub fn messages(&self) -> (out: Result<Vec<String>, Error>)
        ensures
            out matches Ok(found) && views(found@) == matches_of(MESSAGE_PATTERN@, self.text@),
    {
        Ok(all_matches(MESSAGE_PATTERN, self.text.as_str()))
    }

    /// The runs of the lines of the text.
    pub fn runs(&self) -> (out: Vec<Vec<String>>)
        ensures
            nested_views(out@) == runs_of(lines_spec(self.text@)),
    {
        let all = lines(self.text.as_str());
        let mut out: Vec<Vec<String>> = Vec::new();
        let mut run: Vec<String> = Vec::new();
        let mut run_is_header: bool = false;
        let mut i: usize = 0;
        proof {
            assert(views(all@).take(0) =~= Seq::<Seq<char>>::empty());
            assert(nested_views(out@) =~= Seq::<Seq<Seq<char>>>::empty());
        }
        while i < all.len()
            invariant
                i <= all.len(),
                run@.len() == 0 <==> i == 0,
                i == 0 ==> out@.len() == 0,
                run@.len() > 0 ==> run_is_header == is_header(views(run@).last()),
                run@.len() > 0 ==> runs_of(views(all@).take(i as int)) == nested_views(out@).push(
                    views(run@),
                ),
            decreases all.len() - i,
        {
            let ghost before = runs_of(views(all@).take(i as int));
            let ghost old_run = views(run@);
            let ghost old_out = nested_views(out@);
            proof {
                assert(views(all@).take(i + 1).drop_last() =~= views(all@).take(i as int));
                assert(views(all@).take(i + 1).last() == all@[i as int]@);
            }
            let key = starts_with(all[i].as_str(), HEADER_MARK);
            if run.len() > 0 && key != run_is_header {
                out.push(run);
                run = Vec::new();
                assert(nested_views(out@) =~= old_out.push(old_run));
            }
            run.push(all[i].clone());
            run_is_header = key;
            proof {
                if old_run.len() > 0 && is_header(old_run.last()) == key {
                    assert(views(run@) =~= old_run.push(all@[i as int]@));
                    assert(before.drop_last() =~= old_out);
                } else {
                    assert(views(run@) =~= seq![all@[i as int]@]);
                }
            }
            i += 1;
        }
        proof {
            assert(views(all@).take(all.len() as int) =~= views(all@));
        }
        if run.len() > 0 {
            let ghost old_out = nested_views(out@);
            let ghost old_run = views(run@);
            out.push(run);
            assert(nested_views(out@) =~= old_out.push(old_run));
        }
        out
    }

    /// The sections of the text: each run of header lines with the run of
    /// lines below it.
    pub fn items(&self) -> (out: Vec<(Vec<String>, Vec<String>)>)
        ensures
            section_views(out@) == sections_of(runs_of(lines_spec(self.text@))),
            forall|i: int| 0 <= i < out@.len() ==> (#[trigger] out@[i]).1@.len() > 0,
    {
        let runs = self.runs();
        let mut out: Vec<(Vec<String>, Vec<String>)> = Vec::new();
        let mut i: usize = 1;
        proof {
            assert(section_views(out@) =~= Seq::<Section>::empty());
            if runs@.len() >= 1 {
                assert(sections_of(nested_views(runs@).take(1)) =~= Seq::<Section>::empty());
            }
        }
        while i < runs.len()
            invariant
                1 <= i,
                runs@.len() >= 1 ==> i <= runs@.len(),
                runs@.len() == 0 ==> out@.len() == 0,
                nested_views(runs@) == runs_of(lines_spec(self.text@)),
                i <= runs.len() ==> section_views(out@) == sections_of(
                    nested_views(runs@).take(i as int),
                ),
                forall|k: int| 0 <= k < out@.len() ==> (#[trigger] out@[k]).1@.len() > 0,
            decreases runs.len() - i,
        {
            let ghost before = section_views(out@);
            let ghost all = nested_views(runs@);
            proof {
                assert(all.take(i + 1).drop_last() =~= all.take(i as int));
                assert(all.take(i + 1).last() == all[i as int]);
                assert(all.take(i + 1)[i - 1] == all[i - 1]);
                lemma_runs_not_empty(lines_spec(self.text@), i - 1);
                lemma_runs_not_empty(lines_spec(self.text@), i as int);
            }
            if starts_with(runs[i - 1][0].as_str(), HEADER_MARK) {
                let header = crate::text::clone_strings(&runs[i - 1]);
                let body = crate::text::clone_strings(&runs[i]);
                out.push((header, body));
                assert(section_views(out@) =~= before.push((all[i - 1], all[i as int])));
            }
            i += 1;
        }
        proof {
            if runs@.len() >= 1 {
                assert(nested_views(runs@).take(runs.len() as int) =~= nested_views(runs@));
            } else {
                assert(nested_views(runs@) =~= Seq::<Seq<Seq<char>>>::empty());
                assert(section_views(out@) =~= Seq::<Section>::empty());
            }
        }
        out
    }
}

} // verus!
