use crate::pattern::{captures, captures_of};
use crate::text::{clone_strings, lines, lines_spec, split, split_spec, views};
use crate::version::{delimiters_in, is_colorized, Version};
use vstd::prelude::*;

verus! {

/// The shape of a line that names an outdated package: the name, the
/// installed versions in brackets, and the latest version behind `<`.
pub const DETAIL_PATTERN: &'static str =
    "(?P<name>.+)\\s\\((?P<current_versions>.+)\\)\\s<\\s(?P<latest_version>.+)";

/// What a line says of a package: its name, the installed versions and the
/// latest version.
pub struct Fields {
    pub name: Seq<char>,
    pub current_versions: Seq<Seq<char>>,
    pub latest_version: Seq<char>,
}

/// What `line` says of a package, if it has the shape of [`DETAIL_PATTERN`]:
/// the installed versions are what stands between the brackets, cut at every
/// comma followed by a space.
pub open spec fn fields_of(line: Seq<char>) -> Option<Fields> {
    match captures_of(DETAIL_PATTERN@, line) {
        Some(groups) => if groups.len() == 4 {
            Some(
                Fields {
                    name: groups[1],
                    current_versions: split_spec(groups[2], ", "@),
                    latest_version: groups[3],
                },
            )
        } else {
            None
        },
        None => None,
    }
}

/// What the lines say of packages, in order; lines of another shape say
/// nothing.
pub open spec fn all_fields_of(lines: Seq<Seq<char>>) -> Seq<Fields>
    decreases lines.len(),
{
    if lines.len() == 0 {
        Seq::empty()
    } else {
        match fields_of(lines.last()) {
            Some(fields) => all_fields_of(lines.drop_last()).push(fields),
            None => all_fields_of(lines.drop_last()),
        }
    }
}

/// An outdated package.
#[derive(Clone, Debug, PartialEq)]
pub struct BrewOutdatedDetail {
    pub name: String,
    pub current_versions: Vec<String>,
    pub latest_version: String,
}

impl BrewOutdatedDetail {
    /// The three fields as texts.
    pub open spec fn fields(&self) -> Fields {
        Fields {
            name: self.name@,
            current_versions: views(self.current_versions@),
            latest_version: self.latest_version@,
        }
    }

    /// A package with the given name and versions.
    pub fn new(name: &str, current_versions: &[&str], latest_version: &str) -> (out: Self)
        ensures
            out.name@ == name@,
            out.current_versions@.len() == current_versions@.len(),
            forall|i: int|
                0 <= i < current_versions@.len() ==> (#[trigger] out.current_versions@[i])@
                    == current_versions@[i]@,
            out.latest_version@ == latest_version@,
    {
        let mut versions: Vec<String> = Vec::new();
        let mut i: usize = 0;
        while i < current_versions.len()
            invariant
                i <= current_versions@.len(),
                versions@.len() == i,
                forall|k: int|
                    0 <= k < i ==> (#[trigger] versions@[k])@ == current_versions@[k]@,
            decreases current_versions.len() - i,
        {
            versions.push(current_versions[i].to_owned());
            i += 1;
        }
        BrewOutdatedDetail {
            name: name.to_owned(),
            current_versions: versions,
            latest_version: latest_version.to_owned(),
        }
    }

    /// The same package, with the changed end of the latest version in colour.
    pub fn colorize(&self) -> (out: Self)
        ensures
            out.name@ == self.name@,
            views(out.current_versions@) == views(self.current_versions@),
            is_colorized(
                out.latest_version@,
                views(self.current_versions@),
                self.latest_version@,
                delimiters_in(self.latest_version@),
            ),
    {
        let version = Version {
            current_versions: clone_strings(&self.current_versions),
            latest_version: self.latest_version.clone(),
            delimiters: Version::generate_delimiters(self.latest_version.as_str()),
        };
        let latest_version = version.colorize();
        BrewOutdatedDetail {
            name: self.name.clone(),
            current_versions: clone_strings(&self.current_versions),
            latest_version,
        }
    }
}

/// The packages of `details` as texts.
pub open spec fn all_fields(details: Seq<BrewOutdatedDetail>) -> Seq<Fields> {
    Seq::new(details.len(), |i: int| details[i].fields())
}

/// The names of `details`.
pub open spec fn names_of(details: Seq<Fields>) -> Seq<Seq<char>> {
    Seq::new(details.len(), |i: int| details[i].name)
}

/// The list of outdated packages as the package manager prints it.
#[derive(Clone, Debug)]
pub struct BrewOutdatedData {
    pub text: String,
}

impl BrewOutdatedData {
    /// Keeps `text`.
    pub fn new(text: &str) -> (out: Self)
        ensures
            out.text@ == text@,
    {
        BrewOutdatedData { text: text.to_owned() }
    }

    /// The names of the outdated packages, in the order of the text.
    pub fn names(&self) -> (out: Vec<String>)
        ensures
            views(out@) == names_of(all_fields_of(lines_spec(self.text@))),
    {
        let items = self.items();
        let mut out: Vec<String> = Vec::new();
        let mut i: usize = 0;
        while i < items.len()
            invariant
                i <= items.len(),
                out@.len() == i,
                forall|k: int| 0 <= k < i ==> (#[trigger] out@[k])@ == items@[k].name@,
            decreases items.len() - i,
        {
            out.push(items[i].name.clone());
            i += 1;
        }
        assert(views(out@) =~= names_of(all_fields(items@)));
        out
    }

    /// What `formula`, one line of the list, says of a package; `None` for a
    /// line of another shape.
    pub fn detail(formula: &str) -> (out: Option<BrewOutdatedDetail>)
        ensures
            match out {
                Some(detail) => fields_of(formula@) == Some(detail.fields()),
                None => fields_of(formula@) is None,
            },
    {
        match captures(DETAIL_PATTERN, formula) {
            Some(groups) => {
                if groups.len() == 4 {
                    proof {
                        reveal_strlit(", ");
                    }
                    let current_versions = split(groups[2].as_str(), ", ");
                    Some(
                        BrewOutdatedDetail {
                            name: groups[1].clone(),
                            current_versions,
                            latest_version: groups[3].clone(),
                        },
                    )
                } else {
                    None
                }
            },
            None => None,
        }
    }

    /// The outdated packages, in the order of the text.
    pub fn items(&self) -> (out: Vec<BrewOutdatedDetail>)
        ensures
            all_fields(out@) == all_fields_of(lines_spec(self.text@)),
    {
        let all = lines(self.text.as_str());
        let mut out: Vec<BrewOutdatedDetail> = Vec::new();
        let mut i: usize = 0;
        proof {
            assert(views(all@).take(0) =~= Seq::<Seq<char>>::empty());
            assert(all_fields(out@) =~= Seq::<Fields>::empty());
        }
        while i < all.len()
            invariant
                i <= all.len(),
                all_fields(out@) == all_fields_of(views(all@).take(i as int)),
            decreases all.len() - i,
        {
            let ghost before = all_fields(out@);
            proof {
                assert(views(all@).take(i + 1).drop_last() =~= views(all@).take(i as int));
                assert(views(all@).take(i + 1).last() == all@[i as int]@);
            }
            match Self::detail(all[i].as_str()) {
                Some(detail) => {
                    let ghost fields = detail.fields();
                    out.push(detail);
                    assert(all_fields(out@) =~= before.push(fields));
                },
                None => {},
            }
            i += 1;
        }
        proof {
            assert(views(all@).take(all.len() as int) =~= views(all@));
        }
        out
    }
}

} // verus!
