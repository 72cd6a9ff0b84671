use crate::color::{
    color_code, is_half_styled, paint, tier_color, tier_of, version_color, ColorTier,
};
use crate::error::Error;
use crate::range::{end_of, in_range, range, start_of, Bound, Bounds};
use crate::text::{chars_of, concat, join, option_views, str_eq, views};
use version_compare::{CompOp, VersionCompare};
use vstd::prelude::*;
use vstd::string::StringExecFns;

verus! {

/// Whether `c` is one of the digits `0` to `9`.
pub open spec fn is_digit(c: char) -> bool {
    '0' as u32 <= c as u32 <= '9' as u32
}

/// Whether `c` may be a letter: an ASCII letter, or any character beyond
/// ASCII.
pub open spec fn may_be_letter(c: char) -> bool {
    ||| 'a' as u32 <= c as u32 <= 'z' as u32
    ||| 'A' as u32 <= c as u32 <= 'Z' as u32
    ||| c as u32 >= 128
}

/// How many digits stand in a row directly before index `at` of `text`.
pub open spec fn digits_before(text: Seq<char>, at: int) -> nat
    decreases at,
{
    if at <= 0 || at > text.len() || !is_digit(text[at - 1]) {
        0
    } else {
        1 + digits_before(text, at - 1)
    }
}

/// Whether every number that is followed by a letter has fewer than ten
/// digits, so that it fits the integers that versions are read with.
pub open spec fn is_safe(text: Seq<char>) -> bool {
    forall|at: int|
        0 <= at < text.len() && may_be_letter(#[trigger] text[at]) ==> digits_before(text, at)
            < 10
}

/// Whether every number of `text` that is followed by a letter has fewer than
/// ten digits.
pub fn is_safe_version(text: &str) -> (out: bool)
    ensures
        out == is_safe(text@),
{
    let chars = chars_of(text);
    let mut digits: usize = 0;
    let mut at: usize = 0;
    while at < chars.len()
        invariant
            at <= chars.len(),
            chars@ == text@,
            digits == digits_before(chars@, at as int),
            digits <= at,
            forall|k: int|
                0 <= k < at && may_be_letter(#[trigger] chars@[k]) ==> digits_before(chars@, k)
                    < 10,
        decreases chars.len() - at,
    {
        let n: u32 = chars[at] as u32;
        if ('a' as u32 <= n && n <= 'z' as u32) || ('A' as u32 <= n && n <= 'Z' as u32) || n
            >= 128 {
            if digits >= 10 {
                return false;
            }
        }
        if '0' as u32 <= n && n <= '9' as u32 {
            digits += 1;
        } else {
            digits = 0;
        }
        at += 1;
    }
    true
}

/// The parts that `version_compare` reads from a version, each as it is
/// printed; `None` for a text that it does not take for a version.
pub uninterp spec fn version_parts_of(version: Seq<char>) -> Option<Seq<Seq<char>>>;

/// Whether `version_compare` finds two versions to be unequal; `None` where it
/// does not take one of them for a version.
pub uninterp spec fn versions_differ_of(left: Seq<char>, right: Seq<char>) -> Option<bool>;

/// `version_compare::Version::from` and `parts`, each part printed: the parts are
/// the runs of letters and digits, a number in front of letters being a part
/// of its own; a number is printed without leading zeros. A text with parts but
/// without a number is no version. The number in front of a letter must fit
/// an `i32`.
#[verifier::external_body]
fn version_parts(version: &str) -> (out: Option<Vec<String>>)
    requires
        is_safe(version@),
    ensures
        option_views(out) == version_parts_of(version@),
{
    let version = version_compare::Version::from(version)?;
    Some(version.parts().iter().map(|part| part.to_string()).collect())
}

/// `version_compare::VersionCompare::compare_to` with the operator `Ne`: whether
/// the two versions are unequal, part by part, numbers by their value; `None`
/// where one of the texts is no version.
#[verifier::external_body]
fn versions_differ(left: &str, right: &str) -> (out: Option<bool>)
    requires
        is_safe(left@),
        is_safe(right@),
    ensures
        out == versions_differ_of(left@, right@),
{
    VersionCompare::compare_to(left, right, &CompOp::Ne).ok()
}

/// Whether `c` is one of the delimiters `.`, `_` and `-`.
pub open spec fn is_delimiter(c: char) -> bool {
    c == '.' || c == '_' || c == '-'
}

/// The delimiters of `text`, in order, each as a text of its own.
pub open spec fn delimiters_in(text: Seq<char>) -> Seq<Seq<char>> {
    text.filter(|c: char| is_delimiter(c)).map_values(|c: char| seq![c])
}

/// `a` and `b` in turn, starting with `a`; where one has ended, the rest of
/// the other.
pub open spec fn interleaved(a: Seq<Seq<char>>, b: Seq<Seq<char>>) -> Seq<Seq<char>>
    decreases a.len() + b.len(),
{
    if a.len() == 0 {
        b
    } else {
        seq![a[0]] + interleaved(b, a.skip(1))
    }
}

/// Taking turns with an empty list changes nothing.
pub proof fn lemma_interleaved_empty(a: Seq<Seq<char>>)
    ensures
        interleaved(a, Seq::empty()) == a,
        interleaved(Seq::empty(), a) == a,
    decreases a.len(),
{
    if a.len() > 0 {
        lemma_interleaved_empty(a.skip(1));
        assert(interleaved(Seq::<Seq<char>>::empty(), a.skip(1)) == a.skip(1));
        assert(a =~= seq![a[0]] + a.skip(1));
    }
}

/// The items `a[a_from..a_to]` and `b[b_from..b_to]` in turn.
pub fn interleave(
    a: &Vec<String>,
    a_from: usize,
    a_to: usize,
    b: &Vec<String>,
    b_from: usize,
    b_to: usize,
) -> (out: Vec<String>)
    requires
        a_from <= a_to <= a@.len(),
        b_from <= b_to <= b@.len(),
    ensures
        views(out@) == interleaved(
            views(a@).subrange(a_from as int, a_to as int),
            views(b@).subrange(b_from as int, b_to as int),
        ),
{
    let ghost all_a = views(a@).subrange(a_from as int, a_to as int);
    let ghost all_b = views(b@).subrange(b_from as int, b_to as int);
    let mut out: Vec<String> = Vec::new();
    let mut i: usize = a_from;
    let mut j: usize = b_from;
    let mut from_a: bool = true;
    proof {
        assert(views(out@) =~= Seq::<Seq<char>>::empty());
        assert(all_a.skip(0) =~= all_a);
        assert(all_b.skip(0) =~= all_b);
    }
    while i < a_to || j < b_to
        invariant
            a_from <= i <= a_to <= a@.len(),
            b_from <= j <= b_to <= b@.len(),
            all_a == views(a@).subrange(a_from as int, a_to as int),
            all_b == views(b@).subrange(b_from as int, b_to as int),
            interleaved(all_a, all_b) == views(out@) + (if from_a {
                interleaved(all_a.skip(i - a_from), all_b.skip(j - b_from))
            } else {
                interleaved(all_b.skip(j - b_from), all_a.skip(i - a_from))
            }),
        decreases (a_to - i) + (b_to - j),
    {
        let ghost before = views(out@);
        let ghost rest_a = all_a.skip(i - a_from);
        let ghost rest_b = all_b.skip(j - b_from);
        let take_a: bool = if from_a {
            i < a_to
        } else {
            j >= b_to
        };
        if take_a {
            out.push(a[i].clone());
            proof {
                assert(views(out@) =~= before + seq![rest_a[0]]);
                assert(rest_a.skip(1) =~= all_a.skip(i + 1 - a_from));
                if !from_a {
                    assert(rest_b.len() == 0);
                    assert(interleaved(rest_b, rest_a) == rest_a);
                    assert(rest_a =~= seq![rest_a[0]] + rest_a.skip(1));
                    assert(interleaved(rest_b, rest_a.skip(1)) == rest_a.skip(1));
                    lemma_interleaved_empty(rest_a.skip(1));
                    assert(rest_b =~= Seq::<Seq<char>>::empty());
                    assert(before + interleaved(rest_b, rest_a) =~= views(out@) + interleaved(
                        rest_a.skip(1),
                        rest_b,
                    ));
                } else {
                    assert(before + interleaved(rest_a, rest_b) =~= views(out@) + interleaved(
                        rest_b,
                        rest_a.skip(1),
                    ));
                }
            }
            i += 1;
        } else {
            out.push(b[j].clone());
            proof {
                assert(views(out@) =~= before + seq![rest_b[0]]);
                assert(rest_b.skip(1) =~= all_b.skip(j + 1 - b_from));
                if from_a {
                    assert(rest_a.len() == 0);
                    assert(interleaved(rest_a, rest_b) == rest_b);
                    assert(rest_b =~= seq![rest_b[0]] + rest_b.skip(1));
                    assert(interleaved(rest_a, rest_b.skip(1)) == rest_b.skip(1));
                    lemma_interleaved_empty(rest_b.skip(1));
                    assert(rest_a =~= Seq::<Seq<char>>::empty());
                    assert(before + interleaved(rest_a, rest_b) =~= views(out@) + interleaved(
                        rest_b.skip(1),
                        rest_a,
                    ));
                } else {
                    assert(before + interleaved(rest_b, rest_a) =~= views(out@) + interleaved(
                        rest_a,
                        rest_b.skip(1),
                    ));
                }
            }
            j += 1;
        }
        from_a = !from_a;
    }
    proof {
        assert(all_a.skip(i - a_from).len() == 0);
        assert(all_b.skip(j - b_from).len() == 0);
        assert(views(out@) + Seq::<Seq<char>>::empty() =~= views(out@));
    }
    out
}

/// The newest of the installed versions: the last one, or the empty text.
pub open spec fn newest(current_versions: Seq<Seq<char>>) -> Seq<char> {
    if current_versions.len() == 0 {
        Seq::empty()
    } else {
        current_versions.last()
    }
}

/// Whether two parts differ: as versions where both can be read as versions,
/// else as texts.
pub open spec fn part_differs(left: Seq<char>, right: Seq<char>) -> bool {
    if is_safe(left) && is_safe(right) {
        match versions_differ_of(left, right) {
            Some(differs) => differs,
            None => left != right,
        }
    } else {
        left != right
    }
}

/// The first index from `at` on at which the two lists of parts differ, where
/// a part that only one of them has counts as a difference.
pub open spec fn first_difference(latest: Seq<Seq<char>>, current: Seq<Seq<char>>, at: int) -> Option<
    usize,
>
    decreases latest.len() + current.len() - at,
    when at >= 0
{
    if at >= latest.len() && at >= current.len() {
        None
    } else if at >= latest.len() || at >= current.len() {
        Some(at as usize)
    } else if part_differs(latest[at], current[at]) {
        Some(at as usize)
    } else {
        first_difference(latest, current, at + 1)
    }
}

/// The index of the first part of the latest version that differs from the
/// installed version `current`; `None` where `current` cannot be read as a
/// version or nothing differs.
pub open spec fn different_part_position(latest_parts: Seq<Seq<char>>, current: Seq<char>) -> Option<
    usize,
> {
    if !is_safe(current) {
        None
    } else {
        match version_parts_of(current) {
            None => None,
            Some(current_parts) => first_difference(latest_parts, current_parts, 0),
        }
    }
}

/// With two bounds of one kind at the start, the two ranges start together.
pub open spec fn starts_agree(version: Bound, delimiter: Bound) -> bool {
    match (version, delimiter) {
        (Bound::Included(v), Bound::Included(d)) => v == d,
        (Bound::Excluded(v), Bound::Excluded(d)) => v == d,
        _ => true,
    }
}

/// With two bounds of one kind at the end, the range of parts ends behind the
/// range of delimiters.
pub open spec fn ends_agree(version: Bound, delimiter: Bound) -> bool {
    match (version, delimiter) {
        (Bound::Included(v), Bound::Included(d)) => v > d,
        (Bound::Excluded(v), Bound::Excluded(d)) => v > d,
        _ => true,
    }
}

/// The parts and the delimiters of the two ranges in turn, as one text.
pub open spec fn built_version(
    parts: Seq<Seq<char>>,
    delimiters: Seq<Seq<char>>,
    version_range: Bounds,
    delimiter_range: Bounds,
) -> Seq<char> {
    concat(
        interleaved(
            parts.subrange(
                start_of(version_range.start),
                end_of(version_range.end, parts.len() as int),
            ),
            delimiters.subrange(
                start_of(delimiter_range.start),
                end_of(delimiter_range.end, delimiters.len() as int),
            ),
        ),
    )
}

/// One installed package: the versions that are installed, oldest first, and
/// the latest version that there is, with the delimiters of the latter.
#[derive(Clone, Debug)]
pub struct Version {
    pub current_versions: Vec<String>,
    pub latest_version: String,
    pub delimiters: Vec<String>,
}

impl Version {
    /// Keeps the versions, and the delimiters of the latest one.
    pub fn new(current_versions: &[&str], latest_version: &str) -> (out: Version)
        ensures
            out.current_versions@.len() == current_versions@.len(),
            forall|i: int|
                0 <= i < current_versions@.len() ==> (#[trigger] out.current_versions@[i])@
                    == current_versions@[i]@,
            out.latest_version@ == latest_version@,
            views(out.delimiters@) == delimiters_in(latest_version@),
    {
        let delimiters = Self::generate_delimiters(latest_version);
        let mut versions: Vec<String> = Vec::new();
        let mut i: usize = 0;
        while i < current_versions.len()
            invariant
                i <= current_versions@.len(),
                versions@.len() == i,
                forall|k: int|
                    0 <= k < i ==> (#[trigger] versions@[k])@ == current_versions@[k]@,
            decreases current_versions.len() - i,
        {
            versions.push(current_versions[i].to_owned());
            i += 1;
        }
        Version { current_versions: versions, latest_version: latest_version.to_owned(), delimiters }
    }

    /// The delimiters `.`, `_` and `-` of `version_str`, in order.
    pub fn generate_delimiters(version_str: &str) -> (out: Vec<String>)
        ensures
            views(out@) == delimiters_in(version_str@),
    {
        let chars = chars_of(version_str);
        let mut out: Vec<String> = Vec::new();
        let mut i: usize = 0;
        proof {
            reveal(Seq::filter);
            assert(chars@.take(0) =~= Seq::<char>::empty());
            assert(views(out@) =~= delimiters_in(chars@.take(0)));
        }
        while i < chars.len()
            invariant
                i <= chars.len(),
                chars@ == version_str@,
                views(out@) == delimiters_in(chars@.take(i as int)),
            decreases chars.len() - i,
        {
            let c = chars[i];
            let ghost before = views(out@);
            proof {
                reveal(Seq::filter);
                assert(chars@.take(i + 1).drop_last() =~= chars@.take(i as int));
            }
            if c == '.' || c == '_' || c == '-' {
                let mut text = String::new();
                text.push(c);
                assert(text@ =~= seq![c]);
                out.push(text);
                assert(views(out@) =~= before.push(seq![c]));
                assert(views(out@) =~= delimiters_in(chars@.take(i + 1)));
            } else {
                assert(views(out@) =~= delimiters_in(chars@.take(i + 1)));
            }
            i += 1;
        }
        proof {
            assert(chars@.take(chars.len() as int) =~= chars@);
        }
        out
    }
}

/// The latest version up to part `position`, and from there on: the parts
/// and delimiters before it in turn and the delimiter in front of the part;
/// then the parts and delimiters from `position` on in turn.
pub open spec fn unchanged_half(parts: Seq<Seq<char>>, delimiters: Seq<Seq<char>>, position: int) -> Seq<
    char,
> {
    if position == 0 {
        Seq::empty()
    } else {
        concat(interleaved(parts.subrange(0, position), delimiters.subrange(0, position - 1)))
            + delimiters[position - 1]
    }
}

/// The latest version from part `position` on.
pub open spec fn changed_half(parts: Seq<Seq<char>>, delimiters: Seq<Seq<char>>, position: int) -> Seq<
    char,
> {
    concat(
        interleaved(
            parts.subrange(position, parts.len() as int),
            delimiters.subrange(position, delimiters.len() as int),
        ),
    )
}

/// `out` shows the latest version `latest`: from the first part that
/// differs from the newest installed version on in the colour of that part's
/// tier; unchanged where nothing differs, where a version cannot be read, or
/// where the delimiters do not reach to the part that differs.
pub open spec fn is_colorized(
    out: Seq<char>,
    current_versions: Seq<Seq<char>>,
    latest: Seq<char>,
    delimiters: Seq<Seq<char>>,
) -> bool {
    if !is_safe(latest) {
        out == latest
    } else {
        match version_parts_of(latest) {
            None => out == latest,
            Some(parts) => match different_part_position(parts, newest(current_versions)) {
                None => out == latest,
                Some(p) => if p <= parts.len() && p <= delimiters.len() {
                    is_half_styled(
                        out,
                        unchanged_half(parts, delimiters, p as int),
                        changed_half(parts, delimiters, p as int),
                        color_code(tier_color(version_color(), tier_of(p as nat))),
                    )
                } else {
                    out == latest
                },
            },
        }
    }
}

impl Version {
    /// Whether two parts differ: as `version_compare` compares them where it
    /// can, else as texts.
    pub fn parts_differ(left: &str, right: &str) -> (out: bool)
        ensures
            out == part_differs(left@, right@),
    {
        if is_safe_version(left) && is_safe_version(right) {
            match versions_differ(left, right) {
                Some(differs) => differs,
                None => !str_eq(left, right),
            }
        } else {
            !str_eq(left, right)
        }
    }

    /// The first index at which two lists of parts differ.
    pub fn first_different_part(latest_parts: &Vec<String>, current_parts: &Vec<String>) -> (out:
        Option<usize>)
        ensures
            out == first_difference(views(latest_parts@), views(current_parts@), 0),
    {
        let mut at: usize = 0;
        while at < latest_parts.len() && at < current_parts.len()
            invariant
                at <= latest_parts@.len(),
                at <= current_parts@.len(),
                first_difference(views(latest_parts@), views(current_parts@), 0)
                    == first_difference(views(latest_parts@), views(current_parts@), at as int),
            decreases latest_parts.len() - at,
        {
            if Self::parts_differ(latest_parts[at].as_str(), current_parts[at].as_str()) {
                return Some(at);
            }
            at += 1;
        }
        if at < latest_parts.len() || at < current_parts.len() {
            Some(at)
        } else {
            None
        }
    }

    /// The index of the first of `latest_version_parts` that differs from the
    /// part of the newest installed version at the same place.
    pub fn find_different_part_position(&self, latest_version_parts: &Vec<String>) -> (out: Option<
        usize,
    >)
        ensures
            out == different_part_position(
                views(latest_version_parts@),
                newest(views(self.current_versions@)),
            ),
    {
        let empty = String::new();
        let current: &String = if self.current_versions.len() == 0 {
            &empty
        } else {
            &self.current_versions[self.current_versions.len() - 1]
        };
        assert(current@ == newest(views(self.current_versions@)));
        if !is_safe_version(current.as_str()) {
            return None;
        }
        match version_parts(current.as_str()) {
            None => None,
            Some(current_parts) => Self::first_different_part(latest_version_parts, &current_parts),
        }
    }

    /// The parts of `version_range` and the delimiters of `delimiter_range` in
    /// turn, as one text; an error where a range reaches beyond its list.
    pub fn build_version(
        &self,
        version_parts: &Vec<String>,
        version_range: &Bounds,
        delimiter_range: &Bounds,
    ) -> (out: Result<String, Error>)
        requires
            starts_agree(version_range.start, delimiter_range.start),
            ends_agree(version_range.end, delimiter_range.end),
        ensures
            out is Ok <==> in_range(*version_range, version_parts@.len() as int) && in_range(
                *delimiter_range,
                self.delimiters@.len() as int,
            ),
            out matches Ok(text) ==> text@ == built_version(
                views(version_parts@),
                views(self.delimiters@),
                *version_range,
                *delimiter_range,
            ),
            out matches Err(error) ==> error is IndexOutOfRange,
    {
        let (part_from, part_to) = match range(version_parts.len(), version_range) {
            Some(found) => found,
            None => {
                return Err(Error::IndexOutOfRange);
            },
        };
        let (delimiter_from, delimiter_to) = match range(self.delimiters.len(), delimiter_range) {
            Some(found) => found,
            None => {
                return Err(Error::IndexOutOfRange);
            },
        };
        let items = interleave(
            version_parts,
            part_from,
            part_to,
            &self.delimiters,
            delimiter_from,
            delimiter_to,
        );
        proof {
            reveal_strlit("");
            assert(""@ =~= Seq::<char>::empty());
        }
        Ok(join(&items, ""))
    }

    /// The latest version with everything from part `position` on in the
    /// colour of that part's tier.
    pub fn colorize_from(&self, latest_version_parts: &Vec<String>, position: usize) -> (out:
        String)
        requires
            position <= latest_version_parts@.len(),
            position <= self.delimiters@.len(),
        ensures
            is_half_styled(
                out@,
                unchanged_half(
                    views(latest_version_parts@),
                    views(self.delimiters@),
                    position as int,
                ),
                changed_half(views(latest_version_parts@), views(self.delimiters@), position as int),
                color_code(tier_color(version_color(), tier_of(position as nat))),
            ),
    {
        let unchanged: String = if position == 0 {
            String::new()
        } else {
            let built = self.build_version(
                latest_version_parts,
                &Bounds::to(position),
                &Bounds::to((position - 1) as usize),
            );
            match built {
                Ok(text) => text.concat(self.delimiters[position - 1].as_str()),
                Err(_) => String::new(),
            }
        };
        let changed: String = match self.build_version(
            latest_version_parts,
            &Bounds::from(position),
            &Bounds::from(position),
        ) {
            Ok(text) => text,
            Err(_) => String::new(),
        };
        let color = ColorTier::from_position(position).color();
        let painted = paint(changed.as_str(), color);
        unchanged.concat(painted.as_str())
    }

    /// The latest version, with everything from the first part that differs
    /// from the newest installed version on in the colour of that part's tier.
    pub fn colorize(&self) -> (out: String)
        ensures
            is_colorized(
                out@,
                views(self.current_versions@),
                self.latest_version@,
                views(self.delimiters@),
            ),
    {
        if !is_safe_version(self.latest_version.as_str()) {
            return self.latest_version.clone();
        }
        let parts = match version_parts(self.latest_version.as_str()) {
            Some(parts) => parts,
            None => {
                return self.latest_version.clone();
            },
        };
        match self.find_different_part_position(&parts) {
            None => self.latest_version.clone(),
            Some(position) => {
                if position <= parts.len() && position <= self.delimiters.len() {
                    self.colorize_from(&parts, position)
                } else {
                    self.latest_version.clone()
                }
            },
        }
    }
}

} // verus!
