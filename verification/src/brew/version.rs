use crate::color::{
    color_code, is_half_styled, is_painted, paint, tier_color, tier_of, version_color, Color,
    ColorTier,
};
use crate::error::Error;
use crate::text::{chars_of, join, join_range, joined, string_of, views};
use vstd::string::StringExecFns;
use vstd::prelude::*;

verus! {

/// Whether `c` belongs to a part of a version: an ASCII letter or digit.
pub open spec fn is_part_char(c: char) -> bool {
    ||| '0' as u32 <= c as u32 <= '9' as u32
    ||| 'a' as u32 <= c as u32 <= 'z' as u32
    ||| 'A' as u32 <= c as u32 <= 'Z' as u32
}

/// Whether `token` is a part (and not a delimiter): a token is of the kind of
/// its first character.
pub open spec fn is_part(token: Seq<char>) -> bool {
    token.len() > 0 && is_part_char(token[0])
}

/// A token is a run that is not empty and whose characters are all of one kind.
pub open spec fn is_run(token: Seq<char>) -> bool {
    &&& token.len() > 0
    &&& forall|k: int| 0 <= k < token.len() ==> is_part_char(#[trigger] token[k]) == is_part_char(
        token[0],
    )
}

/// `tokens` is the token stream of `text`: put together they give `text`, each
/// is a run, and no two neighbours are of the same kind, so that every run is
/// as long as it can be.
pub open spec fn is_tokenization(tokens: Seq<Seq<char>>, text: Seq<char>) -> bool {
    &&& joined(tokens, Seq::empty()) == text
    &&& forall|i: int| 0 <= i < tokens.len() ==> is_run(#[trigger] tokens[i])
    &&& forall|i: int|
        0 < i < tokens.len() ==> is_part(tokens[i - 1]) != is_part(#[trigger] tokens[i])
}

/// The parts among `tokens`, in order.
pub open spec fn parts_of(tokens: Seq<Seq<char>>) -> Seq<Seq<char>> {
    tokens.filter(|t: Seq<char>| is_part(t))
}

/// The delimiters among `tokens`, in order.
pub open spec fn delimiters_of(tokens: Seq<Seq<char>>) -> Seq<Seq<char>> {
    tokens.filter(|t: Seq<char>| !is_part(t))
}

fn part_char(c: char) -> (b: bool)
    ensures
        b == is_part_char(c),
{
    let n: u32 = c as u32;
    ('0' as u32 <= n && n <= '9' as u32) || ('a' as u32 <= n && n <= 'z' as u32) || ('A' as u32
        <= n && n <= 'Z' as u32)
}

/// A version, cut into its tokens.
#[derive(Clone, Debug)]
pub struct Version {
    pub version: Vec<String>,
}

impl Version {
    /// The tokens of the version.
    pub open spec fn tokens(&self) -> Seq<Seq<char>> {
        views(self.version@)
    }

    /// Cuts `version` into tokens.
    pub fn new(version: &str) -> (out: Self)
        ensures
            is_tokenization(out.tokens(), version@),
    {
        let (version, _, _) = Self::split(version);
        Self { version }
    }

    /// Cuts `version_str` into runs of letters and digits (parts) and runs of
    /// anything else (delimiters). Returns all tokens, the parts alone and the
    /// delimiters alone, each in the order of the text.
    pub fn split(version_str: &str) -> (out: (Vec<String>, Vec<String>, Vec<String>))
        ensures
            is_tokenization(views(out.0@), version_str@),
            views(out.1@) == parts_of(views(out.0@)),
            views(out.2@) == delimiters_of(views(out.0@)),
    {
        let chars = chars_of(version_str);
        let mut delimiters: Vec<String> = Vec::new();
        let mut parts: Vec<String> = Vec::new();
        let mut version: Vec<String> = Vec::new();
        let n = chars.len();
        let mut i: usize = 0;
        proof {
            reveal(Seq::filter);
            assert(views(version@) =~= Seq::<Seq<char>>::empty());
            assert(views(parts@) =~= Seq::<Seq<char>>::empty());
            assert(views(delimiters@) =~= Seq::<Seq<char>>::empty());
            assert(chars@.take(0) =~= Seq::<char>::empty());
        }
        while i < n
            invariant
                n == chars@.len(),
                chars@ == version_str@,
                i <= n,
                is_tokenization(views(version@), chars@.take(i as int)),
                views(parts@) == parts_of(views(version@)),
                views(delimiters@) == delimiters_of(views(version@)),
                0 < i < n ==> version@.len() > 0 && is_part(views(version@).last())
                    != is_part_char(chars@[i as int]),
                i == 0 ==> version@.len() == 0,
            decreases n - i,
        {
            let key = part_char(chars[i]);
            let mut j: usize = i + 1;
            while j < n && part_char(chars[j]) == key
                invariant
                    n == chars@.len(),
                    i < j <= n,
                    key == is_part_char(chars@[i as int]),
                    forall|k: int| i <= k < j ==> is_part_char(#[trigger] chars@[k]) == key,
                decreases n - j,
            {
                j += 1;
            }
            let part = string_of(&chars, i, j);
            let ghost old_tokens = views(version@);
            let ghost old_parts = views(parts@);
            let ghost old_delimiters = views(delimiters@);
            if key {
                parts.push(part.clone());
            } else {
                delimiters.push(part.clone());
            }
            version.push(part);
            proof {
                let token = chars@.subrange(i as int, j as int);
                let tokens = views(version@);
                assert(tokens =~= old_tokens.push(token));
                assert(tokens.drop_last() =~= old_tokens);
                assert(is_run(token));
                assert(is_part(token) == key);
                assert(chars@.take(j as int) =~= chars@.take(i as int) + token);
                assert(joined(tokens, Seq::empty()) =~= chars@.take(j as int));
                reveal(Seq::filter);
                if key {
                    assert(views(parts@) =~= old_parts.push(token));
                    assert(views(delimiters@) =~= old_delimiters);
                } else {
                    assert(views(parts@) =~= old_parts);
                    assert(views(delimiters@) =~= old_delimiters.push(token));
                }
                assert forall|k: int| 0 <= k < tokens.len() implies is_run(
                    #[trigger] tokens[k],
                ) by {
                    if k < old_tokens.len() {
                        assert(tokens[k] == old_tokens[k]);
                    }
                }
                assert forall|k: int| 0 < k < tokens.len() implies is_part(tokens[k - 1])
                    != is_part(#[trigger] tokens[k]) by {
                    if k < old_tokens.len() {
                        assert(tokens[k] == old_tokens[k]);
                        assert(tokens[k - 1] == old_tokens[k - 1]);
                    } else {
                        assert(tokens[k - 1] == old_tokens.last());
                    }
                }
            }
            i = j;
        }
        proof {
            assert(chars@.take(n as int) =~= chars@);
        }
        (version, parts, delimiters)
    }
}

/// How a second list of tokens differs from a first one.
#[derive(Clone, Copy, Debug, PartialEq, Eq, Structural)]
pub enum Diff {
    /// Both lists have a token at this index, and the two differ.
    FirstMismatch(usize),
    /// The second list ends at this index, the first goes on.
    Shorter(usize),
    /// The first list ends at this index, the second goes on.
    Longer(usize),
}

/// The number of leading tokens that `a` and `b` have in common.
pub open spec fn common_prefix_len(a: Seq<Seq<char>>, b: Seq<Seq<char>>) -> nat
    decreases a.len(),
{
    if a.len() == 0 || b.len() == 0 || a[0] != b[0] {
        0
    } else {
        1 + common_prefix_len(a.skip(1), b.skip(1))
    }
}

/// How `b` differs from `a`, if it does.
pub open spec fn diff_of(a: Seq<Seq<char>>, b: Seq<Seq<char>>) -> Option<Diff> {
    let p = common_prefix_len(a, b);
    if p < a.len() && p < b.len() {
        Some(Diff::FirstMismatch(p as usize))
    } else if p < a.len() {
        Some(Diff::Shorter(p as usize))
    } else if p < b.len() {
        Some(Diff::Longer(p as usize))
    } else {
        None
    }
}

/// The index of the first part at which `current` differs from `installed`:
/// delimiters are left aside, and a part that only one of the two has counts
/// as a difference. `None` where the two have the same parts.
pub open spec fn diff_position(installed: Seq<Seq<char>>, current: Seq<Seq<char>>) -> Option<
    usize,
> {
    let from = parts_of(installed);
    let to = parts_of(current);
    let p = common_prefix_len(from, to);
    if p == from.len() && p == to.len() {
        None
    } else {
        Some(p as usize)
    }
}

/// The index among `tokens` of the part with the number `part`, counted from
/// 0; the number of tokens where there are not so many parts.
pub open spec fn part_start(tokens: Seq<Seq<char>>, part: nat) -> nat
    decreases tokens.len(),
{
    if tokens.len() == 0 {
        0
    } else if is_part(tokens[0]) {
        if part == 0 {
            0
        } else {
            1 + part_start(tokens.skip(1), (part - 1) as nat)
        }
    } else {
        1 + part_start(tokens.skip(1), part)
    }
}

/// `out` shows `current` with everything from the first part that differs
/// from `installed` in the colour of that part's tier. What stands before
/// that part, the delimiter in front of it included, is as it was; without a
/// difference `out` is `current` as it was.
pub open spec fn is_colorization(
    out: Seq<char>,
    installed: Seq<Seq<char>>,
    current: Seq<Seq<char>>,
) -> bool {
    match diff_position(installed, current) {
        None => out == joined(current, Seq::empty()),
        Some(p) => is_half_styled(
            out,
            joined(current.take(part_start(current, p as nat) as int), Seq::empty()),
            joined(current.skip(part_start(current, p as nat) as int), Seq::empty()),
            color_code(tier_color(version_color(), tier_of(p as nat))),
        ),
    }
}

/// `itertools::diff_with` on the two lists, with equality of strings: walks
/// both in step and reports the first index at which the tokens differ or one
/// list has ended, `None` where the lists are equal.
#[verifier::external_body]
fn diff_tokens(installed: &Vec<String>, current: &Vec<String>) -> (out: Option<Diff>)
    ensures
        out == diff_of(views(installed@), views(current@)),
{
    match itertools::diff_with(installed, current, |a, b| a == b) {
        None => None,
        Some(itertools::Diff::FirstMismatch(p, _, _)) => Some(Diff::FirstMismatch(p)),
        Some(itertools::Diff::Shorter(p, _)) => Some(Diff::Shorter(p)),
        Some(itertools::Diff::Longer(p, _)) => Some(Diff::Longer(p)),
    }
}

/// An installed version and the version that it can be updated to.
#[derive(Clone, Debug)]
pub struct VersionComparison {
    pub installed_version: Version,
    pub current_version: Version,
}

impl VersionComparison {
    /// Cuts both versions into tokens.
    pub fn new(installed_version: &str, current_version: &str) -> (out: Self)
        ensures
            is_tokenization(out.installed_version.tokens(), installed_version@),
            is_tokenization(out.current_version.tokens(), current_version@),
    {
        let installed_version = Version::new(installed_version);
        let current_version = Version::new(current_version);
        Self { installed_version, current_version }
    }

    /// The index of the first part at which the current version differs from
    /// the installed one, `None` where the two have the same parts.
    pub fn get_diff_position(&self) -> (out: Option<usize>)
        ensures
            out == diff_position(self.installed_version.tokens(), self.current_version.tokens()),
            out matches Some(p) ==> p <= parts_of(self.current_version.tokens()).len(),
    {
        proof {
            lemma_common_prefix(
                parts_of(self.installed_version.tokens()),
                parts_of(self.current_version.tokens()),
            );
        }
        let installed = self.installed_version.parts();
        let current = self.current_version.parts();
        let diff = diff_tokens(&installed, &current);
        match diff {
            None => None,
            Some(Diff::FirstMismatch(position)) => Some(position),
            Some(Diff::Shorter(position)) => Some(position),
            Some(Diff::Longer(position)) => Some(position),
        }
    }

    /// The index among the tokens of the current version of its part with
    /// the number `position`; the number of tokens where there are not so
    /// many parts.
    pub fn part_index(&self, position: usize) -> (out: usize)
        ensures
            out == part_start(self.current_version.tokens(), position as nat),
            out <= self.current_version.tokens().len(),
    {
        let tokens = &self.current_version.version;
        let ghost all = views(tokens@);
        let mut at: usize = 0;
        let mut seen: usize = 0;
        proof {
            assert(all.skip(0) =~= all);
        }
        while at < tokens.len()
            invariant
                at <= tokens.len(),
                all == views(tokens@),
                all == self.current_version.tokens(),
                seen <= position,
                part_start(all, position as nat) == at + part_start(
                    all.skip(at as int),
                    (position - seen) as nat,
                ),
            decreases tokens.len() - at,
        {
            proof {
                assert(all.skip(at as int)[0] == all[at as int]);
                assert(all.skip(at as int).skip(1) =~= all.skip(at + 1));
            }
            if is_part_token(tokens[at].as_str()) {
                if seen == position {
                    return at;
                }
                seen += 1;
            }
            at += 1;
        }
        at
    }

    /// The current version in two halves: what stands before the part with
    /// the number `position`, and what stands from that part on.
    pub fn halves(&self, position: usize) -> (out: (String, String))
        ensures
            out.0@ == joined(
                self.current_version.tokens().take(
                    part_start(self.current_version.tokens(), position as nat) as int,
                ),
                Seq::empty(),
            ),
            out.1@ == joined(
                self.current_version.tokens().skip(
                    part_start(self.current_version.tokens(), position as nat) as int,
                ),
                Seq::empty(),
            ),
    {
        let tokens = &self.current_version.version;
        let at = self.part_index(position);
        proof {
            let all = views(tokens@);
            assert(all.take(at as int) == all.subrange(0, at as int));
            assert(all.skip(at as int) == all.subrange(at as int, all.len() as int));
        }
        let backward = join_range(tokens, 0, at, "");
        let forward = join_range(tokens, at, tokens.len(), "");
        proof {
            reveal_strlit("");
            assert(""@ =~= Seq::<char>::empty());
        }
        (backward, forward)
    }

    /// The current version, with everything from the first part that differs
    /// from the installed version in the colour of that part's tier. Always
    /// succeeds.
    pub fn colorize(&self) -> (out: Result<String, Error>)
        ensures
            out matches Ok(text) && is_colorization(
                text@,
                self.installed_version.tokens(),
                self.current_version.tokens(),
            ),
    {
        let position = match self.get_diff_position() {
            Some(position) => position,
            None => {
                proof {
                    reveal_strlit("");
                    assert(""@ =~= Seq::<char>::empty());
                }
                return Ok(join(&self.current_version.version, ""));
            },
        };
        let (backward, forward) = self.halves(position);
        let tier = ColorTier::from_position(position);
        let painted = paint(forward.as_str(), tier.color());
        Ok(backward.concat(painted.as_str()))
    }
}

/// Whether `token` is a part.
pub fn is_part_token(token: &str) -> (out: bool)
    ensures
        out == is_part(token@),
{
    let chars = chars_of(token);
    chars.len() > 0 && part_char(chars[0])
}

impl Version {
    /// The parts of the version, in order.
    pub fn parts(&self) -> (out: Vec<String>)
        ensures
            views(out@) == parts_of(self.tokens()),
    {
        let ghost all = views(self.version@);
        let mut out: Vec<String> = Vec::new();
        let mut i: usize = 0;
        proof {
            assert(all.take(0) =~= Seq::<Seq<char>>::empty());
            assert(views(out@) =~= Seq::<Seq<char>>::empty());
            assert(parts_of(Seq::<Seq<char>>::empty()) =~= Seq::<Seq<char>>::empty()) by {
                reveal(Seq::filter);
            }
        }
        while i < self.version.len()
            invariant
                i <= self.version.len(),
                all == views(self.version@),
                views(out@) == parts_of(all.take(i as int)),
            decreases self.version.len() - i,
        {
            let ghost before = views(out@);
            let ghost next = all.take(i + 1);
            proof {
                assert(next.drop_last() =~= all.take(i as int));
                assert(next.last() == all[i as int]);
                assert(parts_of(next) == if is_part(next.last()) {
                    parts_of(next.drop_last()).push(next.last())
                } else {
                    parts_of(next.drop_last())
                }) by {
                    reveal(Seq::filter);
                }
            }
            if is_part_token(self.version[i].as_str()) {
                out.push(self.version[i].clone());
                assert(views(out@) =~= before.push(all[i as int]));
            }
            i += 1;
        }
        proof {
            assert(all.take(self.version.len() as int) =~= all);
        }
        out
    }
}

/// The common prefix is as long as it can be: the lists agree before it, and
/// behind it one of them has ended or the two differ.
pub proof fn lemma_common_prefix(a: Seq<Seq<char>>, b: Seq<Seq<char>>)
    ensures
        common_prefix_len(a, b) <= a.len(),
        common_prefix_len(a, b) <= b.len(),
        a.take(common_prefix_len(a, b) as int) == b.take(common_prefix_len(a, b) as int),
        common_prefix_len(a, b) < a.len() && common_prefix_len(a, b) < b.len() ==> a[common_prefix_len(
            a,
            b,
        ) as int] != b[common_prefix_len(a, b) as int],
        (common_prefix_len(a, b) == a.len() && common_prefix_len(a, b) == b.len()) <==> a == b,
    decreases a.len(),
{
    if a.len() == 0 || b.len() == 0 || a[0] != b[0] {
        assert(a.take(0) =~= b.take(0));
        if a.len() == 0 && b.len() == 0 {
            assert(a =~= b);
        }
    } else {
        lemma_common_prefix(a.skip(1), b.skip(1));
        let p = common_prefix_len(a.skip(1), b.skip(1));
        assert(a.take(p as int + 1) =~= seq![a[0]] + a.skip(1).take(p as int));
        assert(b.take(p as int + 1) =~= seq![b[0]] + b.skip(1).take(p as int));
        assert(a =~= seq![a[0]] + a.skip(1));
        assert(b =~= seq![b[0]] + b.skip(1));
        if a == b {
            assert(a.skip(1) == b.skip(1));
        }
    }
}

/// A version that starts with a part and differs from the installed one in
/// its first part is shown in the colour of a major change from its first
/// character on.
pub proof fn lemma_first_part_colours_all(
    out: Seq<char>,
    installed: Seq<Seq<char>>,
    current: Seq<Seq<char>>,
)
    requires
        is_colorization(out, installed, current),
        diff_position(installed, current) == Some(0usize),
        current.len() == 0 || is_part(current[0]),
    ensures
        is_painted(out, joined(current, Seq::empty()), color_code(Color::Red)),
{
    assert(part_start(current, 0) == 0);
    assert(current.take(0) =~= Seq::<Seq<char>>::empty());
    assert(current.skip(0) =~= current);
    let whole = joined(current, Seq::empty());
    assert(Seq::<char>::empty() + whole =~= whole);
    assert(Seq::<char>::empty() + crate::color::styled(whole, color_code(Color::Red))
        =~= crate::color::styled(whole, color_code(Color::Red)));
}

/// A version that differs from the installed one in its second part keeps
/// its first part and the delimiter behind it as they are, and shows the
/// rest in the colour of a minor change.
pub proof fn lemma_second_part_is_minor(
    out: Seq<char>,
    installed: Seq<Seq<char>>,
    current: Seq<Seq<char>>,
)
    requires
        is_colorization(out, installed, current),
        diff_position(installed, current) == Some(1usize),
        current.len() >= 3,
        is_part(current[0]),
        !is_part(current[1]),
        is_part(current[2]),
    ensures
        is_half_styled(
            out,
            current[0] + current[1],
            joined(current.skip(2), Seq::empty()),
            color_code(Color::Blue),
        ),
{
    let rest = current.skip(1);
    assert(rest[0] == current[1]);
    assert(rest.skip(1) =~= current.skip(2));
    assert(current.skip(2)[0] == current[2]);
    assert(part_start(current.skip(2), 0) == 0);
    assert(part_start(rest, 0) == 1);
    assert(part_start(current, 1) == 2);
    let front = current.take(2);
    assert(front.drop_last() =~= seq![current[0]]);
    assert(front.last() == current[1]);
    assert(joined(seq![current[0]], Seq::<char>::empty()) == current[0]);
    assert(joined(front, Seq::<char>::empty()) =~= current[0] + current[1]);
}

/// A version that differs from the installed one in a later part shows
/// everything from that part on in the colour of any other change.
pub proof fn lemma_later_parts_are_other(
    out: Seq<char>,
    installed: Seq<Seq<char>>,
    current: Seq<Seq<char>>,
    position: usize,
)
    requires
        is_colorization(out, installed, current),
        diff_position(installed, current) == Some(position),
        position >= 2,
    ensures
        is_half_styled(
            out,
            joined(current.take(part_start(current, position as nat) as int), Seq::empty()),
            joined(current.skip(part_start(current, position as nat) as int), Seq::empty()),
            color_code(Color::Green),
        ),
{
}

/// Two versions do not differ where they have the same parts, and only there:
/// delimiters make no difference.
pub proof fn lemma_no_difference(installed: Seq<Seq<char>>, current: Seq<Seq<char>>)
    ensures
        diff_position(installed, current) is None <==> parts_of(installed) == parts_of(current),
{
    lemma_common_prefix(parts_of(installed), parts_of(current));
}

/// The position of a difference is the first index at which the parts
/// differ: the parts before it are the same, and at it the two parts differ
/// or one version has no part.
pub proof fn lemma_diff_position(installed: Seq<Seq<char>>, current: Seq<Seq<char>>, p: usize)
    requires
        diff_position(installed, current) == Some(p),
        installed.len() <= usize::MAX,
        current.len() <= usize::MAX,
    ensures
        p <= parts_of(installed).len(),
        p <= parts_of(current).len(),
        parts_of(installed).take(p as int) == parts_of(current).take(p as int),
        p < parts_of(installed).len() && p < parts_of(current).len() ==> parts_of(installed)[p as int]
            != parts_of(current)[p as int],
        p < parts_of(installed).len() || p < parts_of(current).len(),
{
    lemma_common_prefix(parts_of(installed), parts_of(current));
    installed.lemma_filter_len(|t: Seq<char>| is_part(t));
    current.lemma_filter_len(|t: Seq<char>| is_part(t));
}

/// Tokens put together are the tokens before the last put together, and the
/// last.
pub proof fn lemma_joined_last(tokens: Seq<Seq<char>>)
    requires
        tokens.len() > 0,
    ensures
        joined(tokens, Seq::empty()) == joined(tokens.drop_last(), Seq::empty()) + tokens.last(),
{
    if tokens.len() == 1 {
        assert(joined(tokens.drop_last(), Seq::<char>::empty()) + tokens.last() =~= tokens[0]);
    } else {
        assert(joined(tokens.drop_last(), Seq::<char>::empty()) + Seq::<char>::empty()
            + tokens.last() =~= joined(tokens.drop_last(), Seq::<char>::empty())
            + tokens.last());
    }
}

/// A text has one token stream only: two streams of the same text are equal.
pub proof fn lemma_tokenization_is_unique(
    a: Seq<Seq<char>>,
    b: Seq<Seq<char>>,
    text: Seq<char>,
)
    requires
        is_tokenization(a, text),
        is_tokenization(b, text),
    ensures
        a == b,
    decreases a.len(),
{
    let none = Seq::<char>::empty();
    if a.len() == 0 {
        if b.len() > 0 {
            lemma_joined_last(b);
            assert(is_run(b.last()));
        }
        assert(a =~= b);
    } else if b.len() == 0 {
        lemma_joined_last(a);
        assert(is_run(a.last()));
    } else {
        lemma_joined_last(a);
        lemma_joined_last(b);
        let before_a = joined(a.drop_last(), none);
        let before_b = joined(b.drop_last(), none);
        let last_a = a.last();
        let last_b = b.last();
        assert(is_run(last_a) && is_run(last_b));
        assert(text.len() == before_a.len() + last_a.len());
        assert(text.len() == before_b.len() + last_b.len());
        lemma_last_token_is_longest(a, b, text);
        lemma_last_token_is_longest(b, a, text);
        assert(last_a.len() == last_b.len());
        {
            assert(last_a =~= last_b) by {
                assert forall|k: int| 0 <= k < last_a.len() implies last_a[k] == last_b[k] by {
                    assert(last_a[k] == text[before_a.len() + k]);
                    assert(last_b[k] == text[before_b.len() + k]);
                }
            }
            assert(before_a =~= before_b) by {
                assert forall|k: int| 0 <= k < before_a.len() implies before_a[k]
                    == before_b[k] by {
                    assert(before_a[k] == text[k]);
                    assert(before_b[k] == text[k]);
                }
            }
            assert(is_tokenization(a.drop_last(), before_a));
            assert(is_tokenization(b.drop_last(), before_a));
            lemma_tokenization_is_unique(a.drop_last(), b.drop_last(), before_a);
            assert(a =~= a.drop_last().push(last_a));
            assert(b =~= b.drop_last().push(last_b));
        }
    }
}

/// The last token of a stream is not shorter than the last token of another
/// stream of the same text: a longer one would run over the end of a token of
/// the other kind.
pub proof fn lemma_last_token_is_longest(a: Seq<Seq<char>>, b: Seq<Seq<char>>, text: Seq<char>)
    requires
        is_tokenization(a, text),
        is_tokenization(b, text),
        a.len() > 0,
        b.len() > 0,
    ensures
        a.last().len() >= b.last().len(),
{
    if a.last().len() < b.last().len() {
        let none = Seq::<char>::empty();
        lemma_joined_last(a);
        lemma_joined_last(b);
        let before_a = joined(a.drop_last(), none);
        let before_b = joined(b.drop_last(), none);
        let last_a = a.last();
        let last_b = b.last();
        assert(is_run(last_a) && is_run(last_b));
        assert(text.len() == before_a.len() + last_a.len());
        assert(text.len() == before_b.len() + last_b.len());
        assert(before_a.len() > 0);
        if a.drop_last().len() == 0 {
            assert(before_a.len() == 0);
        } else {
            let previous = a[a.len() - 2];
            assert(a.drop_last().last() == previous);
            lemma_joined_last(a.drop_last());
            assert(is_run(previous));
            let c = previous.last();
            // the character before the last token of `a` lies in the last token of `b`
            assert(before_a[before_a.len() - 1] == c);
            assert(text[before_a.len() - 1] == c);
            assert(last_b[before_a.len() - 1 - before_b.len()] == text[before_a.len() - 1]);
            assert(last_b[last_b.len() - 1] == text[text.len() - 1]);
            assert(last_a[last_a.len() - 1] == text[text.len() - 1]);
            assert(is_part_char(c) == is_part_char(last_b[0]));
            assert(is_part_char(last_b[last_b.len() - 1]) == is_part_char(last_b[0]));
            assert(is_part_char(last_a[last_a.len() - 1]) == is_part_char(last_a[0]));
            assert(is_part_char(previous[previous.len() - 1]) == is_part_char(previous[0]));
            assert(is_part(previous) == is_part(last_a));
            assert(is_part(a[a.len() - 1 - 1]) != is_part(a[a.len() - 1]));
        }
    }
}

/// The parts of a list of tokens are the first token, if it is a part, and
/// the parts of the rest.
pub proof fn lemma_parts_of_first(tokens: Seq<Seq<char>>)
    requires
        tokens.len() > 0,
    ensures
        parts_of(tokens) == if is_part(tokens[0]) {
            seq![tokens[0]] + parts_of(tokens.skip(1))
        } else {
            parts_of(tokens.skip(1))
        },
{
    let keep = |t: Seq<char>| is_part(t);
    let first = seq![tokens[0]];
    assert(tokens =~= first + tokens.skip(1));
    Seq::filter_distributes_over_add(first, tokens.skip(1), keep);
    assert(first.filter(keep) =~= if is_part(tokens[0]) {
        first
    } else {
        Seq::<Seq<char>>::empty()
    }) by {
        reveal_with_fuel(Seq::filter, 2);
        assert(first.drop_last() =~= Seq::<Seq<char>>::empty());
    }
    assert(Seq::<Seq<char>>::empty() + parts_of(tokens.skip(1)) =~= parts_of(tokens.skip(1)));
}

/// Where a version is cut for its part with the number `part`: directly in
/// front of that part, so that what stands before holds the earlier parts and
/// every delimiter up to the part; behind the last token where the version
/// has not so many parts.
pub proof fn lemma_part_start(tokens: Seq<Seq<char>>, part: nat)
    ensures
        part_start(tokens, part) <= tokens.len(),
        part < parts_of(tokens).len() ==> part_start(tokens, part) < tokens.len() && is_part(
            tokens[part_start(tokens, part) as int],
        ) && tokens[part_start(tokens, part) as int] == parts_of(tokens)[part as int],
        part < parts_of(tokens).len() ==> parts_of(tokens.take(part_start(tokens, part) as int))
            == parts_of(tokens).take(part as int),
        part >= parts_of(tokens).len() ==> part_start(tokens, part) == tokens.len(),
    decreases tokens.len(),
{
    if tokens.len() == 0 {
        assert(parts_of(tokens) =~= Seq::<Seq<char>>::empty()) by {
            reveal(Seq::filter);
        }
    } else {
        let rest = tokens.skip(1);
        lemma_parts_of_first(tokens);
        if is_part(tokens[0]) {
            if part == 0 {
                assert(tokens.take(0) =~= Seq::<Seq<char>>::empty());
                assert(parts_of(Seq::<Seq<char>>::empty()) =~= Seq::<Seq<char>>::empty()) by {
                    reveal(Seq::filter);
                }
                assert(parts_of(tokens).take(0) =~= Seq::<Seq<char>>::empty());
            } else {
                let before = (part - 1) as nat;
                lemma_part_start(rest, before);
                let at = part_start(rest, before);
                if part < parts_of(tokens).len() {
                    let front = tokens.take(at as int + 1);
                    assert(front =~= seq![tokens[0]] + rest.take(at as int));
                    lemma_parts_of_first(front);
                    assert(front.skip(1) =~= rest.take(at as int));
                    assert(parts_of(tokens).take(part as int) =~= seq![tokens[0]] + parts_of(
                        rest,
                    ).take(before as int));
                }
            }
        } else {
            lemma_part_start(rest, part);
            let at = part_start(rest, part);
            if part < parts_of(tokens).len() {
                let front = tokens.take(at as int + 1);
                assert(front =~= seq![tokens[0]] + rest.take(at as int));
                lemma_parts_of_first(front);
                assert(front.skip(1) =~= rest.take(at as int));
            }
        }
    }
}

} // verus!
