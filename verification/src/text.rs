use vstd::prelude::*;
use vstd::string::StringExecFns;

verus! {

/// `String::push` appends one character to the end of the string.
pub assume_specification[ String::push ](s: &mut String, ch: char)
    ensures
        final(s)@ == old(s)@.push(ch),
;

/// The characters of `s`, in order.
pub fn chars_of(s: &str) -> (out: Vec<char>)
    ensures
        out@ == s@,
{
    let mut out: Vec<char> = Vec::new();
    for c in it: s.chars()
        invariant
            out@ == it.seq().take(it.index() as int),
            it.seq() == s@,
    {
        out.push(c);
    }
    out
}

/// The string made of the characters `v[from..to]`.
pub fn string_of(v: &Vec<char>, from: usize, to: usize) -> (out: String)
    requires
        from <= to <= v@.len(),
    ensures
        out@ == v@.subrange(from as int, to as int),
{
    let mut out = String::new();
    let mut i: usize = from;
    while i < to
        invariant
            from <= i <= to <= v@.len(),
            out@ == v@.subrange(from as int, i as int),
        decreases to - i,
    {
        out.push(v[i]);
        i += 1;
    }
    out
}

/// The concatenation of all `parts`, with `sep` between neighbours.
pub open spec fn joined(parts: Seq<Seq<char>>, sep: Seq<char>) -> Seq<char>
    decreases parts.len(),
{
    if parts.len() == 0 {
        Seq::empty()
    } else if parts.len() == 1 {
        parts[0]
    } else {
        joined(parts.drop_last(), sep) + sep + parts.last()
    }
}

/// The views of the strings of `v`.
pub open spec fn views(v: Seq<String>) -> Seq<Seq<char>> {
    Seq::new(v.len(), |i: int| v[i]@)
}

/// Joins `parts[from..to]` with `sep` between neighbours.
pub fn join_range(parts: &Vec<String>, from: usize, to: usize, sep: &str) -> (out: String)
    requires
        from <= to <= parts@.len(),
    ensures
        out@ == joined(views(parts@).subrange(from as int, to as int), sep@),
{
    let mut out = String::new();
    let mut i: usize = from;
    while i < to
        invariant
            from <= i <= to <= parts@.len(),
            out@ == joined(views(parts@).subrange(from as int, i as int), sep@),
        decreases to - i,
    {
        if i > from {
            out.append(sep);
        }
        out.append(parts[i].as_str());
        proof {
            let all = views(parts@);
            assert(all.subrange(from as int, i + 1).drop_last() == all.subrange(
                from as int,
                i as int,
            ));
            assert(all.subrange(from as int, i + 1).last() == parts[i as int]@);
        }
        i += 1;
    }
    out
}

/// Joins `parts` with `sep` between neighbours.
pub fn join(parts: &Vec<String>, sep: &str) -> (out: String)
    ensures
        out@ == joined(views(parts@), sep@),
{
    proof {
        assert(views(parts@).subrange(0, parts@.len() as int) == views(parts@));
    }
    join_range(parts, 0, parts.len(), sep)
}

/// `n` spaces.
pub open spec fn spaces_spec(n: nat) -> Seq<char> {
    Seq::new(n, |i: int| ' ')
}

/// A string of `n` spaces.
pub fn spaces(n: usize) -> (out: String)
    ensures
        out@ == spaces_spec(n as nat),
{
    let mut out = String::new();
    let mut i: usize = 0;
    while i < n
        invariant
            i <= n,
            out@ == spaces_spec(i as nat),
        decreases n - i,
    {
        out.push(' ');
        assert(out@ =~= spaces_spec((i + 1) as nat));
        i += 1;
    }
    out
}

/// The number of bytes that `text` takes as UTF-8.
pub open spec fn byte_len(text: Seq<char>) -> nat {
    vstd::utf8::encode_utf8(text).len()
}

/// Whether `list` holds `item`.
pub fn contains(list: &Vec<String>, item: &str) -> (out: bool)
    ensures
        out == views(list@).contains(item@),
{
    let mut i: usize = 0;
    while i < list.len()
        invariant
            i <= list.len(),
            forall|k: int| 0 <= k < i ==> views(list@)[k] != item@,
        decreases list.len() - i,
    {
        if str_eq(list[i].as_str(), item) {
            assert(views(list@)[i as int] == item@);
            return true;
        }
        i += 1;
    }
    false
}

/// Whether two string slices hold the same text.
pub fn str_eq(a: &str, b: &str) -> (out: bool)
    ensures
        out == (a@ == b@),
{
    let x = chars_of(a);
    let y = chars_of(b);
    if x.len() != y.len() {
        return false;
    }
    let mut i: usize = 0;
    while i < x.len()
        invariant
            i <= x.len(),
            x.len() == y.len(),
            x@ == a@,
            y@ == b@,
            forall|k: int| 0 <= k < i ==> x@[k] == y@[k],
        decreases x.len() - i,
    {
        if x[i] != y[i] {
            return false;
        }
        i += 1;
    }
    assert(x@ =~= y@);
    true
}

/// Whether `pattern` stands in `text` at index `at`.
pub open spec fn occurs_at(text: Seq<char>, pattern: Seq<char>, at: int) -> bool {
    0 <= at && at + pattern.len() <= text.len() && text.subrange(at, at + pattern.len())
        == pattern
}

/// Whether `pattern` stands in `text` at index `at`.
pub fn matches_at(text: &Vec<char>, pattern: &Vec<char>, at: usize) -> (out: bool)
    ensures
        out == occurs_at(text@, pattern@, at as int),
{
    if at > text.len() || pattern.len() > text.len() - at {
        return false;
    }
    let mut i: usize = 0;
    while i < pattern.len()
        invariant
            i <= pattern.len(),
            at + pattern.len() <= text.len(),
            forall|k: int| 0 <= k < i ==> text@[at + k] == pattern@[k],
        decreases pattern.len() - i,
    {
        if text[at + i] != pattern[i] {
            assert(text@.subrange(at as int, at + pattern.len())[i as int] != pattern@[i as int]);
            return false;
        }
        i += 1;
    }
    assert(text@.subrange(at as int, at + pattern.len()) =~= pattern@);
    true
}

/// Whether `text` starts with `prefix`.
pub fn starts_with(text: &str, prefix: &str) -> (out: bool)
    ensures
        out == prefix@.is_prefix_of(text@),
{
    let chars = chars_of(text);
    let wanted = chars_of(prefix);
    matches_at(&chars, &wanted, 0)
}

/// The pieces of `text` between the occurrences of `separator`, found from
/// the left and without overlap. `start` is where the current piece starts,
/// `at` the index from which the next separator is looked for.
pub open spec fn split_from(text: Seq<char>, separator: Seq<char>, start: int, at: int) -> Seq<
    Seq<char>,
>
    decreases text.len() - at,
    when separator.len() > 0 && at >= 0
{
    if at + separator.len() > text.len() {
        seq![text.subrange(start, text.len() as int)]
    } else if occurs_at(text, separator, at) {
        seq![text.subrange(start, at)] + split_from(
            text,
            separator,
            at + separator.len(),
            at + separator.len(),
        )
    } else {
        split_from(text, separator, start, at + 1)
    }
}

/// The pieces of `text` between the occurrences of `separator`.
pub open spec fn split_spec(text: Seq<char>, separator: Seq<char>) -> Seq<Seq<char>> {
    split_from(text, separator, 0, 0)
}

/// Splits `text` at every occurrence of `separator`, found from the left and
/// without overlap. A text without the separator is a single piece.
pub fn split(text: &str, separator: &str) -> (out: Vec<String>)
    requires
        separator@.len() > 0,
    ensures
        views(out@) == split_spec(text@, separator@),
{
    let text = chars_of(text);
    let separator = chars_of(separator);
    let mut out: Vec<String> = Vec::new();
    let mut start: usize = 0;
    let mut at: usize = 0;
    assert(views(out@) =~= Seq::<Seq<char>>::empty());
    while separator.len() <= text.len() - at
        invariant
            0 <= start <= at <= text.len(),
            separator@.len() > 0,
            split_spec(text@, separator@) == views(out@) + split_from(
                text@,
                separator@,
                start as int,
                at as int,
            ),
        decreases text.len() - at,
    {
        if matches_at(&text, &separator, at) {
            let piece = string_of(&text, start, at);
            let ghost before = views(out@);
            out.push(piece);
            assert(views(out@) =~= before + seq![text@.subrange(start as int, at as int)]);
            at = at + separator.len();
            start = at;
        } else {
            at += 1;
        }
    }
    let piece = string_of(&text, start, text.len());
    let ghost before = views(out@);
    out.push(piece);
    assert(views(out@) =~= before + seq![text@.subrange(start as int, text@.len() as int)]);
    out
}

/// `line` without a carriage return at its end.
pub open spec fn without_cr(line: Seq<char>) -> Seq<char> {
    if line.len() > 0 && line.last() == '\r' {
        line.drop_last()
    } else {
        line
    }
}

/// The lines of `text` from `start` on, where `at` is the index from which
/// the next line feed is looked for.
pub open spec fn lines_from(text: Seq<char>, start: int, at: int) -> Seq<Seq<char>>
    decreases text.len() - at,
    when at >= 0
{
    if at >= text.len() {
        if start < text.len() {
            seq![text.subrange(start, text.len() as int)]
        } else {
            Seq::empty()
        }
    } else if text[at] == '\n' {
        seq![without_cr(text.subrange(start, at))] + lines_from(text, at + 1, at + 1)
    } else {
        lines_from(text, start, at + 1)
    }
}

/// The lines of `text`: each ends at a line feed, which does not belong to
/// the line, nor does a carriage return before it. What follows the last line
/// feed is a line of its own unless it is empty.
pub open spec fn lines_spec(text: Seq<char>) -> Seq<Seq<char>> {
    lines_from(text, 0, 0)
}

/// The lines of `text`.
pub fn lines(text: &str) -> (out: Vec<String>)
    ensures
        views(out@) == lines_spec(text@),
{
    let text = chars_of(text);
    let mut out: Vec<String> = Vec::new();
    let mut start: usize = 0;
    let mut at: usize = 0;
    assert(views(out@) =~= Seq::<Seq<char>>::empty());
    while at < text.len()
        invariant
            0 <= start <= at <= text.len(),
            lines_spec(text@) == views(out@) + lines_from(text@, start as int, at as int),
        decreases text.len() - at,
    {
        if text[at] == '\n' {
            let end: usize = if at > start && text[at - 1] == '\r' {
                (at - 1) as usize
            } else {
                at
            };
            let line = string_of(&text, start, end);
            let ghost before = views(out@);
            out.push(line);
            assert(text@.subrange(start as int, end as int) =~= without_cr(
                text@.subrange(start as int, at as int),
            ));
            assert(views(out@) =~= before + seq![
                without_cr(text@.subrange(start as int, at as int)),
            ]);
            at += 1;
            start = at;
        } else {
            at += 1;
        }
    }
    if start < text.len() {
        let line = string_of(&text, start, text.len());
        let ghost before = views(out@);
        out.push(line);
        assert(views(out@) =~= before + seq![text@.subrange(start as int, text@.len() as int)]);
    }
    out
}

/// The views of the strings of `v`, where there are any.
pub open spec fn option_views(v: Option<Vec<String>>) -> Option<Seq<Seq<char>>> {
    match v {
        Some(v) => Some(views(v@)),
        None => None,
    }
}

/// All of `parts` put together.
pub open spec fn concat(parts: Seq<Seq<char>>) -> Seq<char> {
    joined(parts, Seq::empty())
}

/// A copy of `v`.
pub fn clone_strings(v: &Vec<String>) -> (out: Vec<String>)
    ensures
        views(out@) == views(v@),
{
    let mut out: Vec<String> = Vec::new();
    let mut i: usize = 0;
    while i < v.len()
        invariant
            i <= v.len(),
            out@.len() == i,
            forall|k: int| 0 <= k < i ==> (#[trigger] out@[k])@ == v@[k]@,
        decreases v.len() - i,
    {
        out.push(v[i].clone());
        i += 1;
    }
    assert(views(out@) =~= views(v@));
    out
}

/// The views of the lists of `v`.
pub open spec fn nested_views(v: Seq<Vec<String>>) -> Seq<Seq<Seq<char>>> {
    Seq::new(v.len(), |i: int| views(v[i]@))
}

/// `std::str::from_utf8`: the text that the bytes are as UTF-8, `None` where
/// they are not valid UTF-8.
#[verifier::external_body]
fn decode(value: &[u8]) -> (out: Option<&str>)
    ensures
        out is Some <==> vstd::utf8::valid_utf8(value@),
        out matches Some(text) ==> text@ == vstd::utf8::decode_utf8(value@),
{
    std::str::from_utf8(value).ok()
}

/// The text that `value` is as UTF-8; the empty text where it is not valid
/// UTF-8.
pub fn stringify(value: &[u8]) -> (out: &str)
    ensures
        out@ == if vstd::utf8::valid_utf8(value@) {
            vstd::utf8::decode_utf8(value@)
        } else {
            Seq::empty()
        },
{
    match decode(value) {
        Some(text) => text,
        None => {
            proof {
                reveal_strlit("");
                assert(""@ =~= Seq::<char>::empty());
            }
            ""
        },
    }
}

} // verus!
