use crate::color::{is_half_styled, reinstated, reset, style_start, styled};
use crate::text::{
    chars_of, concat, join, joined, nested_views, spaces, spaces_spec, string_of, views,
};
use vstd::prelude::*;
use vstd::string::StringExecFns;

verus! {

/// Where a text stands with respect to escape sequences.
#[derive(Clone, Copy, Debug, PartialEq, Eq, Structural)]
pub enum Escape {
    /// Outside of any escape sequence.
    Outside,
    /// Behind the escape character.
    Started,
    /// Behind the escape character and `[`, before the closing `m`.
    Inside,
}

/// The escape character.
pub open spec fn escape() -> char {
    '\u{1b}'
}

/// The state behind `c`, read in state `state`.
pub open spec fn step(state: Escape, c: char) -> Escape {
    match state {
        Escape::Outside => if c == escape() {
            Escape::Started
        } else {
            Escape::Outside
        },
        Escape::Started => if c == '[' {
            Escape::Inside
        } else {
            Escape::Outside
        },
        Escape::Inside => if c == 'm' {
            Escape::Outside
        } else {
            Escape::Inside
        },
    }
}

/// Whether `c`, read in state `state`, is seen on the terminal: neither the
/// escape character nor part of an escape sequence.
pub open spec fn is_visible(state: Escape, c: char) -> bool {
    match state {
        Escape::Outside => c != escape(),
        Escape::Started => c != '[' && c != escape(),
        Escape::Inside => false,
    }
}

/// The number of characters of `text` from index `at` on that are seen,
/// where `state` is the state at `at`.
pub open spec fn visible_from(text: Seq<char>, at: int, state: Escape) -> nat
    decreases text.len() - at,
    when at >= 0
{
    if at >= text.len() {
        0
    } else if is_visible(state, text[at]) {
        1 + visible_from(text, at + 1, step(state, text[at]))
    } else {
        visible_from(text, at + 1, step(state, text[at]))
    }
}

/// The number of characters of `text` that are seen on the terminal: all but
/// the escape sequences that set colours and styles.
pub open spec fn visible_len(text: Seq<char>) -> nat {
    visible_from(text, 0, Escape::Outside)
}

/// The number of characters of `text` that are seen on the terminal.
pub fn visible_width(text: &str) -> (out: usize)
    ensures
        out == visible_len(text@),
{
    let chars = chars_of(text);
    let mut out: usize = 0;
    let mut state = Escape::Outside;
    let mut at: usize = 0;
    while at < chars.len()
        invariant
            at <= chars.len(),
            chars@ == text@,
            out <= at,
            visible_len(chars@) == out + visible_from(chars@, at as int, state),
        decreases chars.len() - at,
    {
        let c = chars[at];
        let (seen, next): (bool, Escape) = match state {
            Escape::Outside => if c == '\u{1b}' {
                (false, Escape::Started)
            } else {
                (true, Escape::Outside)
            },
            Escape::Started => if c == '[' {
                (false, Escape::Inside)
            } else {
                (c != '\u{1b}', Escape::Outside)
            },
            Escape::Inside => if c == 'm' {
                (false, Escape::Outside)
            } else {
                (false, Escape::Inside)
            },
        };
        if seen {
            out += 1;
        }
        state = next;
        at += 1;
    }
    out
}

/// The cell of row `r` in column `c`; empty where the row is shorter.
pub open spec fn cell_at(rows: Seq<Seq<Seq<char>>>, r: int, c: int) -> Seq<char> {
    if 0 <= c < rows[r].len() {
        rows[r][c]
    } else {
        Seq::empty()
    }
}

/// The number of columns: the length of the longest row.
pub open spec fn column_count(rows: Seq<Seq<Seq<char>>>) -> nat
    decreases rows.len(),
{
    if rows.len() == 0 {
        0
    } else if rows.last().len() > column_count(rows.drop_last()) {
        rows.last().len()
    } else {
        column_count(rows.drop_last())
    }
}

/// The width of column `c`: the most characters that are seen of any of its
/// cells.
pub open spec fn column_width(rows: Seq<Seq<Seq<char>>>, c: int) -> nat
    decreases rows.len(),
{
    if rows.len() == 0 {
        0
    } else if visible_len(cell_at(rows, rows.len() - 1, c)) > column_width(rows.drop_last(), c) {
        visible_len(cell_at(rows, rows.len() - 1, c))
    } else {
        column_width(rows.drop_last(), c)
    }
}

/// A cell as it stands in its line: the text, spaces up to the width of
/// the column unless the column is the last, and 4 spaces more.
pub open spec fn shown_cell(rows: Seq<Seq<Seq<char>>>, r: int, c: int) -> Seq<char> {
    let cell = cell_at(rows, r, c);
    let fill = if c == column_count(rows) - 1 {
        Seq::empty()
    } else {
        spaces_spec((column_width(rows, c) - visible_len(cell)) as nat)
    };
    cell + fill + spaces_spec(4)
}

/// Row `r` as a line: its cells as they stand, one behind the other.
pub open spec fn line_of(rows: Seq<Seq<Seq<char>>>, r: int) -> Seq<char> {
    concat(Seq::new(column_count(rows), |c: int| shown_cell(rows, r, c)))
}

/// Whether `c` is white space.
pub open spec fn is_space(c: char) -> bool {
    let n = c as u32;
    ||| 9 <= n <= 13
    ||| n == 0x20
    ||| n == 0x85
    ||| n == 0xa0
    ||| n == 0x1680
    ||| 0x2000 <= n <= 0x200a
    ||| n == 0x2028
    ||| n == 0x2029
    ||| n == 0x202f
    ||| n == 0x205f
    ||| n == 0x3000
}

/// `text` without the white space at its end.
pub open spec fn trimmed(text: Seq<char>) -> Seq<char>
    decreases text.len(),
{
    if text.len() > 0 && is_space(text.last()) {
        trimmed(text.drop_last())
    } else {
        text
    }
}

/// The table: one line per row, without white space at the end of a line.
pub open spec fn table_text(rows: Seq<Seq<Seq<char>>>) -> Seq<char> {
    joined(Seq::new(rows.len(), |r: int| trimmed(line_of(rows, r))), seq!['\n'])
}

/// The table with every line as it is, each ended by a line feed.
pub open spec fn raw_table_text(rows: Seq<Seq<Seq<char>>>) -> Seq<char> {
    concat(Seq::new(rows.len(), |r: int| line_of(rows, r) + seq!['\n']))
}

/// No cell is wider than its column.
pub proof fn lemma_column_width_bounds(rows: Seq<Seq<Seq<char>>>, r: int, c: int)
    requires
        0 <= r < rows.len(),
    ensures
        visible_len(cell_at(rows, r, c)) <= column_width(rows, c),
    decreases rows.len(),
{
    if r < rows.len() - 1 {
        lemma_column_width_bounds(rows.drop_last(), r, c);
        assert(cell_at(rows.drop_last(), r, c) == cell_at(rows, r, c));
    }
}

/// Whether `c` is white space.
pub fn is_space_char(c: char) -> (out: bool)
    ensures
        out == is_space(c),
{
    let n: u32 = c as u32;
    (9 <= n && n <= 13) || n == 0x20 || n == 0x85 || n == 0xa0 || n == 0x1680 || (0x2000 <= n && n
        <= 0x200a) || n == 0x2028 || n == 0x2029 || n == 0x202f || n == 0x205f || n == 0x3000
}

/// `text` without the white space at its end.
pub fn trim_end(text: &str) -> (out: String)
    ensures
        out@ == trimmed(text@),
{
    let chars = chars_of(text);
    let mut end: usize = chars.len();
    proof {
        assert(chars@.take(end as int) =~= chars@);
    }
    while end > 0 && is_space_char(chars[end - 1])
        invariant
            end <= chars.len(),
            chars@ == text@,
            trimmed(chars@) == trimmed(chars@.take(end as int)),
        decreases end,
    {
        proof {
            assert(chars@.take(end as int).drop_last() =~= chars@.take(end - 1));
        }
        end -= 1;
    }
    proof {
        assert(chars@.take(end as int) =~= chars@.subrange(0, end as int));
    }
    string_of(&chars, 0, end)
}

/// The number of columns of `rows`.
pub fn count_columns(rows: &Vec<Vec<String>>) -> (out: usize)
    ensures
        out == column_count(nested_views(rows@)),
{
    let ghost all = nested_views(rows@);
    let mut out: usize = 0;
    let mut r: usize = 0;
    proof {
        assert(all.take(0) =~= Seq::<Seq<Seq<char>>>::empty());
    }
    while r < rows.len()
        invariant
            r <= rows.len(),
            all == nested_views(rows@),
            out == column_count(all.take(r as int)),
        decreases rows.len() - r,
    {
        proof {
            assert(all.take(r + 1).drop_last() =~= all.take(r as int));
            assert(all.take(r + 1).last() == all[r as int]);
        }
        if rows[r].len() > out {
            out = rows[r].len();
        }
        r += 1;
    }
    proof {
        assert(all.take(rows.len() as int) =~= all);
    }
    out
}

/// The width of column `c` of `rows`.
pub fn width_of_column(rows: &Vec<Vec<String>>, c: usize) -> (out: usize)
    ensures
        out == column_width(nested_views(rows@), c as int),
{
    let ghost all = nested_views(rows@);
    let mut out: usize = 0;
    let mut r: usize = 0;
    proof {
        assert(all.take(0) =~= Seq::<Seq<Seq<char>>>::empty());
    }
    while r < rows.len()
        invariant
            r <= rows.len(),
            all == nested_views(rows@),
            out == column_width(all.take(r as int), c as int),
        decreases rows.len() - r,
    {
        proof {
            assert(all.take(r + 1).drop_last() =~= all.take(r as int));
            assert(cell_at(all.take(r + 1), r as int, c as int) == cell_at(all, r as int, c as int));
        }
        let width: usize = if c < rows[r].len() {
            visible_width(rows[r][c].as_str())
        } else {
            proof {
                assert(visible_len(Seq::<char>::empty()) == 0);
            }
            0
        };
        if width > out {
            out = width;
        }
        r += 1;
    }
    proof {
        assert(all.take(rows.len() as int) =~= all);
    }
    out
}

/// Row `r` of `rows` as a line of the table.
pub fn table_line(rows: &Vec<Vec<String>>, r: usize) -> (out: String)
    requires
        r < rows@.len(),
    ensures
        out@ == line_of(nested_views(rows@), r as int),
{
    let ghost all = nested_views(rows@);
    let columns: usize = count_columns(rows);
    let mut cells: Vec<String> = Vec::new();
    let mut c: usize = 0;
    while c < columns
        invariant
            c <= columns,
            r < rows@.len(),
            all == nested_views(rows@),
            columns == column_count(all),
            cells@.len() == c,
            forall|k: int| 0 <= k < c ==> (#[trigger] cells@[k])@ == shown_cell(all, r as int, k),
        decreases columns - c,
    {
        let cell: String = if c < rows[r].len() {
            rows[r][c].clone()
        } else {
            String::new()
        };
        assert(cell@ == cell_at(all, r as int, c as int));
        let fill: usize = if c == columns - 1 {
            0
        } else {
            proof {
                lemma_column_width_bounds(all, r as int, c as int);
            }
            width_of_column(rows, c) - visible_width(cell.as_str())
        };
        let padding = spaces(fill);
        let gap = spaces(4);
        proof {
            assert(spaces_spec(0) =~= Seq::<char>::empty());
        }
        cells.push(cell.concat(padding.as_str()).concat(gap.as_str()));
        c += 1;
    }
    proof {
        assert(views(cells@) =~= Seq::new(
            column_count(all),
            |k: int| shown_cell(all, r as int, k),
        ));
        reveal_strlit("");
        assert(""@ =~= Seq::<char>::empty());
    }
    join(&cells, "")
}

/// The table of `rows`: every column as wide as the widest of its cells is
/// seen, 4 spaces behind each column, no white space at the end of a line.
pub fn tabulate(rows: &Vec<Vec<String>>) -> (out: String)
    ensures
        out@ == table_text(nested_views(rows@)),
{
    let ghost all = nested_views(rows@);
    let mut lines: Vec<String> = Vec::new();
    let mut r: usize = 0;
    while r < rows.len()
        invariant
            r <= rows.len(),
            all == nested_views(rows@),
            lines@.len() == r,
            forall|k: int| 0 <= k < r ==> (#[trigger] lines@[k])@ == trimmed(line_of(all, k)),
        decreases rows.len() - r,
    {
        let full = table_line(rows, r);
        lines.push(trim_end(full.as_str()));
        r += 1;
    }
    proof {
        assert(views(lines@) =~= Seq::new(all.len(), |k: int| trimmed(line_of(all, k))));
        reveal_strlit("\n");
        assert("\n"@ =~= seq!['\n']);
    }
    join(&lines, "\n")
}

/// The table of `rows` with every line as it is, each ended by a line feed.
pub fn tabulate_raw(rows: &Vec<Vec<String>>) -> (out: String)
    ensures
        out@ == raw_table_text(nested_views(rows@)),
{
    let ghost all = nested_views(rows@);
    let mut lines: Vec<String> = Vec::new();
    let mut r: usize = 0;
    while r < rows.len()
        invariant
            r <= rows.len(),
            all == nested_views(rows@),
            lines@.len() == r,
            forall|k: int|
                0 <= k < r ==> (#[trigger] lines@[k])@ == line_of(all, k) + seq!['\n'],
        decreases rows.len() - r,
    {
        proof {
            reveal_strlit("\n");
            assert("\n"@ =~= seq!['\n']);
        }
        lines.push(table_line(rows, r).concat("\n"));
        r += 1;
    }
    proof {
        assert(views(lines@) =~= Seq::new(all.len(), |k: int| line_of(all, k) + seq!['\n']));
        reveal_strlit("");
        assert(""@ =~= Seq::<char>::empty());
    }
    join(&lines, "")
}

/// The state behind `text`, read from index `at` on in state `state`.
pub open spec fn state_after(text: Seq<char>, at: int, state: Escape) -> Escape
    decreases text.len() - at,
    when at >= 0
{
    if at >= text.len() {
        state
    } else {
        state_after(text, at + 1, step(state, text[at]))
    }
}

/// Whether `text` holds no escape character.
pub open spec fn is_plain(text: Seq<char>) -> bool {
    forall|i: int| 0 <= i < text.len() ==> #[trigger] text[i] != escape()
}

/// Whether `code` can stand in an escape sequence: it does not hold the `m`
/// that ends one.
pub open spec fn is_code(code: Seq<char>) -> bool {
    forall|i: int| 0 <= i < code.len() ==> #[trigger] code[i] != 'm'
}

/// What is seen of the second of two texts does not depend on the first but
/// for the state that the first leaves.
pub proof fn lemma_visible_behind(a: Seq<char>, b: Seq<char>, at: int, state: Escape)
    requires
        0 <= at <= b.len(),
    ensures
        visible_from(a + b, a.len() + at, state) == visible_from(b, at, state),
        state_after(a + b, a.len() + at, state) == state_after(b, at, state),
    decreases b.len() - at,
{
    if at < b.len() {
        assert((a + b)[a.len() + at] == b[at]);
        lemma_visible_behind(a, b, at + 1, step(state, b[at]));
    }
}

/// What is seen of two texts, one behind the other, is what is seen of the
/// first and what is seen of the second in the state that the first leaves.
pub proof fn lemma_visible_concat(a: Seq<char>, b: Seq<char>, at: int, state: Escape)
    requires
        0 <= at <= a.len(),
    ensures
        visible_from(a + b, at, state) == visible_from(a, at, state) + visible_from(
            b,
            0,
            state_after(a, at, state),
        ),
        state_after(a + b, at, state) == state_after(b, 0, state_after(a, at, state)),
    decreases a.len() - at,
{
    if at < a.len() {
        assert((a + b)[at] == a[at]);
        lemma_visible_concat(a, b, at + 1, step(state, a[at]));
    } else {
        lemma_visible_behind(a, b, 0, state);
    }
}

/// Of a text without escape characters every character is seen.
pub proof fn lemma_plain_is_seen(text: Seq<char>, at: int)
    requires
        0 <= at <= text.len(),
        is_plain(text),
    ensures
        visible_from(text, at, Escape::Outside) == text.len() - at,
        state_after(text, at, Escape::Outside) == Escape::Outside,
    decreases text.len() - at,
{
    if at < text.len() {
        assert(text[at] != escape());
        lemma_plain_is_seen(text, at + 1);
    }
}

/// Inside an escape sequence nothing is seen before the `m` that ends it.
pub proof fn lemma_code_is_hidden(code: Seq<char>, at: int)
    requires
        0 <= at <= code.len(),
        is_code(code),
    ensures
        visible_from(code, at, Escape::Inside) == 0,
        state_after(code, at, Escape::Inside) == Escape::Inside,
    decreases code.len() - at,
{
    if at < code.len() {
        assert(code[at] != 'm');
        lemma_code_is_hidden(code, at + 1);
    }
}

/// A text without escape characters holds no reset sequence, so that a style
/// is never put in again.
pub proof fn lemma_plain_is_kept(text: Seq<char>, start: Seq<char>)
    requires
        is_plain(text),
    ensures
        reinstated(text, start) == text,
    decreases text.len(),
{
    if text.len() > 0 {
        assert(text[0] != escape());
        if reset().is_prefix_of(text) {
            assert(text.subrange(0, 4)[0] == text[0]);
            assert(reset()[0] == escape());
        }
        assert(is_plain(text.skip(1))) by {
            assert forall|i: int| 0 <= i < text.skip(1).len() implies #[trigger] text.skip(1)[i]
                != escape() by {
                assert(text.skip(1)[i] == text[i + 1]);
            }
        }
        lemma_plain_is_kept(text.skip(1), start);
        assert(seq![text[0]] + text.skip(1) =~= text);
    }
}

/// Of a styled text as much is seen as of the text itself: the escape
/// sequences around it take no room.
pub proof fn lemma_style_takes_no_room(text: Seq<char>, code: Seq<char>)
    requires
        is_plain(text),
        is_code(code),
    ensures
        visible_len(styled(text, code)) == visible_len(text),
        state_after(styled(text, code), 0, Escape::Outside) == Escape::Outside,
{
    let start = style_start(code);
    let head = seq!['\u{1b}', '['];
    let tail = seq!['m'];
    lemma_plain_is_kept(text, start);
    assert(styled(text, code) == start + text + reset());
    // the start of the style
    lemma_visible_concat(head, code, 0, Escape::Outside);
    reveal_with_fuel(visible_from, 5);
    reveal_with_fuel(state_after, 5);
    assert(visible_from(head, 0, Escape::Outside) == 0);
    assert(state_after(head, 0, Escape::Outside) == Escape::Inside);
    lemma_code_is_hidden(code, 0);
    lemma_visible_concat(head + code, tail, 0, Escape::Outside);
    assert(visible_from(tail, 0, Escape::Inside) == 0);
    assert(state_after(tail, 0, Escape::Inside) == Escape::Outside);
    assert(visible_from(start, 0, Escape::Outside) == 0);
    assert(state_after(start, 0, Escape::Outside) == Escape::Outside);
    // the text
    lemma_plain_is_seen(text, 0);
    lemma_visible_concat(start, text, 0, Escape::Outside);
    // the reset
    assert(visible_from(reset(), 0, Escape::Outside) == 0);
    assert(state_after(reset(), 0, Escape::Outside) == Escape::Outside);
    lemma_visible_concat(start + text, reset(), 0, Escape::Outside);
}

/// A version with its changed end in colour is as wide as the version
/// without colour, so that colour does not move the columns of a table.
pub proof fn lemma_colour_keeps_width(
    out: Seq<char>,
    backward: Seq<char>,
    forward: Seq<char>,
    code: Seq<char>,
)
    requires
        is_half_styled(out, backward, forward, code),
        is_plain(backward),
        is_plain(forward),
        is_code(code),
    ensures
        visible_len(out) == visible_len(backward + forward),
{
    lemma_plain_is_seen(backward, 0);
    lemma_plain_is_seen(forward, 0);
    lemma_visible_concat(backward, forward, 0, Escape::Outside);
    lemma_style_takes_no_room(forward, code);
    lemma_visible_concat(backward, styled(forward, code), 0, Escape::Outside);
}

/// The width of a column depends on what is seen of its cells alone: two
/// tables whose cells in column `c` are seen equally wide have equally wide
/// columns `c`.
pub proof fn lemma_width_follows_what_is_seen(
    a: Seq<Seq<Seq<char>>>,
    b: Seq<Seq<Seq<char>>>,
    c: int,
)
    requires
        a.len() == b.len(),
        forall|r: int|
            0 <= r < a.len() ==> visible_len(#[trigger] cell_at(a, r, c)) == visible_len(
                cell_at(b, r, c),
            ),
    ensures
        column_width(a, c) == column_width(b, c),
    decreases a.len(),
{
    if a.len() > 0 {
        assert forall|r: int| 0 <= r < a.drop_last().len() implies visible_len(
            #[trigger] cell_at(a.drop_last(), r, c),
        ) == visible_len(cell_at(b.drop_last(), r, c)) by {
            assert(cell_at(a.drop_last(), r, c) == cell_at(a, r, c));
            assert(cell_at(b.drop_last(), r, c) == cell_at(b, r, c));
        }
        lemma_width_follows_what_is_seen(a.drop_last(), b.drop_last(), c);
        assert(visible_len(cell_at(a, a.len() - 1, c)) == visible_len(cell_at(b, a.len() - 1, c)));
    }
}

} // verus!
