use crate::brew::parser::brew_outdated::{all_fields_of, names_of};
use crate::brew::parser::brew_update::{
    runs_of, section_views, sections_of, Section, MESSAGE_PATTERN,
};
use crate::brew::parser::{BrewOutdatedData, BrewUpdateData};
use crate::color::{bold_code, color_code, embolden, is_painted, paint, Color};
use crate::error::Error;
use crate::pattern::{captures, captures_of, matches_of};
use crate::terminal::Terminal;
use crate::text::{
    byte_len, contains, join, joined, lines_spec, spaces, spaces_spec, views,
};
use vstd::prelude::*;
use vstd::string::StringExecFns;

verus! {

/// The length of the longest of `names`, in bytes; 0 where there is none.
pub open spec fn max_len(names: Seq<Seq<char>>) -> nat
    decreases names.len(),
{
    if names.len() == 0 {
        0
    } else if byte_len(names.last()) > max_len(names.drop_last()) {
        byte_len(names.last())
    } else {
        max_len(names.drop_last())
    }
}

/// How many columns of the longest name, each followed by a gap of 2, fit
/// into `width` and one more gap.
pub open spec fn column_number(names: Seq<Seq<char>>, width: nat) -> nat {
    let available: int = width as int + 2;
    let needed: int = max_len(names) as int + 2;
    (available / needed) as nat
}

/// How many rows `names` take in that many columns.
pub open spec fn row_number(names: Seq<Seq<char>>, width: nat) -> nat {
    let columns: int = column_number(names, width) as int;
    let places: int = names.len() as int + columns - 1;
    (places / columns) as nat
}

/// The width of a column, once the names are spread over the rows evenly.
pub open spec fn column_width(names: Seq<Seq<char>>, width: nat) -> int {
    let rows: int = row_number(names, width) as int;
    let available: int = width as int + 2;
    let places: int = names.len() as int + rows - 1;
    available / (places / rows) - 2
}

/// How many names row `r` of `rows` shows, of `n` names: those at `r`,
/// `r + rows`, `r + 2 * rows` and so on, as far as there are names.
pub open spec fn row_len(n: nat, rows: nat, r: nat) -> nat {
    if r < n {
        let rest: int = n as int - 1 - r as int;
        (rest / (rows as int) + 1) as nat
    } else {
        0
    }
}

/// `padding` with its first two spaces replaced by `check`, if it has two.
pub open spec fn checked(padding: Seq<char>, check: Seq<char>) -> Seq<char> {
    if padding.len() >= 2 {
        check + padding.skip(2)
    } else {
        padding
    }
}

/// A cell: the name and its padding; for an outdated name the name in bold,
/// and the padding with a check mark.
pub open spec fn cell_text(
    name: Seq<char>,
    padding: Seq<char>,
    outdated: bool,
    bold: Seq<char>,
    check: Seq<char>,
) -> Seq<char> {
    if outdated {
        bold + checked(padding, check)
    } else {
        name + padding
    }
}

/// The `k`-th cell of row `r`: the last cell of a row is padded with 2
/// spaces, every other cell to the width of a column.
pub open spec fn grid_cell(
    names: Seq<Seq<char>>,
    flags: Seq<bool>,
    width: nat,
    bolds: Seq<Seq<char>>,
    checks: Seq<Seq<char>>,
    r: int,
    k: int,
) -> Seq<char> {
    let rows = row_number(names, width);
    let i = r + k * rows;
    let padding = if k == row_len(names.len(), rows, r as nat) - 1 {
        spaces_spec(2)
    } else {
        spaces_spec((column_width(names, width) - byte_len(names[i])) as nat)
    };
    cell_text(names[i], padding, flags[i], bolds[i], checks[i])
}

/// Row `r`: its cells with a gap of 2 spaces between them.
pub open spec fn grid_row(
    names: Seq<Seq<char>>,
    flags: Seq<bool>,
    width: nat,
    bolds: Seq<Seq<char>>,
    checks: Seq<Seq<char>>,
    r: int,
) -> Seq<char> {
    joined(
        Seq::new(
            row_len(names.len(), row_number(names, width), r as nat),
            |k: int| grid_cell(names, flags, width, bolds, checks, r, k),
        ),
        spaces_spec(2),
    )
}

/// The grid: its rows, one per line.
pub open spec fn grid_text(
    names: Seq<Seq<char>>,
    flags: Seq<bool>,
    width: nat,
    bolds: Seq<Seq<char>>,
    checks: Seq<Seq<char>>,
) -> Seq<char> {
    joined(
        Seq::new(
            row_number(names, width),
            |r: int| grid_row(names, flags, width, bolds, checks, r),
        ),
        seq!['\n'],
    )
}

/// The names as they are shown: nothing where there is no name or a single
/// empty one, one name per line where two columns do not fit, else the grid.
pub open spec fn layout_text(
    names: Seq<Seq<char>>,
    flags: Seq<bool>,
    width: nat,
    bolds: Seq<Seq<char>>,
    checks: Seq<Seq<char>>,
) -> Seq<char> {
    if names.len() == 0 || names == seq![Seq::<char>::empty()] {
        Seq::empty()
    } else if column_number(names, width) < 2 {
        joined(names, seq!['\n'])
    } else {
        grid_text(names, flags, width, bolds, checks)
    }
}

/// The rows and columns of a grid with at least two columns: there is a row,
/// no more rows than names, and a column is at least as wide as the longest
/// name.
pub proof fn lemma_grid_bounds(names: Seq<Seq<char>>, width: nat)
    requires
        names.len() > 0,
        column_number(names, width) >= 2,
    ensures
        1 <= row_number(names, width) <= names.len(),
        1 <= (names.len() as int + row_number(names, width) as int - 1) / (row_number(
            names,
            width,
        ) as int),
        column_width(names, width) >= max_len(names),
        column_width(names, width) <= width,
{
    let n = names.len() as int;
    let w = width as int + 2;
    let m = max_len(names) as int + 2;
    let c = w / m;
    assert(c == column_number(names, width));
    let rows = (n + c - 1) / c;
    assert(rows == row_number(names, width));
    assert(1 <= rows <= n && rows * c >= n) by (nonlinear_arith)
        requires
            n >= 1,
            c >= 2,
            rows == (n + c - 1) / c,
    ;
    let per_row = (n + rows - 1) / rows;
    assert(1 <= per_row <= c) by (nonlinear_arith)
        requires
            n >= 1,
            rows >= 1,
            rows * c >= n,
            per_row == (n + rows - 1) / rows,
    ;
    assert(c * m <= w) by (nonlinear_arith)
        requires
            c == w / m,
            m >= 2,
            w >= 0,
    ;
    assert(w / per_row >= m && w / per_row <= w) by (nonlinear_arith)
        requires
            1 <= per_row <= c,
            c * m <= w,
            m >= 2,
    ;
}

/// No name is longer than the longest.
pub proof fn lemma_max_len_bounds(names: Seq<Seq<char>>, i: int)
    requires
        0 <= i < names.len(),
    ensures
        byte_len(names[i]) <= max_len(names),
    decreases names.len(),
{
    if i < names.len() - 1 {
        lemma_max_len_bounds(names.drop_last(), i);
    }
}

/// The length of the longest of `names`, in bytes.
pub fn longest(names: &Vec<String>) -> (out: usize)
    ensures
        out == max_len(views(names@)),
{
    let mut out: usize = 0;
    let mut i: usize = 0;
    proof {
        assert(views(names@).take(0) =~= Seq::<Seq<char>>::empty());
    }
    while i < names.len()
        invariant
            i <= names.len(),
            out == max_len(views(names@).take(i as int)),
        decreases names.len() - i,
    {
        let len: usize = names[i].as_str().as_bytes().len();
        proof {
            let all = views(names@);
            assert(all.take(i + 1).drop_last() == all.take(i as int));
            assert(all.take(i + 1).last() == names[i as int]@);
        }
        if len > out {
            out = len;
        }
        i += 1;
    }
    proof {
        assert(views(names@).take(names.len() as int) == views(names@));
    }
    out
}

/// A cell of the grid, with `pad_len` spaces of padding.
pub fn cell(name: &str, pad_len: usize, outdated: bool, bold: &str, check: &str) -> (out: String)
    ensures
        out@ == cell_text(name@, spaces_spec(pad_len as nat), outdated, bold@, check@),
{
    if outdated {
        let out = bold.to_owned();
        if pad_len >= 2 {
            let rest = spaces((pad_len - 2) as usize);
            assert(spaces_spec(pad_len as nat).skip(2) =~= spaces_spec((pad_len - 2) as nat));
            out.concat(check).concat(rest.as_str())
        } else {
            let padding = spaces(pad_len);
            out.concat(padding.as_str())
        }
    } else {
        let padding = spaces(pad_len);
        name.to_owned().concat(padding.as_str())
    }
}

/// The grid of `names` for a terminal of `terminal_width` columns. `flags`
/// says which names are outdated; `bolds` holds each name in bold and `checks`
/// the check mark for each, as they are to be shown.
pub fn grid(
    names: &Vec<String>,
    flags: &Vec<bool>,
    terminal_width: usize,
    bolds: &Vec<String>,
    checks: &Vec<String>,
) -> (out: String)
    requires
        names@.len() > 0,
        flags@.len() == names@.len(),
        bolds@.len() == names@.len(),
        checks@.len() == names@.len(),
        column_number(views(names@), terminal_width as nat) >= 2,
    ensures
        out@ == grid_text(
            views(names@),
            flags@,
            terminal_width as nat,
            views(bolds@),
            views(checks@),
        ),
{
    let ghost all = views(names@);
    let ghost width = terminal_width as nat;
    let n: usize = names.len();
    let longest_len: usize = longest(names);
    let available: u128 = terminal_width as u128 + 2;
    let columns: u128 = available / (longest_len as u128 + 2);
    let rows_wide: u128 = (n as u128 + columns - 1) / columns;
    proof {
        lemma_grid_bounds(all, width);
        assert(columns == column_number(all, width));
        assert(rows_wide == row_number(all, width));
    }
    let rows: usize = rows_wide as usize;
    let per_row: u128 = (n as u128 + rows_wide - 1) / rows_wide;
    let column: usize = (available / per_row - 2) as usize;
    assert(column == column_width(all, width));
    let mut lines: Vec<String> = Vec::new();
    let mut r: usize = 0;
    while r < rows
        invariant
            r <= rows,
            all == views(names@),
            width == terminal_width as nat,
            n == names@.len(),
            n > 0,
            flags@.len() == n,
            bolds@.len() == n,
            checks@.len() == n,
            rows == row_number(all, width),
            1 <= rows <= n,
            column == column_width(all, width),
            column >= max_len(all),
            lines@.len() == r,
            forall|j: int|
                0 <= j < r ==> (#[trigger] lines@[j])@ == grid_row(
                    all,
                    flags@,
                    width,
                    views(bolds@),
                    views(checks@),
                    j,
                ),
        decreases rows - r,
    {
        let count: usize = if r < n {
            (n - 1 - r) / rows + 1
        } else {
            0
        };
        assert(count == row_len(n as nat, rows as nat, r as nat));
        let mut cells: Vec<String> = Vec::new();
        let mut k: usize = 0;
        let mut i: usize = r;
        while k < count
            invariant
                k <= count,
                all == views(names@),
                width == terminal_width as nat,
                n == names@.len(),
                flags@.len() == n,
                bolds@.len() == n,
                checks@.len() == n,
                rows == row_number(all, width),
                1 <= rows <= n,
                r < rows,
                column == column_width(all, width),
                column >= max_len(all),
                count == row_len(n as nat, rows as nat, r as nat),
                k < count ==> i == r + k * rows && i < n,
                cells@.len() == k,
                forall|j: int|
                    0 <= j < k ==> (#[trigger] cells@[j])@ == grid_cell(
                        all,
                        flags@,
                        width,
                        views(bolds@),
                        views(checks@),
                        r as int,
                        j,
                    ),
            decreases count - k,
        {
            let pad_len: usize = if k == count - 1 {
                2
            } else {
                proof {
                    lemma_max_len_bounds(all, i as int);
                }
                column - names[i].as_str().as_bytes().len()
            };
            let text = cell(
                names[i].as_str(),
                pad_len,
                flags[i],
                bolds[i].as_str(),
                checks[i].as_str(),
            );
            cells.push(text);
            k += 1;
            if k < count {
                assert(i + rows == r + k * rows && i + rows < n) by (nonlinear_arith)
                    requires
                        i == r + (k - 1) * rows,
                        r < n,
                        rows >= 1,
                        k < count,
                        count == (n - 1 - r) / (rows as int) + 1,
                ;
                i = i + rows;
            }
        }
        proof {
            assert(views(cells@) =~= Seq::new(
                row_len(n as nat, rows as nat, r as nat),
                |j: int| grid_cell(all, flags@, width, views(bolds@), views(checks@), r as int, j),
            ));
            reveal_strlit("  ");
            assert("  "@ =~= spaces_spec(2));
        }
        let line = join(&cells, "  ");
        lines.push(line);
        r += 1;
    }
    proof {
        assert(views(lines@) =~= Seq::new(
            row_number(all, width),
            |j: int| grid_row(all, flags@, width, views(bolds@), views(checks@), j),
        ));
        reveal_strlit("\n");
        assert("\n"@ =~= seq!['\n']);
    }
    join(&lines, "\n")
}

/// For each name, whether `outdated` holds it.
pub open spec fn flags_of(names: Seq<Seq<char>>, outdated: Seq<Seq<char>>) -> Seq<bool> {
    Seq::new(names.len(), |i: int| outdated.contains(names[i]))
}

/// The check mark that follows an outdated name.
pub open spec fn check_mark() -> Seq<char> {
    seq![' ', '\u{2714}']
}

/// `bolds` and `checks` hold, for every flagged name, the name styled bold
/// and the check mark styled green.
pub open spec fn are_styles(
    names: Seq<Seq<char>>,
    flags: Seq<bool>,
    bolds: Seq<Seq<char>>,
    checks: Seq<Seq<char>>,
) -> bool {
    &&& flags.len() == names.len()
    &&& bolds.len() == names.len()
    &&& checks.len() == names.len()
    &&& forall|i: int|
        0 <= i < names.len() && #[trigger] flags[i] ==> is_painted(
            bolds[i],
            names[i],
            bold_code(),
        ) && is_painted(checks[i], check_mark(), color_code(Color::Green))
}

/// `out` is the layout of `names` in `width` columns, with the names that
/// `outdated` holds in bold and with a green check mark, each styled as the
/// environment allowed.
pub open spec fn is_layout(
    out: Seq<char>,
    names: Seq<Seq<char>>,
    outdated: Seq<Seq<char>>,
    width: nat,
) -> bool {
    exists|bolds: Seq<Seq<char>>, checks: Seq<Seq<char>>|
        are_styles(names, flags_of(names, outdated), bolds, checks) && out == layout_text(
            names,
            flags_of(names, outdated),
            width,
            bolds,
            checks,
        )
}

/// The layout of `names` for a terminal of `terminal_width` columns, with
/// the styled names and check marks given.
pub fn layout_with(
    names: &Vec<String>,
    flags: &Vec<bool>,
    terminal_width: usize,
    bolds: &Vec<String>,
    checks: &Vec<String>,
) -> (out: String)
    requires
        flags@.len() == names@.len(),
        bolds@.len() == names@.len(),
        checks@.len() == names@.len(),
    ensures
        out@ == layout_text(
            views(names@),
            flags@,
            terminal_width as nat,
            views(bolds@),
            views(checks@),
        ),
{
    if names.len() == 0 {
        return String::new();
    }
    if names.len() == 1 && names[0].as_str().is_empty() {
        assert(views(names@)[0] =~= Seq::<char>::empty());
        assert(views(names@) =~= seq![Seq::<char>::empty()]);
        return String::new();
    }
    assert(views(names@) != seq![Seq::<char>::empty()]) by {
        if views(names@) == seq![Seq::<char>::empty()] {
            assert(views(names@).len() == 1);
            assert(views(names@)[0] == Seq::<char>::empty());
        }
    }
    let longest_len: usize = longest(names);
    let available: u128 = terminal_width as u128 + 2;
    let columns: u128 = available / (longest_len as u128 + 2);
    if columns < 2 {
        proof {
            reveal_strlit("\n");
            assert("\n"@ =~= seq!['\n']);
        }
        return join(names, "\n");
    }
    grid(names, flags, terminal_width, bolds, checks)
}

/// The layout of `names` for a terminal of `terminal_width` columns: a grid
/// that is filled column by column, in which the names that `outdated_names`
/// holds are bold and have a green check mark.
pub fn layout(names: &Vec<String>, outdated_names: &Vec<String>, terminal_width: usize) -> (out:
    String)
    ensures
        is_layout(out@, views(names@), views(outdated_names@), terminal_width as nat),
{
    let mut flags: Vec<bool> = Vec::new();
    let mut bolds: Vec<String> = Vec::new();
    let mut checks: Vec<String> = Vec::new();
    let mut i: usize = 0;
    while i < names.len()
        invariant
            i <= names.len(),
            flags@.len() == i,
            bolds@.len() == i,
            checks@.len() == i,
            forall|j: int|
                0 <= j < i ==> #[trigger] flags@[j] == views(outdated_names@).contains(
                    views(names@)[j],
                ),
            forall|j: int|
                0 <= j < i && #[trigger] flags@[j] ==> is_painted(
                    views(bolds@)[j],
                    views(names@)[j],
                    bold_code(),
                ) && is_painted(views(checks@)[j], check_mark(), color_code(Color::Green)),
        decreases names.len() - i,
    {
        let outdated = contains(outdated_names, names[i].as_str());
        if outdated {
            proof {
                reveal_strlit(" \u{2714}");
                assert(" \u{2714}"@ =~= check_mark());
            }
            bolds.push(embolden(names[i].as_str()));
            checks.push(paint(" \u{2714}", Color::Green));
        } else {
            bolds.push(String::new());
            checks.push(String::new());
        }
        flags.push(outdated);
        i += 1;
    }
    let out = layout_with(names, &flags, terminal_width, &bolds, &checks);
    proof {
        assert(flags@ =~= flags_of(views(names@), views(outdated_names@)));
        assert(are_styles(views(names@), flags@, views(bolds@), views(checks@)));
    }
    out
}

/// The shape of a header line: the marker, a space, and what the section
/// holds.
pub const KIND_PATTERN: &'static str = "(?P<arrow>==>) (?P<value>.+)";

/// `out` is the header `kind` as it is shown: the marker in blue, a space,
/// and the rest in bold, each styled as the environment allowed; a line of
/// another shape is shown as it is.
pub open spec fn is_kind(out: Seq<char>, kind: Seq<char>) -> bool {
    match captures_of(KIND_PATTERN@, kind) {
        Some(groups) => if groups.len() == 3 {
            exists|arrow: Seq<char>, value: Seq<char>|
                is_painted(arrow, groups[1], color_code(Color::Blue)) && is_painted(
                    value,
                    groups[2],
                    bold_code(),
                ) && out == arrow + seq![' '] + value
        } else {
            out == kind
        },
        None => out == kind,
    }
}

/// Each of `outs` is the header of `kinds` at the same place, as it is shown.
pub open spec fn are_kinds(outs: Seq<Seq<char>>, kinds: Seq<Seq<char>>) -> bool {
    outs.len() == kinds.len() && forall|i: int|
        0 <= i < kinds.len() ==> is_kind(#[trigger] outs[i], kinds[i])
}

/// `out` is `section` as it is shown: its headers, one per line, and below
/// them the layout of its names for a terminal of some width.
pub open spec fn is_section(out: Seq<char>, section: Section, outdated: Seq<Seq<char>>) -> bool {
    exists|kinds: Seq<Seq<char>>, table: Seq<char>, width: nat|
        are_kinds(kinds, section.0) && is_layout(table, section.1, outdated, width) && out
            == joined(kinds, seq!['\n']) + seq!['\n'] + table
}

/// Each of `outs` is the section of `sections` at the same place, as it is
/// shown.
pub open spec fn are_sections(
    outs: Seq<Seq<char>>,
    sections: Seq<Section>,
    outdated: Seq<Seq<char>>,
) -> bool {
    outs.len() == sections.len() && forall|i: int|
        0 <= i < sections.len() ==> is_section(#[trigger] outs[i], sections[i], outdated)
}

/// The report: the messages, one per line, and below them the sections, one
/// below the other; where one of the two is empty, the other alone.
pub open spec fn assembled(messages: Seq<Seq<char>>, sections: Seq<Seq<char>>) -> Seq<char> {
    let above = joined(messages, seq!['\n']);
    let below = joined(sections, seq!['\n']);
    if below.len() == 0 {
        above
    } else if above.len() == 0 {
        below
    } else {
        above + seq!['\n'] + below
    }
}

/// `out` is the report on an update with the output `update_text`, where
/// the list of outdated packages is `outdated_text`.
pub open spec fn is_report(out: Seq<char>, update_text: Seq<char>, outdated_text: Seq<char>) -> bool {
    exists|sections: Seq<Seq<char>>|
        are_sections(
            sections,
            sections_of(runs_of(lines_spec(update_text))),
            names_of(all_fields_of(lines_spec(outdated_text))),
        ) && out == assembled(matches_of(MESSAGE_PATTERN@, update_text), sections)
}

/// Shows what an update did: the messages, and the names of each section in
/// columns.
#[derive(Clone, Debug)]
pub struct BrewUpdate<T> where T: Terminal {
    pub outdated_data: BrewOutdatedData,
    pub update_data: BrewUpdateData,
    pub terminal: T,
}

impl<T> BrewUpdate<T> where T: Terminal {
    /// Keeps copies of the two outputs, and the terminal.
    pub fn new(update_data: &BrewUpdateData, outdated_data: &BrewOutdatedData, terminal: T) -> (out:
        Self)
        ensures
            out.update_data.text@ == update_data.text@,
            out.outdated_data.text@ == outdated_data.text@,
    {
        BrewUpdate {
            outdated_data: BrewOutdatedData { text: outdated_data.text.clone() },
            update_data: BrewUpdateData { text: update_data.text.clone() },
            terminal,
        }
    }

    /// The messages above the sections.
    pub fn assemble(messages: &Vec<String>, sections: &Vec<String>) -> (out: String)
        ensures
            out@ == assembled(views(messages@), views(sections@)),
    {
        proof {
            reveal_strlit("\n");
            assert("\n"@ =~= seq!['\n']);
        }
        let items = join(sections, "\n");
        let above = join(messages, "\n");
        if items.as_str().is_empty() {
            return above;
        }
        if above.as_str().is_empty() {
            return items;
        }
        above.concat("\n").concat(items.as_str())
    }

    /// The report on the update.
    pub fn format(&self) -> (out: Result<String, Error>)
        ensures
            out matches Ok(text) && is_report(text@, self.update_data.text@, self.outdated_data.text@),
    {
        let items = self.update_data.items();
        let ghost wanted = sections_of(runs_of(lines_spec(self.update_data.text@)));
        let ghost outdated = names_of(all_fields_of(lines_spec(self.outdated_data.text@)));
        let mut sections: Vec<String> = Vec::new();
        let mut i: usize = 0;
        while i < items.len()
            invariant
                i <= items.len(),
                section_views(items@) == wanted,
                outdated == names_of(all_fields_of(lines_spec(self.outdated_data.text@))),
                forall|k: int| 0 <= k < items@.len() ==> (#[trigger] items@[k]).1@.len() > 0,
                sections@.len() == i,
                forall|k: int|
                    0 <= k < i ==> is_section((#[trigger] sections@[k])@, wanted[k], outdated),
            decreases items.len() - i,
        {
            let kinds = &items[i].0;
            let formulae = &items[i].1;
            let table = self.tabulate(formulae);
            let mut shown: Vec<String> = Vec::new();
            let mut j: usize = 0;
            while j < kinds.len()
                invariant
                    j <= kinds.len(),
                    shown@.len() == j,
                    forall|k: int|
                        0 <= k < j ==> is_kind((#[trigger] shown@[k])@, kinds@[k]@),
                decreases kinds.len() - j,
            {
                let kind = match Self::colorize_kind(kinds[j].as_str()) {
                    Ok(text) => text,
                    Err(_) => kinds[j].clone(),
                };
                shown.push(kind);
                j += 1;
            }
            proof {
                reveal_strlit("\n");
                assert("\n"@ =~= seq!['\n']);
                assert(are_kinds(views(shown@), views(kinds@)));
                assert(wanted[i as int] == (views(kinds@), views(formulae@)));
            }
            let section = join(&shown, "\n").concat("\n").concat(table.as_str());
            proof {
                let width = choose|width: nat| is_layout(table@, views(formulae@), outdated, width);
                assert(are_kinds(views(shown@), wanted[i as int].0) && is_layout(
                    table@,
                    wanted[i as int].1,
                    outdated,
                    width,
                ) && section@ == joined(views(shown@), seq!['\n']) + seq!['\n'] + table@);
            }
            sections.push(section);
            i += 1;
        }
        let messages = match self.update_data.messages() {
            Ok(messages) => messages,
            Err(error) => {
                return Err(error);
            },
        };
        let out = Self::assemble(&messages, &sections);
        proof {
            assert(are_sections(views(sections@), wanted, outdated));
        }
        Ok(out)
    }

    /// The header `kind` as it is shown: the marker in blue and the rest in
    /// bold. An error for a line of another shape.
    pub fn colorize_kind(kind: &str) -> (out: Result<String, Error>)
        ensures
            match out {
                Ok(text) => captures_of(KIND_PATTERN@, kind@) matches Some(groups) && groups.len()
                    == 3 && is_kind(text@, kind@),
                Err(error) => error is NoCapturesError && !(captures_of(KIND_PATTERN@, kind@)
                    matches Some(groups) && groups.len() == 3),
            },
    {
        let groups = match captures(KIND_PATTERN, kind) {
            Some(groups) => groups,
            None => {
                return Err(Error::NoCapturesError);
            },
        };
        if groups.len() != 3 {
            return Err(Error::NoCapturesError);
        }
        let arrow = paint(groups[1].as_str(), Color::Blue);
        let value = embolden(groups[2].as_str());
        proof {
            reveal_strlit(" ");
            assert(" "@ =~= seq![' ']);
        }
        let out = arrow.clone().concat(" ").concat(value.as_str());
        proof {
            let found = views(groups@);
            assert(is_painted(arrow@, found[1], color_code(Color::Blue)) && is_painted(
                value@,
                found[2],
                bold_code(),
            ) && out@ == arrow@ + seq![' '] + value@);
        }
        Ok(out)
    }

    /// The names `formulae` in columns that fit the terminal; the width is 0
    /// where the terminal does not tell it.
    pub fn tabulate(&self, formulae: &Vec<String>) -> (out: String)
        ensures
            exists|width: nat|
                is_layout(
                    out@,
                    views(formulae@),
                    names_of(all_fields_of(lines_spec(self.outdated_data.text@))),
                    width,
                ),
    {
        let terminal_width: usize = match self.terminal.width() {
            Ok(width) => width,
            Err(_) => 0,
        };
        let names = self.outdated_data.names();
        let out = layout(formulae, &names, terminal_width);
        assert(is_layout(
            out@,
            views(formulae@),
            names_of(all_fields_of(lines_spec(self.outdated_data.text@))),
            terminal_width as nat,
        ));
        out
    }
}

/// A terminal that is narrower than the longest name and a gap shows one
/// name per line, whatever is outdated.
pub proof fn lemma_narrow_terminal(
    out: Seq<char>,
    names: Seq<Seq<char>>,
    outdated: Seq<Seq<char>>,
    width: nat,
)
    requires
        is_layout(out, names, outdated, width),
        width < max_len(names) + 2,
    ensures
        out == joined(names, seq!['\n']),
{
    let available = width as int + 2;
    let needed = max_len(names) as int + 2;
    assert(available / needed < 2) by (nonlinear_arith)
        requires
            0 <= available < needed + 2,
            needed >= 2,
    ;
    assert(column_number(names, width) < 2);
    if names == seq![Seq::<char>::empty()] {
        assert(names.drop_last() =~= Seq::<Seq<char>>::empty());
        assert(joined(names, seq!['\n']) == names[0]);
    }
    if names.len() == 0 {
        assert(joined(names, seq!['\n']) =~= Seq::<char>::empty());
    }
}

/// The index of the name in cell `k` of row `r`, in a grid of `rows` rows.
pub open spec fn name_index(rows: nat, r: nat, k: nat) -> nat {
    r + k * rows
}

/// Every name has one cell in the grid and no other: the name at index `i`
/// stands in row `i % rows` as that row's cell `i / rows`, and in no other
/// row or cell.
pub proof fn lemma_every_name_has_one_cell(n: nat, rows: nat, i: nat)
    requires
        rows > 0,
        i < n,
    ensures
        i % rows < rows,
        i / rows < row_len(n, rows, i % rows),
        i == name_index(rows, i % rows, i / rows),
        forall|r: nat, k: nat|
            r < rows && i == #[trigger] name_index(rows, r, k) ==> r == i % rows && k == i / rows,
{
    let rows_int = rows as int;
    let at = i as int;
    let len = n as int;
    assert(0 <= at % rows_int < rows_int && at == at % rows_int + (at / rows_int) * rows_int) by (nonlinear_arith)
        requires
            rows_int > 0,
            at >= 0,
    ;
    assert(at / rows_int < (len - 1 - at % rows_int) / rows_int + 1) by (nonlinear_arith)
        requires
            rows_int > 0,
            0 <= at < len,
    ;
    assert forall|r: nat, k: nat| r < rows && i == #[trigger] name_index(rows, r, k) implies r
        == i % rows && k == i / rows by {
        let row = r as int;
        let step = k as int;
        assert(row == at % rows_int && step == at / rows_int) by (nonlinear_arith)
            requires
                rows_int > 0,
                0 <= row < rows_int,
                step >= 0,
                at == row + step * rows_int,
        ;
    }
}

/// Every cell of the grid holds the name of an index that there is.
pub proof fn lemma_cells_hold_names(n: nat, rows: nat, r: nat, k: nat)
    requires
        rows > 0,
        r < rows,
        k < row_len(n, rows, r),
    ensures
        name_index(rows, r, k) < n,
{
    let rows_int = rows as int;
    let row = r as int;
    let step = k as int;
    let len = n as int;
    assert(row + step * rows_int < len) by (nonlinear_arith)
        requires
            rows_int > 0,
            0 <= row < len,
            0 <= step < (len - 1 - row) / rows_int + 1,
    ;
}

/// An outdated name with room for it is shown in bold, with the check mark
/// in place of the first two spaces of its padding; any other name is shown
/// as it is, with its padding.
pub proof fn lemma_outdated_cell(
    name: Seq<char>,
    pad_len: nat,
    outdated: bool,
    bold: Seq<char>,
    check: Seq<char>,
)
    ensures
        outdated && pad_len >= 2 ==> cell_text(name, spaces_spec(pad_len), outdated, bold, check)
            == bold + check + spaces_spec((pad_len - 2) as nat),
        outdated && pad_len < 2 ==> cell_text(name, spaces_spec(pad_len), outdated, bold, check)
            == bold + spaces_spec(pad_len),
        !outdated ==> cell_text(name, spaces_spec(pad_len), outdated, bold, check) == name
            + spaces_spec(pad_len),
{
    if pad_len >= 2 {
        assert(spaces_spec(pad_len).skip(2) =~= spaces_spec((pad_len - 2) as nat));
        assert(bold + (check + spaces_spec((pad_len - 2) as nat)) =~= bold + check + spaces_spec(
            (pad_len - 2) as nat,
        ));
    }
}

} // verus!
