//! Column widths and the box-drawing table itself.

use vstd::prelude::*;
use crate::text::{push_char, push_spaces, push_str, spaces};
use crate::truncate::{grapheme_split, truncate, truncated};
use crate::truncate::lemma_truncate_fits_and_idempotent;
use crate::width::{
    ESC, char_columns, display_width, display_width_spec, ends_in_escape, is_box_drawing,
    is_printable_ascii, lemma_ascii_width, lemma_sgr_closed, lemma_width_concat, measurable, scan,
    scan_from, sgr,
};

verus! {

broadcast use vstd::string::group_string_axioms;

/// The characters of each string.
pub open spec fn strs_view(v: Seq<String>) -> Seq<Seq<char>> {
    v.map_values(|s: String| s@)
}

/// The characters of each cell of each row.
pub open spec fn rows_view(rows: Seq<Vec<String>>) -> Seq<Seq<Seq<char>>> {
    rows.map_values(|r: Vec<String>| strs_view(r@))
}

/// Every row has one cell per header, and every text is measurable.
pub open spec fn table_wf(headers: Seq<Seq<char>>, rows: Seq<Seq<Seq<char>>>) -> bool {
    &&& forall|j: int| 0 <= j < headers.len() ==> measurable(#[trigger] headers[j])
    &&& forall|r: int| 0 <= r < rows.len() ==> (#[trigger] rows[r]).len() == headers.len()
    &&& forall|r: int, j: int|
        0 <= r < rows.len() && 0 <= j < headers.len() ==> measurable(#[trigger] rows[r][j])
}

/// The widest of the header of column `j` and its cells in the first `n` rows.
pub open spec fn column_max(
    headers: Seq<Seq<char>>,
    rows: Seq<Seq<Seq<char>>>,
    j: int,
    n: int,
) -> nat
    decreases n,
{
    if n <= 0 {
        display_width_spec(headers[j])
    } else {
        let m = column_max(headers, rows, j, n - 1);
        let w = display_width_spec(rows[n - 1][j]);
        if w > m {
            w
        } else {
            m
        }
    }
}

/// The effective width of column `j`: its widest text, capped at `clamp_max`
/// for the clamp column only.
pub open spec fn column_width(
    headers: Seq<Seq<char>>,
    rows: Seq<Seq<Seq<char>>>,
    j: int,
    clamp_column: int,
    clamp_max: nat,
) -> nat {
    let w = column_max(headers, rows, j, rows.len() as int);
    if j == clamp_column && w > clamp_max {
        clamp_max
    } else {
        w
    }
}

/// Computes each column's effective width over the headers and all rows.
pub fn compute_widths(
    headers: &Vec<String>,
    rows: &Vec<Vec<String>>,
    clamp_column: usize,
    clamp_max: usize,
) -> (r: Vec<usize>)
    requires
        table_wf(strs_view(headers@), rows_view(rows@)),
    ensures
        r.len() == headers.len(),
        forall|j: int|
            0 <= j < r.len() ==> r[j] == column_width(
                strs_view(headers@),
                rows_view(rows@),
                j,
                clamp_column as int,
                clamp_max as nat,
            ),
{
    let ghost hs = strs_view(headers@);
    let ghost rs = rows_view(rows@);
    let mut widths: Vec<usize> = Vec::new();
    let mut j: usize = 0;
    while j < headers.len()
        invariant
            hs == strs_view(headers@),
            table_wf(hs, rs),
            j <= headers.len(),
            widths.len() == j,
            forall|k: int| 0 <= k < j ==> widths[k] == column_max(hs, rs, k, 0),
        decreases headers.len() - j,
    {
        proof {
            assert(hs[j as int] == headers[j as int]@);
        }
        let w = display_width(headers[j].as_str());
        widths.push(w);
        j = j + 1;
    }
    let mut r: usize = 0;
    while r < rows.len()
        invariant
            hs == strs_view(headers@),
            rs == rows_view(rows@),
            table_wf(hs, rs),
            r <= rows.len(),
            widths.len() == headers.len(),
            forall|k: int| 0 <= k < widths.len() ==> widths[k] == column_max(hs, rs, k, r as int),
        decreases rows.len() - r,
    {
        let row = &rows[r];
        proof {
            assert(rs[r as int] == strs_view(row@));
        }
        let mut i: usize = 0;
        while i < row.len()
            invariant
                hs == strs_view(headers@),
                rs == rows_view(rows@),
                table_wf(hs, rs),
                r < rows.len(),
                row == rows[r as int],
                rs[r as int] == strs_view(row@),
                row.len() == headers.len(),
                i <= row.len(),
                widths.len() == headers.len(),
                forall|k: int|
                    0 <= k < i ==> widths[k] == column_max(hs, rs, k, r + 1),
                forall|k: int|
                    i <= k < widths.len() ==> widths[k] == column_max(hs, rs, k, r as int),
            decreases row.len() - i,
        {
            proof {
                assert(rs[r as int][i as int] == row[i as int]@);
            }
            let w = display_width(row[i].as_str());
            if w > widths[i] {
                widths.set(i, w);
            }
            i = i + 1;
        }
        r = r + 1;
    }
    if clamp_column < widths.len() && widths[clamp_column] > clamp_max {
        widths.set(clamp_column, clamp_max);
    }
    widths
}

/// The reset sequence that ends a colour.
pub open spec fn reset_seq() -> Seq<char> {
    sgr(seq!['0'])
}

/// The colour sequence of header labels.
pub open spec fn header_seq() -> Seq<char> {
    sgr(seq!['9', '2'])
}

/// What a cell shows: the clamp column is cut, cluster by cluster, when it is
/// wider than its column; other cells are shown whole.
pub open spec fn fit_cell(cell: Seq<char>, width: nat, clamp: bool) -> Seq<char> {
    if clamp && display_width_spec(cell) > width {
        truncated(grapheme_split(cell), width)
    } else {
        cell
    }
}

/// A shown cell between its margins: one space, the content (coloured in the
/// header row), fill spaces up to the column width, one space.
pub open spec fn cell_text(content: Seq<char>, width: nat, is_header: bool) -> Seq<char> {
    let w = display_width_spec(content);
    let pad: nat = if width > w {
        (width - w) as nat
    } else {
        0
    };
    let shown = if is_header {
        header_seq() + content + reset_seq()
    } else {
        content
    };
    seq![' '] + shown + spaces(pad) + seq![' ']
}

/// The vertical border after column `i` of `n`: double after the index
/// column and at the right edge, single between the others.
pub open spec fn border_after(i: int, n: int) -> char {
    if i == 0 {
        '\u{2551}'
    } else if i < n - 1 {
        '\u{2502}'
    } else {
        '\u{2551}'
    }
}

/// The line of the first `k` cells of a row, from the left border on.
pub open spec fn row_prefix(
    cells: Seq<Seq<char>>,
    widths: Seq<usize>,
    is_header: bool,
    clamp_column: int,
    k: int,
) -> Seq<char>
    decreases k,
{
    if k <= 0 {
        seq!['\u{2551}']
    } else {
        row_prefix(cells, widths, is_header, clamp_column, k - 1) + cell_text(
            fit_cell(cells[k - 1], widths[k - 1] as nat, k - 1 == clamp_column),
            widths[k - 1] as nat,
            is_header,
        ) + seq![border_after(k - 1, widths.len() as int)]
    }
}

/// The printed line of a row.
pub open spec fn row_text(
    cells: Seq<Seq<char>>,
    widths: Seq<usize>,
    is_header: bool,
    clamp_column: int,
) -> Seq<char> {
    row_prefix(cells, widths, is_header, clamp_column, cells.len() as int)
}

/// Renders one row: every cell padded to its column width, the clamp column
/// cut to fit, borders between the cells.
pub fn render_row(cells: &Vec<String>, widths: &Vec<usize>, is_header: bool, clamp_column: usize) -> (r:
    String)
    requires
        cells.len() == widths.len(),
        forall|i: int| 0 <= i < cells.len() ==> measurable(#[trigger] cells[i]@),
    ensures
        r@ == row_text(strs_view(cells@), widths@, is_header, clamp_column as int),
{
    let ghost cs = strs_view(cells@);
    let mut line = String::new();
    push_char(&mut line, '\u{2551}');
    let mut i: usize = 0;
    while i < cells.len()
        invariant
            cs == strs_view(cells@),
            cells.len() == widths.len(),
            forall|k: int| 0 <= k < cells.len() ==> measurable(#[trigger] cells[k]@),
            i <= cells.len(),
            line@ == row_prefix(cs, widths@, is_header, clamp_column as int, i as int),
        decreases cells.len() - i,
    {
        let cell = &cells[i];
        let width = widths[i];
        proof {
            assert(cs[i as int] == cell@);
        }
        let cell_width = display_width(cell.as_str());
        let fitted: String = if i == clamp_column && cell_width > width {
            truncate(cell.as_str(), width)
        } else {
            cell.clone()
        };
        proof {
            assert(fitted@ == fit_cell(cell@, width as nat, i == clamp_column));
            assert(fitted@.len() <= cell@.len());
        }
        let piece = render_cell(fitted.as_str(), width, is_header);
        let ghost before = line@;
        push_str(&mut line, piece.as_str());
        if i == 0 {
            push_char(&mut line, '\u{2551}');
        } else if i < widths.len() - 1 {
            push_char(&mut line, '\u{2502}');
        } else {
            push_char(&mut line, '\u{2551}');
        }
        proof {
            assert(line@ =~= before + cell_text(fitted@, width as nat, is_header) + seq![
                border_after(i as int, widths.len() as int),
            ]);
        }
        i = i + 1;
    }
    line
}

/// Renders one shown cell with its margins and fill.
fn render_cell(content: &str, width: usize, is_header: bool) -> (r: String)
    requires
        measurable(content@),
    ensures
        r@ == cell_text(content@, width as nat, is_header),
{
    let content_width = display_width(content);
    let pad: usize = if width > content_width {
        width - content_width
    } else {
        0
    };
    let mut out = String::new();
    push_char(&mut out, ' ');
    if is_header {
        push_str(&mut out, "\x1b[92m");
        push_str(&mut out, content);
        push_str(&mut out, "\x1b[0m");
    } else {
        push_str(&mut out, content);
    }
    push_spaces(&mut out, pad);
    push_char(&mut out, ' ');
    proof {
        reveal_strlit("\x1b[92m");
        reveal_strlit("\x1b[0m");
        assert("\x1b[92m"@ =~= header_seq());
        assert("\x1b[0m"@ =~= reset_seq());
        assert(out@ =~= cell_text(content@, width as nat, is_header));
    }
    out
}

/// The junction after column `i` in a rule: `first` after the index column,
/// `other` after the rest.
pub open spec fn junction(i: int, first: char, other: char) -> char {
    if i == 0 {
        first
    } else {
        other
    }
}

/// `n` double horizontal rule characters.
pub open spec fn hrule(n: nat) -> Seq<char> {
    Seq::new(n, |i: int| '\u{2550}')
}

/// The first `k` column runs of a rule line, from the left corner on.
pub open spec fn rule_prefix(
    widths: Seq<usize>,
    left: char,
    first: char,
    other: char,
    k: int,
) -> Seq<char>
    decreases k,
{
    if k <= 0 {
        seq![left]
    } else {
        let run = rule_prefix(widths, left, first, other, k - 1) + hrule((widths[k - 1] + 2) as nat);
        if k - 1 < widths.len() - 1 {
            run.push(junction(k - 1, first, other))
        } else {
            run
        }
    }
}

/// A horizontal rule: corners at both ends, a run of `width + 2` rule
/// characters per column, a junction between columns.
pub open spec fn rule_text(widths: Seq<usize>, left: char, first: char, other: char, right: char) -> Seq<
    char,
> {
    rule_prefix(widths, left, first, other, widths.len() as int).push(right)
}

/// Renders a horizontal rule over the columns.
pub fn render_rule(widths: &Vec<usize>, left: char, first: char, other: char, right: char) -> (r:
    String)
    ensures
        r@ == rule_text(widths@, left, first, other, right),
{
    let mut line = String::new();
    push_char(&mut line, left);
    let mut i: usize = 0;
    while i < widths.len()
        invariant
            i <= widths.len(),
            line@ == rule_prefix(widths@, left, first, other, i as int),
        decreases widths.len() - i,
    {
        let ghost before = line@;
        push_char(&mut line, '\u{2550}');
        push_char(&mut line, '\u{2550}');
        proof {
            assert(line@ =~= before + hrule(2));
        }
        let mut k: usize = 0;
        while k < widths[i]
            invariant
                i < widths.len(),
                k <= widths@[i as int],
                line@ == before + hrule((k + 2) as nat),
            decreases widths@[i as int] - k,
        {
            push_char(&mut line, '\u{2550}');
            k = k + 1;
            proof {
                assert(hrule((k + 2) as nat) =~= hrule((k + 1) as nat).push('\u{2550}'));
            }
        }
        if i < widths.len() - 1 {
            if i == 0 {
                push_char(&mut line, first);
            } else {
                push_char(&mut line, other);
            }
        }
        proof {
            assert(line@ =~= rule_prefix(widths@, left, first, other, i + 1));
        }
        i = i + 1;
    }
    push_char(&mut line, right);
    line
}

/// The widths of all columns, in order.
pub open spec fn widths_spec(
    headers: Seq<Seq<char>>,
    rows: Seq<Seq<Seq<char>>>,
    clamp_column: int,
    clamp_max: nat,
) -> Seq<usize> {
    Seq::new(
        headers.len(),
        |j: int| column_width(headers, rows, j, clamp_column, clamp_max) as usize,
    )
}

/// The lines above the rows: top border, header row, separator.
pub open spec fn head_lines(headers: Seq<Seq<char>>, ws: Seq<usize>, clamp_column: int) -> Seq<
    Seq<char>,
> {
    seq![
        rule_text(ws, '\u{2554}', '\u{2566}', '\u{2564}', '\u{2557}'),
        row_text(headers, ws, true, clamp_column),
        rule_text(ws, '\u{2560}', '\u{256c}', '\u{256a}', '\u{2563}'),
    ]
}

/// The printed lines of the rows.
pub open spec fn body_lines(rows: Seq<Seq<Seq<char>>>, ws: Seq<usize>, clamp_column: int) -> Seq<
    Seq<char>,
> {
    rows.map_values(|r: Seq<Seq<char>>| row_text(r, ws, false, clamp_column))
}

/// Every printed line of the table: top border, header row, separator, one
/// line per row, bottom border.
pub open spec fn table_lines(
    headers: Seq<Seq<char>>,
    rows: Seq<Seq<Seq<char>>>,
    clamp_column: int,
    clamp_max: nat,
) -> Seq<Seq<char>> {
    let ws = widths_spec(headers, rows, clamp_column, clamp_max);
    head_lines(headers, ws, clamp_column) + body_lines(rows, ws, clamp_column) + seq![
        rule_text(ws, '\u{255a}', '\u{2569}', '\u{2567}', '\u{255d}'),
    ]
}

/// Lays out and renders the whole table: widths are fixed over all rows
/// first, then every line is drawn with them.
pub fn render_table(
    headers: &Vec<String>,
    rows: &Vec<Vec<String>>,
    clamp_column: usize,
    clamp_max: usize,
) -> (lines: Vec<String>)
    requires
        table_wf(strs_view(headers@), rows_view(rows@)),
    ensures
        strs_view(lines@) == table_lines(
            strs_view(headers@),
            rows_view(rows@),
            clamp_column as int,
            clamp_max as nat,
        ),
        headers.len() >= 1 && shows_closed(
            strs_view(headers@),
            rows_view(rows@),
            widths_spec(strs_view(headers@), rows_view(rows@), clamp_column as int, clamp_max as nat),
            clamp_column as int,
        ) ==> forall|k: int|
            0 <= k < lines.len() ==> display_width_spec(#[trigger] lines@[k]@) == sum_widths(
                widths_spec(
                    strs_view(headers@),
                    rows_view(rows@),
                    clamp_column as int,
                    clamp_max as nat,
                ),
                headers.len() as int,
            ) + 3 * headers.len() + 1,
{
    let ghost hs = strs_view(headers@);
    let ghost rs = rows_view(rows@);
    let widths = compute_widths(headers, rows, clamp_column, clamp_max);
    let ghost ws = widths_spec(hs, rs, clamp_column as int, clamp_max as nat);
    proof {
        assert(widths@ =~= ws);
    }
    let ghost want = table_lines(hs, rs, clamp_column as int, clamp_max as nat);
    let mut lines: Vec<String> = Vec::new();
    lines.push(render_rule(&widths, '\u{2554}', '\u{2566}', '\u{2564}', '\u{2557}'));
    proof {
        assert forall|j: int| 0 <= j < headers.len() implies measurable(#[trigger] headers[j]@) by {
            assert(hs[j] == headers[j]@);
        }
    }
    lines.push(render_row(headers, &widths, true, clamp_column));
    lines.push(render_rule(&widths, '\u{2560}', '\u{256c}', '\u{256a}', '\u{2563}'));
    proof {
        let head = head_lines(hs, ws, clamp_column as int);
        assert(head.len() == 3);
        assert forall|k: int| 0 <= k < 3 implies #[trigger] lines@[k]@ == want[k] by {
            assert((head + body_lines(rs, ws, clamp_column as int))[k] == head[k]);
        }
    }
    let mut r: usize = 0;
    while r < rows.len()
        invariant
            hs == strs_view(headers@),
            rs == rows_view(rows@),
            table_wf(hs, rs),
            widths@ == ws,
            ws == widths_spec(hs, rs, clamp_column as int, clamp_max as nat),
            widths.len() == headers.len(),
            want == table_lines(hs, rs, clamp_column as int, clamp_max as nat),
            r <= rows.len(),
            lines.len() == 3 + r,
            forall|k: int| 0 <= k < 3 + r ==> #[trigger] lines@[k]@ == want[k],
        decreases rows.len() - r,
    {
        let row = &rows[r];
        proof {
            assert(rs[r as int] == strs_view(row@));
            assert forall|j: int| 0 <= j < row.len() implies measurable(#[trigger] row[j]@) by {
                assert(rs[r as int][j] == row[j]@);
            }
        }
        let line = render_row(row, &widths, false, clamp_column);
        proof {
            let mapped = body_lines(rs, ws, clamp_column as int);
            assert(mapped[r as int] == line@);
            let head = head_lines(hs, ws, clamp_column as int);
            assert(head.len() == 3);
            assert(mapped.len() == rs.len());
            assert((head + mapped)[3 + r] == mapped[r as int]);
            let bottom = seq![rule_text(ws, '\u{255a}', '\u{2569}', '\u{2567}', '\u{255d}')];
            assert(want == head + mapped + bottom);
            assert((head + mapped + bottom)[3 + r] == (head + mapped)[3 + r]);
        }
        lines.push(line);
        r = r + 1;
    }
    lines.push(render_rule(&widths, '\u{255a}', '\u{2569}', '\u{2567}', '\u{255d}'));
    proof {
        assert(strs_view(lines@) =~= want);
        if headers.len() >= 1 && shows_closed(hs, rs, ws, clamp_column as int) {
            lemma_lines_aligned(hs, rs, clamp_column as int, clamp_max as nat, ws);
            assert forall|k: int| 0 <= k < lines.len() implies display_width_spec(
                #[trigger] lines@[k]@,
            ) == sum_widths(ws, headers.len() as int) + 3 * headers.len() + 1 by {
                assert(lines@[k]@ == strs_view(lines@)[k]);
            }
        }
    }
    lines
}

/// What every cell shows, in the header row and in every row, closes its
/// escape sequences.
pub open spec fn shows_closed(
    headers: Seq<Seq<char>>,
    rows: Seq<Seq<Seq<char>>>,
    ws: Seq<usize>,
    clamp_column: int,
) -> bool {
    &&& forall|j: int|
        0 <= j < headers.len() ==> !ends_in_escape(
            fit_cell(#[trigger] headers[j], ws[j] as nat, j == clamp_column),
        )
    &&& forall|r: int, j: int|
        0 <= r < rows.len() && 0 <= j < headers.len() ==> !ends_in_escape(
            fit_cell(#[trigger] rows[r][j], ws[j] as nat, j == clamp_column),
        )
}

proof fn lemma_column_max_bounds(
    headers: Seq<Seq<char>>,
    rows: Seq<Seq<Seq<char>>>,
    j: int,
    n: int,
)
    ensures
        display_width_spec(headers[j]) <= column_max(headers, rows, j, n),
        forall|r: int|
            0 <= r < n ==> display_width_spec(#[trigger] rows[r][j]) <= column_max(
                headers,
                rows,
                j,
                n,
            ),
    decreases n,
{
    if n > 0 {
        lemma_column_max_bounds(headers, rows, j, n - 1);
    }
}

/// Every line of a table whose shown cells close their escape sequences
/// takes the same width: the column widths plus three per column plus one.
pub proof fn lemma_lines_aligned(
    headers: Seq<Seq<char>>,
    rows: Seq<Seq<Seq<char>>>,
    clamp_column: int,
    clamp_max: nat,
    ws: Seq<usize>,
)
    requires
        headers.len() >= 1,
        table_wf(headers, rows),
        ws == widths_spec(headers, rows, clamp_column, clamp_max),
        forall|j: int|
            0 <= j < headers.len() ==> column_width(headers, rows, j, clamp_column, clamp_max)
                <= usize::MAX,
        shows_closed(headers, rows, ws, clamp_column),
    ensures
        forall|k: int|
            0 <= k < table_lines(headers, rows, clamp_column, clamp_max).len()
                ==> display_width_spec(
                #[trigger] table_lines(headers, rows, clamp_column, clamp_max)[k],
            ) == sum_widths(ws, headers.len() as int) + 3 * headers.len() + 1,
{
    let n = headers.len() as int;
    let lines = table_lines(headers, rows, clamp_column, clamp_max);
    let head = head_lines(headers, ws, clamp_column);
    let body = body_lines(rows, ws, clamp_column);
    let bottom = seq![rule_text(ws, '\u{255a}', '\u{2569}', '\u{2567}', '\u{255d}')];
    assert(lines == head + body + bottom);
    assert forall|j: int| 0 <= j < n implies display_width_spec(#[trigger] headers[j]) <= ws[j]
        || j == clamp_column by {
        lemma_column_max_bounds(headers, rows, j, rows.len() as int);
    }
    assert forall|k: int| 0 <= k < lines.len() implies display_width_spec(#[trigger] lines[k])
        == sum_widths(ws, n) + 3 * n + 1 by {
        if k == 0 {
            lemma_rule_width(ws, '\u{2554}', '\u{2566}', '\u{2564}', '\u{2557}');
        } else if k == 1 {
            lemma_row_width(headers, ws, true, clamp_column);
        } else if k == 2 {
            lemma_rule_width(ws, '\u{2560}', '\u{256c}', '\u{256a}', '\u{2563}');
        } else if k < 3 + rows.len() {
            let r = k - 3;
            assert(lines[k] == body[r]);
            assert(rows[r].len() == n);
            assert forall|j: int| 0 <= j < rows[r].len() && j != clamp_column implies display_width_spec(
                #[trigger] rows[r][j],
            ) <= ws[j] by {
                lemma_column_max_bounds(headers, rows, j, rows.len() as int);
            }
            assert forall|j: int| 0 <= j < rows[r].len() implies !ends_in_escape(
                fit_cell(#[trigger] rows[r][j], ws[j] as nat, j == clamp_column),
            ) by {
            }
            lemma_row_width(rows[r], ws, false, clamp_column);
        } else {
            assert(lines[k] == bottom[0]);
            lemma_rule_width(ws, '\u{255a}', '\u{2569}', '\u{2567}', '\u{255d}');
        }
    }
}

/// The sum of the first `k` widths.
pub open spec fn sum_widths(ws: Seq<usize>, k: int) -> nat
    decreases k,
{
    if k <= 0 {
        0
    } else {
        sum_widths(ws, k - 1) + ws[k - 1] as nat
    }
}

/// One character that is no escape introducer is its own column count.
proof fn lemma_one_char(c: char)
    requires
        c != ESC,
    ensures
        scan(seq![c]) == (char_columns(c), false),
{
    assert(seq![c].drop_last() =~= Seq::<char>::empty());
    assert(seq![c].last() == c);
    assert(scan_from((0, false), seq![c].drop_last()) == (0nat, false));
}

/// A shown cell whose content fits its column and closes its escape
/// sequences takes the column width plus its two margins.
proof fn lemma_cell_width(content: Seq<char>, width: nat, is_header: bool)
    requires
        display_width_spec(content) <= width,
        !ends_in_escape(content),
    ensures
        display_width_spec(cell_text(content, width, is_header)) == width + 2,
        !ends_in_escape(cell_text(content, width, is_header)),
{
    let w = display_width_spec(content);
    let pad = (width - w) as nat;
    let shown = if is_header {
        header_seq() + content + reset_seq()
    } else {
        content
    };
    if is_header {
        lemma_sgr_closed(seq!['9', '2']);
        lemma_sgr_closed(seq!['0']);
        lemma_width_concat(header_seq(), content);
        lemma_width_concat(header_seq() + content, reset_seq());
    }
    assert(display_width_spec(shown) == w && !ends_in_escape(shown));
    lemma_one_char(' ');
    assert(forall|i: int| 0 <= i < spaces(pad).len() ==> is_printable_ascii(#[trigger] spaces(pad)[i]));
    lemma_ascii_width(spaces(pad));
    lemma_width_concat(seq![' '], shown);
    lemma_width_concat(seq![' '] + shown, spaces(pad));
    lemma_width_concat(seq![' '] + shown + spaces(pad), seq![' ']);
}

/// Every line of a row takes the same width: the column widths plus three
/// columns per column (two margins and a border) plus the left border,
/// provided that what each cell shows closes its escape sequences and that
/// cells outside the clamp column fit their columns.
pub proof fn lemma_row_width(
    cells: Seq<Seq<char>>,
    widths: Seq<usize>,
    is_header: bool,
    clamp_column: int,
)
    requires
        cells.len() == widths.len(),
        forall|j: int|
            0 <= j < cells.len() ==> !ends_in_escape(
                fit_cell(#[trigger] cells[j], widths[j] as nat, j == clamp_column),
            ),
        forall|j: int|
            0 <= j < cells.len() && j != clamp_column ==> display_width_spec(#[trigger] cells[j])
                <= widths[j],
    ensures
        display_width_spec(row_text(cells, widths, is_header, clamp_column)) == sum_widths(
            widths,
            widths.len() as int,
        ) + 3 * widths.len() + 1,
{
    lemma_row_prefix_width(cells, widths, is_header, clamp_column, cells.len() as int);
}

proof fn lemma_row_prefix_width(
    cells: Seq<Seq<char>>,
    widths: Seq<usize>,
    is_header: bool,
    clamp_column: int,
    k: int,
)
    requires
        0 <= k <= cells.len(),
        cells.len() == widths.len(),
        forall|j: int|
            0 <= j < cells.len() ==> !ends_in_escape(
                fit_cell(#[trigger] cells[j], widths[j] as nat, j == clamp_column),
            ),
        forall|j: int|
            0 <= j < cells.len() && j != clamp_column ==> display_width_spec(#[trigger] cells[j])
                <= widths[j],
    ensures
        display_width_spec(row_prefix(cells, widths, is_header, clamp_column, k)) == sum_widths(
            widths,
            k,
        ) + 3 * k + 1,
        !ends_in_escape(row_prefix(cells, widths, is_header, clamp_column, k)),
    decreases k,
{
    if k == 0 {
        lemma_one_char('\u{2551}');
    } else {
        let j = k - 1;
        lemma_row_prefix_width(cells, widths, is_header, clamp_column, j);
        let w = widths[j] as nat;
        let fitted = fit_cell(cells[j], w, j == clamp_column);
        assert(!ends_in_escape(fitted));
        if j == clamp_column && display_width_spec(cells[j]) > w {
            lemma_truncate_fits_and_idempotent(grapheme_split(cells[j]), w);
        }
        lemma_cell_width(fitted, w, is_header);
        let b = border_after(j, widths.len() as int);
        lemma_one_char(b);
        let prev = row_prefix(cells, widths, is_header, clamp_column, j);
        let cell = cell_text(fitted, w, is_header);
        lemma_width_concat(prev, cell);
        lemma_width_concat(prev + cell, seq![b]);
    }
}

/// Every rule line takes the same width as every row line: the column widths
/// plus three columns per column plus one.
pub proof fn lemma_rule_width(
    widths: Seq<usize>,
    left: char,
    first: char,
    other: char,
    right: char,
)
    requires
        widths.len() >= 1,
        is_box_drawing(left) && is_box_drawing(first) && is_box_drawing(other) && is_box_drawing(
            right,
        ),
    ensures
        display_width_spec(rule_text(widths, left, first, other, right)) == sum_widths(
            widths,
            widths.len() as int,
        ) + 3 * widths.len() + 1,
{
    lemma_rule_prefix_width(widths, left, first, other, widths.len() as int);
    lemma_one_char(right);
    let p = rule_prefix(widths, left, first, other, widths.len() as int);
    assert(p.push(right) =~= p + seq![right]);
    lemma_width_concat(p, seq![right]);
}

proof fn lemma_rule_prefix_width(widths: Seq<usize>, left: char, first: char, other: char, k: int)
    requires
        0 <= k <= widths.len(),
        is_box_drawing(left) && is_box_drawing(first) && is_box_drawing(other),
    ensures
        display_width_spec(rule_prefix(widths, left, first, other, k)) == sum_widths(widths, k) + 3
            * k + 1 - (if k == widths.len() && k > 0 {
            1int
        } else {
            0
        }),
        !ends_in_escape(rule_prefix(widths, left, first, other, k)),
    decreases k,
{
    if k == 0 {
        lemma_one_char(left);
    } else {
        lemma_rule_prefix_width(widths, left, first, other, k - 1);
        let prev = rule_prefix(widths, left, first, other, k - 1);
        let run = hrule((widths[k - 1] + 2) as nat);
        lemma_hrule_width((widths[k - 1] + 2) as nat);
        lemma_width_concat(prev, run);
        if k - 1 < widths.len() - 1 {
            let c = junction(k - 1, first, other);
            lemma_one_char(c);
            assert((prev + run).push(c) =~= (prev + run) + seq![c]);
            lemma_width_concat(prev + run, seq![c]);
        }
    }
}

proof fn lemma_hrule_width(n: nat)
    ensures
        display_width_spec(hrule(n)) == n,
        !ends_in_escape(hrule(n)),
    decreases n,
{
    if n > 0 {
        lemma_hrule_width((n - 1) as nat);
        assert(hrule(n) =~= hrule((n - 1) as nat) + seq!['\u{2550}']);
        lemma_one_char('\u{2550}');
        lemma_width_concat(hrule((n - 1) as nat), seq!['\u{2550}']);
    }
}

} // verus!
