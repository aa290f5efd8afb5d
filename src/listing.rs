//! Directory listings: ordering entries, building their rows, drawing the table.

use vstd::prelude::*;
use vstd::string::StringExecFns;
use crate::clock::{date_text, format_date, DateParts};
use crate::entry::{format_size, perm_text, perms_to_string, size_text};
use crate::kind::{classify, format_of, format_token, name_cell, name_cell_text, type_label, EntryKind};
use crate::table::{render_table, rows_view, strs_view, table_lines, table_wf};
use crate::width::measurable;
use crate::theme::{color_of, glyph_of};
use crate::kind::{category_of, entry_color, entry_glyph, extension_of, file_category};
use crate::entry::{one_decimal, tenths, GIGA, KILO, MEGA};
use crate::clock::{four_digits, year_text};
use crate::text::two_digits;
use crate::text::{chars_of, decimal, push_decimal};

verus! {

broadcast use vstd::string::group_string_axioms;

/// What the metadata of one entry gives.
#[derive(Clone, Debug)]
pub struct EntryMeta {
    pub kind: EntryKind,
    pub mode: u32,
    pub size: u64,
    pub modified: DateParts,
}

/// One entry of a directory: its name, whether the directory listing marks
/// it as a directory, and its metadata, absent where that could not be read.
#[derive(Clone, Debug)]
pub struct DirEntryData {
    pub name: String,
    pub is_dir: bool,
    pub meta: Option<EntryMeta>,
}

/// The cells of one entry, without its index.
pub open spec fn info_cells(name: Seq<char>, m: EntryMeta, show_perms: bool) -> Seq<Seq<char>> {
    let head = seq![
        name_cell_text(name, m.kind),
        format_token(name, m.kind),
        type_label(name, m.kind),
    ];
    let tail = seq![size_text(m.size as nat), date_text(m.modified)];
    if show_perms {
        head + seq![perm_text(m.mode)] + tail
    } else {
        head + tail
    }
}

/// Builds the cells of one entry: name, format, type, permissions when
/// asked for, size, modification time.
pub fn file_row(name: &str, m: &EntryMeta, show_perms: bool) -> (r: Vec<String>)
    requires
        m.modified.wf(),
    ensures
        strs_view(r@) == info_cells(name@, *m, show_perms),
{
    let (label, _) = classify(name, m.kind);
    let mut cells: Vec<String> = Vec::new();
    cells.push(name_cell(name, m.kind));
    cells.push(format_of(name, m.kind));
    cells.push(String::from_str(label));
    if show_perms {
        cells.push(perms_to_string(m.mode));
    }
    cells.push(format_size(m.size));
    cells.push(format_date(&m.modified));
    proof {
        assert(strs_view(cells@) =~= info_cells(name@, *m, show_perms));
    }
    cells
}

/// The header labels.
pub open spec fn header_labels(show_perms: bool) -> Seq<Seq<char>> {
    if show_perms {
        seq!["#"@, "Name"@, "Format"@, "Type"@, "Perms"@, "Size"@, "Modified"@]
    } else {
        seq!["#"@, "Name"@, "Format"@, "Type"@, "Size"@, "Modified"@]
    }
}

/// Builds the header labels.
pub fn headers(show_perms: bool) -> (r: Vec<String>)
    ensures
        strs_view(r@) == header_labels(show_perms),
{
    let mut h: Vec<String> = Vec::new();
    h.push(String::from_str("#"));
    h.push(String::from_str("Name"));
    h.push(String::from_str("Format"));
    h.push(String::from_str("Type"));
    if show_perms {
        h.push(String::from_str("Perms"));
    }
    h.push(String::from_str("Size"));
    h.push(String::from_str("Modified"));
    proof {
        assert(strs_view(h@) =~= header_labels(show_perms));
    }
    h
}

/// The entries whose metadata could be read, with their names, in order.
pub open spec fn readable(entries: Seq<DirEntryData>) -> Seq<(Seq<char>, EntryMeta)>
    decreases entries.len(),
{
    if entries.len() == 0 {
        Seq::empty()
    } else {
        let rest = readable(entries.drop_last());
        match entries.last().meta {
            Some(m) => rest.push((entries.last().name@, m)),
            None => rest,
        }
    }
}

/// Whether every readable entry carries a calendar time in range.
pub open spec fn entries_wf(entries: Seq<DirEntryData>) -> bool {
    forall|i: int|
        0 <= i < entries.len() ==> ((#[trigger] entries[i]).meta matches Some(m) ==> m.modified.wf())
}

/// The row of the `i`-th readable entry: its one-based index, then its cells.
pub open spec fn body_row(i: int, e: (Seq<char>, EntryMeta), show_perms: bool) -> Seq<Seq<char>> {
    seq![decimal((i + 1) as nat)] + info_cells(e.0, e.1, show_perms)
}

/// Builds one row per readable entry, numbered from one in order; entries
/// whose metadata could not be read are left out.
pub fn build_rows(entries: &Vec<DirEntryData>, show_perms: bool) -> (rows: Vec<Vec<String>>)
    requires
        entries_wf(entries@),
        entries.len() < u64::MAX,
    ensures
        rows.len() == readable(entries@).len(),
        forall|i: int|
            0 <= i < rows.len() ==> strs_view(#[trigger] rows[i]@) == body_row(
                i,
                readable(entries@)[i],
                show_perms,
            ),
{
    let mut rows: Vec<Vec<String>> = Vec::new();
    let mut k: usize = 0;
    while k < entries.len()
        invariant
            entries_wf(entries@),
            entries.len() < u64::MAX,
            k <= entries.len(),
            rows.len() == readable(entries@.take(k as int)).len(),
            rows.len() <= k,
            forall|i: int|
                0 <= i < rows.len() ==> strs_view(#[trigger] rows[i]@) == body_row(
                    i,
                    readable(entries@.take(k as int))[i],
                    show_perms,
                ),
        decreases entries.len() - k,
    {
        let e = &entries[k];
        proof {
            assert(entries@.take(k + 1).drop_last() =~= entries@.take(k as int));
            assert(entries@.take(k + 1).last() == entries@[k as int]);
        }
        match &e.meta {
            Some(m) => {
                proof {
                    assert(entries@[k as int].meta matches Some(mm) ==> mm.modified.wf());
                }
                let cells = file_row(e.name.as_str(), m, show_perms);
                let mut row: Vec<String> = Vec::new();
                let mut index = String::new();
                push_decimal(&mut index, (rows.len() as u64) + 1);
                row.push(index);
                let mut j: usize = 0;
                while j < cells.len()
                    invariant
                        row.len() == j + 1,
                        j <= cells.len(),
                        strs_view(row@) == seq![decimal((rows.len() + 1) as nat)] + strs_view(
                            cells@,
                        ).take(j as int),
                    decreases cells.len() - j,
                {
                    let ghost prev = row@;
                    let c = cells[j].clone();
                    row.push(c);
                    j = j + 1;
                    proof {
                        assert(c@ == cells@[j - 1]@);
                        assert(strs_view(row@) =~= strs_view(prev).push(c@));
                        assert(strs_view(row@) =~= seq![decimal((rows.len() + 1) as nat)] + strs_view(
                            cells@,
                        ).take(j as int));
                    }
                }
                proof {
                    assert(strs_view(cells@).take(cells.len() as int) =~= strs_view(cells@));
                }
                rows.push(row);
            },
            None => {},
        }
        k = k + 1;
    }
    proof {
        assert(entries@.take(entries.len() as int) =~= entries@);
    }
    rows
}

/// Whether name `a` comes before name `b`, character by character.
pub open spec fn name_lt(a: Seq<char>, b: Seq<char>) -> bool
    decreases a.len(),
{
    if a.len() == 0 {
        b.len() > 0
    } else if b.len() == 0 {
        false
    } else if a[0] != b[0] {
        a[0] < b[0]
    } else {
        name_lt(a.drop_first(), b.drop_first())
    }
}

/// Whether entry `x` is listed before entry `y`: directories first, then by
/// name.
pub open spec fn entry_lt(x: DirEntryData, y: DirEntryData) -> bool {
    (x.is_dir && !y.is_dir) || (x.is_dir == y.is_dir && name_lt(x.name@, y.name@))
}

/// No entry is followed by one that should come before it.
pub open spec fn listing_sorted(s: Seq<DirEntryData>) -> bool {
    forall|i: int| 0 <= i < s.len() - 1 ==> !entry_lt(#[trigger] s[i + 1], s[i])
}

/// No two names each come before the other.
pub proof fn lemma_name_lt_asymmetric(a: Seq<char>, b: Seq<char>)
    ensures
        !(name_lt(a, b) && name_lt(b, a)),
    decreases a.len(),
{
    if a.len() > 0 && b.len() > 0 && a[0] == b[0] {
        lemma_name_lt_asymmetric(a.drop_first(), b.drop_first());
    }
}

fn name_before(a: &str, b: &str) -> (r: bool)
    ensures
        r == name_lt(a@, b@),
{
    let x = chars_of(a);
    let y = chars_of(b);
    let mut i: usize = 0;
    proof {
        assert(a@.skip(0) =~= a@);
        assert(b@.skip(0) =~= b@);
    }
    while i < x.len() && i < y.len() && x[i] == y[i]
        invariant
            x@ == a@,
            y@ == b@,
            i <= x.len(),
            i <= y.len(),
            name_lt(a@, b@) == name_lt(a@.skip(i as int), b@.skip(i as int)),
        decreases x.len() - i,
    {
        proof {
            assert(a@.skip(i as int).drop_first() =~= a@.skip(i + 1));
            assert(b@.skip(i as int).drop_first() =~= b@.skip(i + 1));
        }
        i = i + 1;
    }
    if i == x.len() {
        i < y.len()
    } else if i == y.len() {
        false
    } else {
        x[i] < y[i]
    }
}

fn entry_before(x: &DirEntryData, y: &DirEntryData) -> (r: bool)
    ensures
        r == entry_lt(*x, *y),
{
    if x.is_dir != y.is_dir {
        x.is_dir
    } else {
        name_before(x.name.as_str(), y.name.as_str())
    }
}

/// Orders entries: directories first, then by name.
pub fn sort_entries(entries: Vec<DirEntryData>) -> (r: Vec<DirEntryData>)
    ensures
        listing_sorted(r@),
        r@.to_multiset() == entries@.to_multiset(),
{
    broadcast use vstd::seq_lib::group_to_multiset_ensures;
    broadcast use vstd::multiset::group_multiset_axioms;

    let mut rest = entries;
    let mut out: Vec<DirEntryData> = Vec::new();
    while rest.len() > 0
        invariant
            listing_sorted(out@),
            out@.to_multiset().add(rest@.to_multiset()) == entries@.to_multiset(),
        decreases rest.len(),
    {
        let ghost before_rest = rest@;
        let x = rest.pop().unwrap();
        proof {
            assert(before_rest =~= rest@.push(x));
            vstd::seq_lib::to_multiset_build(rest@, x);
        }
        let mut pos: usize = 0;
        while pos < out.len() && !entry_before(&x, &out[pos])
            invariant
                listing_sorted(out@),
                out@.to_multiset().add(rest@.to_multiset().insert(x)) == entries@.to_multiset(),
                pos <= out.len(),
                pos > 0 ==> !entry_lt(x, out@[pos - 1]),
            decreases out.len() - pos,
        {
            pos = pos + 1;
        }
        let ghost prev = out@;
        proof {
            if pos < prev.len() {
                lemma_name_lt_asymmetric(x.name@, prev[pos as int].name@);
            }
        }
        out.insert(pos, x);
        proof {
            assert forall|i: int| 0 <= i < out@.len() - 1 implies !entry_lt(
                #[trigger] out@[i + 1],
                out@[i],
            ) by {
                if i + 1 < pos {
                    assert(out@[i] == prev[i] && out@[i + 1] == prev[i + 1]);
                } else if i + 1 == pos {
                } else if i == pos {
                } else {
                    assert(out@[i] == prev[i - 1] && out@[i + 1] == prev[i]);
                    assert(!entry_lt(prev[(i - 1) + 1], prev[i - 1]));
                }
            }
            vstd::seq_lib::to_multiset_insert(prev, pos as int, x);
            assert(out@.to_multiset() == prev.to_multiset().insert(x));
        }
    }
    out
}

/// `10` to the power `k`.
pub open spec fn pow10(k: nat) -> nat
    decreases k,
{
    if k == 0 {
        1
    } else {
        10 * pow10((k - 1) as nat)
    }
}

proof fn lemma_decimal_len(n: nat, k: nat)
    requires
        k >= 1,
        n < pow10(k),
    ensures
        decimal(n).len() <= k,
    decreases n,
{
    if n >= 10 {
        assert(k >= 2) by {
            if k == 1 {
                assert(pow10(1) == 10) by {
                    reveal_with_fuel(pow10, 2);
                }
            }
        }
        lemma_decimal_len(n / 10, (k - 1) as nat);
    }
}

proof fn lemma_pow10_20()
    ensures
        pow10(20) == 100000000000000000000,
{
    reveal_with_fuel(pow10, 21);
}

proof fn lemma_size_text_len(n: nat)
    requires
        n <= u64::MAX,
    ensures
        size_text(n).len() <= 64,
{
    lemma_pow10_20();
    if n >= KILO {
        let unit: nat = if n >= GIGA {
            GIGA as nat
        } else if n >= MEGA {
            MEGA as nat
        } else {
            KILO as nat
        };
        let t = tenths(n, unit);
        assert(t <= n * 10 / unit + 1);
        assert(n * 10 / unit <= n * 10 / 1024) by {
            vstd::arithmetic::div_mod::lemma_div_is_ordered_by_denominator(
                (n * 10) as int,
                1024,
                unit as int,
            );
        }
        assert(t / 10 < pow10(20));
        lemma_decimal_len(t / 10, 20);
        assert(one_decimal(t).len() <= 22);
    } else {
        lemma_decimal_len(n, 20);
    }
}

proof fn lemma_four_digits_len(n: nat)
    requires
        n < pow10(20),
    ensures
        four_digits(n).len() <= 24,
{
    lemma_decimal_len(n, 20);
}

proof fn lemma_date_text_len(p: DateParts)
    ensures
        date_text(p).len() <= 64,
{
    lemma_pow10_20();
    let y = p.year as int;
    if y > 9999 {
        lemma_decimal_len(y as nat, 20);
    } else if y < 0 {
        lemma_four_digits_len((-y) as nat);
    } else {
        lemma_four_digits_len(y as nat);
    }
    assert(year_text(y).len() <= 25);
}

proof fn lemma_category_len(e: Seq<char>)
    ensures
        category_of(e).len() <= 8,
{
    reveal_strlit("music");
    reveal_strlit("video");
    reveal_strlit("image");
    reveal_strlit("archive");
    reveal_strlit("text");
    reveal_strlit("code");
    reveal_strlit("config");
    reveal_strlit("");
}

proof fn lemma_glyph_len(name: Seq<char>)
    ensures
        glyph_of(name).len() <= 8,
{
    reveal_strlit("\u{f07c}");
    reveal_strlit("\u{f15b}");
    reveal_strlit("\u{f0c1}");
    reveal_strlit("\u{f001}");
    reveal_strlit("\u{f008}");
    reveal_strlit("\u{f03e}");
    reveal_strlit("\u{f187}");
    reveal_strlit("\u{f0f6}");
    reveal_strlit("\u{f121}");
    reveal_strlit("\u{f013}");
    reveal_strlit("");
}

proof fn lemma_color_len(name: Seq<char>)
    ensures
        color_of(name).len() <= 8,
{
    reveal_strlit("\x1b[95m");
    reveal_strlit("\x1b[94m");
    reveal_strlit("\x1b[96m");
    reveal_strlit("\x1b[92m");
    reveal_strlit("\x1b[0m");
    reveal_strlit("");
}

/// Every cell of an entry's row is short: the name cell is the name plus a
/// few characters, the others are bounded outright.
proof fn lemma_info_cells_len(name: Seq<char>, m: EntryMeta, show_perms: bool, j: int)
    requires
        0 <= j < info_cells(name, m, show_perms).len(),
    ensures
        info_cells(name, m, show_perms)[j].len() <= name.len() + 64,
{
    lemma_size_text_len(m.size as nat);
    lemma_date_text_len(m.modified);
    lemma_category_len(match extension_of(name) {
        Some(e) => e,
        None => ""@,
    });
    reveal_strlit("text");
    reveal_strlit("Dir");
    reveal_strlit("Link");
    reveal_strlit("File");
    reveal_strlit("dir");
    reveal_strlit("N/A");
    assert(file_category(name).len() <= 8);
    lemma_glyph_len(file_category(name));
    lemma_glyph_len("dir"@);
    lemma_glyph_len("link"@);
    lemma_glyph_len("file"@);
    assert(entry_glyph(name, m.kind).len() <= 8);
    lemma_color_len("dir"@);
    lemma_color_len("link"@);
    lemma_color_len("file"@);
    lemma_color_len("reset"@);
    assert(entry_color(m.kind).len() <= 8);
    assert(name_cell_text(name, m.kind).len() <= name.len() + 64);
    assert(type_label(name, m.kind).len() <= 8);
    match extension_of(name) {
        Some(e) => {},
        None => {},
    }
    assert(format_token(name, m.kind).len() <= 8);
}

/// The column that is capped and cut: the names.
pub const NAME_COLUMN: usize = 1;

/// The widest the name column may grow.
pub const MAX_NAME_WIDTH: usize = 40;

/// Entries that can be listed: readable ones carry calendar times in range,
/// and every name is short enough to be measured with room to spare.
pub open spec fn listable(entries: Seq<DirEntryData>) -> bool {
    &&& entries_wf(entries)
    &&& entries.len() < u64::MAX
    &&& forall|i: int|
        0 <= i < entries.len() ==> 3 * ((#[trigger] entries[i]).name@.len() + 64) <= usize::MAX
}

/// The rows of the readable entries, numbered from one.
pub open spec fn listing_rows(rs: Seq<(Seq<char>, EntryMeta)>, show_perms: bool) -> Seq<
    Seq<Seq<char>>,
> {
    Seq::new(rs.len(), |i: int| body_row(i, rs[i], show_perms))
}

/// Each readable entry comes from an entry with that name and metadata.
proof fn lemma_readable_from(entries: Seq<DirEntryData>, i: int)
    requires
        0 <= i < readable(entries).len(),
    ensures
        exists|j: int|
            0 <= j < entries.len() && (#[trigger] entries[j]).name@ == readable(entries)[i].0
                && entries[j].meta == Some(readable(entries)[i].1),
    decreases entries.len(),
{
    let rest = readable(entries.drop_last());
    if i < rest.len() {
        lemma_readable_from(entries.drop_last(), i);
        let j = choose|j: int|
            0 <= j < entries.drop_last().len() && (#[trigger] entries.drop_last()[j]).name@
                == rest[i].0 && entries.drop_last()[j].meta == Some(rest[i].1);
        assert(entries[j] == entries.drop_last()[j]);
    } else {
        assert(entries[entries.len() - 1] == entries.last());
    }
}

/// Sorting keeps the entries listable.
proof fn lemma_sorted_listable(entries: Seq<DirEntryData>, sorted: Seq<DirEntryData>)
    requires
        listable(entries),
        sorted.to_multiset() == entries.to_multiset(),
    ensures
        listable(sorted),
{
    broadcast use vstd::seq_lib::group_to_multiset_ensures;

    assert forall|i: int| 0 <= i < sorted.len() implies ((#[trigger] sorted[i]).meta matches Some(
        m,
    ) ==> m.modified.wf()) && 3 * (sorted[i].name@.len() + 64) <= usize::MAX by {
        assert(sorted.to_multiset().count(sorted[i]) > 0);
        assert(entries.contains(sorted[i]));
        let j = choose|j: int| 0 <= j < entries.len() && entries[j] == sorted[i];
        assert(entries[j] == sorted[i]);
    }
    assert(sorted.len() == entries.len()) by {
        vstd::seq_lib::to_multiset_len(sorted);
        vstd::seq_lib::to_multiset_len(entries);
    }
}

/// Lists a directory's entries as table lines: entries ordered directories
/// first and then by name, unreadable ones left out, numbered from one, the
/// name column capped and cut at forty columns.
pub fn render_listing(entries: Vec<DirEntryData>, show_perms: bool) -> (lines: Vec<String>)
    requires
        listable(entries@),
    ensures
        exists|s: Seq<DirEntryData>|
            listing_sorted(s) && s.to_multiset() == entries@.to_multiset() && strs_view(lines@)
                == table_lines(
                header_labels(show_perms),
                listing_rows(readable(s), show_perms),
                NAME_COLUMN as int,
                MAX_NAME_WIDTH as nat,
            ),
{
    broadcast use vstd::seq_lib::group_to_multiset_ensures;

    let ghost original = entries@;
    let sorted = sort_entries(entries);
    proof {
        lemma_sorted_listable(original, sorted@);
    }
    let rows = build_rows(&sorted, show_perms);
    let h = headers(show_perms);
    let ghost rs = readable(sorted@);
    proof {
        assert(rows_view(rows@) =~= listing_rows(rs, show_perms));
        reveal_strlit("#");
        reveal_strlit("Name");
        reveal_strlit("Format");
        reveal_strlit("Type");
        reveal_strlit("Perms");
        reveal_strlit("Size");
        reveal_strlit("Modified");
        assert forall|r: int, j: int|
            0 <= r < rows_view(rows@).len() && 0 <= j < strs_view(h@).len() implies measurable(
            #[trigger] rows_view(rows@)[r][j],
        ) by {
            lemma_readable_from(sorted@, r);
            let k = choose|k: int|
                0 <= k < sorted@.len() && (#[trigger] sorted@[k]).name@ == rs[r].0
                    && sorted@[k].meta == Some(rs[r].1);
            assert(3 * (sorted@[k].name@.len() + 64) <= usize::MAX);
            if j > 0 {
                lemma_info_cells_len(rs[r].0, rs[r].1, show_perms, j - 1);
            } else {
                lemma_pow10_20();
                lemma_decimal_len((r + 1) as nat, 20);
            }
        }
        assert(table_wf(strs_view(h@), rows_view(rows@)));
    }
    let lines = render_table(&h, &rows, NAME_COLUMN, MAX_NAME_WIDTH);
    lines
}

} // verus!
