//! Display width of text that may hold colour escape sequences.

use vstd::prelude::*;
use unicode_width::UnicodeWidthChar;

verus! {

broadcast use vstd::string::group_string_axioms;

/// The escape introducer that starts a colour sequence.
pub const ESC: char = '\x1b';

/// Column count that unicode-width reports for one character, or `None` for
/// a control character.
pub uninterp spec fn unicode_char_width(c: char) -> Option<usize>;

/// Relies on `unicode_width::UnicodeWidthChar::width`: printable ASCII takes
/// one column, box-drawing characters (narrow or ambiguous width, which it
/// counts as narrow) take one, C0 and C1 control characters have no width,
/// and no character takes more than three columns.
#[verifier::external_body]
fn char_width(c: char) -> (r: Option<usize>)
    ensures
        r == unicode_char_width(c),
        (' ' <= c && c <= '~') ==> r == Some(1usize),
        ('\u{2500}' <= c && c <= '\u{257f}') ==> r == Some(1usize),
        (c < ' ' || ('\x7f' <= c && c < '\u{a0}')) ==> r is None,
        r matches Some(w) ==> w <= 3,
{
    UnicodeWidthChar::width(c)
}

/// Columns that one character adds outside an escape sequence: one for
/// printable ASCII, otherwise what unicode-width reports (none for a control
/// character).
pub open spec fn char_columns(c: char) -> nat {
    if is_printable_ascii(c) || is_box_drawing(c) {
        1
    } else {
        match unicode_char_width(c) {
            Some(w) => w as nat,
            None => 0,
        }
    }
}

/// Whether `c` is one of the box-drawing characters (U+2500 to U+257F), all
/// of which Unicode gives a narrow or ambiguous East Asian width.
pub open spec fn is_box_drawing(c: char) -> bool {
    '\u{2500}' <= c && c <= '\u{257f}'
}

/// Whether `c` is printable ASCII (space to tilde).
pub open spec fn is_printable_ascii(c: char) -> bool {
    ' ' <= c && c <= '~'
}

/// One step of the scan: columns so far and whether inside an escape sequence.
pub open spec fn step(st: (nat, bool), c: char) -> (nat, bool) {
    if st.1 {
        (st.0, c != 'm')
    } else if c == ESC {
        (st.0, true)
    } else {
        (st.0 + char_columns(c), false)
    }
}

/// Scans `s` from the left, starting in state `st`.
pub open spec fn scan_from(st: (nat, bool), s: Seq<char>) -> (nat, bool)
    decreases s.len(),
{
    if s.len() == 0 {
        st
    } else {
        step(scan_from(st, s.drop_last()), s.last())
    }
}

/// Scans `s` from the left: the columns counted, and whether the scan ends
/// inside an escape sequence (from `ESC` up to and including `m`).
pub open spec fn scan(s: Seq<char>) -> (nat, bool) {
    scan_from((0, false), s)
}

/// The on-screen width of `s`: escape sequences count nothing.
pub open spec fn display_width_spec(s: Seq<char>) -> nat {
    scan(s).0
}

/// Whether `s` ends inside an unterminated escape sequence.
pub open spec fn ends_in_escape(s: Seq<char>) -> bool {
    scan(s).1
}

/// Text short enough that three columns per character fit in `usize`.
pub open spec fn measurable(s: Seq<char>) -> bool {
    3 * s.len() <= usize::MAX
}

/// Scanning `a + b` is scanning `a`, then `b` from where `a` left off.
pub proof fn lemma_scan_concat(st: (nat, bool), a: Seq<char>, b: Seq<char>)
    ensures
        scan_from(st, a + b) == scan_from(scan_from(st, a), b),
    decreases b.len(),
{
    if b.len() == 0 {
        assert(a + b =~= a);
    } else {
        assert((a + b).drop_last() =~= a + b.drop_last());
        lemma_scan_concat(st, a, b.drop_last());
    }
}

/// The columns counted before a scan only shift the columns counted after.
pub proof fn lemma_scan_shift(w: nat, e: bool, s: Seq<char>)
    ensures
        scan_from((w, e), s) == (w + scan_from((0, e), s).0, scan_from((0, e), s).1),
    decreases s.len(),
{
    if s.len() > 0 {
        lemma_scan_shift(w, e, s.drop_last());
    }
}

/// Starting inside an escape sequence never counts more columns.
pub proof fn lemma_scan_escaped_le(s: Seq<char>)
    ensures
        ({
            let x = scan_from((0, true), s);
            let y = scan_from((0, false), s);
            (x.1 && x.0 == 0) || (x.1 == y.1 && x.0 <= y.0)
        }),
    decreases s.len(),
{
    if s.len() > 0 {
        lemma_scan_escaped_le(s.drop_last());
    }
}

/// The width of a concatenation: exact after text that closes its escape
/// sequences, and never more than the sum of the parts.
pub proof fn lemma_width_concat(a: Seq<char>, b: Seq<char>)
    ensures
        display_width_spec(a + b) <= display_width_spec(a) + display_width_spec(b),
        !ends_in_escape(a) ==> display_width_spec(a + b) == display_width_spec(a)
            + display_width_spec(b),
        !ends_in_escape(a) ==> ends_in_escape(a + b) == ends_in_escape(b),
{
    lemma_scan_concat((0, false), a, b);
    let sa = scan(a);
    lemma_scan_shift(sa.0, sa.1, b);
    lemma_scan_escaped_le(b);
}

/// Appending text never takes width away.
pub proof fn lemma_width_extend(a: Seq<char>, b: Seq<char>)
    ensures
        display_width_spec(a) <= display_width_spec(a + b),
{
    lemma_scan_concat((0, false), a, b);
    let st = scan(a);
    lemma_scan_shift(st.0, st.1, b);
}

/// Printable ASCII without escape sequences is one column per character.
pub proof fn lemma_ascii_width(s: Seq<char>)
    requires
        forall|i: int| 0 <= i < s.len() ==> is_printable_ascii(#[trigger] s[i]),
    ensures
        display_width_spec(s) == s.len(),
        !ends_in_escape(s),
    decreases s.len(),
{
    if s.len() > 0 {
        lemma_ascii_width(s.drop_last());
    }
}

/// Inside an escape sequence, text without `m` counts nothing and ends inside.
proof fn lemma_escaped_run(s: Seq<char>)
    requires
        forall|i: int| 0 <= i < s.len() ==> #[trigger] s[i] != 'm',
    ensures
        scan_from((0, true), s) == (0nat, true),
    decreases s.len(),
{
    if s.len() > 0 {
        lemma_escaped_run(s.drop_last());
    }
}

/// The colour sequence `ESC [ n m` for the parameter digits `n`.
pub open spec fn sgr(n: Seq<char>) -> Seq<char> {
    seq![ESC, '['] + n + seq!['m']
}

/// A colour sequence takes no columns and closes itself.
pub proof fn lemma_sgr_closed(n: Seq<char>)
    requires
        forall|i: int| 0 <= i < n.len() ==> '0' <= #[trigger] n[i] <= '9',
    ensures
        scan(sgr(n)) == (0nat, false),
{
    let open = seq![ESC, '['] + n;
    assert forall|i: int| 0 <= i < open.drop_first().len() implies #[trigger] open.drop_first()[i]
        != 'm' by {
        if i > 0 {
            assert(open.drop_first()[i] == n[i - 1]);
        }
    }
    lemma_escaped_run(open.drop_first());
    assert(open =~= seq![ESC] + open.drop_first());
    lemma_scan_concat((0, false), seq![ESC], open.drop_first());
    assert(seq![ESC].last() == ESC);
    assert(scan_from((0, false), seq![ESC].drop_last()) == (0nat, false));
    assert(scan(seq![ESC]) == (0nat, true));
    assert(scan(open) == (0nat, true));
    assert(sgr(n) =~= open + seq!['m']);
    lemma_scan_concat((0, false), open, seq!['m']);
    assert(seq!['m'].last() == 'm');
    assert(scan_from((0, true), seq!['m'].drop_last()) == (0nat, true));
    assert(scan_from((0, true), seq!['m']) == (0nat, false));
}

/// Wrapping text in a colour sequence and a reset leaves its width unchanged.
pub proof fn lemma_colored_width(n: Seq<char>, text: Seq<char>)
    requires
        forall|i: int| 0 <= i < n.len() ==> '0' <= #[trigger] n[i] <= '9',
    ensures
        display_width_spec(sgr(n) + text + sgr(seq!['0'])) == display_width_spec(text),
{
    lemma_sgr_closed(n);
    let reset = sgr(seq!['0']);
    let body = seq![ESC, '[', '0'];
    assert(reset =~= body + seq!['m']);
    assert(body[0] != 'm' && body[1] != 'm' && body[2] != 'm');
    lemma_escaped_run(body);
    lemma_scan_concat((0, true), body, seq!['m']);
    assert(seq!['m'].last() == 'm');
    assert(scan_from((0, true), seq!['m'].drop_last()) == (0nat, true));
    assert(scan_from((0, true), seq!['m']) == (0nat, false));
    assert(scan_from((0, true), reset) == (0nat, false));
    lemma_sgr_closed(seq!['0']);
    assert(sgr(n) + text + reset =~= sgr(n) + (text + reset));
    lemma_width_concat(sgr(n), text + reset);
    lemma_width_concat(text, reset);
    lemma_scan_concat((0, false), text, reset);
    let st = scan(text);
    lemma_scan_shift(st.0, st.1, reset);
}

/// The columns that unicode-width gives a character, none for a control
/// character.
pub open spec fn unicode_columns(c: char) -> nat {
    match unicode_char_width(c) {
        Some(w) => w as nat,
        None => 0,
    }
}

/// Whether the character at `i` counts toward the width: it stands outside
/// every escape sequence and does not start one.
pub open spec fn counted(s: Seq<char>, i: int) -> bool {
    !scan(s.take(i)).1 && s[i] != ESC
}

/// On-screen width of `text`: characters inside an escape sequence (from
/// `ESC` up to and including the terminating `m`) count nothing; others count
/// their terminal column width. An unterminated sequence hides the rest.
/// Every counted character counts what unicode-width gives it.
pub fn display_width(text: &str) -> (r: usize)
    requires
        measurable(text@),
    ensures
        r == display_width_spec(text@),
        forall|i: int|
            0 <= i < text@.len() && counted(text@, i) ==> char_columns(#[trigger] text@[i])
                == unicode_columns(text@[i]),
{
    let mut width: usize = 0;
    let mut in_escape = false;
    for ch in it: text.chars()
        invariant
            it.seq() == text@,
            measurable(text@),
            (width as nat, in_escape) == scan(text@.take(it.index() as int)),
            width <= 3 * it.index(),
            forall|i: int|
                0 <= i < it.index() && counted(text@, i) ==> char_columns(#[trigger] text@[i])
                    == unicode_columns(text@[i]),
    {
        proof {
            assert(text@.take(it.index() + 1).drop_last() =~= text@.take(it.index() as int));
        }
        if in_escape {
            if ch == 'm' {
                in_escape = false;
            }
        } else if ch == ESC {
            in_escape = true;
        } else {
            let cols: usize = match char_width(ch) {
                Some(w) => w,
                None => 0,
            };
            width = width + cols;
        }
        proof {
            assert(ch == text@[it.index() as int]);
        }
    }
    proof {
        assert(text@.take(text@.len() as int) =~= text@);
    }
    width
}

} // verus!
