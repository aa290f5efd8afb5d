//! What kind of entry a name is, and the cells that follow from it.

use vstd::prelude::*;
use vstd::string::StringExecFns;
use crate::text::{chars_of, push_char, push_str, same_text};
use crate::theme::{color_of, get_color, get_glyph, glyph_of};

verus! {

broadcast use vstd::string::group_string_axioms;

/// The kind of a directory entry, as its own metadata says.
#[derive(Clone, Copy, Debug, PartialEq, Eq, Structural)]
pub enum EntryKind {
    Dir,
    Link,
    File,
}

/// The index of the last `.` among the first `k` characters, or -1.
pub open spec fn last_dot(s: Seq<char>, k: int) -> int
    decreases k,
{
    if k <= 0 {
        -1
    } else if s[k - 1] == '.' {
        k - 1
    } else {
        last_dot(s, k - 1)
    }
}

/// The extension of a file name: what follows its last `.`, unless there is
/// none, or the only one starts the name, or the name is `..`.
pub open spec fn extension_of(name: Seq<char>) -> Option<Seq<char>> {
    let d = last_dot(name, name.len() as int);
    if name == ".."@ || d <= 0 {
        None
    } else {
        Some(name.skip(d + 1))
    }
}

/// Finds the extension of a file name.
pub fn file_extension(name: &str) -> (r: Option<String>)
    ensures
        r matches Some(e) ==> extension_of(name@) == Some(e@),
        r is None ==> extension_of(name@) is None,
{
    let cs = chars_of(name);
    let mut k: usize = cs.len();
    while k > 0 && cs[k - 1] != '.'
        invariant
            cs@ == name@,
            k <= cs.len(),
            last_dot(name@, name@.len() as int) == last_dot(name@, k as int),
        decreases k,
    {
        k = k - 1;
    }
    proof {
        reveal_strlit("..");
    }
    if same_text(name, "..") || k <= 1 {
        return None;
    }
    let mut ext = String::new();
    let mut i: usize = k;
    while i < cs.len()
        invariant
            cs@ == name@,
            k <= i <= cs.len(),
            ext@ == name@.subrange(k as int, i as int),
        decreases cs.len() - i,
    {
        push_char(&mut ext, cs[i]);
        i = i + 1;
        proof {
            assert(name@.subrange(k as int, i as int) =~= name@.subrange(k as int, i - 1).push(
                cs@[i - 1],
            ));
        }
    }
    proof {
        assert(name@.skip(k as int) =~= name@.subrange(k as int, name@.len() as int));
    }
    Some(ext)
}

/// The category that an extension falls in, or the empty text.
pub open spec fn category_of(e: Seq<char>) -> Seq<char> {
    if e == "mp3"@ || e == "wav"@ || e == "flac"@ || e == "ogg"@ {
        "music"@
    } else if e == "mp4"@ || e == "mkv"@ || e == "avi"@ || e == "mov"@ {
        "video"@
    } else if e == "jpg"@ || e == "jpeg"@ || e == "png"@ || e == "gif"@ || e == "bmp"@ {
        "image"@
    } else if e == "zip"@ || e == "tar"@ || e == "gz"@ || e == "rar"@ || e == "7z"@ {
        "archive"@
    } else if e == "txt"@ || e == "md"@ || e == "doc"@ || e == "docx"@ || e == "pdf"@ {
        "text"@
    } else if e == "py"@ || e == "js"@ || e == "html"@ || e == "css"@ || e == "rs"@ || e == "c"@
        || e == "cpp"@ || e == "java"@ || e == "sh"@ {
        "code"@
    } else if e == "toml"@ || e == "json"@ || e == "yaml"@ || e == "yml"@ || e == "ini"@ || e
        == "cfg"@ || e == "lock"@ {
        "config"@
    } else {
        ""@
    }
}

/// Looks up the category of an extension.
pub fn category(e: &str) -> (r: &'static str)
    ensures
        r@ == category_of(e@),
{
    if same_text(e, "mp3") || same_text(e, "wav") || same_text(e, "flac") || same_text(e, "ogg") {
        "music"
    } else if same_text(e, "mp4") || same_text(e, "mkv") || same_text(e, "avi") || same_text(
        e,
        "mov",
    ) {
        "video"
    } else if same_text(e, "jpg") || same_text(e, "jpeg") || same_text(e, "png") || same_text(
        e,
        "gif",
    ) || same_text(e, "bmp") {
        "image"
    } else if same_text(e, "zip") || same_text(e, "tar") || same_text(e, "gz") || same_text(
        e,
        "rar",
    ) || same_text(e, "7z") {
        "archive"
    } else if same_text(e, "txt") || same_text(e, "md") || same_text(e, "doc") || same_text(
        e,
        "docx",
    ) || same_text(e, "pdf") {
        "text"
    } else if same_text(e, "py") || same_text(e, "js") || same_text(e, "html") || same_text(
        e,
        "css",
    ) || same_text(e, "rs") || same_text(e, "c") || same_text(e, "cpp") || same_text(e, "java")
        || same_text(e, "sh") {
        "code"
    } else if same_text(e, "toml") || same_text(e, "json") || same_text(e, "yaml") || same_text(
        e,
        "yml",
    ) || same_text(e, "ini") || same_text(e, "cfg") || same_text(e, "lock") {
        "config"
    } else {
        ""
    }
}

/// The category of a regular file by its name: `.gitignore` is text,
/// otherwise its extension decides; the empty text when nothing matches.
pub open spec fn file_category(name: Seq<char>) -> Seq<char> {
    if name == ".gitignore"@ {
        "text"@
    } else {
        match extension_of(name) {
            Some(e) => category_of(e),
            None => category_of(""@),
        }
    }
}

/// The type label of an entry.
pub open spec fn type_label(name: Seq<char>, kind: EntryKind) -> Seq<char> {
    match kind {
        EntryKind::Dir => "Dir"@,
        EntryKind::Link => "Link"@,
        EntryKind::File => if file_category(name).len() == 0 {
            "File"@
        } else {
            file_category(name)
        },
    }
}

/// The glyph of an entry.
pub open spec fn entry_glyph(name: Seq<char>, kind: EntryKind) -> Seq<char> {
    match kind {
        EntryKind::Dir => glyph_of("dir"@),
        EntryKind::Link => glyph_of("link"@),
        EntryKind::File => if file_category(name).len() == 0 {
            glyph_of("file"@)
        } else {
            glyph_of(file_category(name))
        },
    }
}

/// The colour of an entry's glyph.
pub open spec fn entry_color(kind: EntryKind) -> Seq<char> {
    match kind {
        EntryKind::Dir => color_of("dir"@),
        EntryKind::Link => color_of("link"@),
        EntryKind::File => color_of("file"@),
    }
}

fn file_category_of(name: &str) -> (r: &'static str)
    ensures
        r@ == file_category(name@),
{
    if same_text(name, ".gitignore") {
        "text"
    } else {
        match file_extension(name) {
            Some(e) => category(e.as_str()),
            None => category(""),
        }
    }
}

/// The type label and glyph of an entry.
pub fn classify(name: &str, kind: EntryKind) -> (r: (&'static str, &'static str))
    ensures
        r.0@ == type_label(name@, kind),
        r.1@ == entry_glyph(name@, kind),
{
    match kind {
        EntryKind::Dir => ("Dir", get_glyph("dir")),
        EntryKind::Link => ("Link", get_glyph("link")),
        EntryKind::File => {
            let c = file_category_of(name);
            if c.is_empty() {
                ("File", get_glyph("file"))
            } else {
                (c, get_glyph(c))
            }
        },
    }
}

/// The format token: `dir` for a directory, otherwise the extension cut to
/// six characters, or `N/A` without one.
pub open spec fn format_token(name: Seq<char>, kind: EntryKind) -> Seq<char> {
    if kind == EntryKind::Dir {
        "dir"@
    } else {
        match extension_of(name) {
            Some(e) => if e.len() > 6 {
                e.take(6)
            } else {
                e
            },
            None => "N/A"@,
        }
    }
}

/// Writes the format token of an entry.
pub fn format_of(name: &str, kind: EntryKind) -> (r: String)
    ensures
        r@ == format_token(name@, kind),
{
    if kind == EntryKind::Dir {
        return String::from_str("dir");
    }
    match file_extension(name) {
        Some(e) => {
            let cs = chars_of(e.as_str());
            if cs.len() > 6 {
                let mut out = String::new();
                let mut i: usize = 0;
                while i < 6
                    invariant
                        cs@ == e@,
                        cs.len() > 6,
                        i <= 6,
                        out@ == e@.take(i as int),
                    decreases 6 - i,
                {
                    push_char(&mut out, cs[i]);
                    i = i + 1;
                    proof {
                        assert(e@.take(i as int) =~= e@.take(i - 1).push(cs@[i - 1]));
                    }
                }
                out
            } else {
                e
            }
        },
        None => String::from_str("N/A"),
    }
}

/// The name cell: coloured glyph, reset, two spaces, the name, reset.
pub open spec fn name_cell_text(name: Seq<char>, kind: EntryKind) -> Seq<char> {
    entry_color(kind) + entry_glyph(name, kind) + color_of("reset"@) + seq![' ', ' '] + name
        + color_of("reset"@)
}

/// Writes the name cell of an entry.
pub fn name_cell(name: &str, kind: EntryKind) -> (r: String)
    ensures
        r@ == name_cell_text(name@, kind),
{
    let color = match kind {
        EntryKind::Dir => get_color("dir"),
        EntryKind::Link => get_color("link"),
        EntryKind::File => get_color("file"),
    };
    let (_, glyph) = classify(name, kind);
    let mut out = String::new();
    push_str(&mut out, color);
    push_str(&mut out, glyph);
    push_str(&mut out, get_color("reset"));
    push_str(&mut out, "  ");
    push_str(&mut out, name);
    push_str(&mut out, get_color("reset"));
    proof {
        reveal_strlit("  ");
        assert(out@ =~= name_cell_text(name@, kind));
    }
    out
}

} // verus!
