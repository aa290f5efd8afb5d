//! Colours and glyphs by name.

use vstd::prelude::*;
use crate::text::same_text;

verus! {

/// The colour sequence for a name; the empty text for an unknown name.
pub open spec fn color_of(name: Seq<char>) -> Seq<char> {
    if name == "dir"@ {
        "\x1b[95m"@
    } else if name == "file"@ {
        "\x1b[94m"@
    } else if name == "link"@ {
        "\x1b[96m"@
    } else if name == "header"@ {
        "\x1b[92m"@
    } else if name == "reset"@ {
        "\x1b[0m"@
    } else {
        ""@
    }
}

/// The glyph for a name; the empty text for an unknown name.
pub open spec fn glyph_of(name: Seq<char>) -> Seq<char> {
    if name == "dir"@ {
        "\u{f07c}"@
    } else if name == "file"@ {
        "\u{f15b}"@
    } else if name == "link"@ {
        "\u{f0c1}"@
    } else if name == "music"@ {
        "\u{f001}"@
    } else if name == "video"@ {
        "\u{f008}"@
    } else if name == "image"@ {
        "\u{f03e}"@
    } else if name == "archive"@ {
        "\u{f187}"@
    } else if name == "text"@ {
        "\u{f0f6}"@
    } else if name == "code"@ {
        "\u{f121}"@
    } else if name == "config"@ {
        "\u{f013}"@
    } else {
        ""@
    }
}

/// Looks up the colour sequence for `name`.
pub fn get_color(name: &str) -> (r: &'static str)
    ensures
        r@ == color_of(name@),
{
    if same_text(name, "dir") {
        "\x1b[95m"
    } else if same_text(name, "file") {
        "\x1b[94m"
    } else if same_text(name, "link") {
        "\x1b[96m"
    } else if same_text(name, "header") {
        "\x1b[92m"
    } else if same_text(name, "reset") {
        "\x1b[0m"
    } else {
        ""
    }
}

/// Looks up the glyph for `name`.
pub fn get_glyph(name: &str) -> (r: &'static str)
    ensures
        r@ == glyph_of(name@),
{
    if same_text(name, "dir") {
        "\u{f07c}"
    } else if same_text(name, "file") {
        "\u{f15b}"
    } else if same_text(name, "link") {
        "\u{f0c1}"
    } else if same_text(name, "music") {
        "\u{f001}"
    } else if same_text(name, "video") {
        "\u{f008}"
    } else if same_text(name, "image") {
        "\u{f03e}"
    } else if same_text(name, "archive") {
        "\u{f187}"
    } else if same_text(name, "text") {
        "\u{f0f6}"
    } else if same_text(name, "code") {
        "\u{f121}"
    } else if same_text(name, "config") {
        "\u{f013}"
    } else {
        ""
    }
}

} // verus!
