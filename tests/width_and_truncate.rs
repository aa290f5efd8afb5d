use dirtable::truncate::{truncate, truncate_clusters};
use dirtable::width::display_width;

#[test]
fn ascii_width_is_char_count() {
    assert_eq!(display_width("hello world"), 11);
    assert_eq!(display_width(""), 0);
    assert_eq!(display_width("~!@#$%^&*()"), 11);
}

#[test]
fn colored_text_has_width_of_text() {
    assert_eq!(display_width("\x1b[31mhello\x1b[0m"), 5);
    assert_eq!(display_width("\x1b[95m\u{f07c}\x1b[0m  src\x1b[0m"), 6);
}

#[test]
fn unterminated_escape_hides_rest() {
    assert_eq!(display_width("ab\x1b[31"), 2);
    assert_eq!(display_width("ab\x1b[31xyz"), 2);
}

#[test]
fn wide_and_combining_characters() {
    assert_eq!(display_width("日本語"), 6);
    assert_eq!(display_width("e\u{301}"), 1);
}

#[test]
fn truncate_keeps_prefix_within_width() {
    assert_eq!(truncate("abcdef", 3), "abc");
    assert_eq!(truncate("abc", 10), "abc");
    assert_eq!(truncate("日本語", 5), "日本");
    assert_eq!(truncate("日本語", 1), "");
    assert_eq!(truncate("", 4), "");
}

#[test]
fn truncate_is_idempotent() {
    for text in ["abcdef", "日本語テキスト", "e\u{301}e\u{301}e\u{301}", "\x1b[95mname\x1b[0m"] {
        for max in 0..12 {
            let once = truncate(text, max);
            assert!(display_width(&once) <= max);
            assert_eq!(truncate(&once, max), once);
            assert!(text.starts_with(once.as_str()));
        }
    }
}

#[test]
fn truncate_never_splits_a_cluster() {
    // "e" with a combining acute accent is one cluster of width one.
    assert_eq!(truncate("e\u{301}xy", 1), "e\u{301}");
    assert_eq!(truncate("e\u{301}xy", 0), "");
    // A flag is one cluster of two regional indicators.
    let flag = "\u{1f1eb}\u{1f1f7}";
    let cut = truncate(flag, 1);
    assert!(cut.is_empty() || cut == flag);
}

#[test]
fn clusters_are_kept_greedily() {
    let clusters = vec!["ab".to_string(), "c".to_string(), "de".to_string()];
    assert_eq!(truncate_clusters(&clusters, 0), "");
    assert_eq!(truncate_clusters(&clusters, 2), "ab");
    assert_eq!(truncate_clusters(&clusters, 4), "abc");
    assert_eq!(truncate_clusters(&clusters, 5), "abcde");
    // The kept text is measured as a whole: an escape split over clusters
    // counts nothing.
    let split = vec!["\x1b".to_string(), "[".to_string(), "m".to_string(), "x".to_string()];
    assert_eq!(truncate_clusters(&split, 0), "\x1b[m");
    assert_eq!(truncate_clusters(&split, 1), "\x1b[mx");
}

#[test]
fn colour_sequences_do_not_count_when_cutting() {
    assert_eq!(truncate("\x1b[95mabcdef\x1b[0m", 3), "\x1b[95mabc");
    assert_eq!(truncate("\x1b[95mabc\x1b[0m", 3), "\x1b[95mabc\x1b[0m");
    let name = "\x1b[94m\u{f15b}\x1b[0m  ".to_string() + &"x".repeat(50) + "\x1b[0m";
    let cut = truncate(&name, 40);
    assert_eq!(display_width(&cut), 40);
    assert_eq!(cut, "\x1b[94m\u{f15b}\x1b[0m  ".to_string() + &"x".repeat(37));
}

#[test]
fn text_that_fits_comes_back_whole() {
    for text in ["", "abc", "日本", "\x1b[31mred\x1b[0m", "e\u{301}"] {
        let w = display_width(text);
        assert_eq!(truncate(text, w), text);
        assert_eq!(truncate(text, w + 3), text);
    }
}
