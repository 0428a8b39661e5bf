use deadbeef_hotkeys::title::{display_title_of, last_segment_after_unescaped_slash, unescape_slashes_in};

#[test]
fn no_slash_returns_whole_string() {
    assert_eq!(last_segment_after_unescaped_slash("abc"), "abc");
    assert_eq!(last_segment_after_unescaped_slash(""), "");
}

#[test]
fn simple_unescaped_slash() {
    assert_eq!(last_segment_after_unescaped_slash("a/b"), "b");
    assert_eq!(last_segment_after_unescaped_slash("hello/world"), "world");
}

#[test]
fn trailing_slash_returns_empty() {
    assert_eq!(last_segment_after_unescaped_slash("abc/"), "");
}

#[test]
fn only_slash_at_start() {
    assert_eq!(last_segment_after_unescaped_slash("/abc"), "abc");
    assert_eq!(last_segment_after_unescaped_slash("/"), "");
}

#[test]
fn escaped_slash_is_ignored() {
    assert_eq!(last_segment_after_unescaped_slash("a\\/b/c"), "c");
    assert_eq!(last_segment_after_unescaped_slash("a\\/b"), "a\\/b");
}

#[test]
fn multiple_escaped_and_unescaped_slashes() {
    assert_eq!(last_segment_after_unescaped_slash("x\\/y\\/z/fin"), "fin");
    assert_eq!(last_segment_after_unescaped_slash("one\\/two/three\\/four/five"), "five");
}

#[test]
fn utf8_characters() {
    assert_eq!(last_segment_after_unescaped_slash("å/ø"), "ø");
    assert_eq!(last_segment_after_unescaped_slash("テスト/終わり"), "終わり");
}

#[test]
fn escaped_slash_at_start() {
    assert_eq!(last_segment_after_unescaped_slash("\\/abc/def"), "def");
}

#[test]
fn unescaping_reads_backslash_slash_as_slash() {
    assert_eq!(unescape_slashes_in("a\\/b"), "a/b");
    assert_eq!(unescape_slashes_in("\\/\\/"), "//");
    assert_eq!(unescape_slashes_in("a\\b/c\\"), "a\\b/c\\");
    assert_eq!(unescape_slashes_in("\\\\/x"), "\\/x");
    assert_eq!(unescape_slashes_in(""), "");
}

#[test]
fn display_title_keeps_the_leaf_with_slashes_unescaped() {
    assert_eq!(display_title_of("Playback/Stop After Current"), "Stop After Current");
    assert_eq!(display_title_of("Edit/Cut\\/Paste"), "Cut/Paste");
    assert_eq!(display_title_of("Menu/"), "");
    assert_eq!(display_title_of("plain"), "plain");
}
