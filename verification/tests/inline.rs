use chloride::inline::{fit, pad_to, strip_ansi, truncate, visible_width};

#[test]
fn strip_ansi_removes_escapes_only() {
    assert_eq!(strip_ansi("\x1b[36mhi\x1b[0m"), "hi");
    assert_eq!(strip_ansi("plain"), "plain");
    assert_eq!(strip_ansi("\x1b[2m▶\x1b[0m x"), "▶ x");
}

#[test]
fn truncate_counts_visible_characters_not_escape_bytes() {
    let coloured = "\x1b[36mabcdefghij\x1b[0m";
    assert_eq!(strip_ansi(&truncate(coloured, 100)).chars().count(), 10);
    assert_eq!(truncate("abcdefghij", 5), "abcd…");
    assert_eq!(truncate("abc", 10), "abc");
    // Exactly at the limit is left alone.
    assert_eq!(truncate("abcde", 5), "abcde");
}

#[test]
fn truncate_keeps_colour_on_a_cut_line() {
    let cut = truncate("\x1b[36mabcdefghij\x1b[0m", 5);
    assert!(cut.contains("\x1b[36m"), "lost its colour: {cut:?}");
    assert!(cut.ends_with("\x1b[0m"), "left an attribute open: {cut:?}");
    assert_eq!(strip_ansi(&cut), "abcd…");
    // A plain line gains no stray reset.
    assert_eq!(truncate("abcdefghij", 5), "abcd…");
}

#[test]
fn fit_pads_by_visible_width_not_byte_length() {
    let out = fit("\x1b[36mabc\x1b[0m", 8);
    assert_eq!(visible_width(&out), 8, "{out:?}");
    assert!(out.contains("\x1b[36m"));
    assert_eq!(visible_width(&fit("abcdefghij", 5)), 5);
    assert_eq!(fit("ab", 5), "ab   ");
}

#[test]
fn pad_to_fixes_the_row_count_in_both_directions() {
    assert_eq!(pad_to(vec!["a".into()], 3), vec!["a", "", ""]);
    assert_eq!(pad_to(vec!["a".into(), "b".into(), "c".into()], 2), vec!["a", "b"]);
}

#[test]
fn truncate_to_zero_columns_leaves_nothing_visible() {
    assert_eq!(truncate("abc", 0), "");
    assert_eq!(truncate("", 0), "");
    assert_eq!(truncate("abc", 1), "…");
    assert_eq!(truncate("\x1b[1mabc", 0), "\x1b[1m\x1b[0m");
}

#[test]
fn wide_characters_are_cut_and_padded_by_columns() {
    let crabs = "🦀🦀🦀";
    assert_eq!(visible_width(crabs), 6);
    let cut = truncate(crabs, 4);
    assert_eq!(cut, "🦀…");
    assert!(visible_width(&cut) <= 4);
    assert_eq!(truncate(crabs, 6), crabs);
    assert_eq!(truncate("🦀🦀🦀🦀", 6), "🦀🦀…");
    assert_eq!(truncate("a🦀b", 3), "a…");
    let fitted = fit("🦀🦀🦀🦀", 5);
    assert_eq!(visible_width(&fitted), 5);
    assert_eq!(fitted, "🦀🦀…");
    assert_eq!(visible_width(&fit("日本語のテキスト", 7)), 7);
}

#[test]
fn hyperlinks_and_all_control_sequences_are_escapes() {
    let link = "\x1b]8;;http://x\x1b\\link\x1b]8;;\x1b\\";
    assert_eq!(strip_ansi(link), "link");
    assert_eq!(visible_width(link), 4);
    assert_eq!(strip_ansi("\x1b]0;title\x07text"), "text");
    assert_eq!(strip_ansi("a\x1b[2~b\x1b[1;5Hc\x1b[?25ld"), "abcd");
    assert_eq!(strip_ansi("\x1b(Bx\x1b7y"), "xy");
    let cut = truncate("\x1b]8;;http://x\x1b\\abcdef\x1b]8;;\x1b\\", 4);
    assert_eq!(strip_ansi(&cut), "abc…");
    assert!(cut.starts_with("\x1b]8;;http://x\x1b\\abc"));
}

#[test]
fn truncate_passes_an_unterminated_escape_through() {
    // An escape with no closing letter hides the rest of the line.
    assert_eq!(strip_ansi("ab\x1b[12"), "ab");
    assert_eq!(visible_width("ab\x1b[12"), 2);
}

#[test]
fn fit_of_a_coloured_long_line_is_exactly_the_width() {
    let out = fit("\x1b[1mabcdefghijklmnop", 6);
    assert_eq!(visible_width(&out), 6);
    assert_eq!(strip_ansi(&out), "abcde…");
    assert!(out.ends_with("\x1b[0m"));
}

#[test]
fn truncation_keeps_the_visible_prefix_and_an_ellipsis() {
    let s = "\x1b[1mhello\x1b[0m world";
    let cut = truncate(s, 7);
    assert_eq!(strip_ansi(&cut), "hello …");
    assert!(cut.ends_with("\x1b[0m"));
    assert_eq!(truncate(s, 11), s);
    assert_eq!(strip_ansi(&strip_ansi(s)), strip_ansi(s));
    assert_eq!(strip_ansi("no escapes"), "no escapes");
    assert_eq!(visible_width(&fit(s, 20)), 20);
    assert_eq!(visible_width(&fit(s, 4)), 4);
}
