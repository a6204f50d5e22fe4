use std::time::{Duration, SystemTime};

use chloride::frame::{preview_lines, render_at_width};
use chloride::inline::{strip_ansi, visible_width};
use chloride::keys::Key;
use chloride::picker::{
    ago, ago_label, badge_with, date_label, editor_args, highlight, Outcome, PickerStep, Row, State, BODY_ROWS,
    CONTENT_CAP, DIM, HOT, RESET, WINDOW,
};
use chloride::search::{Hit, Kind, Query};

fn row(is_file: bool, secs_ago: u64) -> Row {
    let hit = if is_file {
        Hit::File { path: "a".to_string() }
    } else {
        Hit::Line {
            path: "a".to_string(),
            line: 1,
            text: "x".into(),
            context: false,
        }
    };
    Row {
        hit,
        size: 0,
        mtime: (1_000_000 - secs_ago) as u128 * 1_000_000_000,
    }
}

#[test]
fn ago_formats_each_bucket() {
    let now = SystemTime::now();
    assert_eq!(ago(now), "now");
    assert_eq!(ago(now - Duration::from_secs(300)), "5m");
    assert_eq!(ago(now - Duration::from_secs(7200)), "2h");
    assert_eq!(ago(now - Duration::from_secs(172800)), "2d");
    assert_eq!(ago(now + Duration::from_secs(600)), "now");
}

#[test]
fn insert_orders_files_first_then_newest() {
    let mut s = State::new("q".into());
    s.rows.push(row(false, 0));
    s.rows.push(row(true, 100));
    s.rows.sort_by(|a, b| {
        a.is_file()
            .cmp(&b.is_file())
            .reverse()
            .then_with(|| a.mtime.cmp(&b.mtime).reverse())
    });
    assert!(s.rows[0].is_file(), "files must sort ahead of content");
}

#[test]
fn content_cap_hides_the_tail_until_expanded() {
    let mut s = State::new("q".into());
    for _ in 0..CONTENT_CAP + 20 {
        s.rows.push(row(false, 0));
    }
    assert_eq!(s.visible_rows().len(), CONTENT_CAP);
    s.expanded = true;
    assert_eq!(s.visible_rows().len(), CONTENT_CAP + 20);
}

#[test]
fn clamp_scrolls_the_window_to_follow_the_cursor() {
    let mut s = State::new("q".into());
    for _ in 0..30 {
        s.rows.push(row(true, 0));
    }
    s.selected = 20;
    s.clamp();
    assert!(s.offset <= s.selected, "cursor must be at or after offset");
    assert!(s.selected < s.offset + WINDOW, "cursor must be inside the window");

    s.selected = 0;
    s.clamp();
    assert_eq!(s.offset, 0, "scrolling back to the top resets the offset");
}

#[test]
fn cursor_stays_pinned_to_the_top_until_the_user_moves() {
    let mut s = State::new("q".into());
    for _ in 0..20 {
        s.insert(Hit::File { path: "a".to_string() }, (0, 0));
    }
    assert_eq!(s.selected, 0, "cursor drifted before the user moved it");

    let mut s = State::new("q".into());
    for _ in 0..5 {
        s.insert(
            Hit::Line { path: "a".to_string(), line: 1, text: "x".into(), context: false },
            (0, 0),
        );
    }
    s.user_moved = true;
    s.selected = 3;
    s.insert(Hit::File { path: "a".to_string() }, (0, 0));
    assert_eq!(s.selected, 4, "cursor should follow its item after a move");
}

#[test]
fn hits_inside_one_file_are_ordered_by_line() {
    let mut s = State::new("q".into());
    for line in [13u64, 79, 1] {
        s.insert(
            Hit::Line { path: "upload.rs".to_string(), line, text: "x".into(), context: false },
            (0, 0),
        );
    }
    let lines: Vec<u64> = s.rows.iter().map(|r| r.line()).collect();
    assert_eq!(lines, vec![1, 13, 79]);
}

#[test]
fn one_stat_per_path_is_kept() {
    let mut s = State::new("q".into());
    s.insert(Hit::File { path: "a".to_string() }, (7, 100));
    // A later stat for the same path is ignored: the first one is kept.
    s.insert(
        Hit::Line { path: "a".to_string(), line: 3, text: "x".into(), context: false },
        (9, 500),
    );
    assert_eq!(s.cached_stat("a"), Some((7, 100)));
    assert!(s.rows.iter().all(|r| r.mtime == 100 && r.size == 7));
}

#[test]
fn selection_includes_the_line_for_content_hits() {
    let root = "";
    assert_eq!(row(true, 0).selection(root), "a");
    assert_eq!(row(false, 0).selection(root), "a:1");
}

#[test]
fn selection_is_relative_to_the_root() {
    let r = Row {
        hit: Hit::Line { path: "./src/a.rs".into(), line: 12, text: String::new(), context: false },
        size: 0,
        mtime: 0,
    };
    assert_eq!(r.selection("."), "src/a.rs:12");
    assert_eq!(r.selection("./"), "src/a.rs:12");
    assert_eq!(r.selection("elsewhere"), "./src/a.rs:12");
}

#[test]
fn badges_are_three_columns_in_both_modes() {
    for p in ["a.rs", "b.yaml", "c.png", "Makefile", "d.tar.gz", "e.zip"] {
        assert_eq!(visible_width(&badge_with(true, p)), 3, "{p}");
        assert_eq!(visible_width(&badge_with(false, p)), 3, "{p}");
    }
    assert_eq!(badge_with(true, "a.rs"), "🦀 ");
    assert_eq!(badge_with(false, "a.rs"), "rs ");
    assert_eq!(badge_with(true, "x.d"), "d  ");
    assert_eq!(badge_with(false, "Makefile"), "   ");
}

#[test]
fn highlight_is_case_insensitive_and_leaves_non_ascii_alone() {
    assert!(highlight("Needle here", "needle", "").contains(HOT));
    assert_eq!(highlight("héllo needle", "needle", ""), "héllo needle");
    assert_eq!(highlight("plain", "zz", ""), "plain");
    let h = highlight("a needle b", "needle", DIM);
    assert!(h.contains(&format!("{RESET}{DIM}")), "{h:?}");
    assert_eq!(
        highlight("a NEEDLE b", "needle", ""),
        format!("a {HOT}NEEDLE{RESET} b")
    );
}

#[test]
fn match_text_is_shown_inline_and_highlighted() {
    let mut state = State::new("needle".into());
    state.insert(
        Hit::Line { path: "src/a.rs".into(), line: 2, text: "let needle = 1;".into(), context: false },
        (0, 0),
    );
    // 80 columns is too narrow for the preview, so the row itself must carry
    // the matched text.
    let rendered = render_at_width(&state, ".", 80, 0, true, None).join("\n");
    let plain = strip_ansi(&rendered);
    assert!(plain.contains("let needle = 1;"), "{plain}");
    assert!(rendered.contains(HOT), "matched term should be highlighted");
    assert!(plain.contains("src/"), "{plain}");
}

#[test]
fn name_hits_render_as_one_row_not_a_heading_plus_row() {
    let mut state = State::new("zip".into());
    state.insert(Hit::File { path: "src/zipper.rs".into() }, (0, 0));
    let rendered = render_at_width(&state, ".", 80, 0, true, None).join("\n");
    let plain = strip_ansi(&rendered);
    assert_eq!(plain.matches("zipper.rs").count(), 1, "{plain}");
}

#[test]
fn a_frame_has_a_fixed_height_and_shows_the_preview_when_wide() {
    let mut state = State::new("needle".into());
    state.insert(
        Hit::Line { path: "src/a.rs".into(), line: 2, text: "  let needle = 1;".into(), context: false },
        (2048, 0),
    );
    state.done = true;
    let narrow = render_at_width(&state, ".", 80, 120_000_000_000, true, None);
    assert_eq!(narrow.len(), 3 + BODY_ROWS + 2);
    let plain = strip_ansi(&narrow[1]);
    assert!(plain.contains("1 match"), "{plain}");
    assert!(plain.contains("content"), "{plain}");
    let wide = render_at_width(&state, ".", 120, 0, true, Some("fn main() {}\nlet needle = 1;\n"));
    assert_eq!(wide.len(), 3 + BODY_ROWS + 2);
    let joined = strip_ansi(&wide.join("\n"));
    assert!(joined.contains("▍ a.rs"), "{joined}");
    assert!(joined.contains("fn main() {}"), "{joined}");
    let unreadable = render_at_width(&state, ".", 120, 0, true, None);
    assert!(strip_ansi(&unreadable.join("\n")).contains("(cannot preview)"));
    let empty = State::new("zz".into());
    let frame = strip_ansi(&render_at_width(&empty, ".", 80, 0, false, None).join("\n"));
    assert!(frame.contains("searching…"), "{frame}");
}

#[test]
fn preview_centres_on_the_match_and_keeps_its_height() {
    let row = Row {
        hit: Hit::Line { path: "d/f.txt".into(), line: 3, text: String::new(), context: false },
        size: 0,
        mtime: 0,
    };
    let text = "one\r\ntwo\nthree  \nfour\n";
    let lines = preview_lines(Some(&row), Some(text), 80, 4);
    assert_eq!(lines.len(), 4);
    let plain: Vec<String> = lines.iter().map(|l| strip_ansi(l)).collect();
    assert_eq!(plain[0], "▍ f.txt");
    assert_eq!(plain[1], "     2  two");
    assert_eq!(plain[2], "›    3  three");
    assert_eq!(plain[3], "     4  four");
    assert_eq!(preview_lines(None, None, 80, 3), vec![String::new(), String::new(), String::new()]);
}

#[test]
fn picker_keys_move_select_and_edit() {
    let mut s = State::new("a".into());
    for n in 1..=3u64 {
        s.insert(Hit::Line { path: "x".into(), line: n, text: "a".into(), context: false }, (0, 0));
    }
    assert!(matches!(s.on_key(Key::Char('j'), false, "."), PickerStep::Continue));
    assert_eq!(s.selected, 1);
    assert!(s.user_moved);
    match s.on_key(Key::Enter, false, ".") {
        PickerStep::Finish(Outcome::Selected(t)) => assert_eq!(t, "x:2"),
        _ => panic!("expected a selection"),
    }
    assert!(matches!(s.on_key(Key::Char('e'), false, "."), PickerStep::Edit(1)));
    assert!(matches!(s.on_key(Key::Char('c'), true, "."), PickerStep::Finish(Outcome::Cancelled)));
    assert!(matches!(s.on_key(Key::Char('c'), false, "."), PickerStep::Continue));
    s.on_key(Key::Tab, false, ".");
    assert!(s.expanded);
    s.on_key(Key::Char('p'), true, ".");
    assert!(!s.preview);
    s.on_key(Key::Char('/'), false, ".");
    assert!(s.editing);
    assert!(matches!(s.on_key(Key::Char('b'), false, "."), PickerStep::Restart));
    assert_eq!(s.pattern, "ab");
    assert!(matches!(s.on_key(Key::Backspace, false, "."), PickerStep::Restart));
    assert_eq!(s.pattern, "a");
    s.on_key(Key::Enter, false, ".");
    assert!(!s.editing);
}

#[test]
fn restarting_reinfers_the_kind() {
    let mut s = State::new("*.zip".into());
    s.insert(Hit::File { path: "a.zip".into() }, (0, 0));
    let base = Query::new("old", "/r", Kind::Content);
    let q = s.restart_query(&base, true).unwrap();
    assert_eq!(q.pattern, "*.zip");
    assert_eq!(q.root, "/r");
    assert_eq!(q.kind, Kind::Files);
    assert!(s.mode_names);
    assert!(s.rows.is_empty());
    let q = s.restart_query(&base, false).unwrap();
    assert_eq!(q.kind, Kind::Content);
    s.pattern.clear();
    assert!(s.restart_query(&base, true).is_none());
}

#[test]
fn editors_get_the_line_their_way() {
    assert_eq!(editor_args("/usr/bin/vim", "a.rs", Some(4)), vec!["+4", "a.rs"]);
    assert_eq!(editor_args("code", "a.rs", Some(4)), vec!["-g", "a.rs:4"]);
    assert_eq!(editor_args("hx", "a.rs", Some(4)), vec!["a.rs:4"]);
    assert_eq!(editor_args("notepad.exe", "a.rs", Some(4)), vec!["a.rs"]);
    assert_eq!(editor_args("vim", "a.rs", None), vec!["a.rs"]);
}

#[test]
fn ages_count_to_the_given_time() {
    let now: u128 = 10_000 * 1_000_000_000;
    let mut s = State::new("q".into());
    s.insert(Hit::File { path: "f".into() }, (0, now - 7200 * 1_000_000_000));
    let frame = strip_ansi(&render_at_width(&s, ".", 80, now, false, None).join("\n"));
    assert!(frame.contains("0 B · 2h"), "{frame}");
}

#[test]
fn arrows_hop_between_files_and_ctrl_or_jk_move_one_row() {
    let mut s = State::new("a".into());
    for (path, n) in [("x", 1u64), ("x", 2), ("x", 3), ("y", 1), ("y", 2), ("z", 4)] {
        s.insert(Hit::Line { path: path.into(), line: n, text: "a".into(), context: false }, (0, 0));
    }
    let paths: Vec<&str> = s.rows.iter().map(|r| r.hit.path()).collect();
    assert_eq!(paths, vec!["x", "x", "x", "y", "y", "z"]);
    s.on_key(Key::Down, false, ".");
    assert_eq!(s.selected, 3);
    assert!(s.user_moved);
    s.on_key(Key::Down, true, ".");
    assert_eq!(s.selected, 4);
    s.on_key(Key::Down, false, ".");
    assert_eq!(s.selected, 5);
    s.on_key(Key::Down, false, ".");
    assert_eq!(s.selected, 5);
    s.on_key(Key::Up, false, ".");
    assert_eq!(s.selected, 3);
    s.on_key(Key::Char('j'), false, ".");
    assert_eq!(s.selected, 4);
    s.on_key(Key::Up, false, ".");
    assert_eq!(s.selected, 0);
    s.on_key(Key::Up, false, ".");
    assert_eq!(s.selected, 0);
    s.on_key(Key::Char('j'), false, ".");
    s.on_key(Key::Up, true, ".");
    assert_eq!(s.selected, 0);
    s.on_key(Key::Char('k'), false, ".");
    assert_eq!(s.selected, 0);
}

#[test]
fn old_times_show_their_date() {
    assert_eq!(date_label(0), "1970-01-01");
    assert_eq!(date_label(31_536_000), "1971-01-01");
    assert_eq!(date_label(951_782_400), "2000-02-29");
    assert_eq!(date_label(1_714_521_600 + 3_600), "2024-05-01");
    assert_eq!(date_label(4_102_444_800), "2100-01-01");
    assert_eq!(ago_label(Some(2_592_000), 1_714_521_600), "2024-05-01");
    assert_eq!(ago_label(Some(2_591_999), 1_714_521_600), "29d");
    assert_eq!(ago_label(None, 0), "now");
    let long_ago = SystemTime::UNIX_EPOCH + Duration::from_secs(951_782_400);
    assert_eq!(ago(long_ago), "2000-02-29");
}
