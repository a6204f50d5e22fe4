use chloride::paths::{download_name, download_step, numbered_name, stem_of, tried_name_at, unique_download_path};
use chloride::api::RemoteFile;
use chloride::app::{mime_for, typed_name};
use chloride::commands::{confirmed, logout_message, remove_step, user_line, RemoveStep};
use chloride::config::{Config, UserInfo};
use chloride::find::{
    block_lines, ext_filter, plan_find, root_of, rule_for, summary_lines, DiffReport, FindPrinter,
    SearchOpts,
};
use chloride::inline::{redraw_text, strip_ansi, term_width, usable_width};
use chloride::keys::Key;
use chloride::regenerate::{build_lines, check_files};
use chloride::search::{ext_allows, keep_entry, line_hit, name_hit, Hit, Kind};
use chloride::upload::{
    build_picker_lines, check_upload, clip, expiry_option, fmt_seconds, pick_step, upload_mime,
    upload_name, PickStep,
};

fn opts() -> SearchOpts {
    SearchOpts {
        no_hidden: false,
        no_ignore: false,
        limit: None,
        ext: Some(".RS".into()),
        print0: false,
        context: 1,
        no_input: false,
    }
}

#[test]
fn find_infers_the_kind_and_the_view() {
    let p = plan_find("*.zip", ".", false, false, false, &opts(), true, true, true);
    assert_eq!(p.query.kind, Kind::Files);
    assert!(p.auto_kind && p.interactive && !p.rendered);
    assert_eq!(p.query.context, 0);
    assert_eq!(p.query.ext.as_deref(), Some("rs"));
    let p = plan_find("TODO", "src", false, false, false, &opts(), true, false, true);
    assert_eq!(p.query.kind, Kind::Content);
    assert!(p.rendered && !p.interactive);
    assert_eq!(p.query.context, 1);
    let p = plan_find("*.zip", ".", false, true, false, &opts(), false, true, true);
    assert_eq!(p.query.kind, Kind::Content);
    assert!(!p.auto_kind);
    assert_eq!(ext_filter("..Md"), "md");
    assert_eq!(root_of(None), ".");
    assert_eq!(root_of(Some("x".into())), "x");
}

fn line(path: &str, n: u64, text: &str, context: bool) -> Hit {
    Hit::Line { path: path.into(), line: n, text: text.into(), context }
}

#[test]
fn printer_lists_each_file_once_with_l() {
    let mut p = FindPrinter::new("/r".into(), true, false, false);
    assert_eq!(p.line_for(&line("/r/a", 1, "x", false)).as_deref(), Some("a\n"));
    assert_eq!(p.line_for(&line("/r/a", 2, "y", false)), None);
    assert_eq!(p.count, 1);
    let mut p = FindPrinter::new("/r".into(), false, true, false);
    assert_eq!(p.line_for(&line("/r/a", 2, "y", false)).as_deref(), Some("a:2:y\0"));
    assert_eq!(p.line_for(&Hit::File { path: "/elsewhere/b".into() }).as_deref(), Some("/elsewhere/b\0"));
    let mut p = FindPrinter::new(".".into(), false, false, true);
    assert_eq!(
        p.line_for(&line("./a", 3, "z", false)).as_deref(),
        Some("\x1b[36ma\x1b[0m\x1b[2m:3:\x1b[0mz\n")
    );
}

#[test]
fn grouped_view_sorts_dedups_and_marks_gaps() {
    let mut r = DiffReport::new();
    r.add(line("b", 5, "five", false));
    r.add(line("a", 9, "nine", true));
    r.add(line("b", 4, "four", true));
    r.add(line("b", 5, "five again", true));
    r.add(line("b", 1, "one", false));
    r.add(Hit::File { path: "c".into() });
    assert_eq!(r.order, vec!["b", "a"]);
    assert_eq!(r.matches, 2);
    let rows = r.groups[0].clone();
    let block = block_lines("b", rows, "──", 80, true);
    let plain: Vec<String> = block.iter().map(|l| strip_ansi(l)).collect();
    assert_eq!(plain[0], "  b   2 matches");
    assert_eq!(plain[1], "  ──");
    assert_eq!(plain[2], "›     1 │ one");
    assert_eq!(plain[3], "      ⋮");
    assert_eq!(plain[4], "      4 │ four");
    assert_eq!(plain[5], "›     5 │ five");
    assert_eq!(plain.len(), 6);
    let second = block_lines("a", r.groups[1].clone(), "──", 80, false);
    assert_eq!(second[0], "");
    let s = summary_lines(1, 1);
    assert_eq!(strip_ansi(&s[1]), "  1 match in 1 file");
    assert_eq!(strip_ansi(&summary_lines(3, 2)[1]), "  3 matches in 2 files");
    assert_eq!(rule_for(10).chars().count(), 8);
    assert_eq!(rule_for(200).chars().count(), 72);
    assert_eq!(rule_for(1), "");
}

#[test]
fn walk_filters_and_hits() {
    assert!(keep_entry(0, ".git"));
    assert!(!keep_entry(1, ".git"));
    assert!(keep_entry(3, ".github"));
    assert!(ext_allows(None, "a"));
    assert!(ext_allows(Some("rs"), "src/A.RS"));
    assert!(!ext_allows(Some("rs"), "Makefile"));
    assert!(name_hit(Kind::Files, "zip", true, "dir/Archive.ZIP"));
    assert!(!name_hit(Kind::Content, "zip", true, "dir/a.zip"));
    assert!(name_hit(Kind::Both, "*.rs", false, "x/main.rs"));
    match line_hit("p", None, b"hello\r\n", true) {
        Hit::Line { path, line, text, context } => {
            assert_eq!((path.as_str(), line, text.as_str(), context), ("p", 0, "hello", true));
        }
        _ => panic!("expected a line"),
    }
    match line_hit("p", Some(4), b"a\xffb\n", false) {
        Hit::Line { text, .. } => assert_eq!(text, "a\u{fffd}b"),
        _ => panic!("expected a line"),
    }
}

#[test]
fn term_width_never_returns_an_unusable_value() {
    let w = term_width();
    assert!(w >= 20, "got {w}");
    assert_eq!(usable_width(None), 80);
    assert_eq!(usable_width(Some(0)), 80);
    assert_eq!(usable_width(Some(19)), 80);
    assert_eq!(usable_width(Some(132)), 132);
}

#[test]
fn redraw_moves_up_and_clears_each_row() {
    let lines = vec!["ab".to_string(), "cdefgh".to_string()];
    assert_eq!(redraw_text(&lines, 0, 80), "\r\x1b[Kab\r\n\r\x1b[Kcdefgh");
    assert_eq!(redraw_text(&lines, 3, 4), "\x1b[2A\r\x1b[Kab\r\n\r\x1b[Kcde…");
    assert_eq!(redraw_text(&Vec::new(), 1, 4), "");
}

#[test]
fn upload_checks_names_and_types() {
    assert_eq!(check_upload(0, true, true), Err("No files given".to_string()));
    assert_eq!(check_upload(1, false, false), Err("Not logged in. Run `cl login`.".to_string()));
    assert!(check_upload(1, false, true).is_ok());
    assert_eq!(upload_name("/tmp/a.zip"), "a.zip");
    assert_eq!(upload_name("/"), "file");
    assert_eq!(upload_mime("x/A.PNG"), "image/png");
    assert_eq!(upload_mime("app.apk"), "application/octet-stream");
    assert_eq!(mime_for("app.apk"), "application/vnd.android.package-archive");
    assert_eq!(mime_for("notes.MD"), "text/plain");
    assert_eq!(mime_for("a.jpeg"), "image/jpeg");
    assert_eq!(mime_for("song.mp3"), "audio/mpeg");
    assert_eq!(mime_for("x"), "application/octet-stream");
}

#[test]
fn expiry_picker_and_durations() {
    assert_eq!(expiry_option(0), (604800, "7 days"));
    assert_eq!(expiry_option(2), (31536000, "365 days"));
    let lines = build_picker_lines(1);
    assert_eq!(lines.len(), 7);
    assert_eq!(lines[3], " \x1b[36m▶ 30 days\x1b[0m");
    assert_eq!(lines[2], "   7 days");
    assert_eq!(pick_step(0, Key::Up, 3), PickStep::Stay(0));
    assert_eq!(pick_step(2, Key::Char('j'), 3), PickStep::Stay(2));
    assert_eq!(pick_step(1, Key::Enter, 3), PickStep::Chosen(1));
    assert_eq!(pick_step(1, Key::Char('q'), 3), PickStep::Cancelled);
    assert_eq!(fmt_seconds(59), "59s");
    assert_eq!(fmt_seconds(61), "1m 1s");
    assert_eq!(fmt_seconds(7260), "2h 1m");
    assert_eq!(clip("abcdef", 4), "abc…");
    assert_eq!(clip("abc", 4), "abc");
    assert_eq!(clip("abc", 0), "…");
}

fn remote(id: i64, name: &str) -> RemoteFile {
    RemoteFile {
        id,
        name: name.into(),
        size: 1536,
        created_at: String::new(),
        original_view_url: None,
        original_download_url: None,
        short_view_url: None,
        short_download_url: None,
    }
}

#[test]
fn regenerate_picker_windows_the_list() {
    let files: Vec<RemoteFile> = (0..30).map(|i| remote(i, "f")).collect();
    let lines = build_lines(&files, 20, 10);
    assert_eq!(lines.len(), 14);
    assert_eq!(lines[2], "   #15  f  (1.5 KB)");
    assert_eq!(lines[7], " \x1b[36m▶\x1b[0m #20  f  (1.5 KB)");
    assert_eq!(build_lines(&files[..2].to_vec(), 0, 10).len(), 6);
    assert_eq!(check_files(0), Err("No files found".to_string()));
    assert!(check_files(2).is_ok());
}

#[test]
fn rm_decides_from_what_it_finds() {
    assert!(matches!(remove_step("x", false, false, false, true), RemoveStep::Quiet));
    match remove_step("x", false, false, false, false) {
        RemoveStep::Refuse(m) => assert_eq!(m, "cl: cannot remove 'x': No such file or directory"),
        _ => panic!(),
    }
    match remove_step("d", true, true, false, false) {
        RemoveStep::Refuse(m) => assert_eq!(m, "cl: cannot remove 'd': Is a directory. Use -r/--recursive."),
        _ => panic!(),
    }
    match remove_step("d", true, true, true, false) {
        RemoveStep::Ask(q) => assert_eq!(q, "🗑️  Delete directory 'd'? (y/N): "),
        _ => panic!(),
    }
    assert!(matches!(remove_step("f", true, false, false, true), RemoveStep::Delete));
    assert!(confirmed(" Yes\n"));
    assert!(confirmed("y"));
    assert!(!confirmed("yep"));
    assert!(!confirmed(""));
}

#[test]
fn whoami_and_logout_lines() {
    let u = UserInfo { id: 7, email: "a@b".into(), role: None, plan: Some("pro".into()) };
    assert_eq!(user_line(&u), "a@b (id: 7, role: none, plan: pro)");
    let mut c = Config::default();
    assert_eq!(logout_message(&c), "ℹ️  Not logged in");
    c.token = Some("t".into());
    c.user = Some(u);
    assert_eq!(logout_message(&c), "✅ Logged out (a@b)");
    assert_eq!(typed_name("  new.txt "), Some("new.txt".to_string()));
    assert_eq!(typed_name("   "), None);
}

#[test]
fn a_line_that_is_match_and_context_shows_once_as_a_match() {
    let rows = vec![
        (7, "seven".to_string(), true),
        (3, "three ctx".to_string(), true),
        (7, "seven match".to_string(), false),
        (3, "three".to_string(), false),
        (3, "three again".to_string(), true),
        (2, "two".to_string(), true),
    ];
    let block = block_lines("f", rows, "─", 80, true);
    let plain: Vec<String> = block.iter().map(|l| strip_ansi(l)).collect();
    assert_eq!(plain[0], "  f   2 matches");
    assert_eq!(plain[2], "      2 │ two");
    assert_eq!(plain[3], "›     3 │ three");
    assert_eq!(plain[4], "      ⋮");
    assert_eq!(plain[5], "›     7 │ seven match");
    assert_eq!(plain.len(), 6);
}

#[test]
fn download_names_are_numbered_before_the_extension() {
    assert_eq!(numbered_name("report", Some("pdf"), 2), "report (2).pdf");
    assert_eq!(numbered_name("notes", None, 1), "notes (1)");
    assert_eq!(numbered_name("a.tar", Some("gz"), 10), "a.tar (10).gz");
}

#[test]
fn download_candidates_sit_beside_the_wanted_path() {
    assert_eq!(stem_of("/home/u/report.pdf").as_deref(), Some("report"));
    assert_eq!(stem_of("/home/u/.bashrc").as_deref(), Some(".bashrc"));
    assert_eq!(stem_of("/home/u/a.tar.gz").as_deref(), Some("a.tar"));
    assert_eq!(stem_of("/"), None);
    assert_eq!(download_name("/home/u/report.pdf", 1), "/home/u/report (1).pdf");
    assert_eq!(download_name("/home/u/notes", 3), "/home/u/notes (3)");
    assert_eq!(download_name("/home/u/a.tar.gz", 2), "/home/u/a.tar (2).gz");
    let missing = "/nonexistent-dir-for-cl-tests/file.txt";
    assert_eq!(unique_download_path(missing), missing);
    let taken = unique_download_path("/");
    assert!(taken.starts_with("download ("), "{taken}");
}

#[test]
fn each_download_step_keeps_a_free_name_or_moves_on() {
    assert_eq!(tried_name_at("/h/r.pdf", 0), "/h/r.pdf");
    assert_eq!(tried_name_at("/h/r.pdf", 2), "/h/r (2).pdf");
    assert_eq!(download_step("/h/r.pdf", 0, false).as_deref(), Some("/h/r.pdf"));
    assert_eq!(download_step("/h/r.pdf", 0, true), None);
    assert_eq!(download_step("/h/r.pdf", 3, false).as_deref(), Some("/h/r (3).pdf"));
    assert_eq!(download_step("/h/r.pdf", 3, true), None);
}
