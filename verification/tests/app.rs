use chloride::api::{RegenerateUrlsResult, RemoteFile, UploadResult};
use chloride::app::{
    human_size, sort_entries, App, AuthForm, AuthKind, Entry, InputKind, Listing, Mode,
    SearchState, StatusKind, View,
};
use chloride::config::Config;
use chloride::picker::CONTENT_CAP;
use chloride::search::{Hit, Kind};

fn line(path: &str, n: u64) -> Hit {
    Hit::Line {
        path: path.to_string(),
        line: n,
        text: "x".into(),
        context: false,
    }
}

/// Feed hits in the order given, as a parallel walk would; every file has
/// the same modification time.
fn state_with(hits: Vec<Hit>) -> SearchState {
    let mut s = SearchState::new();
    for h in hits {
        s.insert(h, 0);
    }
    s
}

fn shown(s: &SearchState) -> Vec<String> {
    s.hits
        .iter()
        .map(|h| match h {
            Hit::File { path } => path.clone(),
            Hit::Line { path, line, .. } => format!("{path}:{line}"),
        })
        .collect()
}

#[test]
fn tui_search_orders_results_like_the_inline_picker() {
    let s = state_with(vec![
        line("b.rs", 5),
        Hit::File { path: "z.rs".into() },
        line("b.rs", 1),
        line("a.rs", 2),
    ]);
    let shown = shown(&s);
    assert_eq!(shown[0], "z.rs", "name hits sort first: {shown:?}");
    let b: Vec<&String> = shown.iter().filter(|s| s.starts_with("b.rs")).collect();
    assert_eq!(b, vec!["b.rs:1", "b.rs:5"], "{shown:?}");
}

#[test]
fn tui_search_caps_content_hits_until_expanded() {
    let hits: Vec<Hit> = (1..=CONTENT_CAP as u64 + 20).map(|n| line("a.rs", n)).collect();
    let mut s = state_with(hits);
    assert_eq!(s.visible_len(), CONTENT_CAP);
    assert_eq!(s.visible().len(), CONTENT_CAP);
    s.expanded = true;
    assert_eq!(s.visible_len(), CONTENT_CAP + 20);
}

#[test]
fn tui_search_arrows_hop_files_and_ctrl_moves_lines() {
    let mut s = state_with(vec![
        line("a.rs", 1),
        line("a.rs", 2),
        line("a.rs", 3),
        line("b.rs", 1),
        line("b.rs", 2),
    ]);
    s.selected = 1;
    s.move_file(true);
    assert_eq!(s.current().unwrap().path(), "b.rs");
    s.move_file(false);
    assert_eq!(s.selected, 0);
    s.move_file(false);
    assert_eq!(s.selected, 0);
    s.move_down();
    assert_eq!(s.selected, 1);
    s.move_up();
    assert_eq!(s.selected, 0);
}

#[test]
fn streaming_results_do_not_drag_the_cursor_until_the_user_moves() {
    let mut s = SearchState::new();
    for n in (1..=10).rev() {
        s.insert(line("a.rs", n), 0);
    }
    assert_eq!(s.selected, 0, "cursor drifted before the user moved it");

    let mut s = state_with(vec![line("b.rs", 2), line("b.rs", 3)]);
    s.user_moved = true;
    s.selected = 0;
    s.insert(line("b.rs", 1), 0);
    assert_eq!(s.selected, 1, "cursor should follow its item after a move");
}

#[test]
fn newer_files_sort_first_and_a_path_keeps_its_first_time() {
    let mut s = SearchState::new();
    s.insert(line("old.rs", 1), 10);
    s.insert(line("new.rs", 1), 20);
    // A later stat of old.rs is ignored: the first one recorded stands.
    s.insert(line("old.rs", 2), 99);
    assert_eq!(shown(&s), vec!["new.rs:1", "old.rs:1", "old.rs:2"]);
    assert_eq!(s.cached_mtime("old.rs"), Some(10));
    assert_eq!(s.cached_mtime("missing"), None);
}

#[test]
fn backward_hop_lands_on_the_first_hit_of_the_previous_file() {
    let mut s = state_with(vec![
        line("a.rs", 1),
        line("a.rs", 2),
        line("b.rs", 1),
        line("b.rs", 2),
        line("b.rs", 3),
        line("c.rs", 1),
    ]);
    s.selected = 5;
    s.move_file(false);
    assert_eq!(s.selected, 2);
    s.move_file(true);
    assert_eq!(s.selected, 5);
    // Past the end of the file list nothing moves.
    s.move_file(true);
    assert_eq!(s.selected, 5);
    assert!(s.user_moved);
}

#[test]
fn counts_split_names_from_content() {
    let s = state_with(vec![Hit::File { path: "x".into() }, line("a", 1), line("a", 2)]);
    assert_eq!(s.file_count(), 1);
    assert_eq!(s.content_count(), 2);
    assert_eq!(s.visible_len(), 3);
}

#[test]
fn human_size_matches_floating_point_formatting() {
    fn reference(bytes: u64) -> String {
        let units = ["B", "KB", "MB", "GB", "TB"];
        if bytes == 0 {
            return "0 B".into();
        }
        let mut size = bytes as f64;
        let mut unit = 0;
        while size >= 1024.0 && unit < units.len() - 1 {
            size /= 1024.0;
            unit += 1;
        }
        if unit == 0 {
            format!("{bytes} {}", units[unit])
        } else {
            format!("{size:.1} {}", units[unit])
        }
    }
    let mut samples: Vec<u64> = vec![
        0,
        1,
        1023,
        1024,
        1075,
        1126,
        1280,
        1331,
        1536,
        1048575,
        1048576,
        10 * 1024 * 1024 + 52429,
        u64::MAX,
        u64::MAX - 1,
        1 << 53,
        (1 << 53) + 1,
        (1 << 54) + 3,
        1099511627776 * 1023 + 1,
        1099511627776 * 5000,
    ];
    let mut x: u64 = 1;
    for _ in 0..2000 {
        x = x.wrapping_mul(6364136223846793005).wrapping_add(1442695040888963407);
        samples.push(x >> (x % 64));
        samples.push(x % 10_000_000);
    }
    for b in samples {
        assert_eq!(human_size(b), reference(b), "{b}");
    }
}

#[test]
fn human_size_examples() {
    assert_eq!(human_size(0), "0 B");
    assert_eq!(human_size(512), "512 B");
    assert_eq!(human_size(1024), "1.0 KB");
    assert_eq!(human_size(1280), "1.2 KB");
    assert_eq!(human_size(1536), "1.5 KB");
    assert_eq!(human_size(5 * 1024 * 1024), "5.0 MB");
    assert_eq!(human_size(u64::MAX), "16777216.0 TB");
}

#[test]
fn titles_and_form_fields() {
    assert_eq!(InputKind::Touch.title(), " New file (touch) ");
    assert_eq!(InputKind::Mkdir.title(), " New directory (mkdir) ");
    assert_eq!(AuthKind::Login.title(), " Login ");
    assert_eq!(AuthKind::Register.title(), " Register ");
    let mut f = AuthForm::new(AuthKind::Register);
    assert_eq!(f.field_count(), 3);
    assert_eq!(AuthForm::new(AuthKind::Login).field_count(), 2);
    f.active_buffer().push_str("me@x");
    f.active = 1;
    f.active_buffer().push('p');
    f.active = 2;
    f.active_buffer().push('q');
    f.active = 7;
    f.active_buffer().push('r');
    assert_eq!(f.email, "me@x");
    assert_eq!(f.password, "p");
    assert_eq!(f.confirm, "qr");
}

fn entry(name: &str, is_dir: bool) -> Entry {
    Entry { name: name.into(), is_dir, size: 0, parent: false }
}

fn names(entries: &[Entry]) -> Vec<&str> {
    entries.iter().map(|e| e.name.as_str()).collect()
}

#[test]
fn listing_puts_directories_first_then_names_ignoring_case() {
    let sorted = sort_entries(vec![
        entry("b.txt", false),
        entry("Zeta", true),
        entry("A.txt", false),
        entry("alpha", true),
        entry("a.txt", false),
    ]);
    assert_eq!(names(&sorted), vec!["alpha", "Zeta", "A.txt", "a.txt", "b.txt"]);
}

fn app_in(cwd: &str) -> App {
    App::new(cwd.into(), Config::default())
}

#[test]
fn local_refresh_adds_the_parent_row_and_clamps_the_cursor() {
    let mut app = app_in("/home/me");
    app.switch_view(View::FileManager);
    app.selected = 9;
    app.refresh(Listing::Local(Ok(vec![entry("b", false), entry("d", true)])));
    assert_eq!(names(&app.entries), vec!["..", "d", "b"]);
    assert!(app.entries[0].parent && app.entries[0].is_dir);
    assert_eq!(app.selected, 2);

    let mut root = app_in("/");
    root.switch_view(View::FileManager);
    root.refresh(Listing::Local(Err("denied".into())));
    assert!(root.entries.is_empty());
    assert_eq!(root.status.message, "Cannot read directory: denied");
    assert_eq!(root.status.kind, StatusKind::Error);
}

fn remote(id: i64, name: &str, short: Option<&str>) -> RemoteFile {
    RemoteFile {
        id,
        name: name.into(),
        size: 2048,
        created_at: "2024-01-01".into(),
        original_view_url: None,
        original_download_url: None,
        short_view_url: None,
        short_download_url: short.map(String::from),
    }
}

#[test]
fn remote_refresh_reports_count_and_login_hints() {
    let mut app = app_in("/w");
    app.refresh(Listing::Remote(Ok(vec![remote(1, "a", None), remote(2, "b", None)])));
    assert_eq!(app.status.message, "2 file(s)");
    assert_eq!(app.status.kind, StatusKind::Info);

    app.refresh(Listing::Remote(Err("Not logged in. Run `cl login`.".into())));
    assert!(app.remote_files.is_empty());
    assert_eq!(app.status.message, "Not logged in. Run `cl login`. Press L to log in.");
    app.refresh(Listing::Remote(Err("boom".into())));
    assert_eq!(app.status.message, "Failed to load files: boom");
    assert_eq!(app.status.kind, StatusKind::Error);
}

#[test]
fn navigation_stays_inside_the_list() {
    let mut app = app_in("/w");
    app.refresh(Listing::Remote(Ok(vec![remote(1, "a", None), remote(2, "b", None), remote(3, "c", None)])));
    app.move_down();
    app.move_down();
    app.move_down();
    assert_eq!(app.selected, 2);
    app.move_up();
    assert_eq!(app.selected, 1);
    app.select_first();
    assert_eq!(app.selected, 0);
    app.move_up();
    assert_eq!(app.selected, 0);
    app.select_last();
    assert_eq!(app.selected, 2);
    assert_eq!(app.selected_file().unwrap().name, "c");
    assert!(app.selected_entry().is_none());
    assert!(!app.switch_view(View::Files));
    assert!(app.switch_view(View::FileManager));
    assert_eq!(app.selected, 0);
}

#[test]
fn enter_moves_into_directories_and_describes_files() {
    let mut app = app_in("/home");
    app.switch_view(View::FileManager);
    app.refresh(Listing::Local(Ok(vec![entry("src", true), entry("x.txt", false)])));
    app.selected = 2;
    assert!(!app.enter());
    assert_eq!(app.status.message, "'x.txt' is a file");
    app.selected = 1;
    assert!(app.enter());
    assert_eq!(app.cwd, "/home/src");
    assert_eq!(app.selected, 0);
    assert!(app.go_up());
    assert_eq!(app.cwd, "/home");
    assert!(app.go_up());
    assert_eq!(app.cwd, "/");
    assert!(!app.go_up());

    let mut files = app_in("/");
    files.refresh(Listing::Remote(Ok(vec![remote(4, "pic.png", None)])));
    assert!(!files.enter());
    assert_eq!(files.status.message, "pic.png · 2.0 KB · 2024-01-01");
}

#[test]
fn regenerate_updates_the_selected_file() {
    let mut app = app_in("/");
    assert_eq!(app.regenerate_selected_file_url(), None);
    assert_eq!(app.status.message, "No file selected");
    app.refresh(Listing::Remote(Ok(vec![remote(7, "a.zip", None)])));
    let target = app.regenerate_selected_file_url();
    assert_eq!(target, Some((7, "a.zip".to_string())));
    app.apply_regenerated(
        "a.zip",
        Ok(RegenerateUrlsResult {
            fileId: 7,
            view_url: Some("v".into()),
            download_url: Some("d".into()),
            short_view_url: Some("sv".into()),
            short_download_url: Some("sd".into()),
        }),
    );
    let f = &app.remote_files[0];
    assert_eq!(f.short_download_url.as_deref(), Some("sd"));
    assert_eq!(f.short_view_url.as_deref(), Some("sv"));
    assert_eq!(f.original_view_url.as_deref(), Some("v"));
    assert_eq!(f.original_download_url.as_deref(), Some("d"));
    assert_eq!(app.status.message, "Regenerated short download URL for 'a.zip'");
    assert_eq!(app.status.kind, StatusKind::Success);
    app.apply_regenerated("a.zip", Err("nope".into()));
    assert_eq!(app.status.message, "Failed to regenerate URL: nope");

    app.switch_view(View::FileManager);
    assert_eq!(app.regenerate_selected_file_url(), None);
}

#[test]
fn copy_and_download_need_a_short_link() {
    let mut app = app_in("/");
    app.refresh(Listing::Remote(Ok(vec![remote(1, "a", None), remote(2, "b", Some("https://s/b"))])));
    assert_eq!(app.copy_selected_short_download_url(), None);
    assert_eq!(app.status.message, "No short download URL. Press R to regenerate.");
    assert_eq!(app.download_selected_file(), None);
    app.move_down();
    let url = app.copy_selected_short_download_url().unwrap();
    assert_eq!(url, "https://s/b");
    app.apply_copy(url.clone(), true);
    assert_eq!(app.status.message, "Copied short download URL");
    app.apply_copy(url.clone(), false);
    match &app.mode {
        Mode::Message { title, text } => {
            assert_eq!(title, " Short Download URL ");
            assert_eq!(text, &url);
        }
        _ => panic!("expected a message box"),
    }
    assert_eq!(app.download_selected_file(), Some((url, "b".to_string())));
    app.apply_download(Ok("/tmp/b".into()));
    assert_eq!(app.status.message, "Downloaded to /tmp/b");
    app.apply_download(Err("404".into()));
    assert_eq!(app.status.message, "Failed to download: 404");
}

#[test]
fn remote_delete_confirms_then_removes() {
    let mut app = app_in("/");
    app.refresh(Listing::Remote(Ok(vec![remote(1, "a", None), remote(2, "b", None)])));
    app.select_last();
    app.confirm_delete_selected_remote_file();
    match &app.mode {
        Mode::ConfirmRemoteDelete { id, name } => {
            assert_eq!(*id, 2);
            assert_eq!(name, "b");
        }
        _ => panic!("expected a confirmation"),
    }
    app.delete_remote_file(2, "b", Err("denied".into()));
    assert_eq!(app.remote_files.len(), 2);
    assert_eq!(app.status.message, "Failed to delete remote file: denied");
    app.delete_remote_file(2, "b", Ok(()));
    assert_eq!(app.remote_files.len(), 1);
    assert_eq!(app.selected, 0);
    assert_eq!(app.status.message, "Deleted remote file 'b'");
    assert_eq!(app.status.kind, StatusKind::Success);
}

#[test]
fn select_by_name_finds_the_first_match_only() {
    let mut app = app_in("/");
    app.entries = vec![entry("a", false), entry("b", false), entry("b", true)];
    app.select_by_name("b");
    assert_eq!(app.selected, 1);
    app.select_by_name("zz");
    assert_eq!(app.selected, 1);
}

#[test]
fn restarting_a_search_plans_the_query() {
    let mut app = app_in("/src");
    assert!(app.restart_search().is_none());
    let mut st = SearchState::new();
    st.query = "*.zip".into();
    st.hits.push(line("x", 1));
    st.selected = 3;
    app.search = Some(st);
    let q = app.restart_search().expect("a query to run");
    assert_eq!(q.kind, Kind::Files);
    assert_eq!(q.root, "/src");
    assert_eq!(q.limit, Some(500));
    let st = app.search.as_ref().unwrap();
    assert!(st.hits.is_empty() && st.selected == 0 && st.mode_names);

    app.search.as_mut().unwrap().query = String::new();
    assert!(app.restart_search().is_none());

    app.search.as_mut().unwrap().query = "TODO".into();
    assert_eq!(app.restart_search().unwrap().kind, Kind::Content);
    app.drain_search(vec![(line("b", 2), 5), (line("a", 1), 9)], true);
    let st = app.search.as_ref().unwrap();
    assert!(st.done);
    assert_eq!(shown(st), vec!["a:1", "b:2"]);
}

#[test]
fn status_setters_pick_the_kind() {
    let mut app = app_in("/");
    assert_eq!(app.status.message, "Welcome to Chloride");
    app.set_info("i".into());
    assert_eq!(app.status.kind, StatusKind::Info);
    app.set_success("s".into());
    assert_eq!(app.status.kind, StatusKind::Success);
    app.set_error("e".into());
    assert_eq!(app.status.kind, StatusKind::Error);
    assert_eq!(app.status.message, "e");
}

#[test]
fn uploading_from_the_file_manager_needs_a_file() {
    let mut a = app_in("/home/u");
    a.switch_view(View::FileManager);
    a.refresh(Listing::Local(Ok(vec![entry("notes.md", false), entry("docs", true)])));
    assert!(a.upload_selected_local_file().is_none());
    assert_eq!(a.status.message, "Select a file to upload");
    a.move_down();
    a.move_down();
    let (path, name, mime) = a.upload_selected_local_file().unwrap();
    assert_eq!(path, "/home/u/notes.md");
    assert_eq!(name, "notes.md");
    assert_eq!(mime, "text/plain");
    a.apply_upload(&name, Err("boom".into()));
    assert_eq!(a.status.message, "Failed to upload 'notes.md': boom");
    assert_eq!(a.status.kind, StatusKind::Error);
    a.apply_upload(
        &name,
        Ok(UploadResult {
            fileId: 9,
            view_url: "v".into(),
            download_url: "d".into(),
            short_view_url: "sv".into(),
            short_download_url: "https://s/9".into(),
            expires_in: 604800,
        }),
    );
    assert_eq!(a.status.message, "Uploaded 'notes.md'");
    assert!(matches!(&a.mode, Mode::Message { title, text } if title == " Uploaded " && text == "https://s/9"));
    let mut r = app_in("/home/u");
    assert!(r.upload_selected_local_file().is_none());
    assert_eq!(r.status.message, "Welcome to Chloride");
}

#[test]
fn the_quota_overlay_shows_what_came_back() {
    let mut a = app_in("/home/u");
    a.apply_quota(Err("offline".into()));
    assert!(matches!(&a.mode, Mode::Quota(Some(Err(e))) if e == "offline"));
    assert_eq!(a.status.message, "Welcome to Chloride");
}

#[test]
fn paths_with_the_same_components_are_one_file() {
    let mut s = state_with(vec![
        line("src/a.rs", 1),
        line("src//a.rs", 2),
        line("src/./a.rs", 3),
        line("src/b.rs", 1),
    ]);
    assert_eq!(
        shown(&s),
        vec!["src/a.rs:1", "src//a.rs:2", "src/./a.rs:3", "src/b.rs:1"]
    );
    // The stat recorded for `src/a.rs` serves its other spellings too.
    s.insert(line("src/a.rs/", 4), 7);
    assert_eq!(s.cached_mtime("src//a.rs"), Some(0));
    s.selected = 0;
    s.move_file(true);
    assert_eq!(s.selected, 4);
    s.move_file(false);
    assert_eq!(s.selected, 0);
}
