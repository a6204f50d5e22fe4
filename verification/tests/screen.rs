use chloride::api::RemoteFile;
use chloride::app::{AuthForm, AuthKind, Entry, StatusKind, View};
use chloride::config::{Config, UserInfo};
use chloride::screen::{
    auth_rows, bar_text, count_label, entry_icon, entry_note, field_label, file_notes,
    files_title, framed, help_hints, masked, or_unknown, status_symbol,
};

fn entry(name: &str, is_dir: bool, parent: bool, size: u64) -> Entry {
    Entry { name: name.into(), is_dir, size, parent }
}

#[test]
fn listing_rows_carry_icons_and_sizes() {
    assert_eq!(entry_icon(&entry("..", true, true, 0)), "⬆  ");
    assert_eq!(entry_icon(&entry("src", true, false, 0)), "📁 ");
    assert_eq!(entry_icon(&entry("a.txt", false, false, 5)), "📄 ");
    assert_eq!(entry_note(&entry("a.txt", false, false, 2048)).as_deref(), Some("  ·  2.0 KB"));
    assert_eq!(entry_note(&entry("src", true, false, 4096)), None);
    assert_eq!(entry_note(&entry("..", true, true, 0)), None);
}

#[test]
fn stored_files_show_size_and_upload_date() {
    let f = RemoteFile {
        id: 1,
        name: "a.zip".into(),
        size: 1536,
        created_at: "2024-05-01T10:20:30Z".into(),
        original_view_url: None,
        original_download_url: None,
        short_view_url: None,
        short_download_url: None,
    };
    let (size, date) = file_notes(&f);
    assert_eq!(size, "  ·  1.5 KB");
    assert_eq!(date, "  ·  2024-05-01");
    let g = RemoteFile { created_at: "yesterday".into(), ..f };
    assert_eq!(file_notes(&g).1, "  ·  yesterday");
}

#[test]
fn titles_counts_and_status_marks() {
    let mut c = Config::default();
    assert_eq!(files_title(&c), " My Files (not logged in) ");
    c.token = Some("t".into());
    assert_eq!(files_title(&c), " My Files — ? ");
    c.user = Some(UserInfo { id: 1, email: "me@x.io".into(), role: None, plan: None });
    assert_eq!(files_title(&c), " My Files — me@x.io ");
    assert_eq!(framed("/home/u"), " /home/u ");
    assert_eq!(count_label(3, "items"), " 3 items ");
    assert_eq!(count_label(0, "files"), " 0 files ");
    assert_eq!(status_symbol(StatusKind::Info), "•");
    assert_eq!(status_symbol(StatusKind::Success), "✔");
    assert_eq!(status_symbol(StatusKind::Error), "✖");
}

#[test]
fn key_hints_depend_on_the_view() {
    let files = help_hints(View::Files);
    assert_eq!(files.len(), 12);
    assert_eq!(files[2], ("R", " regen"));
    assert_eq!(files[11], ("q", "quit"));
    let local = help_hints(View::FileManager);
    assert_eq!(local[2], ("Bksp", " up"));
    assert_eq!(local[7], ("L", "login"));
}

#[test]
fn login_form_rows_mask_passwords() {
    assert_eq!(masked("abc"), "•••");
    assert_eq!(masked(""), "");
    assert_eq!(field_label("Email:"), " Email:    ");
    assert_eq!(field_label("Password:"), " Password: ");
    assert_eq!(field_label("A very long label"), " A very long label");
    let mut form = AuthForm::new(AuthKind::Login);
    form.email = "me@x.io".into();
    form.password = "secret".into();
    form.active = 1;
    let rows = auth_rows(&form);
    assert_eq!(rows.len(), 2);
    assert_eq!(rows[0], (" Email:    ".to_string(), "me@x.io".to_string(), false));
    assert_eq!(rows[1], (" Password: ".to_string(), "••••••".to_string(), true));
    let mut reg = AuthForm::new(AuthKind::Register);
    reg.confirm = "xy".into();
    let rows = auth_rows(&reg);
    assert_eq!(rows.len(), 3);
    assert_eq!(rows[2], (" Confirm:  ".to_string(), "••".to_string(), false));
    assert!(rows[0].2);
}

#[test]
fn quota_values_and_bar() {
    assert_eq!(or_unknown(&Some("1 GB".into())), "1 GB");
    assert_eq!(or_unknown(&None), "?");
    assert_eq!(bar_text(3, 5), "███░░");
    assert_eq!(bar_text(0, 2), "░░");
    assert_eq!(bar_text(4, 4), "████");
}
