use chloride::api::{AuthResult, RemoteFile};
use chloride::app::{App, AuthForm, AuthKind, Entry, InputKind, Listing, Made, Mode, StatusKind, View};
use chloride::config::{Config, UserInfo};
use chloride::keys::{apply_auth, on_key, Action, Key};

fn app() -> App {
    let mut a = App::new("/home".into(), Config::default());
    a.refresh(Listing::Remote(Ok(vec![RemoteFile {
        id: 3,
        name: "a.zip".into(),
        size: 1,
        created_at: "x".into(),
        original_view_url: None,
        original_download_url: None,
        short_view_url: None,
        short_download_url: Some("https://s/a".into()),
    }])));
    a
}

#[test]
fn browse_keys_dispatch_to_commands() {
    let mut a = app();
    assert!(matches!(on_key(&mut a, Key::Char('R')), Action::Regenerate { id: 3, .. }));
    assert!(matches!(on_key(&mut a, Key::Char('c')), Action::Copy(u) if u == "https://s/a"));
    assert!(matches!(on_key(&mut a, Key::Char('D')), Action::Download { .. }));
    assert!(matches!(on_key(&mut a, Key::Char('r')), Action::Reload));
    assert!(matches!(on_key(&mut a, Key::Char('u')), Action::Quota));
    assert!(matches!(on_key(&mut a, Key::Char('f')), Action::Reload));
    assert_eq!(a.view, View::FileManager);
    assert!(matches!(on_key(&mut a, Key::Char('t')), Action::Nothing));
    assert!(matches!(a.mode, Mode::Input { kind: InputKind::Touch, .. }));
    assert!(matches!(on_key(&mut a, Key::Char('x')), Action::Nothing));
    assert!(matches!(on_key(&mut a, Key::Char('y')), Action::Nothing));
    match on_key(&mut a, Key::Enter) {
        Action::Create { kind, name } => {
            assert_eq!(kind, InputKind::Touch);
            assert_eq!(name, "xy");
        }
        _ => panic!("expected a create"),
    }
    assert!(matches!(a.mode, Mode::Browse));
    assert!(matches!(on_key(&mut a, Key::Char('q')), Action::Nothing));
    assert!(!a.running);
}

#[test]
fn delete_asks_before_acting() {
    let mut a = app();
    on_key(&mut a, Key::Char('d'));
    assert!(matches!(a.mode, Mode::ConfirmRemoteDelete { id: 3, .. }));
    assert!(matches!(on_key(&mut a, Key::Char('Y')), Action::DeleteRemote { id: 3, .. }));
    a.switch_view(View::FileManager);
    a.entries = vec![Entry { name: "f".into(), is_dir: false, size: 0, parent: false }];
    on_key(&mut a, Key::Delete);
    assert!(matches!(a.mode, Mode::Confirm { .. }));
    assert!(matches!(on_key(&mut a, Key::Char('n')), Action::Nothing));
    assert!(matches!(a.mode, Mode::Browse));
}

#[test]
fn login_form_is_filled_and_checked() {
    let mut a = app();
    a.config.user = Some(UserInfo { id: 1, email: "me@x".into(), role: None, plan: None });
    on_key(&mut a, Key::Char('L'));
    match &a.mode {
        Mode::Auth(f) => {
            assert_eq!(f.email, "me@x");
            assert_eq!(f.active, 1);
        }
        _ => panic!("expected the login form"),
    }
    assert!(matches!(on_key(&mut a, Key::Enter), Action::Nothing));
    match &a.mode {
        Mode::Auth(f) => assert_eq!(f.error.as_deref(), Some("Password is required")),
        _ => panic!("expected the form back"),
    }
    on_key(&mut a, Key::Char('p'));
    on_key(&mut a, Key::Tab);
    match &a.mode {
        Mode::Auth(f) => {
            assert_eq!(f.password, "p");
            assert_eq!(f.active, 0);
        }
        _ => panic!("expected the form"),
    }
    on_key(&mut a, Key::Up);
    on_key(&mut a, Key::Backspace);
    match on_key(&mut a, Key::Enter) {
        Action::Nothing => match &a.mode {
            Mode::Auth(f) => assert_eq!(f.error.as_deref(), Some("Password is required")),
            _ => panic!("expected the form"),
        },
        _ => panic!("an empty password must not be sent"),
    }
}

#[test]
fn registration_needs_matching_passwords_and_stores_the_login() {
    let mut a = app();
    let mut f = AuthForm::new(AuthKind::Register);
    f.email = "  ".into();
    a.mode = Mode::Auth(f);
    on_key(&mut a, Key::Enter);
    match &a.mode {
        Mode::Auth(f) => assert_eq!(f.error.as_deref(), Some("Email is required")),
        _ => panic!("expected the form"),
    }
    let mut f = AuthForm::new(AuthKind::Register);
    f.email = "a@b".into();
    f.password = "x".into();
    f.confirm = "y".into();
    a.mode = Mode::Auth(f);
    on_key(&mut a, Key::Enter);
    match &a.mode {
        Mode::Auth(f) => assert_eq!(f.error.as_deref(), Some("Passwords do not match")),
        _ => panic!("expected the form"),
    }
    let mut f = AuthForm::new(AuthKind::Register);
    f.email = "a@b".into();
    f.password = "x".into();
    f.confirm = "x".into();
    a.mode = Mode::Auth(f);
    let form = match on_key(&mut a, Key::Enter) {
        Action::Authenticate(form) => form,
        _ => panic!("expected the form to be sent"),
    };
    let user = UserInfo { id: 9, email: "a@b".into(), role: None, plan: None };
    apply_auth(&mut a, form, Ok(AuthResult { token: "t".into(), refresh_token: "r".into(), user }));
    assert_eq!(a.config.token.as_deref(), Some("t"));
    assert_eq!(a.config.refresh_token.as_deref(), Some("r"));
    assert_eq!(a.status.message, "✓ Logged in as a@b");
    assert_eq!(a.status.kind, StatusKind::Success);
    apply_auth(&mut a, AuthForm::new(AuthKind::Login), Err("bad password".into()));
    match &a.mode {
        Mode::Auth(f) => assert_eq!(f.error.as_deref(), Some("bad password")),
        _ => panic!("expected the form back"),
    }
}

#[test]
fn created_and_deleted_entries_are_reported() {
    let mut a = app();
    assert!(!a.apply_created(InputKind::Touch, "f", Made::Exists));
    assert_eq!(a.status.message, "'f' already exists");
    assert!(a.apply_created(InputKind::Mkdir, "d", Made::Created));
    assert_eq!(a.status.message, "Created directory 'd'");
    assert!(!a.apply_created(InputKind::Touch, "f", Made::Failed("denied".into())));
    assert_eq!(a.status.message, "Failed to create file: denied");
    assert!(a.apply_deleted("f", Ok(())));
    assert_eq!(a.status.message, "Deleted 'f'");
    assert!(!a.apply_deleted("f", Err("busy".into())));
    assert_eq!(a.status.message, "Failed to delete 'f': busy");
}

#[test]
fn no_key_takes_the_cursor_off_the_list() {
    let mut a = app();
    let keys = [
        Key::Down, Key::Down, Key::End, Key::Char('j'), Key::Up, Key::Home, Key::Char('G'),
        Key::Char('f'), Key::Down, Key::Char('k'), Key::Enter, Key::Left, Key::Char('L'), Key::Esc,
        Key::Char('f'), Key::End, Key::Char('d'), Key::Char('n'), Key::Tab, Key::Other,
    ];
    for key in keys {
        let _ = on_key(&mut a, key);
        let rows = match a.view {
            View::Files => a.remote_files.len(),
            View::FileManager => a.entries.len(),
        };
        assert!(a.selected < rows || (rows == 0 && a.selected == 0), "{key:?}: {}", a.selected);
    }
}
