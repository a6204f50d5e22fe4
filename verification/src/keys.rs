//! What each key does in the full-screen interface, mode by mode. The mode is
//! taken out first, so every key leaves the interface browsing unless its
//! handler puts a mode back. A key that needs the disk or the network yields
//! an `Action` for the caller to carry out and report back.

use vstd::prelude::*;
use vstd::view::View as _;

use crate::api::AuthResult;
use crate::app::{
    asked_copy, asked_delete_remote, asked_download, asked_regenerate, entered, fields_of, keeps,
    moved_down, moved_up, on_a_row, switched, went_first, went_last, went_up, App, AuthForm,
    AuthKind, InputKind, Mode, StatusKind, View,
};
use crate::text::{chars_of, pop_char, push_char, push_str, trim_chars, trimmed};

verus! {

/// A key press, as far as the interface tells keys apart.
#[derive(Clone, Copy, PartialEq, Eq, Structural, Debug)]
pub enum Key {
    Char(char),
    Up,
    Down,
    Left,
    Right,
    Home,
    End,
    Enter,
    Esc,
    Backspace,
    Delete,
    Tab,
    Other,
}

/// Work a key leaves for the caller.
pub enum Action {
    Nothing,
    /// Read the shown listing again and hand it to `App::refresh`.
    Reload,
    /// Regenerate the links of file `id`, then `App::apply_regenerated`.
    Regenerate { id: i64, name: String },
    /// Put the link on the clipboard, then `App::apply_copy`.
    Copy(String),
    /// Download `url` as `name` into the working directory, then
    /// `App::apply_download`.
    Download { url: String, name: String },
    /// Fetch the storage quota and show it.
    Quota,
    /// Create the file or directory typed in, then `App::apply_created`.
    Create { kind: InputKind, name: String },
    /// Delete the confirmed local entry, then `App::apply_deleted`.
    DeleteLocal { name: String, is_dir: bool },
    /// Delete the confirmed remote file, then `App::delete_remote_file`.
    DeleteRemote { id: i64, name: String },
    /// Log in or register with the form, then `apply_auth`.
    Authenticate(AuthForm),
}

/// The other of the two views.
pub open spec fn other_view(v: View) -> View {
    match v {
        View::Files => View::FileManager,
        View::FileManager => View::Files,
    }
}

/// Whether `act` asks to read the listing again (or asks for nothing).
pub open spec fn reload_or_nothing(act: Action) -> bool {
    act is Reload || act is Nothing
}

/// The interface of `a` with `mode` put in and nothing else changed.
pub open spec fn with_mode(a: App, b: App, mode: Mode) -> bool {
    keeps(a, b, false, false, false, false, true) && b.mode == mode
}

/// An empty form of `kind`, `active` field and `email` text.
pub open spec fn fresh_form(f: AuthForm, kind: AuthKind, email: Seq<char>, active: usize) -> bool {
    &&& f.kind == kind
    &&& f.email@ =~= email
    &&& f.password@.len() == 0
    &&& f.confirm@.len() == 0
    &&& f.active == active
    &&& f.error is None
}

/// What a key does while browsing, from `a` (already browsing) to `b`.
pub open spec fn browse_done(a: App, b: App, key: Key, act: Action) -> bool {
    if key == Key::Char('q') || key == Key::Esc {
        b == App { running: false, ..a } && act is Nothing
    } else if key == Key::Down || key == Key::Char('j') {
        moved_down(a, b) && act is Nothing
    } else if key == Key::Up || key == Key::Char('k') {
        moved_up(a, b) && act is Nothing
    } else if key == Key::Home || key == Key::Char('g') {
        went_first(a, b) && act is Nothing
    } else if key == Key::End || key == Key::Char('G') {
        went_last(a, b) && act is Nothing
    } else if key == Key::Enter || key == Key::Right || key == Key::Char('l') {
        entered(a, b, act is Reload) && reload_or_nothing(act)
    } else if key == Key::Char('R') && a.view == View::Files {
        match act {
            Action::Regenerate { id, name } => asked_regenerate(a, b, Some((id, name))),
            Action::Nothing => asked_regenerate(a, b, None),
            _ => false,
        }
    } else if key == Key::Char('c') && a.view == View::Files {
        match act {
            Action::Copy(url) => asked_copy(a, b, Some(url)),
            Action::Nothing => asked_copy(a, b, None),
            _ => false,
        }
    } else if key == Key::Char('D') && a.view == View::Files {
        match act {
            Action::Download { url, name } => asked_download(a, b, Some((url, name))),
            Action::Nothing => asked_download(a, b, None),
            _ => false,
        }
    } else if key == Key::Backspace || key == Key::Left || key == Key::Char('h') {
        went_up(a, b, act is Reload) && reload_or_nothing(act)
    } else if key == Key::Char('r') {
        b == a && act is Reload
    } else if (key == Key::Char('t') || key == Key::Char('m')) && a.view == View::FileManager {
        &&& keeps(a, b, false, false, false, false, true)
        &&& b.mode matches Mode::Input { kind, buffer } && buffer@.len() == 0 && kind == (if key
            == Key::Char('t') {
            InputKind::Touch
        } else {
            InputKind::Mkdir
        })
        &&& act is Nothing
    } else if key == Key::Char('d') || key == Key::Delete {
        &&& act is Nothing
        &&& if a.view == View::Files {
            asked_delete_remote(a, b)
        } else if a.selected < a.entries@.len() && !a.entries@[a.selected as int].parent {
            let e = a.entries@[a.selected as int];
            with_mode(a, b, Mode::Confirm { name: e.name, is_dir: e.is_dir })
        } else {
            b == a
        }
    } else if key == Key::Char('f') {
        switched(a, b, other_view(a.view), act is Reload) && reload_or_nothing(act)
    } else if key == Key::Char('L') {
        &&& keeps(a, b, false, false, false, false, true)
        &&& b.mode matches Mode::Auth(f) && match a.config.user {
            Some(u) => fresh_form(f, AuthKind::Login, u.email@, 1),
            None => fresh_form(f, AuthKind::Login, seq![], 0),
        }
        &&& act is Nothing
    } else if key == Key::Char('S') {
        &&& keeps(a, b, false, false, false, false, true)
        &&& b.mode matches Mode::Auth(f) && fresh_form(f, AuthKind::Register, seq![], 0)
        &&& act is Nothing
    } else if key == Key::Char('u') {
        b == a && act is Quota
    } else {
        b == a && act is Nothing
    }
}

/// The text of the field `f` is editing.
pub open spec fn active_text(f: AuthForm) -> Seq<char> {
    if f.active == 0 {
        f.email@
    } else if f.active == 1 {
        f.password@
    } else {
        f.confirm@
    }
}

/// `g` is `f` with the field being edited holding `text`.
pub open spec fn edited(f: AuthForm, g: AuthForm, text: Seq<char>) -> bool {
    &&& g.kind == f.kind
    &&& g.active == f.active
    &&& g.error == f.error
    &&& active_text(g) == text
    &&& f.active != 0 ==> g.email == f.email
    &&& f.active != 1 ==> g.password == f.password
    &&& f.active < 2 ==> g.confirm == f.confirm
}

/// `g` is `f` showing the error `message`.
pub open spec fn flagged(f: AuthForm, g: AuthForm, message: Seq<char>) -> bool {
    &&& g.kind == f.kind
    &&& g.email == f.email
    &&& g.password == f.password
    &&& g.confirm == f.confirm
    &&& g.active == f.active
    &&& g.error matches Some(m) && m@ == message
}

/// Why the form cannot be sent yet, if it cannot.
pub open spec fn form_problem(f: AuthForm) -> Option<Seq<char>> {
    if trimmed(f.email@).len() == 0 {
        Some("Email is required"@)
    } else if f.password@.len() == 0 {
        Some("Password is required"@)
    } else if f.kind == AuthKind::Register && f.password@ != f.confirm@ {
        Some("Passwords do not match"@)
    } else {
        None
    }
}

/// What a key does to the login form `f`, from `a` (already browsing).
pub open spec fn auth_done(a: App, b: App, key: Key, f: AuthForm, act: Action) -> bool {
    if key == Key::Esc {
        b == a && act is Nothing
    } else if key == Key::Tab || key == Key::Down {
        with_mode(
            a,
            b,
            Mode::Auth(AuthForm { active: ((f.active + 1) % fields_of(f.kind) as int) as usize, ..f }),
        ) && act is Nothing
    } else if key == Key::Up {
        with_mode(
            a,
            b,
            Mode::Auth(
                AuthForm {
                    active: if f.active == 0 {
                        (fields_of(f.kind) - 1) as usize
                    } else {
                        (f.active - 1) as usize
                    },
                    ..f
                },
            ),
        ) && act is Nothing
    } else if key == Key::Backspace {
        &&& keeps(a, b, false, false, false, false, true)
        &&& b.mode matches Mode::Auth(g) && edited(
            f,
            g,
            if active_text(f).len() > 0 {
                active_text(f).drop_last()
            } else {
                active_text(f)
            },
        )
        &&& act is Nothing
    } else if key is Char {
        &&& keeps(a, b, false, false, false, false, true)
        &&& b.mode matches Mode::Auth(g) && edited(f, g, active_text(f).push(key->Char_0))
        &&& act is Nothing
    } else if key == Key::Enter {
        match form_problem(f) {
            Some(m) => {
                &&& keeps(a, b, false, false, false, false, true)
                &&& b.mode matches Mode::Auth(g) && flagged(f, g, m)
                &&& act is Nothing
            },
            None => b == a && act == Action::Authenticate(f),
        }
    } else {
        with_mode(a, b, Mode::Auth(f)) && act is Nothing
    }
}

/// What a key does to the name being typed, from `a` (already browsing).
pub open spec fn input_done(
    a: App,
    b: App,
    key: Key,
    kind: InputKind,
    buffer: String,
    act: Action,
) -> bool {
    if key == Key::Esc {
        b == a && act is Nothing
    } else if key == Key::Enter {
        b == a && act == Action::Create { kind, name: buffer }
    } else if key == Key::Backspace {
        &&& keeps(a, b, false, false, false, false, true)
        &&& b.mode matches Mode::Input { kind: k, buffer: t } && k == kind && t@ == (if buffer@.len()
            > 0 {
            buffer@.drop_last()
        } else {
            buffer@
        })
        &&& act is Nothing
    } else if key is Char {
        &&& keeps(a, b, false, false, false, false, true)
        &&& b.mode matches Mode::Input { kind: k, buffer: t } && k == kind && t@ == buffer@.push(
            key->Char_0,
        )
        &&& act is Nothing
    } else {
        with_mode(a, b, Mode::Input { kind, buffer }) && act is Nothing
    }
}

/// Whether the key answers yes.
pub open spec fn is_yes(key: Key) -> bool {
    key == Key::Char('y') || key == Key::Char('Y')
}

/// What any key does, from the interface `a` to `b`.
pub open spec fn key_done(a: App, b: App, key: Key, act: Action) -> bool {
    let base = App { mode: Mode::Browse, ..a };
    match a.mode {
        Mode::Browse => browse_done(base, b, key, act),
        Mode::Input { kind, buffer } => input_done(base, b, key, kind, buffer, act),
        Mode::Confirm { name, is_dir } => b == base && act == (if is_yes(key) {
            Action::DeleteLocal { name, is_dir }
        } else {
            Action::Nothing
        }),
        Mode::ConfirmRemoteDelete { id, name } => b == base && act == (if is_yes(key) {
            Action::DeleteRemote { id, name }
        } else {
            Action::Nothing
        }),
        Mode::Auth(f) => auth_done(base, b, key, f, act),
        _ => b == base && act is Nothing,
    }
}

/// Handle a key while browsing.
pub fn on_browse_key(app: &mut App, key: Key) -> (act: Action)
    ensures
        browse_done(*old(app), *final(app), key, act),
{
    if key == Key::Char('q') || key == Key::Esc {
        app.running = false;
        Action::Nothing
    } else if key == Key::Down || key == Key::Char('j') {
        app.move_down();
        Action::Nothing
    } else if key == Key::Up || key == Key::Char('k') {
        app.move_up();
        Action::Nothing
    } else if key == Key::Home || key == Key::Char('g') {
        app.select_first();
        Action::Nothing
    } else if key == Key::End || key == Key::Char('G') {
        app.select_last();
        Action::Nothing
    } else if key == Key::Enter || key == Key::Right || key == Key::Char('l') {
        if app.enter() {
            Action::Reload
        } else {
            Action::Nothing
        }
    } else if key == Key::Char('R') && app.view == View::Files {
        match app.regenerate_selected_file_url() {
            Some((id, name)) => Action::Regenerate { id, name },
            None => Action::Nothing,
        }
    } else if key == Key::Char('c') && app.view == View::Files {
        match app.copy_selected_short_download_url() {
            Some(url) => Action::Copy(url),
            None => Action::Nothing,
        }
    } else if key == Key::Char('D') && app.view == View::Files {
        match app.download_selected_file() {
            Some((url, name)) => Action::Download { url, name },
            None => Action::Nothing,
        }
    } else if key == Key::Backspace || key == Key::Left || key == Key::Char('h') {
        if app.go_up() {
            Action::Reload
        } else {
            Action::Nothing
        }
    } else if key == Key::Char('r') {
        Action::Reload
    } else if (key == Key::Char('t') || key == Key::Char('m')) && app.view == View::FileManager {
        let kind = if key == Key::Char('t') {
            InputKind::Touch
        } else {
            InputKind::Mkdir
        };
        app.mode = Mode::Input { kind, buffer: String::new() };
        Action::Nothing
    } else if key == Key::Char('d') || key == Key::Delete {
        if app.view == View::Files {
            app.confirm_delete_selected_remote_file();
        } else if app.selected < app.entries.len() && !app.entries[app.selected].parent {
            let i = app.selected;
            app.mode = Mode::Confirm {
                name: app.entries[i].name.clone(),
                is_dir: app.entries[i].is_dir,
            };
        }
        Action::Nothing
    } else if key == Key::Char('f') {
        let next = match app.view {
            View::Files => View::FileManager,
            View::FileManager => View::Files,
        };
        if app.switch_view(next) {
            Action::Reload
        } else {
            Action::Nothing
        }
    } else if key == Key::Char('L') {
        let mut form = AuthForm::new(AuthKind::Login);
        match &app.config.user {
            Some(user) => {
                form.email = user.email.clone();
                form.active = 1;
            },
            None => {},
        }
        app.mode = Mode::Auth(form);
        Action::Nothing
    } else if key == Key::Char('S') {
        app.mode = Mode::Auth(AuthForm::new(AuthKind::Register));
        Action::Nothing
    } else if key == Key::Char('u') {
        Action::Quota
    } else {
        Action::Nothing
    }
}

/// Handle a key while a name is being typed.
pub fn on_input_key(app: &mut App, key: Key, kind: InputKind, buffer: String) -> (act: Action)
    ensures
        input_done(*old(app), *final(app), key, kind, buffer, act),
{
    let mut buffer = buffer;
    match key {
        Key::Esc => Action::Nothing,
        Key::Enter => Action::Create { kind, name: buffer },
        Key::Backspace => {
            pop_char(&mut buffer);
            app.mode = Mode::Input { kind, buffer };
            Action::Nothing
        },
        Key::Char(c) => {
            push_char(&mut buffer, c);
            app.mode = Mode::Input { kind, buffer };
            Action::Nothing
        },
        _ => {
            app.mode = Mode::Input { kind, buffer };
            Action::Nothing
        },
    }
}

/// Check the form and, when it is complete, ask to send it.
pub fn submit_auth(app: &mut App, form: AuthForm) -> (act: Action)
    ensures
        match form_problem(form) {
            Some(m) => {
                &&& keeps(*old(app), *final(app), false, false, false, false, true)
                &&& final(app).mode matches Mode::Auth(g) && flagged(form, g, m)
                &&& act is Nothing
            },
            None => *final(app) == *old(app) && act == Action::Authenticate(form),
        },
{
    let mut form = form;
    let email = chars_of(form.email.as_str());
    let problem: Option<&str> = if trim_chars(&email).len() == 0 {
        Some("Email is required")
    } else if form.password.as_str().is_empty() {
        Some("Password is required")
    } else if form.kind == AuthKind::Register && !(form.password == form.confirm) {
        Some("Passwords do not match")
    } else {
        None
    };
    match problem {
        Some(m) => {
            form.error = Some(String::from_str(m));
            app.mode = Mode::Auth(form);
            Action::Nothing
        },
        None => Action::Authenticate(form),
    }
}

/// Handle a key in the login form.
pub fn on_auth_key(app: &mut App, key: Key, form: AuthForm) -> (act: Action)
    ensures
        auth_done(*old(app), *final(app), key, form, act),
{
    let mut form = form;
    match key {
        Key::Esc => Action::Nothing,
        Key::Tab | Key::Down => {
            let n = form.field_count();
            let ghost a: int = form.active as int;
            let ghost m: int = n as int;
            assert((a % m + 1) % m == (a + 1) % m) by {
                vstd::arithmetic::div_mod::lemma_add_mod_noop(a, 1, m);
                assert(1int % m == 1);
            }
            form.active = (form.active % n + 1) % n;
            app.mode = Mode::Auth(form);
            Action::Nothing
        },
        Key::Up => {
            form.active = if form.active == 0 {
                form.field_count() - 1
            } else {
                form.active - 1
            };
            app.mode = Mode::Auth(form);
            Action::Nothing
        },
        Key::Backspace => {
            pop_char(form.active_buffer());
            app.mode = Mode::Auth(form);
            Action::Nothing
        },
        Key::Char(c) => {
            push_char(form.active_buffer(), c);
            app.mode = Mode::Auth(form);
            Action::Nothing
        },
        Key::Enter => submit_auth(app, form),
        _ => {
            app.mode = Mode::Auth(form);
            Action::Nothing
        },
    }
}

/// Handle any key: the current mode decides what it means.
pub fn on_key(app: &mut App, key: Key) -> (act: Action)
    ensures
        key_done(*old(app), *final(app), key, act),
{
    let mut mode = Mode::Browse;
    std::mem::swap(&mut mode, &mut app.mode);
    match mode {
        Mode::Browse => on_browse_key(app, key),
        Mode::Input { kind, buffer } => on_input_key(app, key, kind, buffer),
        Mode::Confirm { name, is_dir } => {
            if key == Key::Char('y') || key == Key::Char('Y') {
                Action::DeleteLocal { name, is_dir }
            } else {
                Action::Nothing
            }
        },
        Mode::ConfirmRemoteDelete { id, name } => {
            if key == Key::Char('y') || key == Key::Char('Y') {
                Action::DeleteRemote { id, name }
            } else {
                Action::Nothing
            }
        },
        Mode::Auth(form) => on_auth_key(app, key, form),
        _ => Action::Nothing,
    }
}

/// Record what logging in or registering with `form` returned: the tokens
/// and user are stored and the status line greets the user, or the form
/// comes back showing the error. Saving the configuration is left to the
/// caller.
pub fn apply_auth(app: &mut App, form: AuthForm, outcome: Result<AuthResult, String>)
    ensures
        match outcome {
            Ok(auth) => {
                &&& final(app).config.token == Some(auth.token)
                &&& final(app).config.refresh_token == Some(auth.refresh_token)
                &&& final(app).config.user == Some(auth.user)
                &&& final(app).config.base_url == old(app).config.base_url
                &&& final(app).status.message@ == "✓ Logged in as "@ + auth.user.email@
                &&& final(app).status.kind == StatusKind::Success
                &&& final(app).mode == old(app).mode
            },
            Err(e) => {
                &&& final(app).config == old(app).config
                &&& final(app).status == old(app).status
                &&& final(app).mode matches Mode::Auth(g) && g.kind == form.kind && g.email
                    == form.email && g.password == form.password && g.confirm == form.confirm
                    && g.active == form.active && g.error == Some(e)
            },
        },
        final(app).view == old(app).view,
        final(app).cwd == old(app).cwd,
        final(app).entries == old(app).entries,
        final(app).remote_files == old(app).remote_files,
        final(app).selected == old(app).selected,
{
    match outcome {
        Ok(auth) => {
            let mut message = String::from_str("✓ Logged in as ");
            push_str(&mut message, auth.user.email.as_str());
            app.config.token = Some(auth.token);
            app.config.refresh_token = Some(auth.refresh_token);
            app.config.user = Some(auth.user);
            app.set_success(message);
        },
        Err(e) => {
            let mut form = form;
            form.error = Some(e);
            app.mode = Mode::Auth(form);
        },
    }
}

/// No key takes the cursor off the list: a cursor on a row of the shown
/// list (or at the top of an empty one) is still on one after any key.
pub proof fn lemma_keys_keep_the_cursor_on_a_row(a: App, b: App, key: Key, act: Action)
    requires
        key_done(a, b, key, act),
        on_a_row(a),
    ensures
        on_a_row(b),
{
}

} // verus!
