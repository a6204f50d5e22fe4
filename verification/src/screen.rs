//! The text of the full-screen interface: row icons and notes, titles and
//! counts, the key hints, the login form's rows and the quota overlay's
//! values. Laying them out in widgets and colouring them is done outside.

use vstd::prelude::*;
use vstd::view::View as _;

use crate::api::RemoteFile;
use crate::app::{human_size, human_size_text, AuthForm, AuthKind, Entry, StatusKind, View};
use crate::config::Config;
use crate::inline::spaces;
use crate::text::{chars_of, decimal, push_char, push_decimal, push_str};

verus! {

/// The icon in front of a local entry.
pub fn entry_icon(e: &Entry) -> (r: &'static str)
    ensures
        r@ == (if e.parent {
            "⬆  "@
        } else if e.is_dir {
            "📁 "@
        } else {
            "📄 "@
        }),
{
    if e.parent {
        "⬆  "
    } else if e.is_dir {
        "📁 "
    } else {
        "📄 "
    }
}

/// The size note after a local file's name; directories and `..` have none.
pub fn entry_note(e: &Entry) -> (r: Option<String>)
    ensures
        !e.is_dir && !e.parent ==> (r matches Some(s) && s@ == "  ·  "@ + human_size_text(
            e.size as nat,
        )),
        e.is_dir || e.parent ==> r is None,
{
    if e.is_dir || e.parent {
        None
    } else {
        let mut s = String::from_str("  ·  ");
        push_str(&mut s, human_size(e.size).as_str());
        Some(s)
    }
}

/// What comes before the first `T` of a timestamp (all of it when it has
/// none): its date.
pub open spec fn date_part(s: Seq<char>) -> Seq<char>
    decreases s.len(),
{
    if s.len() == 0 || s[0] == 'T' {
        seq![]
    } else {
        seq![s[0]] + date_part(s.drop_first())
    }
}

/// The notes after a stored file's name: its size, then the date it was
/// uploaded.
pub fn file_notes(f: &RemoteFile) -> (r: (String, String))
    ensures
        r.0@ == "  ·  "@ + human_size_text((f.size as u64) as nat),
        r.1@ == "  ·  "@ + date_part(f.created_at@),
{
    let mut size = String::from_str("  ·  ");
    push_str(&mut size, human_size(f.size as u64).as_str());
    let v = chars_of(f.created_at.as_str());
    let mut date = String::from_str("  ·  ");
    let ghost head = date@;
    let mut i: usize = 0;
    assert(v@.skip(0) =~= v@);
    while i < v.len() && v[i] != 'T'
        invariant
            i <= v.len(),
            v@ == f.created_at@,
            head + date_part(v@) == date@ + date_part(v@.skip(i as int)),
        decreases v.len() - i,
    {
        let ghost before = date@;
        push_char(&mut date, v[i]);
        proof {
            let t = v@.skip(i as int);
            assert(t[0] == v@[i as int]);
            assert(t.drop_first() =~= v@.skip(i + 1));
            assert(before + date_part(t) =~= date@ + date_part(v@.skip(i + 1)));
        }
        i += 1;
    }
    proof {
        let t = v@.skip(i as int);
        if i < v.len() {
            assert(t[0] == v@[i as int]);
        }
        assert(date_part(t) =~= Seq::<char>::empty());
        assert(date@ + date_part(t) =~= date@);
    }
    (size, date)
}

/// The title of the stored files' list: whose files they are, or that nobody
/// is logged in.
pub fn files_title(config: &Config) -> (r: String)
    ensures
        config.token is Some ==> r@ == " My Files — "@ + (match config.user {
            Some(u) => u.email@,
            None => "?"@,
        }) + " "@,
        config.token is None ==> r@ == " My Files (not logged in) "@,
{
    if config.is_logged_in() {
        let mut s = String::from_str(" My Files — ");
        match &config.user {
            Some(u) => push_str(&mut s, u.email.as_str()),
            None => push_str(&mut s, "?"),
        }
        push_str(&mut s, " ");
        s
    } else {
        String::from_str(" My Files (not logged in) ")
    }
}

/// `text` with a space on either side, as a frame title.
pub fn framed(text: &str) -> (r: String)
    ensures
        r@ == " "@ + text@ + " "@,
{
    let mut s = String::from_str(" ");
    push_str(&mut s, text);
    push_str(&mut s, " ");
    s
}

/// How many rows a list holds, as its frame shows it: ` 3 items `.
pub fn count_label(n: usize, noun: &str) -> (r: String)
    ensures
        r@ == " "@ + decimal(n as nat) + " "@ + noun@ + " "@,
{
    let mut s = String::from_str(" ");
    push_decimal(&mut s, n as u64);
    push_str(&mut s, " ");
    push_str(&mut s, noun);
    push_str(&mut s, " ");
    s
}

/// The mark in front of the status line.
pub fn status_symbol(kind: StatusKind) -> (r: &'static str)
    ensures
        r@ == (match kind {
            StatusKind::Info => "•"@,
            StatusKind::Success => "✔"@,
            StatusKind::Error => "✖"@,
        }),
{
    match kind {
        StatusKind::Info => "•",
        StatusKind::Success => "✔",
        StatusKind::Error => "✖",
    }
}

/// The key hints of a view, as key and description: the view's own keys,
/// then login, signup, quota, refresh and quit.
pub open spec fn hints_of(view: View) -> Seq<(Seq<char>, Seq<char>)> {
    (match view {
        View::Files => seq![
            ("↑↓/jk"@, " move"@),
            ("Enter"@, " info"@),
            ("R"@, " regen"@),
            ("c"@, " copy"@),
            ("D"@, " download"@),
            ("d"@, " delete"@),
            ("f"@, " filemgr"@),
        ],
        View::FileManager => seq![
            ("↑↓/jk"@, " move"@),
            ("Enter"@, " open"@),
            ("Bksp"@, " up"@),
            ("t"@, " touch"@),
            ("m"@, " mkdir"@),
            ("d"@, " delete"@),
            ("f"@, " files"@),
        ],
    }) + seq![
        ("L"@, "login"@),
        ("S"@, "signup"@),
        ("u"@, "quota"@),
        ("r"@, "refresh"@),
        ("q"@, "quit"@),
    ]
}

pub open spec fn hint_views(h: Seq<(&'static str, &'static str)>) -> Seq<(Seq<char>, Seq<char>)> {
    h.map_values(|p: (&'static str, &'static str)| (p.0@, p.1@))
}

/// The key hints shown under a view.
pub fn help_hints(view: View) -> (r: Vec<(&'static str, &'static str)>)
    ensures
        hint_views(r@) == hints_of(view),
{
    let mut r: Vec<(&'static str, &'static str)> = Vec::new();
    r.push(("↑↓/jk", " move"));
    match view {
        View::Files => {
            r.push(("Enter", " info"));
            r.push(("R", " regen"));
            r.push(("c", " copy"));
            r.push(("D", " download"));
            r.push(("d", " delete"));
            r.push(("f", " filemgr"));
        },
        View::FileManager => {
            r.push(("Enter", " open"));
            r.push(("Bksp", " up"));
            r.push(("t", " touch"));
            r.push(("m", " mkdir"));
            r.push(("d", " delete"));
            r.push(("f", " files"));
        },
    }
    r.push(("L", "login"));
    r.push(("S", "signup"));
    r.push(("u", "quota"));
    r.push(("r", "refresh"));
    r.push(("q", "quit"));
    assert(hint_views(r@) =~= hints_of(view));
    r
}

/// A password as the form shows it: one bullet per character.
pub fn masked(s: &str) -> (r: String)
    ensures
        r@ == Seq::new(s@.len(), |i: int| '•'),
{
    let v = chars_of(s);
    let mut out = String::new();
    let mut i: usize = 0;
    while i < v.len()
        invariant
            i <= v.len(),
            v@ == s@,
            out@ == Seq::new(i as nat, |k: int| '•'),
        decreases v.len() - i,
    {
        push_char(&mut out, '•');
        assert(out@ =~= Seq::new((i + 1) as nat, |k: int| '•'));
        i += 1;
    }
    out
}

/// A field's label as the form shows it: a space, then the label padded with
/// spaces to ten columns.
pub open spec fn label_text(label: Seq<char>) -> Seq<char> {
    " "@ + label + spaces(if label.len() < 10 {
        (10 - label.len()) as nat
    } else {
        0
    })
}

pub fn field_label(label: &str) -> (r: String)
    ensures
        r@ == label_text(label@),
{
    let n = chars_of(label).len();
    let mut out = String::from_str(" ");
    push_str(&mut out, label);
    let ghost base = out@;
    let mut k: usize = n;
    assert(spaces(0) =~= Seq::<char>::empty());
    while k < 10
        invariant
            n <= k <= (if n < 10 { 10 } else { n }),
            n == label@.len(),
            base == " "@ + label@,
            out@ == base + spaces((k - n) as nat),
        decreases 10 - k,
    {
        push_char(&mut out, ' ');
        assert(spaces((k + 1 - n) as nat) =~= spaces((k - n) as nat).push(' '));
        k += 1;
    }
    out
}

/// The label of field `i` of the login form.
pub open spec fn field_name(i: int) -> Seq<char> {
    if i == 0 {
        "Email:"@
    } else if i == 1 {
        "Password:"@
    } else {
        "Confirm:"@
    }
}

/// The login form's field rows: label, what the field shows (the email as
/// typed, passwords masked), and whether it is the active one.
pub open spec fn auth_rows_text(form: AuthForm) -> Seq<(Seq<char>, Seq<char>, bool)> {
    let values = seq![form.email@, form.password@, form.confirm@];
    let n = if form.kind == AuthKind::Login {
        2nat
    } else {
        3nat
    };
    Seq::new(
        n,
        |i: int|
            (
                label_text(field_name(i)),
                if i == 0 {
                    values[i]
                } else {
                    Seq::new(values[i].len(), |k: int| '•')
                },
                i == form.active,
            ),
    )
}

pub open spec fn row_views(r: Seq<(String, String, bool)>) -> Seq<(Seq<char>, Seq<char>, bool)> {
    r.map_values(|t: (String, String, bool)| (t.0@, t.1@, t.2))
}

pub fn auth_rows(form: &AuthForm) -> (r: Vec<(String, String, bool)>)
    ensures
        row_views(r@) == auth_rows_text(*form),
{
    let mut r: Vec<(String, String, bool)> = Vec::new();
    r.push((field_label("Email:"), form.email.clone(), form.active == 0));
    r.push((field_label("Password:"), masked(form.password.as_str()), form.active == 1));
    if form.field_count() == 3 {
        r.push((field_label("Confirm:"), masked(form.confirm.as_str()), form.active == 2));
    }
    assert(row_views(r@) =~= auth_rows_text(*form));
    r
}

/// A value of the quota overlay, or `?` when the server sent none.
pub fn or_unknown(o: &Option<String>) -> (r: String)
    ensures
        r@ == (match o {
            Some(s) => s@,
            None => "?"@,
        }),
{
    match o {
        Some(s) => s.clone(),
        None => String::from_str("?"),
    }
}

/// A usage bar `width` cells wide with `filled` of them full.
pub fn bar_text(filled: usize, width: usize) -> (r: String)
    requires
        filled <= width,
    ensures
        r@ == Seq::new(filled as nat, |i: int| '█') + Seq::new((width - filled) as nat, |i: int| '░'),
{
    let mut out = String::new();
    let mut i: usize = 0;
    while i < width
        invariant
            i <= width,
            filled <= width,
            out@ == Seq::new((if i < filled { i } else { filled }) as nat, |k: int| '█') + Seq::new(
                (if i < filled { 0 } else { i - filled }) as nat,
                |k: int| '░',
            ),
        decreases width - i,
    {
        if i < filled {
            push_char(&mut out, '█');
        } else {
            push_char(&mut out, '░');
        }
        assert(out@ =~= Seq::new((if i + 1 < filled { i + 1 } else { filled as int }) as nat, |k: int| '█')
            + Seq::new((if i + 1 < filled { 0 } else { i + 1 - filled }) as nat, |k: int| '░'));
        i += 1;
    }
    out
}

} // verus!
