//! Uploading from the command line: whether there is anything to send, what
//! each file is called and sent as, the expiry picker, and the pieces of the
//! progress block that need no floating point. Sending and drawing are done
//! outside.

use vstd::prelude::*;

use crate::app::{mime_text, mime_type};
use crate::keys::Key;
use crate::paths::{file_name, file_name_of};
use crate::search::lowercase_of;
use crate::text::{decimal, push_char, push_decimal, push_str};

verus! {

/// How many link lifetimes the picker offers.
pub const EXPIRY_COUNT: usize = 3;

/// The lifetime, in seconds, of expiry option `i`: 7, 30 or 365 days.
pub open spec fn expiry_secs(i: int) -> i64 {
    if i == 0 {
        604800
    } else if i == 1 {
        2592000
    } else {
        31536000
    }
}

/// The label of expiry option `i`.
pub open spec fn expiry_label(i: int) -> Seq<char> {
    if i == 0 {
        "7 days"@
    } else if i == 1 {
        "30 days"@
    } else {
        "365 days"@
    }
}

/// Each expiry option lasts exactly the number of days its label names.
pub proof fn lemma_expiry_lasts_its_label(i: int)
    requires
        0 <= i < EXPIRY_COUNT,
    ensures
        exists|d: nat| #[trigger] decimal(d) + " days"@ == expiry_label(i) && expiry_secs(i) == 86400 * d,
{
    reveal_strlit("7 days");
    reveal_strlit("30 days");
    reveal_strlit("365 days");
    reveal_strlit(" days");
    let d: nat = if i == 0 {
        7
    } else if i == 1 {
        30
    } else {
        365
    };
    assert(decimal(3) == seq!['3']);
    assert(decimal(36) == seq!['3', '6']);
    assert(decimal(d) + " days"@ =~= expiry_label(i));
}

/// Expiry option `i`: its lifetime in seconds and its label.
pub fn expiry_option(i: usize) -> (r: (i64, &'static str))
    requires
        i < EXPIRY_COUNT,
    ensures
        r.0 == expiry_secs(i as int),
        r.1@ == expiry_label(i as int),
{
    if i == 0 {
        (60 * 60 * 24 * 7, "7 days")
    } else if i == 1 {
        (60 * 60 * 24 * 30, "30 days")
    } else {
        (60 * 60 * 24 * 365, "365 days")
    }
}

/// A row of the expiry picker: the chosen one marked and coloured.
pub open spec fn expiry_row(i: int, chosen: bool) -> Seq<char> {
    if chosen {
        " \u{1b}[36m▶ "@ + expiry_label(i) + "\u{1b}[0m"@
    } else {
        "   "@ + expiry_label(i)
    }
}

pub const PICKER_HINT: &'static str = "\u{1b}[2m ↑↓ select  Enter confirm  Esc cancel\u{1b}[0m";

/// The expiry picker's rows with option `selected` chosen: a title, a blank,
/// one row per option, a blank and the key hints.
pub fn build_picker_lines(selected: usize) -> (r: Vec<String>)
    ensures
        r@.len() == 7,
        r@[0]@ == " Link expiry"@,
        r@[1]@.len() == 0,
        forall|i: int| 0 <= i < 3 ==> (#[trigger] r@[2 + i])@ == expiry_row(i, i == selected),
        r@[5]@.len() == 0,
        r@[6]@ == PICKER_HINT@,
{
    let mut lines: Vec<String> = Vec::new();
    lines.push(String::from_str(" Link expiry"));
    lines.push(String::new());
    let mut i: usize = 0;
    while i < EXPIRY_COUNT
        invariant
            i <= EXPIRY_COUNT,
            lines@.len() == 2 + i,
            lines@[0]@ == " Link expiry"@,
            lines@[1]@.len() == 0,
            forall|k: int| 0 <= k < i ==> (#[trigger] lines@[2 + k])@ == expiry_row(k, k == selected),
        decreases EXPIRY_COUNT - i,
    {
        let (_, label) = expiry_option(i);
        let mut row = String::new();
        if i == selected {
            push_str(&mut row, " \u{1b}[36m▶ ");
            push_str(&mut row, label);
            push_str(&mut row, "\u{1b}[0m");
        } else {
            push_str(&mut row, "   ");
            push_str(&mut row, label);
        }
        assert(row@ =~= expiry_row(i as int, i == selected));
        lines.push(row);
        i += 1;
    }
    lines.push(String::new());
    lines.push(String::from_str(PICKER_HINT));
    lines
}

/// Where a key leaves a pick among `count` choices.
#[derive(Clone, Copy, PartialEq, Eq, Structural, Debug)]
pub enum PickStep {
    /// Still choosing, now at this row.
    Stay(usize),
    /// This row was chosen.
    Chosen(usize),
    Cancelled,
}

/// What a key does to a pick at row `selected` of `count`: up and down
/// (arrows, `k`, `j`) move without wrapping, Enter chooses, Esc or `q`
/// cancels, anything else is ignored.
pub fn pick_step(selected: usize, key: Key, count: usize) -> (r: PickStep)
    requires
        count > 0,
    ensures
        r == (if key == Key::Up || key == Key::Char('k') {
            PickStep::Stay(if selected > 0 {
                (selected - 1) as usize
            } else {
                0
            })
        } else if key == Key::Down || key == Key::Char('j') {
            PickStep::Stay(if selected + 1 < count {
                (selected + 1) as usize
            } else {
                (count - 1) as usize
            })
        } else if key == Key::Enter {
            PickStep::Chosen(selected)
        } else if key == Key::Esc || key == Key::Char('q') {
            PickStep::Cancelled
        } else {
            PickStep::Stay(selected)
        }),
{
    if key == Key::Up || key == Key::Char('k') {
        PickStep::Stay(
            if selected > 0 {
                selected - 1
            } else {
                0
            },
        )
    } else if key == Key::Down || key == Key::Char('j') {
        PickStep::Stay(
            if selected < count - 1 {
                selected + 1
            } else {
                count - 1
            },
        )
    } else if key == Key::Enter {
        PickStep::Chosen(selected)
    } else if key == Key::Esc || key == Key::Char('q') {
        PickStep::Cancelled
    } else {
        PickStep::Stay(selected)
    }
}

/// Whether an upload may start: there are files, and a login to send them
/// with (an access token, or a refresh token to get one).
pub fn check_upload(file_count: usize, logged_in: bool, has_refresh: bool) -> (r: Result<(), String>)
    ensures
        file_count == 0 ==> (r matches Err(m) && m@ == "No files given"@),
        file_count > 0 && !logged_in && !has_refresh ==> (r matches Err(m) && m@
            == "Not logged in. Run `cl login`."@),
        file_count > 0 && (logged_in || has_refresh) ==> r is Ok,
{
    if file_count == 0 {
        Err(String::from_str("No files given"))
    } else if !logged_in && !has_refresh {
        Err(String::from_str("Not logged in. Run `cl login`."))
    } else {
        Ok(())
    }
}

/// The name a file is uploaded under: its final path component, or `file`.
pub fn upload_name(path: &str) -> (r: String)
    ensures
        r@ == match file_name(path@) {
            Some(n) => n,
            None => "file"@,
        },
{
    match file_name_of(path) {
        Some(n) => n,
        None => String::from_str("file"),
    }
}

/// The content type a command-line upload sends `path` as.
pub fn upload_mime(path: &str) -> (r: String)
    ensures
        r@ == mime_text(lowercase_of(path@), false),
{
    mime_type(path, false)
}

/// `s` cut to `max` characters: unchanged when it fits, otherwise its first
/// `max - 1` characters and an ellipsis.
pub open spec fn clipped(s: Seq<char>, max: nat) -> Seq<char> {
    if s.len() <= max {
        s
    } else {
        s.take(if max >= 1 {
            max - 1
        } else {
            0
        }).push('…')
    }
}

/// Cuts a progress row to `max` characters (escape sequences counted as
/// characters, as the progress rows have none that matter).
pub fn clip(s: &str, max: usize) -> (r: String)
    ensures
        r@ == clipped(s@, max as nat),
{
    let v = crate::text::chars_of(s);
    if v.len() <= max {
        return String::from_str(s);
    }
    let keep: usize = if max >= 1 {
        max - 1
    } else {
        0
    };
    let mut out = String::new();
    let mut i: usize = 0;
    while i < keep
        invariant
            keep < v.len(),
            i <= keep,
            out@ == v@.take(i as int),
        decreases keep - i,
    {
        push_char(&mut out, v[i]);
        assert(v@.take(i + 1) =~= v@.take(i as int).push(v@[i as int]));
        i += 1;
    }
    push_char(&mut out, '…');
    out
}

/// A whole number of seconds as the progress block shows it: seconds under
/// a minute, minutes and seconds under an hour, else hours and minutes.
pub open spec fn duration_text(s: nat) -> Seq<char> {
    if s < 60 {
        decimal(s) + "s"@
    } else if s < 3600 {
        decimal(s / 60) + "m "@ + decimal(s % 60) + "s"@
    } else {
        decimal(s / 3600) + "h "@ + decimal((s % 3600) / 60) + "m"@
    }
}

/// How a duration reads: under a minute, `{s}s`; under an hour, `{m}m {x}s`
/// with `x` under 60 and `60 m + x` the seconds; else `{h}h {m}m` with `m`
/// under 60 and `3600 h + 60 m` the seconds rounded down to the minute.
pub proof fn lemma_duration_reads(s: nat)
    ensures
        s < 60 ==> duration_text(s) == decimal(s) + "s"@,
        60 <= s < 3600 ==> exists|m: nat, x: nat|
            #![trigger decimal(m), decimal(x)]
            x < 60 && 60 * m + x == s && duration_text(s) == decimal(m) + "m "@ + decimal(x) + "s"@,
        3600 <= s ==> exists|h: nat, m: nat|
            #![trigger decimal(h), decimal(m)]
            m < 60 && 3600 * h + 60 * m <= s < 3600 * h + 60 * m + 60 && duration_text(s) == decimal(h)
                + "h "@ + decimal(m) + "m"@,
{
    if 60 <= s < 3600 {
        let m = s / 60;
        let x = s % 60;
        assert(x < 60 && 60 * m + x == s);
        assert(duration_text(s) == decimal(m) + "m "@ + decimal(x) + "s"@);
    }
    if 3600 <= s {
        let h = s / 3600;
        let m = (s % 3600) / 60;
        assert(m < 60 && 3600 * h + 60 * m <= s < 3600 * h + 60 * m + 60);
        assert(duration_text(s) == decimal(h) + "h "@ + decimal(m) + "m"@);
    }
}

pub fn fmt_seconds(s: u64) -> (r: String)
    ensures
        r@ == duration_text(s as nat),
{
    let mut out = String::new();
    if s < 60 {
        push_decimal(&mut out, s);
        push_str(&mut out, "s");
    } else if s < 3600 {
        push_decimal(&mut out, s / 60);
        push_str(&mut out, "m ");
        push_decimal(&mut out, s % 60);
        push_str(&mut out, "s");
    } else {
        push_decimal(&mut out, s / 3600);
        push_str(&mut out, "h ");
        push_decimal(&mut out, (s % 3600) / 60);
        push_str(&mut out, "m");
    }
    assert(out@ =~= duration_text(s as nat));
    out
}

} // verus!
