//! The small command-line commands: what `cl rm` decides from what it finds
//! on disk, how a yes/no answer is read, and the lines `whoami` prints. The
//! file system and the terminal are reached outside.

use vstd::prelude::*;

use crate::config::{Config, UserInfo};
use crate::search::{lowercase_of, to_lowercase};
use crate::text::{chars_of, push_signed, push_str, signed_decimal, string_of, trim_chars, trimmed};

verus! {

/// What `cl rm` does next.
pub enum RemoveStep {
    /// Nothing, quietly (`--force` on a missing path).
    Quiet,
    /// Nothing; report this on stderr.
    Refuse(String),
    /// Ask this question and delete only on a yes.
    Ask(String),
    /// Delete now.
    Delete,
}

/// The step for removing `path`, given whether it exists and is a directory
/// and the `-r` and `-f` flags. A missing path is an error unless forced; a
/// directory needs `-r`; without `-f` the user is asked.
pub fn remove_step(path: &str, exists: bool, is_dir: bool, recursive: bool, force: bool) -> (r: RemoveStep)
    ensures
        !exists && force ==> r is Quiet,
        !exists && !force ==> (r matches RemoveStep::Refuse(m) && m@ == "cl: cannot remove '"@ + path@
            + "': No such file or directory"@),
        exists && is_dir && !recursive ==> (r matches RemoveStep::Refuse(m) && m@
            == "cl: cannot remove '"@ + path@ + "': Is a directory. Use -r/--recursive."@),
        exists && (!is_dir || recursive) && !force ==> (r matches RemoveStep::Ask(q) && q@
            == "🗑️  Delete "@ + (if is_dir {
            "directory"@
        } else {
            "file"@
        }) + " '"@ + path@ + "'? (y/N): "@),
        exists && (!is_dir || recursive) && force ==> r is Delete,
{
    if !exists {
        if force {
            return RemoveStep::Quiet;
        }
        let mut m = String::from_str("cl: cannot remove '");
        push_str(&mut m, path);
        push_str(&mut m, "': No such file or directory");
        return RemoveStep::Refuse(m);
    }
    if is_dir && !recursive {
        let mut m = String::from_str("cl: cannot remove '");
        push_str(&mut m, path);
        push_str(&mut m, "': Is a directory. Use -r/--recursive.");
        return RemoveStep::Refuse(m);
    }
    if !force {
        let mut q = String::from_str("🗑️  Delete ");
        push_str(&mut q, if is_dir {
            "directory"
        } else {
            "file"
        });
        push_str(&mut q, " '");
        push_str(&mut q, path);
        push_str(&mut q, "'? (y/N): ");
        return RemoveStep::Ask(q);
    }
    RemoveStep::Delete
}

/// Whether a typed answer means yes: `y` or `yes` in any case, surrounding
/// whitespace ignored.
pub open spec fn yes_text(answer: Seq<char>) -> bool {
    let a = lowercase_of(trimmed(answer));
    a == "y"@ || a == "yes"@
}

pub fn confirmed(answer: &str) -> (r: bool)
    ensures
        r == yes_text(answer@),
{
    let t = string_of(&trim_chars(&chars_of(answer)));
    let a = to_lowercase(t.as_str());
    crate::paths::same_text(a.as_str(), "y") || crate::paths::same_text(a.as_str(), "yes")
}

/// An optional text, or `none`.
pub open spec fn or_none(o: Option<String>) -> Seq<char> {
    match o {
        Some(s) => s@,
        None => "none"@,
    }
}

/// How `whoami` describes the signed-in user.
pub open spec fn user_text(u: UserInfo) -> Seq<char> {
    u.email@ + " (id: "@ + signed_decimal(u.id as int) + ", role: "@ + or_none(u.role) + ", plan: "@
        + or_none(u.plan) + ")"@
}

pub fn user_line(u: &UserInfo) -> (r: String)
    ensures
        r@ == user_text(*u),
{
    let mut out = String::new();
    push_str(&mut out, u.email.as_str());
    push_str(&mut out, " (id: ");
    push_signed(&mut out, u.id);
    push_str(&mut out, ", role: ");
    match &u.role {
        Some(r) => push_str(&mut out, r.as_str()),
        None => push_str(&mut out, "none"),
    }
    push_str(&mut out, ", plan: ");
    match &u.plan {
        Some(p) => push_str(&mut out, p.as_str()),
        None => push_str(&mut out, "none"),
    }
    push_str(&mut out, ")");
    assert(out@ =~= user_text(*u));
    out
}

/// What `logout` prints: who was logged out, or that nobody was.
pub fn logout_message(config: &Config) -> (r: String)
    ensures
        config.token is None ==> r@ == "ℹ️  Not logged in"@,
        config.token is Some ==> r@ == "✅ Logged out"@ + match config.user {
            Some(u) => if u.email@.len() > 0 {
                " ("@ + u.email@ + ")"@
            } else {
                seq![]
            },
            None => seq![],
        },
{
    if !config.is_logged_in() {
        return String::from_str("ℹ️  Not logged in");
    }
    let mut out = String::from_str("✅ Logged out");
    match &config.user {
        Some(u) => {
            if !u.email.as_str().is_empty() {
                push_str(&mut out, " (");
                push_str(&mut out, u.email.as_str());
                push_str(&mut out, ")");
            }
        },
        None => {},
    }
    out
}

} // verus!
