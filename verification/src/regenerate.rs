//! `cl regenerate` without a file id: the inline list of stored files to
//! pick from. Reading keys and drawing are done outside.

use vstd::prelude::*;

use crate::api::RemoteFile;
use crate::app::{human_size, human_size_text};
use crate::text::{push_signed, push_str, signed_decimal};

verus! {

pub const PICK_TITLE: &'static str = " Select file to regenerate";

pub const PICK_HINT: &'static str = "\u{1b}[2m ↑↓ select  Enter regenerate  Esc cancel\u{1b}[0m";

/// A file's row in the list, the chosen one marked.
pub open spec fn pick_row(f: RemoteFile, chosen: bool) -> Seq<char> {
    " "@ + (if chosen {
        "\u{1b}[36m▶\u{1b}[0m"@
    } else {
        " "@
    }) + " #"@ + signed_decimal(f.id as int) + "  "@ + f.name@ + "  ("@ + human_size_text(
        (f.size as u64) as nat,
    ) + ")"@
}

/// The first row shown: half a window above the chosen one.
pub open spec fn window_start(selected: nat, max_rows: nat) -> nat {
    if selected >= max_rows / 2 {
        (selected - max_rows / 2) as nat
    } else {
        0
    }
}

/// One past the last row shown.
pub open spec fn window_end(selected: nat, max_rows: nat, len: nat) -> nat {
    let start = window_start(selected, max_rows);
    if start + max_rows < len {
        start + max_rows
    } else {
        len
    }
}

/// The rows of the file picker: a title and a blank, a window of at most
/// `max_rows` files around the chosen one, a blank and the key hints.
pub fn build_lines(files: &Vec<RemoteFile>, selected: usize, max_rows: usize) -> (r: Vec<String>)
    ensures
        ({
            let start = window_start(selected as nat, max_rows as nat);
            let end = window_end(selected as nat, max_rows as nat, files@.len());
            let shown: int = if start < end {
                end - start
            } else {
                0
            };
            &&& r@.len() == 4 + shown
            &&& r@[0]@ == PICK_TITLE@
            &&& r@[1]@.len() == 0
            &&& forall|k: int| 0 <= k < shown ==> (#[trigger] r@[2 + k])@ == pick_row(
                files@[start + k],
                start + k == selected,
            )
            &&& r@[2 + shown]@.len() == 0
            &&& r@[3 + shown]@ == PICK_HINT@
        }),
{
    let mut lines: Vec<String> = Vec::new();
    lines.push(String::from_str(PICK_TITLE));
    lines.push(String::new());
    let half = max_rows / 2;
    let start: usize = if selected >= half {
        selected - half
    } else {
        0
    };
    let end: usize = if start < files.len() && max_rows < files.len() - start {
        start + max_rows
    } else {
        files.len()
    };
    assert(start == window_start(selected as nat, max_rows as nat));
    assert(end == window_end(selected as nat, max_rows as nat, files@.len()));
    let mut i: usize = start;
    while i < end
        invariant
            start <= i,
            end <= files.len(),
            i <= end || start >= end,
            start < end ==> lines@.len() == 2 + (i - start),
            start >= end ==> lines@.len() == 2,
            lines@[0]@ == PICK_TITLE@,
            lines@[1]@.len() == 0,
            forall|k: int| 0 <= k < i - start ==> (#[trigger] lines@[2 + k])@ == pick_row(
                files@[start + k],
                start + k == selected,
            ),
        decreases end - i,
    {
        let f = &files[i];
        let mut row = String::new();
        push_str(&mut row, " ");
        if i == selected {
            push_str(&mut row, "\u{1b}[36m▶\u{1b}[0m");
        } else {
            push_str(&mut row, " ");
        }
        push_str(&mut row, " #");
        push_signed(&mut row, f.id);
        push_str(&mut row, "  ");
        push_str(&mut row, f.name.as_str());
        push_str(&mut row, "  (");
        let size = human_size(f.size as u64);
        push_str(&mut row, size.as_str());
        push_str(&mut row, ")");
        assert(row@ =~= pick_row(files@[i as int], i == selected));
        lines.push(row);
        i += 1;
    }
    lines.push(String::new());
    lines.push(String::from_str(PICK_HINT));
    lines
}

/// Whether a list of `count` stored files can be picked from.
pub fn check_files(count: usize) -> (r: Result<(), String>)
    ensures
        count == 0 ==> (r matches Err(m) && m@ == "No files found"@),
        count > 0 ==> r is Ok,
{
    if count == 0 {
        Err(String::from_str("No files found"))
    } else {
        Ok(())
    }
}

} // verus!
