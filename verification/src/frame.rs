//! What the inline picker draws: the query line, the result rows with file
//! headings, the preview of the selected file beside them, and the key
//! hints. Reading the previewed file, the clock and the terminal width are
//! left to the caller, which hands them in.

use vstd::prelude::*;

use crate::find::gutter;
use crate::app::{human_size, human_size_text};
use crate::find::plural_es;
use crate::inline::{columns, fit, fitted, spaces, truncate, truncated, visible, visible_width};
use crate::paths::{file_name, file_name_of, parent_dir, parent_of, relative, relative_to};
use crate::picker::{
    ago_label, ago_text, badge_text, badge_with, file_rows, highlight, highlighted, visible_count, Row,
    State, ACCENT, BODY_ROWS, BOLD, CONTENT_CAP, DIM, LEFT_WIDTH, PREVIEW_MIN_WIDTH, RESET,
};
use crate::search::{hit_path, Hit};
use crate::order::{same_path, same_path_of};
use crate::text::{
    chars_of, decimal, lead_ws, push_char, push_decimal, push_str, string_of, trail_ws, trim_end_chars,
    trim_start_chars,
};

verus! {

/// `l` without the carriage return a CRLF line ending leaves behind.
pub open spec fn strip_cr(l: Seq<char>) -> Seq<char> {
    if l.len() > 0 && l.last() == '\r' {
        l.drop_last()
    } else {
        l
    }
}

/// Index of the first line feed in `s`, or its length.
pub open spec fn newline_at(s: Seq<char>) -> int
    decreases s.len(),
{
    if s.len() == 0 {
        0
    } else if s[0] == '\n' {
        0
    } else {
        1 + newline_at(s.drop_first())
    }
}

pub proof fn lemma_newline_at(s: Seq<char>)
    ensures
        0 <= newline_at(s) <= s.len(),
        newline_at(s) < s.len() ==> s[newline_at(s)] == '\n',
        forall|k: int| 0 <= k < newline_at(s) ==> s[k] != '\n',
    decreases s.len(),
{
    if s.len() > 0 && s[0] != '\n' {
        lemma_newline_at(s.drop_first());
        assert forall|k: int| 0 <= k < newline_at(s) implies s[k] != '\n' by {
            if k > 0 {
                assert(s.drop_first()[k - 1] == s[k]);
            }
        }
    }
}

/// The lines of a text as `str::lines` gives them: split at each line feed,
/// a carriage return before it dropped, and no empty last line for a text
/// that ends with a line ending.
pub open spec fn text_lines(s: Seq<char>) -> Seq<Seq<char>>
    decreases s.len(),
{
    if s.len() == 0 {
        seq![]
    } else {
        let e = newline_at(s);
        if e < s.len() {
            proof {
                lemma_newline_at(s);
            }
            seq![strip_cr(s.take(e))] + text_lines(s.skip(e + 1))
        } else {
            seq![s]
        }
    }
}

/// Splits a text into lines (see `text_lines`).
pub fn split_lines(text: &str) -> (r: Vec<Vec<char>>)
    ensures
        r@.map_values(|l: Vec<char>| l@) == text_lines(text@),
{
    let v = chars_of(text);
    let mut out: Vec<Vec<char>> = Vec::new();
    let mut i: usize = 0;
    assert(v@.skip(0) =~= v@);
    while i < v.len()
        invariant
            i <= v.len(),
            out@.map_values(|l: Vec<char>| l@) + text_lines(v@.skip(i as int)) == text_lines(v@),
        decreases v.len() - i,
    {
        let ghost rest = v@.skip(i as int);
        let mut line: Vec<char> = Vec::new();
        let mut j: usize = i;
        while j < v.len() && v[j] != '\n'
            invariant
                i <= j <= v.len(),
                line@ == v@.subrange(i as int, j as int),
                forall|k: int| i <= k < j ==> v@[k] != '\n',
            decreases v.len() - j,
        {
            line.push(v[j]);
            assert(v@.subrange(i as int, j + 1) =~= v@.subrange(i as int, j as int).push(v@[j as int]));
            j += 1;
        }
        proof {
            lemma_newline_at(rest);
            let e = newline_at(rest);
            if e < j - i {
                assert(rest[e] == v@[i + e]);
            }
            if j < v.len() && j - i < e {
                assert(rest[j - i] == v@[j as int]);
            }
            assert(e == j - i);
            assert(rest.take(e) =~= line@);
        }
        let ghost before = out@.map_values(|l: Vec<char>| l@);
        if j < v.len() {
            if line.len() > 0 && line[line.len() - 1] == '\r' {
                line.pop();
            }
            out.push(line);
            proof {
                assert(rest.skip(j - i + 1) =~= v@.skip(j + 1));
                assert(out@.map_values(|l: Vec<char>| l@) =~= before.push(strip_cr(rest.take(j - i))));
            }
            i = j + 1;
        } else {
            out.push(line);
            proof {
                assert(rest =~= line@);
                assert(v@.skip(j as int) =~= Seq::<char>::empty());
                assert(out@.map_values(|l: Vec<char>| l@) =~= before.push(rest));
            }
            i = j;
        }
    }
    assert(v@.skip(i as int) =~= Seq::<char>::empty());
    assert(out@.map_values(|l: Vec<char>| l@) =~= out@.map_values(|l: Vec<char>| l@) + text_lines(
        Seq::<char>::empty(),
    ));
    out
}

/// The line the preview centres on: the match's, or the first for a name hit.
pub open spec fn focus_of(h: Hit) -> int {
    match h {
        Hit::Line { line, .. } => (line as usize) as int,
        Hit::File { .. } => 1,
    }
}

/// The first line the preview shows: half its body above the focus, but
/// never before line 1.
pub open spec fn preview_start(focus: int, body_rows: int) -> int {
    let s = if focus >= body_rows / 2 {
        focus - body_rows / 2
    } else {
        0
    };
    if s < 1 {
        1
    } else {
        s
    }
}

/// One preview row for line `n` of the file: the focus line of a content hit
/// marked, the others dimmed.
pub open spec fn preview_row(n: int, body: Seq<char>, marked: bool) -> Seq<char> {
    if marked {
        ACCENT@ + "›"@ + RESET@ + DIM@ + gutter(n as u64) + RESET@ + "  "@ + body
    } else {
        DIM@ + " "@ + gutter(n as u64) + "  "@ + body + RESET@
    }
}

/// The rows the preview shows for a file holding `lines`.
pub open spec fn preview_body(h: Hit, lines: Seq<Seq<char>>, body_rows: int) -> Seq<Seq<char>> {
    let focus = focus_of(h);
    let start = preview_start(focus, body_rows);
    let from = start - 1;
    let to = if from + body_rows < lines.len() {
        from + body_rows
    } else {
        lines.len() as int
    };
    Seq::new(
        if from < to {
            (to - from) as nat
        } else {
            0
        },
        |k: int|
            {
                let n = from + k + 1;
                let l = lines[from + k];
                preview_row(n, l.take(l.len() - trail_ws(l)), n == focus && h is Line)
            },
    )
}

/// `lines` cut or padded with empty rows to exactly `n`.
pub open spec fn resized(lines: Seq<Seq<char>>, n: nat) -> Seq<Seq<char>> {
    Seq::new(n, |i: int| if i < lines.len() {
        lines[i]
    } else {
        seq![]
    })
}

/// What the preview shows for `row` whose file reads `content` (`None` when
/// it cannot be read): the file name, then the lines around the match, each
/// cut to `width`, in exactly `rows` rows. No row, no preview: `rows` blanks.
pub open spec fn preview_text(row: Option<Row>, content: Option<Seq<char>>, width: nat, rows: nat) -> Seq<Seq<char>> {
    match row {
        None => resized(seq![], rows),
        Some(r) => {
            let name = match file_name(hit_path(r.hit)) {
                Some(n) => n,
                None => seq![],
            };
            let title = DIM@ + "▍ "@ + name + RESET@;
            let body_rows: int = if rows >= 1 {
                rows - 1
            } else {
                0
            };
            let body = match content {
                Some(t) => preview_body(r.hit, text_lines(t), body_rows),
                None => seq![DIM@ + " (cannot preview)"@ + RESET@],
            };
            let all = seq![title] + body;
            resized(Seq::new(all.len(), |i: int| truncated(all[i], width)), rows)
        },
    }
}


/// The optional row a reference points at.
pub open spec fn row_at(row: Option<&Row>) -> Option<Row> {
    match row {
        Some(r) => Some(*r),
        None => None,
    }
}

/// The optional text of a reference.
pub open spec fn text_at(t: Option<&str>) -> Option<Seq<char>> {
    match t {
        Some(c) => Some(c@),
        None => None,
    }
}

fn push_gutter(out: &mut String, n: u64)
    ensures
        final(out)@ == old(out)@ + gutter(n),
{
    let d = crate::text::decimal_string(n);
    let len = chars_of(d.as_str()).len();
    let ghost base = out@;
    let pad: usize = if len < 5 {
        5 - len
    } else {
        0
    };
    let mut j: usize = 0;
    while j < pad
        invariant
            j <= pad,
            out@ == base + crate::inline::spaces(j as nat),
        decreases pad - j,
    {
        push_char(out, ' ');
        assert(crate::inline::spaces((j + 1) as nat) =~= crate::inline::spaces(j as nat).push(' '));
        j += 1;
    }
    push_str(out, d.as_str());
}

/// Lines of `all` cut to `width`, then cut or padded to `rows` lines.
fn cut_and_size(all: &Vec<String>, width: usize, rows: usize) -> (r: Vec<String>)
    ensures
        r@.map_values(|l: String| l@) == resized(
            Seq::new(all@.len(), |i: int| truncated(all@[i]@, width as nat)),
            rows as nat,
        ),
{
    let ghost cut = Seq::new(all@.len(), |i: int| truncated(all@[i]@, width as nat));
    let mut out: Vec<String> = Vec::new();
    let mut i: usize = 0;
    while i < rows
        invariant
            i <= rows,
            out@.len() == i,
            cut == Seq::new(all@.len(), |i: int| truncated(all@[i]@, width as nat)),
            forall|k: int| 0 <= k < i ==> (#[trigger] out@[k])@ == resized(cut, rows as nat)[k],
        decreases rows - i,
    {
        if i < all.len() {
            out.push(truncate(all[i].as_str(), width));
        } else {
            out.push(String::new());
        }
        i += 1;
    }
    assert(out@.map_values(|l: String| l@) =~= resized(cut, rows as nat));
    out
}

/// The preview column (see `preview_text`).
pub fn preview_lines(row: Option<&Row>, content: Option<&str>, width: usize, rows: usize) -> (r: Vec<
    String,
>)
    ensures
        r@.map_values(|l: String| l@) == preview_text(row_at(row), text_at(content), width as nat, rows as nat),
{
    let r = match row {
        None => {
            let none: Vec<String> = Vec::new();
            let out = cut_and_size(&none, width, rows);
            assert(Seq::new(none@.len(), |i: int| truncated(none@[i]@, width as nat)) =~= Seq::<
                Seq<char>,
            >::empty());
            return out;
        },
        Some(r) => r,
    };
    let mut all: Vec<String> = Vec::new();
    let name = match file_name_of(r.hit.path()) {
        Some(n) => n,
        None => String::new(),
    };
    let mut title = String::new();
    push_str(&mut title, DIM);
    push_str(&mut title, "▍ ");
    push_str(&mut title, name.as_str());
    push_str(&mut title, RESET);
    all.push(title);
    let body_rows: usize = if rows >= 1 {
        rows - 1
    } else {
        0
    };
    let ghost body_spec: Seq<Seq<char>> = match text_at(content) {
        Some(t) => preview_body(r.hit, text_lines(t), body_rows as int),
        None => seq![DIM@ + " (cannot preview)"@ + RESET@],
    };
    match content {
        None => {
            let mut e = String::new();
            push_str(&mut e, DIM);
            push_str(&mut e, " (cannot preview)");
            push_str(&mut e, RESET);
            all.push(e);
            assert(all@.map_values(|l: String| l@) =~= seq![DIM@ + "▍ "@ + name@ + RESET@] + seq![
                DIM@ + " (cannot preview)"@ + RESET@,
            ]);
        },
        Some(t) => {
            let lines = split_lines(t);
            let ghost ls = lines@.map_values(|l: Vec<char>| l@);
            let is_line = !r.hit.is_file();
            let focus: usize = match &r.hit {
                Hit::Line { line, .. } => *line as usize,
                Hit::File { .. } => 1,
            };
            let half = body_rows / 2;
            let s0: usize = if focus >= half {
                focus - half
            } else {
                0
            };
            let start: usize = if s0 < 1 {
                1
            } else {
                s0
            };
            let from = start - 1;
            let to: usize = if from < lines.len() && body_rows < lines.len() - from {
                from + body_rows
            } else {
                lines.len()
            };
            assert(start == preview_start(focus_of(r.hit), body_rows as int));
            assert(ls.len() == lines@.len());
            let mut k: usize = from;
            while k < to
                invariant
                    from <= k,
                    to <= lines.len(),
                    k <= to || from >= to,
                    from < to ==> all@.len() == 1 + (k - from),
                    from >= to ==> all@.len() == 1,
                    all@[0]@ == DIM@ + "▍ "@ + name@ + RESET@,
                    ls == text_lines(t@),
                    ls == lines@.map_values(|l: Vec<char>| l@),
                    from as int == preview_start(focus_of(r.hit), body_rows as int) - 1,
                    to as int == (if from + body_rows < ls.len() {
                        from + body_rows
                    } else {
                        ls.len() as int
                    }),
                    focus == focus_of(r.hit),
                    is_line == r.hit is Line,
                    forall|q: int| 0 <= q < k - from ==> (#[trigger] all@[1 + q])@ == preview_body(
                        r.hit,
                        ls,
                        body_rows as int,
                    )[q],
                decreases to - k,
            {
                let n = k + 1;
                let body = trim_end_chars(&lines[k]);
                let mut row_text = String::new();
                if n == focus && is_line {
                    push_str(&mut row_text, ACCENT);
                    push_str(&mut row_text, "›");
                    push_str(&mut row_text, RESET);
                    push_str(&mut row_text, DIM);
                    push_gutter(&mut row_text, n as u64);
                    push_str(&mut row_text, RESET);
                    push_str(&mut row_text, "  ");
                    push_str(&mut row_text, string_of(&body).as_str());
                } else {
                    push_str(&mut row_text, DIM);
                    push_str(&mut row_text, " ");
                    push_gutter(&mut row_text, n as u64);
                    push_str(&mut row_text, "  ");
                    push_str(&mut row_text, string_of(&body).as_str());
                    push_str(&mut row_text, RESET);
                }
                proof {
                    let l = ls[k as int];
                    assert(l == lines@[k as int]@);
                    assert(row_text@ =~= preview_row(n as int, l.take(l.len() - trail_ws(l)), n == focus && r.hit is Line));
                }
                all.push(row_text);
                k += 1;
            }
            proof {
                let pb = preview_body(r.hit, ls, body_rows as int);
                assert(pb.len() == all@.len() - 1);
                assert forall|i: int| 1 <= i < all@.len() implies all@[i]@ == pb[i - 1] by {
                    let q = i - 1;
                    assert(all@[1 + q]@ == pb[q]);
                }
                assert(all@.map_values(|l: String| l@) =~= seq![DIM@ + "▍ "@ + name@ + RESET@] + pb);
            }
        },
    }
    proof {
        assert(all@[0]@ == DIM@ + "▍ "@ + name@ + RESET@);
    }
    let out = cut_and_size(&all, width, rows);
    proof {
        let want_all = seq![DIM@ + "▍ "@ + name@ + RESET@] + body_spec;
        assert(all@.map_values(|l: String| l@) =~= want_all);
        assert(Seq::new(all@.len(), |i: int| truncated(all@[i]@, width as nat)) =~= Seq::new(
            want_all.len(),
            |i: int| truncated(want_all[i], width as nat),
        ));
    }
    out
}


/// `a - b`, or 0 when `b` is larger.
pub open spec fn sat(a: int, b: int) -> nat {
    if a >= b {
        (a - b) as nat
    } else {
        0
    }
}

/// Columns a text takes on screen.
pub open spec fn width_of(t: Seq<char>) -> nat {
    columns(visible(t))
}

/// Header spinner frame `i` (0 to 9).
pub open spec fn spinner_frame(i: int) -> Seq<char> {
    if i == 0 {
        "⠋"@
    } else if i == 1 {
        "⠙"@
    } else if i == 2 {
        "⠹"@
    } else if i == 3 {
        "⠸"@
    } else if i == 4 {
        "⠼"@
    } else if i == 5 {
        "⠴"@
    } else if i == 6 {
        "⠦"@
    } else if i == 7 {
        "⠧"@
    } else if i == 8 {
        "⠇"@
    } else {
        "⠏"@
    }
}

fn spinner(i: usize) -> (r: &'static str)
    requires
        i < 10,
    ensures
        r@ == spinner_frame(i as int),
{
    if i == 0 {
        "⠋"
    } else if i == 1 {
        "⠙"
    } else if i == 2 {
        "⠹"
    } else if i == 3 {
        "⠸"
    } else if i == 4 {
        "⠼"
    } else if i == 5 {
        "⠴"
    } else if i == 6 {
        "⠦"
    } else if i == 7 {
        "⠧"
    } else if i == 8 {
        "⠇"
    } else {
        "⠏"
    }
}

/// The query line's left part: prompt, pattern, and the caret (bright while
/// the query is being edited).
pub open spec fn left_head(s: State) -> Seq<char> {
    "  "@ + ACCENT@ + "›"@ + RESET@ + " "@ + BOLD@ + s.pattern@ + RESET@ + (if s.editing {
        ACCENT@
    } else {
        DIM@
    }) + "▏"@ + RESET@
}

/// The query line's right part: the mode and the count, with a spinner
/// while the walk runs.
pub open spec fn right_head(s: State) -> Seq<char> {
    let total = s.rows@.len();
    DIM@ + "◆ "@ + (if s.mode_names {
        "names"@
    } else {
        "content"@
    }) + " · "@ + decimal(total) + (if s.done {
        " match"@ + plural_es(total)
    } else {
        " "@ + spinner_frame((s.tick % 10) as int)
    }) + RESET@
}

/// The query line, its two parts pushed to the edges of `term` columns.
pub open spec fn header_line(s: State, term: nat) -> Seq<char> {
    let l = left_head(s);
    let r = right_head(s);
    l + spaces(sat(term as int, (width_of(l) + width_of(r) + 2) as int)) + r
}

/// How long ago, in whole seconds, a file modified at `mtime` was at `now`
/// (nanoseconds since the epoch); nothing for a time in the future.
pub open spec fn age_of(now: u128, mtime: u128) -> Option<u64> {
    if mtime <= now {
        let d = (now - mtime) / 1_000_000_000;
        Some(if d > u64::MAX {
            u64::MAX
        } else {
            d as u64
        })
    } else {
        None
    }
}

/// The left rail: a bar on the selected row.
pub open spec fn rail(selected: bool) -> Seq<char> {
    if selected {
        ACCENT@ + "▌"@ + RESET@
    } else {
        " "@
    }
}

/// `n` right-aligned in `w` columns.
pub open spec fn right_aligned(n: u64, w: nat) -> Seq<char> {
    let d = decimal(n as nat);
    spaces(sat(w as int, d.len() as int)) + d
}

/// `head`, then `chip` pushed to the right edge of `width` columns.
pub open spec fn spread(head: Seq<char>, chip: Seq<char>, width: nat) -> Seq<char> {
    head + spaces(sat(width as int, (width_of(head) + width_of(chip)) as int)) + chip
}

/// The row of name hit `i`: badge and path, size and age on the right.
pub open spec fn name_row(s: State, root: Seq<char>, lw: nat, now: u128, emoji_ok: bool, i: int) -> Seq<char> {
    let r = s.rows@[i];
    let path = hit_path(r.hit);
    let rel = relative(path, root);
    let sel = i == s.selected;
    let name = if sel {
        ACCENT@ + BOLD@ + rel + RESET@
    } else {
        rel
    };
    let head = " "@ + rail(sel) + " "@ + DIM@ + badge_text(emoji_ok, path) + RESET@ + " "@ + name;
    let chip = DIM@ + human_size_text(r.size as nat) + " · "@ + ago_text(age_of(now, r.mtime), mtime_secs(r.mtime)) + RESET@;
    spread(head, chip, lw)
}

/// Whether `path` is another file than the current one, if any.
pub open spec fn other_file(cur: Option<Seq<char>>, path: Seq<char>) -> bool {
    match cur {
        Some(c) => !same_path(c, path),
        None => true,
    }
}

/// How many of the first `n` rows are in file `path`.
pub open spec fn rows_in(rows: Seq<Row>, n: int, path: Seq<char>) -> nat
    decreases n,
{
    if n <= 0 {
        0
    } else {
        rows_in(rows, n - 1, path) + if same_path(hit_path(rows[n - 1].hit), path) {
            1nat
        } else {
            0nat
        }
    }
}

/// The directory part and the name of a shown path.
pub open spec fn split_rel(rel: Seq<char>) -> (Seq<char>, Seq<char>) {
    match parent_dir(rel) {
        Some(p) => if p.len() > 0 {
            (
                p + "/"@,
                match file_name(rel) {
                    Some(n) => n,
                    None => seq![],
                },
            )
        } else {
            (seq![], rel)
        },
        None => (seq![], rel),
    }
}

/// The heading above the content hits of row `i`'s file: badge, the
/// directory dimmed and the name bold, then the file's visible hit count
/// and size.
pub open spec fn file_heading(s: State, root: Seq<char>, lw: nat, emoji_ok: bool, i: int) -> Seq<char> {
    let r = s.rows@[i];
    let path = hit_path(r.hit);
    let parts = split_rel(relative(path, root));
    let vis = visible_count(s.rows@, s.expanded) as int;
    let head = "   "@ + DIM@ + badge_text(emoji_ok, path) + " "@ + parts.0 + RESET@ + ACCENT@ + BOLD@
        + parts.1 + RESET@;
    let chip = DIM@ + decimal(rows_in(s.rows@, vis, path)) + " · "@ + human_size_text(r.size as nat)
        + RESET@;
    spread(head, chip, lw)
}

/// The row of content hit `i`: line number and the line with the pattern
/// highlighted, dimmed unless selected.
pub open spec fn line_row(s: State, i: int) -> Seq<char> {
    let sel = i == s.selected;
    match s.rows@[i].hit {
        Hit::Line { line, text, .. } => {
            let t = text@.skip(lead_ws(text@) as int);
            let styled = if sel {
                highlighted(t, s.pattern@, seq![])
            } else {
                DIM@ + highlighted(t, s.pattern@, DIM@) + RESET@
            };
            " "@ + rail(sel) + " "@ + DIM@ + right_aligned(line, 4) + " │"@ + RESET@ + " "@ + styled
        },
        Hit::File { .. } => seq![],
    }
}

/// The lines row `i` adds to the body, and the file whose heading is then
/// current. A content hit gets a heading whenever the file changes (after a
/// blank line, unless the body is still empty); a name hit stands alone.
pub open spec fn step_lines(
    s: State,
    root: Seq<char>,
    lw: nat,
    now: u128,
    emoji_ok: bool,
    i: int,
    nonempty: bool,
    cur: Option<Seq<char>>,
) -> (Seq<Seq<char>>, Option<Seq<char>>) {
    let path = hit_path(s.rows@[i].hit);
    if s.rows@[i].hit is File {
        (seq![name_row(s, root, lw, now, emoji_ok, i)], None)
    } else {
        let head = if other_file(cur, path) {
            (if nonempty {
                seq![seq![]]
            } else {
                seq![]
            }) + seq![file_heading(s, root, lw, emoji_ok, i)]
        } else {
            seq![]
        };
        (head + seq![line_row(s, i)], Some(path))
    }
}

/// The body built from slot `slot` on, with `acc` drawn so far: rows are
/// added while there are visible rows left and the body has room for more.
/// Gives the body, the first slot not drawn, and the current file.
pub open spec fn body_fold(
    s: State,
    root: Seq<char>,
    lw: nat,
    now: u128,
    emoji_ok: bool,
    slot: int,
    acc: Seq<Seq<char>>,
    cur: Option<Seq<char>>,
) -> (Seq<Seq<char>>, int, Option<Seq<char>>)
    decreases visible_count(s.rows@, s.expanded) - slot,
{
    if slot >= visible_count(s.rows@, s.expanded) || acc.len() >= BODY_ROWS - 1 {
        (acc, slot, cur)
    } else {
        let st = step_lines(s, root, lw, now, emoji_ok, slot, acc.len() > 0, cur);
        body_fold(s, root, lw, now, emoji_ok, slot + 1, acc + st.0, st.1)
    }
}

/// The name of the first file from slot `j` on that is not `cur`.
pub open spec fn next_other_name(s: State, j: int, vis: int, cur: Option<Seq<char>>) -> Option<Seq<char>>
    decreases vis - j,
{
    if j >= vis {
        None
    } else if other_file(cur, hit_path(s.rows@[j].hit)) {
        file_name(hit_path(s.rows@[j].hit))
    } else {
        next_other_name(s, j + 1, vis, cur)
    }
}

/// The row that says how many visible rows did not fit, and which file
/// comes next.
pub open spec fn more_line(more: nat, next: Option<Seq<char>>) -> Seq<char> {
    "   "@ + DIM@ + "↓ "@ + decimal(more) + " more"@ + (match next {
        Some(n) => " · next "@ + n,
        None => seq![],
    }) + RESET@
}

/// The body of the block: exactly `BODY_ROWS` lines.
pub open spec fn body_text(s: State, root: Seq<char>, lw: nat, now: u128, emoji_ok: bool) -> Seq<Seq<char>> {
    let vis = visible_count(s.rows@, s.expanded) as int;
    let init = if vis == 0 {
        seq![
            "   "@ + DIM@ + (if s.done {
                "nothing found"@
            } else {
                "searching…"@
            }) + RESET@,
        ]
    } else {
        seq![]
    };
    let f = body_fold(s, root, lw, now, emoji_ok, s.offset as int, init, None);
    let with_more = if f.1 < vis {
        f.0.push(more_line((vis - f.1) as nat, next_other_name(s, f.1, vis, f.2)))
    } else {
        f.0
    };
    resized(with_more, BODY_ROWS as nat)
}

/// One key hint: the key bright, what it does dimmed.
pub open spec fn key_hint(k: Seq<char>, d: Seq<char>) -> Seq<char> {
    ACCENT@ + k + RESET@ + DIM@ + " "@ + d + RESET@
}

/// The key hints: editing keys while the query is open, otherwise the
/// picker's keys, the fold key only while the content cap is in play.
pub open spec fn hints_line(s: State) -> Seq<char> {
    if s.editing {
        "   "@ + key_hint("type"@, "refine"@) + "   "@ + key_hint("↵"@, "done"@) + "   "@ + key_hint(
            "↑↓"@,
            "move"@,
        )
    } else {
        "   "@ + key_hint("↵"@, "open"@) + "   "@ + key_hint("e"@, "edit"@) + "   "@ + key_hint(
            "/"@,
            "refine"@,
        ) + (if s.rows@.len() - file_rows(s.rows@) > CONTENT_CAP {
            "   "@ + key_hint(
                "⇥"@,
                if s.expanded {
                    "fold"@
                } else {
                    "all"@
                },
            )
        } else {
            seq![]
        }) + "   "@ + key_hint("^p"@, "preview"@) + "   "@ + key_hint("esc"@, "quit"@)
    }
}

/// Whether the preview shows at a terminal width of `term`.
pub open spec fn shows_preview(s: State, term: nat) -> bool {
    s.preview && term >= PREVIEW_MIN_WIDTH
}

/// The whole block at a terminal width of `term`: a blank, the query line,
/// a blank, the body (beside the preview of the selected row when it
/// shows), a blank and the key hints. `now` is the time (nanoseconds since
/// the epoch) ages are counted to, `content` the text of the selected row's
/// file.
pub open spec fn frame_lines(
    s: State,
    root: Seq<char>,
    term: nat,
    now: u128,
    emoji_ok: bool,
    content: Option<Seq<char>>,
) -> Seq<Seq<char>> {
    let show = shows_preview(s, term);
    let lw = if show {
        LEFT_WIDTH as nat
    } else {
        sat(term as int, 2)
    };
    let body = body_text(s, root, lw, now, emoji_ok);
    let vis = visible_count(s.rows@, s.expanded);
    let shown = if show {
        let right = preview_text(
            if s.selected < vis {
                Some(s.rows@[s.selected as int])
            } else {
                None
            },
            content,
            sat(term as int, LEFT_WIDTH + 4),
            BODY_ROWS as nat,
        );
        Seq::new(
            BODY_ROWS as nat,
            |r: int| fitted(body[r], LEFT_WIDTH as nat) + " "@ + DIM@ + "│"@ + RESET@ + " "@ + right[r],
        )
    } else {
        body
    };
    seq![seq![], header_line(s, term), seq![]] + shown + seq![seq![], hints_line(s)]
}


/// The view of an optional text.
pub open spec fn opt_text(o: Option<String>) -> Option<Seq<char>> {
    match o {
        Some(t) => Some(t@),
        None => None,
    }
}

fn sat_usize(a: usize, b: usize) -> (r: usize)
    ensures
        r == sat(a as int, b as int),
{
    if a >= b {
        a - b
    } else {
        0
    }
}

fn push_spaces(out: &mut String, n: usize)
    ensures
        final(out)@ == old(out)@ + spaces(n as nat),
{
    let ghost base = out@;
    let mut j: usize = 0;
    while j < n
        invariant
            j <= n,
            out@ == base + spaces(j as nat),
        decreases n - j,
    {
        push_char(out, ' ');
        assert(spaces((j + 1) as nat) =~= spaces(j as nat).push(' '));
        j += 1;
    }
}

fn push_right(out: &mut String, n: u64, w: usize)
    ensures
        final(out)@ == old(out)@ + right_aligned(n, w as nat),
{
    let d = crate::text::decimal_string(n);
    let len = chars_of(d.as_str()).len();
    push_spaces(out, sat_usize(w, len));
    push_str(out, d.as_str());
    assert(final(out)@ =~= old(out)@ + right_aligned(n, w as nat));
}

/// `head`, then `chip` pushed to the right edge of `width` columns.
fn spread_text(head: String, chip: &str, width: usize) -> (r: String)
    ensures
        r@ == spread(head@, chip@, width as nat),
{
    let a = visible_width(head.as_str());
    let b = visible_width(chip);
    let gap: usize = if a <= width && b <= width - a {
        width - a - b
    } else {
        0
    };
    assert(gap == sat(width as int, (width_of(head@) + width_of(chip@)) as int));
    let mut out = head;
    push_spaces(&mut out, gap);
    push_str(&mut out, chip);
    out
}

/// The whole seconds after the epoch of a time `mtime` nanoseconds after it,
/// held to what a `u64` can count.
pub open spec fn mtime_secs(mtime: u128) -> u64 {
    if mtime / 1_000_000_000 > u64::MAX {
        u64::MAX
    } else {
        (mtime / 1_000_000_000) as u64
    }
}

fn secs_of(mtime: u128) -> (r: u64)
    ensures
        r == mtime_secs(mtime),
{
    let d = mtime / 1_000_000_000;
    if d > u64::MAX as u128 {
        u64::MAX
    } else {
        d as u64
    }
}

fn age_secs(now: u128, mtime: u128) -> (r: Option<u64>)
    ensures
        r == age_of(now, mtime),
{
    if mtime <= now {
        let d = (now - mtime) / 1_000_000_000;
        Some(
            if d > u64::MAX as u128 {
                u64::MAX
            } else {
                d as u64
            },
        )
    } else {
        None
    }
}

fn push_rail(out: &mut String, selected: bool)
    ensures
        final(out)@ == old(out)@ + rail(selected),
{
    if selected {
        push_str(out, ACCENT);
        push_str(out, "▌");
        push_str(out, RESET);
    } else {
        push_str(out, " ");
    }
    assert(final(out)@ =~= old(out)@ + rail(selected));
}

fn name_row_text(s: &State, root: &str, lw: usize, now: u128, emoji_ok: bool, i: usize) -> (r: String)
    requires
        i < s.rows@.len(),
    ensures
        r@ == name_row(*s, root@, lw as nat, now, emoji_ok, i as int),
{
    let row = &s.rows[i];
    let path = row.hit.path();
    let rel = relative_to(path, root);
    let sel = i == s.selected;
    let mut head = String::new();
    push_str(&mut head, " ");
    push_rail(&mut head, sel);
    push_str(&mut head, " ");
    push_str(&mut head, DIM);
    push_str(&mut head, badge_with(emoji_ok, path).as_str());
    push_str(&mut head, RESET);
    push_str(&mut head, " ");
    if sel {
        push_str(&mut head, ACCENT);
        push_str(&mut head, BOLD);
        push_str(&mut head, rel.as_str());
        push_str(&mut head, RESET);
    } else {
        push_str(&mut head, rel.as_str());
    }
    let mut chip = String::new();
    push_str(&mut chip, DIM);
    push_str(&mut chip, human_size(row.size).as_str());
    push_str(&mut chip, " · ");
    push_str(&mut chip, ago_label(age_secs(now, row.mtime), secs_of(row.mtime)).as_str());
    push_str(&mut chip, RESET);
    proof {
        let rr = s.rows@[i as int];
        let hp = hit_path(rr.hit);
        let name = if sel {
            ACCENT@ + BOLD@ + relative(hp, root@) + RESET@
        } else {
            relative(hp, root@)
        };
        assert(head@ =~= " "@ + rail(sel) + " "@ + DIM@ + badge_text(emoji_ok, hp) + RESET@ + " "@
            + name);
        assert(chip@ =~= DIM@ + human_size_text(rr.size as nat) + " · "@ + ago_text(
            age_of(now, rr.mtime),
            mtime_secs(rr.mtime),
        ) + RESET@);
    }
    spread_text(head, chip.as_str(), lw)
}

fn rows_in_count(rows: &Vec<Row>, n: usize, path: &str) -> (r: usize)
    requires
        n <= rows@.len(),
    ensures
        r == rows_in(rows@, n as int, path@),
        r <= n,
{
    let mut c: usize = 0;
    let mut j: usize = 0;
    while j < n
        invariant
            j <= n <= rows@.len(),
            c == rows_in(rows@, j as int, path@),
            c <= j,
        decreases n - j,
    {
        if same_path_of(rows[j].hit.path(), path) {
            c += 1;
        }
        j += 1;
    }
    c
}

fn heading_text(s: &State, root: &str, lw: usize, emoji_ok: bool, i: usize, vis: usize) -> (r: String)
    requires
        i < s.rows@.len(),
        vis == visible_count(s.rows@, s.expanded),
        vis <= s.rows@.len(),
    ensures
        r@ == file_heading(*s, root@, lw as nat, emoji_ok, i as int),
{
    let row = &s.rows[i];
    let path = row.hit.path();
    let rel = relative_to(path, root);
    let (dir, name): (String, String) = match parent_of(rel.as_str()) {
        Some(p) => if p.as_str().is_empty() {
            (String::new(), rel)
        } else {
            let mut d = p;
            push_str(&mut d, "/");
            let n = match file_name_of(rel.as_str()) {
                Some(n) => n,
                None => String::new(),
            };
            (d, n)
        },
        None => (String::new(), rel),
    };
    proof {
        let parts = split_rel(relative(hit_path(s.rows@[i as int].hit), root@));
        assert(dir@ =~= parts.0);
        assert(name@ =~= parts.1);
    }
    let mut head = String::new();
    push_str(&mut head, "   ");
    push_str(&mut head, DIM);
    push_str(&mut head, badge_with(emoji_ok, path).as_str());
    push_str(&mut head, " ");
    push_str(&mut head, dir.as_str());
    push_str(&mut head, RESET);
    push_str(&mut head, ACCENT);
    push_str(&mut head, BOLD);
    push_str(&mut head, name.as_str());
    push_str(&mut head, RESET);
    let hits = rows_in_count(&s.rows, vis, path);
    let mut chip = String::new();
    push_str(&mut chip, DIM);
    push_decimal(&mut chip, hits as u64);
    push_str(&mut chip, " · ");
    push_str(&mut chip, human_size(row.size).as_str());
    push_str(&mut chip, RESET);
    proof {
        let rr = s.rows@[i as int];
        let hp = hit_path(rr.hit);
        let parts = split_rel(relative(hp, root@));
        assert(head@ =~= "   "@ + DIM@ + badge_text(emoji_ok, hp) + " "@ + parts.0 + RESET@ + ACCENT@
            + BOLD@ + parts.1 + RESET@);
        assert(chip@ =~= DIM@ + decimal(rows_in(s.rows@, vis as int, hp)) + " · "@ + human_size_text(
            rr.size as nat,
        ) + RESET@);
    }
    spread_text(head, chip.as_str(), lw)
}

fn line_row_text(s: &State, i: usize) -> (r: String)
    requires
        i < s.rows@.len(),
    ensures
        r@ == line_row(*s, i as int),
{
    let sel = i == s.selected;
    match &s.rows[i].hit {
        Hit::Line { line, text, .. } => {
            let t = string_of(&trim_start_chars(&chars_of(text.as_str())));
            let styled = if sel {
                highlight(t.as_str(), s.pattern.as_str(), "")
            } else {
                let mut st = String::new();
                push_str(&mut st, DIM);
                push_str(&mut st, highlight(t.as_str(), s.pattern.as_str(), DIM).as_str());
                push_str(&mut st, RESET);
                st
            };
            let mut out = String::new();
            push_str(&mut out, " ");
            push_rail(&mut out, sel);
            push_str(&mut out, " ");
            push_str(&mut out, DIM);
            push_right(&mut out, *line, 4);
            push_str(&mut out, " │");
            push_str(&mut out, RESET);
            push_str(&mut out, " ");
            push_str(&mut out, styled.as_str());
            proof {
                reveal_strlit("");
                let tt = text@.skip(lead_ws(text@) as int);
                let want = if sel {
                    highlighted(tt, s.pattern@, seq![])
                } else {
                    DIM@ + highlighted(tt, s.pattern@, DIM@) + RESET@
                };
                assert(""@ =~= Seq::<char>::empty());
                assert(styled@ =~= want);
                assert(out@ =~= line_row(*s, i as int));
            }
            out
        },
        Hit::File { .. } => String::new(),
    }
}

fn next_name(s: &State, j: usize, vis: usize, cur: &Option<String>) -> (r: Option<String>)
    requires
        vis <= s.rows@.len(),
    ensures
        opt_text(r) == next_other_name(*s, j as int, vis as int, opt_text(*cur)),
    decreases vis - j,
{
    if j >= vis {
        return None;
    }
    let path = s.rows[j].hit.path();
    let same = match cur {
        Some(c) => same_path_of(c.as_str(), path),
        None => false,
    };
    if !same {
        match file_name_of(path) {
            Some(n) => Some(n),
            None => None,
        }
    } else {
        next_name(s, j + 1, vis, cur)
    }
}

fn more_text(more: usize, next: Option<String>) -> (r: String)
    ensures
        r@ == more_line(more as nat, opt_text(next)),
{
    let mut out = String::new();
    push_str(&mut out, "   ");
    push_str(&mut out, DIM);
    push_str(&mut out, "↓ ");
    push_decimal(&mut out, more as u64);
    push_str(&mut out, " more");
    match &next {
        Some(n) => {
            push_str(&mut out, " · next ");
            push_str(&mut out, n.as_str());
        },
        None => {},
    }
    push_str(&mut out, RESET);
    assert(out@ =~= more_line(more as nat, opt_text(next)));
    out
}

fn push_hint(out: &mut String, k: &str, d: &str)
    ensures
        final(out)@ == old(out)@ + key_hint(k@, d@),
{
    push_str(out, ACCENT);
    push_str(out, k);
    push_str(out, RESET);
    push_str(out, DIM);
    push_str(out, " ");
    push_str(out, d);
    push_str(out, RESET);
    assert(final(out)@ =~= old(out)@ + key_hint(k@, d@));
}

fn hints_text(s: &State) -> (r: String)
    ensures
        r@ == hints_line(*s),
{
    let mut out = String::new();
    if s.editing {
        push_str(&mut out, "   ");
        push_hint(&mut out, "type", "refine");
        push_str(&mut out, "   ");
        push_hint(&mut out, "↵", "done");
        push_str(&mut out, "   ");
        push_hint(&mut out, "↑↓", "move");
    } else {
        push_str(&mut out, "   ");
        push_hint(&mut out, "↵", "open");
        push_str(&mut out, "   ");
        push_hint(&mut out, "e", "edit");
        push_str(&mut out, "   ");
        push_hint(&mut out, "/", "refine");
        if s.content_count() > CONTENT_CAP {
            push_str(&mut out, "   ");
            push_hint(
                &mut out,
                "⇥",
                if s.expanded {
                    "fold"
                } else {
                    "all"
                },
            );
        }
        push_str(&mut out, "   ");
        push_hint(&mut out, "^p", "preview");
        push_str(&mut out, "   ");
        push_hint(&mut out, "esc", "quit");
    }
    assert(out@ =~= hints_line(*s));
    out
}

fn header_text(s: &State, term: usize) -> (r: String)
    ensures
        r@ == header_line(*s, term as nat),
{
    let mut left = String::new();
    push_str(&mut left, "  ");
    push_str(&mut left, ACCENT);
    push_str(&mut left, "›");
    push_str(&mut left, RESET);
    push_str(&mut left, " ");
    push_str(&mut left, BOLD);
    push_str(&mut left, s.pattern.as_str());
    push_str(&mut left, RESET);
    push_str(
        &mut left,
        if s.editing {
            ACCENT
        } else {
            DIM
        },
    );
    push_str(&mut left, "▏");
    push_str(&mut left, RESET);
    assert(left@ =~= left_head(*s));
    let total = s.rows.len();
    let mut right = String::new();
    push_str(&mut right, DIM);
    push_str(&mut right, "◆ ");
    push_str(
        &mut right,
        if s.mode_names {
            "names"
        } else {
            "content"
        },
    );
    push_str(&mut right, " · ");
    push_decimal(&mut right, total as u64);
    if s.done {
        push_str(&mut right, " match");
        if total != 1 {
            push_str(&mut right, "es");
        }
    } else {
        push_str(&mut right, " ");
        push_str(&mut right, spinner(s.tick % 10));
    }
    push_str(&mut right, RESET);
    assert(right@ =~= right_head(*s));
    let a = visible_width(left.as_str());
    let b = visible_width(right.as_str());
    let gap: usize = if a <= term && b <= term - a && 2 <= term - a - b {
        term - a - b - 2
    } else {
        0
    };
    assert(gap == sat(term as int, (width_of(left@) + width_of(right@) + 2) as int));
    let mut out = left;
    push_spaces(&mut out, gap);
    push_str(&mut out, right.as_str());
    out
}


/// Draws row `i` onto `body` (see `step_lines`) and moves the current file.
fn add_row(
    s: &State,
    root: &str,
    lw: usize,
    now: u128,
    emoji_ok: bool,
    vis: usize,
    i: usize,
    body: &mut Vec<String>,
    cur: &mut Option<String>,
)
    requires
        i < vis,
        vis == visible_count(s.rows@, s.expanded),
        vis <= s.rows@.len(),
    ensures
        ({
            let st = step_lines(
                *s,
                root@,
                lw as nat,
                now,
                emoji_ok,
                i as int,
                old(body)@.len() > 0,
                opt_text(*old(cur)),
            );
            &&& final(body)@.map_values(|l: String| l@) == old(body)@.map_values(|l: String| l@) + st.0
            &&& opt_text(*final(cur)) == st.1
        }),
{
    let ghost before = body@.map_values(|l: String| l@);
    let ghost st = step_lines(*s, root@, lw as nat, now, emoji_ok, i as int, before.len() > 0, opt_text(*cur));
    if s.rows[i].is_file() {
        body.push(name_row_text(s, root, lw, now, emoji_ok, i));
        *cur = None;
    } else {
        let path = s.rows[i].hit.path();
        let differs = match &*cur {
            Some(c) => !same_path_of(c.as_str(), path),
            None => true,
        };
        if differs {
            if body.len() > 0 {
                body.push(String::new());
            }
            body.push(heading_text(s, root, lw, emoji_ok, i, vis));
        }
        body.push(line_row_text(s, i));
        *cur = Some(String::from_str(path));
    }
    assert(body@.map_values(|l: String| l@) =~= before + st.0);
}

/// The block's body lines (see `body_text`).
fn body_lines_of(s: &State, root: &str, lw: usize, now: u128, emoji_ok: bool) -> (r: Vec<String>)
    ensures
        r@.map_values(|l: String| l@) == body_text(*s, root@, lw as nat, now, emoji_ok),
{
    let vis = s.visible_len();
    let mut body: Vec<String> = Vec::new();
    if vis == 0 {
        let mut l = String::new();
        push_str(&mut l, "   ");
        push_str(&mut l, DIM);
        push_str(
            &mut l,
            if s.done {
                "nothing found"
            } else {
                "searching…"
            },
        );
        push_str(&mut l, RESET);
        body.push(l);
    }
    let ghost init = body@.map_values(|l: String| l@);
    assert(init =~= (if vis == 0 {
        seq![
            "   "@ + DIM@ + (if s.done {
                "nothing found"@
            } else {
                "searching…"@
            }) + RESET@,
        ]
    } else {
        seq![]
    }));
    let mut cur: Option<String> = None;
    let mut slot: usize = s.offset;
    while slot < vis && body.len() < BODY_ROWS - 1
        invariant
            vis == visible_count(s.rows@, s.expanded),
            vis <= s.rows@.len(),
            body_fold(*s, root@, lw as nat, now, emoji_ok, s.offset as int, init, None)
                == body_fold(
                *s,
                root@,
                lw as nat,
                now,
                emoji_ok,
                slot as int,
                body@.map_values(|l: String| l@),
                opt_text(cur),
            ),
        decreases vis - slot,
    {
        add_row(s, root, lw, now, emoji_ok, vis, slot, &mut body, &mut cur);
        slot += 1;
    }
    let ghost f = body_fold(*s, root@, lw as nat, now, emoji_ok, s.offset as int, init, None);
    assert(f == (body@.map_values(|l: String| l@), slot as int, opt_text(cur)));
    if slot < vis {
        let next = next_name(s, slot, vis, &cur);
        body.push(more_text(vis - slot, next));
    }
    let ghost with_more = body@.map_values(|l: String| l@);
    let mut out: Vec<String> = Vec::new();
    let mut k: usize = 0;
    while k < BODY_ROWS
        invariant
            k <= BODY_ROWS,
            out@.len() == k,
            with_more == body@.map_values(|l: String| l@),
            forall|q: int| 0 <= q < k ==> (#[trigger] out@[q])@ == resized(with_more, BODY_ROWS as nat)[q],
        decreases BODY_ROWS - k,
    {
        if k < body.len() {
            out.push(body[k].clone());
        } else {
            out.push(String::new());
        }
        k += 1;
    }
    assert(out@.map_values(|l: String| l@) =~= resized(with_more, BODY_ROWS as nat));
    out
}

/// The body beside the preview: each body line fitted to the left column,
/// a rule, then the preview line.
fn beside(body: &Vec<String>, right: &Vec<String>) -> (r: Vec<String>)
    requires
        body@.len() == BODY_ROWS,
        right@.len() == BODY_ROWS,
    ensures
        r@.map_values(|l: String| l@) == Seq::new(
            BODY_ROWS as nat,
            |q: int| fitted(body@[q]@, LEFT_WIDTH as nat) + " "@ + DIM@ + "│"@ + RESET@ + " "@ + right@[q]@,
        ),
{
    let mut out: Vec<String> = Vec::new();
    let mut r: usize = 0;
    while r < BODY_ROWS
        invariant
            r <= BODY_ROWS,
            body@.len() == BODY_ROWS,
            right@.len() == BODY_ROWS,
            out@.len() == r,
            forall|q: int| 0 <= q < r ==> (#[trigger] out@[q])@ == fitted(body@[q]@, LEFT_WIDTH as nat)
                + " "@ + DIM@ + "│"@ + RESET@ + " "@ + right@[q]@,
        decreases BODY_ROWS - r,
    {
        let mut l = fit(body[r].as_str(), LEFT_WIDTH);
        push_str(&mut l, " ");
        push_str(&mut l, DIM);
        push_str(&mut l, "│");
        push_str(&mut l, RESET);
        push_str(&mut l, " ");
        push_str(&mut l, right[r].as_str());
        out.push(l);
        r += 1;
    }
    assert(out@.map_values(|l: String| l@) =~= Seq::new(
        BODY_ROWS as nat,
        |q: int| fitted(body@[q]@, LEFT_WIDTH as nat) + " "@ + DIM@ + "│"@ + RESET@ + " "@ + right@[q]@,
    ));
    out
}

/// The middle of the block: the body, beside the preview when it shows.
fn middle(s: &State, root: &str, term: usize, now: u128, emoji_ok: bool, content: Option<&str>) -> (r: Vec<String>)
    ensures
        ({
            let show = shows_preview(*s, term as nat);
            let lw = if show {
                LEFT_WIDTH as nat
            } else {
                sat(term as int, 2)
            };
            let body = body_text(*s, root@, lw, now, emoji_ok);
            let vis = visible_count(s.rows@, s.expanded);
            r@.map_values(|l: String| l@) == if show {
                let right = preview_text(
                    if s.selected < vis {
                        Some(s.rows@[s.selected as int])
                    } else {
                        None
                    },
                    text_at(content),
                    sat(term as int, LEFT_WIDTH + 4),
                    BODY_ROWS as nat,
                );
                Seq::new(
                    BODY_ROWS as nat,
                    |q: int| fitted(body[q], LEFT_WIDTH as nat) + " "@ + DIM@ + "│"@ + RESET@ + " "@
                        + right[q],
                )
            } else {
                body
            }
        }),
{
    let show = s.preview && term >= PREVIEW_MIN_WIDTH;
    let lw: usize = if show {
        LEFT_WIDTH
    } else {
        sat_usize(term, 2)
    };
    let body = body_lines_of(s, root, lw, now, emoji_ok);
    if !show {
        return body;
    }
    let vis = s.visible_len();
    let row: Option<&Row> = if s.selected < vis {
        Some(&s.rows[s.selected])
    } else {
        None
    };
    let right = preview_lines(row, content, sat_usize(term, LEFT_WIDTH + 4), BODY_ROWS);
    proof {
        let pt = preview_text(row_at(row), text_at(content), sat(term as int, LEFT_WIDTH + 4), BODY_ROWS as nat);
        assert(pt.len() == BODY_ROWS);
        assert(right@.map_values(|l: String| l@).len() == right@.len());
        let bt = body_text(*s, root@, lw as nat, now, emoji_ok);
        assert(bt.len() == BODY_ROWS);
        assert(body@.map_values(|l: String| l@).len() == body@.len());
    }
    let out = beside(&body, &right);
    proof {
        let bt = body@.map_values(|l: String| l@);
        let rt = right@.map_values(|l: String| l@);
        assert(forall|q: int| 0 <= q < BODY_ROWS ==> #[trigger] bt[q] == body@[q]@);
        assert(forall|q: int| 0 <= q < BODY_ROWS ==> #[trigger] rt[q] == right@[q]@);
        assert(out@.map_values(|l: String| l@) =~= Seq::new(
            BODY_ROWS as nat,
            |q: int| fitted(bt[q], LEFT_WIDTH as nat) + " "@ + DIM@ + "│"@ + RESET@ + " "@ + rt[q],
        ));
    }
    out
}

/// The picker block at a terminal width of `term` (see `frame_lines`):
/// `now` is the time ages are counted to, in nanoseconds since the epoch,
/// `emoji_ok` whether badges may use emoji, and `content` the text of the
/// selected row's file (`None` when it cannot be read).
#[verifier::spinoff_prover]
#[verifier::rlimit(40)]
pub fn render_at_width(
    s: &State,
    root: &str,
    term: usize,
    now: u128,
    emoji_ok: bool,
    content: Option<&str>,
) -> (r: Vec<String>)
    ensures
        r@.map_values(|l: String| l@) == frame_lines(*s, root@, term as nat, now, emoji_ok, text_at(content)),
{
    let mut lines: Vec<String> = Vec::new();
    lines.push(String::new());
    lines.push(header_text(s, term));
    lines.push(String::new());
    let ghost head3 = lines@.map_values(|l: String| l@);
    let mut mid = middle(s, root, term, now, emoji_ok, content);
    let ghost m = mid@.map_values(|l: String| l@);
    lines.append(&mut mid);
    lines.push(String::new());
    lines.push(hints_text(s));
    proof {
        assert(head3 =~= seq![seq![], header_line(*s, term as nat), seq![]]);
        assert(lines@.map_values(|l: String| l@) =~= head3 + m + seq![seq![], hints_line(*s)]);
    }
    lines
}


/// The preview always has exactly `rows` lines, so the block never changes
/// height.
pub proof fn lemma_preview_height(row: Option<Row>, content: Option<Seq<char>>, width: nat, rows: nat)
    ensures
        preview_text(row, content, width, rows).len() == rows,
{
}

/// The picker block always has the same height: the query line with a blank
/// above and below, `BODY_ROWS` body lines, a blank and the key hints.
pub proof fn lemma_frame_height(
    s: State,
    root: Seq<char>,
    term: nat,
    now: u128,
    emoji_ok: bool,
    content: Option<Seq<char>>,
)
    ensures
        frame_lines(s, root, term, now, emoji_ok, content).len() == BODY_ROWS + 5,
{
}

} // verus!
