//! The inline result picker behind `cl find`: its rows, kept in result order
//! as hits stream in, the capped visible window, the cursor, and how a row is
//! labelled. Drawing and key handling sit outside.

use vstd::prelude::*;

use std::time::{Duration, SystemTime};

use crate::order::{hit_before, hit_lt, lemma_hit_order, same_path, same_path_of};
use crate::app::{group_start, next_other, prev_other};
use crate::config::copy_opt;
use crate::keys::Key;
use crate::paths::{extension, extension_of, file_name, file_name_of, last_dot, relative, relative_to, same_text};
use crate::search::{contains_seq, find_seq, hit_line, hit_path, lowercase_of, occurs_at, to_lowercase, Hit, Kind, Query};
use crate::text::{chars_of, decimal, decimal_string, pop_char, push_char, push_decimal, push_str, string_of};

verus! {

/// Content matches shown before collapsing behind a "… N more" row.
pub const CONTENT_CAP: usize = 50;

/// Visible result rows.
pub const WINDOW: usize = 8;

/// Body rows, counting group headings and blank spacers.
pub const BODY_ROWS: usize = 12;

/// Terminal columns below which the preview is dropped.
pub const PREVIEW_MIN_WIDTH: usize = 96;

/// Width of the results column when the preview sits beside it.
pub const LEFT_WIDTH: usize = 54;

pub const ACCENT: &'static str = "\x1b[36m";

pub const DIM: &'static str = "\x1b[2m";

pub const BOLD: &'static str = "\x1b[1m";

pub const RESET: &'static str = "\x1b[0m";

/// Matched term inside a line.
pub const HOT: &'static str = "\x1b[1;33m";

#[verifier::external_type_specification]
#[verifier::external_body]
pub struct ExSystemTime(SystemTime);

/// One selectable row: a hit with the size and modification time (nanoseconds
/// since the Unix epoch) of its file.
pub struct Row {
    pub hit: Hit,
    pub size: u64,
    pub mtime: u128,
}

/// Row order: the hit order of `crate::order`, on the rows' modification times.
pub open spec fn row_lt(a: Row, b: Row) -> bool {
    hit_lt(a.hit, a.mtime, b.hit, b.mtime)
}

/// Rows are in order: no row sorts strictly before one above it.
pub open spec fn rows_sorted(rows: Seq<Row>) -> bool {
    forall|i: int, j: int| 0 <= i < j < rows.len() ==> !row_lt(#[trigger] rows[j], #[trigger] rows[i])
}

impl Row {
    pub fn is_file(&self) -> (r: bool)
        ensures
            r == (self.hit is File),
    {
        self.hit.is_file()
    }

    /// Line number for ordering; name hits sort as line 0.
    pub fn line(&self) -> (r: u64)
        ensures
            r == hit_line(self.hit),
    {
        self.hit.line()
    }

    /// What gets printed on Enter: the path relative to `root`, and for a
    /// content hit `:line` so the caller can jump straight to it.
    pub fn selection(&self, root: &str) -> (r: String)
        ensures
            r@ == selection_text(self.hit, root@),
    {
        let mut out = relative_to(self.hit.path(), root);
        match &self.hit {
            Hit::File { .. } => {},
            Hit::Line { line, .. } => {
                push_char(&mut out, ':');
                push_decimal(&mut out, *line);
            },
        }
        out
    }
}

/// The text a row selects.
pub open spec fn selection_text(hit: Hit, root: Seq<char>) -> Seq<char> {
    let shown = relative(hit_path(hit), root);
    match hit {
        Hit::File { .. } => shown,
        Hit::Line { line, .. } => shown.push(':') + decimal(line as nat),
    }
}

/// Outcome of running the picker.
pub enum Outcome {
    /// User chose a row; the string is what should go to stdout.
    Selected(String),
    /// User pressed Esc / q, or there was nothing to choose.
    Cancelled,
}

pub struct State {
    pub pattern: String,
    pub rows: Vec<Row>,
    /// Cursor into the currently visible (possibly capped) row list.
    pub selected: usize,
    /// First visible row, for scrolling.
    pub offset: usize,
    pub expanded: bool,
    pub preview: bool,
    /// True while `/` has the query open for editing.
    pub editing: bool,
    /// Whether the current walk is matching names rather than contents.
    pub mode_names: bool,
    pub done: bool,
    /// Until the user moves, the cursor stays pinned to the top row; after
    /// that it follows the item it was on as results stream in around it.
    pub user_moved: bool,
    pub prev_lines: usize,
    /// Repaint counter; drives the header spinner.
    pub tick: usize,
    /// One stat per path, shared by every content hit in the same file:
    /// `(path, size, mtime)`.
    pub meta: Vec<(String, u64, u128)>,
}

/// The stat recorded for `path` (a path with the same components), the first
/// one recorded for it.
pub open spec fn meta_get(meta: Seq<(String, u64, u128)>, path: Seq<char>) -> Option<(u64, u128)>
    decreases meta.len(),
{
    if meta.len() == 0 {
        None
    } else if same_path(meta[0].0@, path) {
        Some((meta[0].1, meta[0].2))
    } else {
        meta_get(meta.drop_first(), path)
    }
}

/// Number of name hits among `rows`.
pub open spec fn file_rows(rows: Seq<Row>) -> nat
    decreases rows.len(),
{
    if rows.len() == 0 {
        0
    } else {
        (if rows.last().hit is File {
            1nat
        } else {
            0nat
        }) + file_rows(rows.drop_last())
    }
}

pub proof fn lemma_file_rows_bound(rows: Seq<Row>)
    ensures
        file_rows(rows) <= rows.len(),
    decreases rows.len(),
{
    if rows.len() > 0 {
        lemma_file_rows_bound(rows.drop_last());
    }
}

/// How many rows the picker lets the cursor reach: every name hit, and the
/// content hits up to `CONTENT_CAP` unless expanded.
pub open spec fn visible_count(rows: Seq<Row>, expanded: bool) -> nat {
    let files = file_rows(rows);
    let content = (rows.len() - files) as nat;
    files + if expanded || content <= CONTENT_CAP {
        content
    } else {
        CONTENT_CAP as nat
    }
}

/// Where the cursor and the scroll offset land after `clamp`.
pub open spec fn clamped(selected: int, offset: int, len: int) -> (int, int) {
    if len == 0 {
        (0, 0)
    } else {
        let s = if selected < len - 1 {
            selected
        } else {
            len - 1
        };
        if s < offset {
            (s, s)
        } else if s >= offset + WINDOW {
            (s, s + 1 - WINDOW)
        } else {
            (s, offset)
        }
    }
}

/// The stat a hit is filed under: the one recorded for its path, else `stat`.
pub open spec fn stat_for(meta: Seq<(String, u64, u128)>, hit: Hit, stat: (u64, u128)) -> (
    u64,
    u128,
) {
    match meta_get(meta, hit_path(hit)) {
        Some(m) => m,
        None => stat,
    }
}

/// The row a hit becomes.
pub open spec fn row_for(meta: Seq<(String, u64, u128)>, hit: Hit, stat: (u64, u128)) -> Row {
    let u = stat_for(meta, hit, stat);
    Row { hit, size: u.0, mtime: u.1 }
}

/// Where an incoming row goes: after every row that sorts strictly before it.
pub open spec fn insert_position(rows: Seq<Row>, row: Row, pos: int) -> bool {
    &&& 0 <= pos <= rows.len()
    &&& forall|i: int| 0 <= i < pos ==> row_lt(#[trigger] rows[i], row)
    &&& pos < rows.len() ==> !row_lt(rows[pos], row)
}

impl State {
    pub fn new(pattern: String) -> (s: State)
        ensures
            s.pattern == pattern,
            s.rows@.len() == 0,
            s.selected == 0,
            s.offset == 0,
            !s.expanded,
            s.preview,
            !s.editing,
            !s.mode_names,
            !s.done,
            !s.user_moved,
            s.prev_lines == 0,
            s.tick == 0,
            s.meta@.len() == 0,
    {
        State {
            pattern,
            rows: Vec::new(),
            selected: 0,
            offset: 0,
            expanded: false,
            preview: true,
            editing: false,
            mode_names: false,
            done: false,
            user_moved: false,
            prev_lines: 0,
            tick: 0,
            meta: Vec::new(),
        }
    }

    /// Forget every result of the previous walk.
    pub fn reset(&mut self)
        ensures
            final(self).rows@.len() == 0,
            final(self).meta@.len() == 0,
            final(self).selected == 0,
            final(self).offset == 0,
            !final(self).user_moved,
            !final(self).done,
            final(self).pattern == old(self).pattern,
            final(self).expanded == old(self).expanded,
            final(self).preview == old(self).preview,
            final(self).editing == old(self).editing,
            final(self).mode_names == old(self).mode_names,
            final(self).prev_lines == old(self).prev_lines,
            final(self).tick == old(self).tick,
    {
        self.rows.clear();
        self.meta.clear();
        self.selected = 0;
        self.offset = 0;
        self.user_moved = false;
        self.done = false;
    }

    /// The stat already recorded for `path`, if any.
    pub fn cached_stat(&self, path: &str) -> (r: Option<(u64, u128)>)
        ensures
            r == meta_get(self.meta@, path@),
    {
        let mut i: usize = 0;
        assert(self.meta@.skip(0) =~= self.meta@);
        while i < self.meta.len()
            invariant
                i <= self.meta.len(),
                meta_get(self.meta@, path@) == meta_get(self.meta@.skip(i as int), path@),
            decreases self.meta.len() - i,
        {
            proof {
                assert(self.meta@.skip(i as int)[0] == self.meta@[i as int]);
                assert(self.meta@.skip(i as int).drop_first() =~= self.meta@.skip(i + 1));
            }
            if same_path_of(self.meta[i].0.as_str(), path) {
                return Some((self.meta[i].1, self.meta[i].2));
            }
            i += 1;
        }
        None
    }

    /// Insert keeping the list sorted: files before content, newest file
    /// first, then path and line; the rows are the old ones and the new one. `stat` is the file's size and modification
    /// time, used when no stat has been recorded for its path yet. The cursor
    /// follows the row it was on once the user has moved it.
    pub fn insert(&mut self, hit: Hit, stat: (u64, u128))
        requires
            old(self).selected < usize::MAX,
        ensures
            exists|pos: int|
                #[trigger] insert_position(
                    old(self).rows@,
                    row_for(old(self).meta@, hit, stat),
                    pos,
                ) && final(self).rows@ == old(self).rows@.insert(
                    pos,
                    row_for(old(self).meta@, hit, stat),
                ) && final(self).selected == (if old(self).user_moved && pos <= old(self).selected
                    && final(self).rows@.len() > 1 {
                    old(self).selected + 1
                } else {
                    old(self).selected as int
                }),
            meta_get(final(self).meta@, hit_path(hit)) == Some(stat_for(old(self).meta@, hit, stat)),
            forall|p: Seq<char>|
                #[trigger] meta_get(old(self).meta@, p) is Some ==> meta_get(final(self).meta@, p)
                    == meta_get(old(self).meta@, p),
            final(self).rows@.to_multiset() == old(self).rows@.to_multiset().insert(
                row_for(old(self).meta@, hit, stat),
            ),
            rows_sorted(old(self).rows@) ==> rows_sorted(final(self).rows@),
            final(self).pattern == old(self).pattern,
            final(self).offset == old(self).offset,
            final(self).expanded == old(self).expanded,
            final(self).preview == old(self).preview,
            final(self).editing == old(self).editing,
            final(self).mode_names == old(self).mode_names,
            final(self).done == old(self).done,
            final(self).user_moved == old(self).user_moved,
            final(self).prev_lines == old(self).prev_lines,
            final(self).tick == old(self).tick,
    {
        let ghost h = hit;
        let ghost old_meta = self.meta@;
        let ghost old_sel = self.selected;
        let cached = self.cached_stat(hit.path());
        let used = match cached {
            Some(m) => m,
            None => {
                let p = String::from_str(hit.path());
                proof {
                    lemma_meta_push(self.meta@, (p, stat.0, stat.1));
                }
                self.meta.push((p, stat.0, stat.1));
                stat
            },
        };
        let row = Row { hit, size: used.0, mtime: used.1 };
        let mut pos: usize = 0;
        while pos < self.rows.len() && hit_before(
            &self.rows[pos].hit,
            self.rows[pos].mtime,
            &row.hit,
            row.mtime,
        )
            invariant
                pos <= self.rows.len(),
                forall|i: int| 0 <= i < pos ==> row_lt(#[trigger] self.rows@[i], row),
            decreases self.rows.len() - pos,
        {
            pos += 1;
        }
        let ghost old_rows = self.rows@;
        proof {
            lemma_insert_sorted(old_rows, row, pos as int);
        }
        self.rows.insert(pos, row);
        if self.user_moved && pos <= self.selected && self.rows.len() > 1 {
            self.selected = self.selected + 1;
        }
        proof {
            let u = match meta_get(old_meta, hit_path(h)) {
                Some(m) => m,
                None => stat,
            };
            assert(u == used);
            assert(row == Row { hit: h, size: u.0, mtime: u.1 });
            assert(insert_position(old_rows, row, pos as int));
            assert(self.rows@ == old_rows.insert(pos as int, row));
            vstd::seq_lib::to_multiset_insert(old_rows, pos as int, row);
            assert(meta_get(self.meta@, hit_path(h)) == Some(u));
            assert(forall|p: Seq<char>|
                #[trigger] meta_get(old_meta, p) is Some ==> meta_get(self.meta@, p)
                    == meta_get(old_meta, p));
            assert(insert_position(old_rows, row, pos as int) && self.rows@ == old_rows.insert(
                pos as int,
                row,
            ) && self.selected == (if self.user_moved && pos <= old_sel && self.rows@.len() > 1 {
                old_sel + 1
            } else {
                old_sel as int
            }));
        }
    }

    /// Number of name hits.
    pub fn file_count(&self) -> (r: usize)
        ensures
            r == file_rows(self.rows@),
    {
        let mut n: usize = 0;
        let mut i: usize = 0;
        while i < self.rows.len()
            invariant
                i <= self.rows.len(),
                n == file_rows(self.rows@.take(i as int)),
                n <= i,
            decreases self.rows.len() - i,
        {
            assert(self.rows@.take(i + 1).drop_last() =~= self.rows@.take(i as int));
            if self.rows[i].is_file() {
                n += 1;
            }
            i += 1;
        }
        assert(self.rows@.take(i as int) =~= self.rows@);
        n
    }

    /// Number of content hits.
    pub fn content_count(&self) -> (r: usize)
        ensures
            r == self.rows@.len() - file_rows(self.rows@),
    {
        proof {
            lemma_file_rows_bound(self.rows@);
        }
        self.rows.len() - self.file_count()
    }

    pub fn visible_len(&self) -> (r: usize)
        ensures
            r == visible_count(self.rows@, self.expanded),
            r <= self.rows@.len(),
    {
        let files = self.file_count();
        let content = self.content_count();
        let shown = if self.expanded || content <= CONTENT_CAP {
            content
        } else {
            CONTENT_CAP
        };
        let total = self.rows.len();
        assert(files + content == total);
        assert(files + shown <= total);
        files + shown
    }

    /// Indices of rows that are actually selectable, honouring the content cap.
    pub fn visible_rows(&self) -> (r: Vec<usize>)
        ensures
            r@.len() == visible_count(self.rows@, self.expanded),
            forall|i: int| 0 <= i < r@.len() ==> r@[i] == i,
    {
        let n = self.visible_len();
        let mut out: Vec<usize> = Vec::new();
        let mut i: usize = 0;
        while i < n
            invariant
                i <= n,
                out@.len() == i,
                forall|k: int| 0 <= k < i ==> out@[k] == k,
            decreases n - i,
        {
            out.push(i);
            i += 1;
        }
        out
    }

    /// Keep the cursor on a visible row and scroll the window so the cursor
    /// stays inside it.
    pub fn clamp(&mut self)
        ensures
            ({
                let c = clamped(
                    old(self).selected as int,
                    old(self).offset as int,
                    visible_count(old(self).rows@, old(self).expanded) as int,
                );
                final(self).selected == c.0 && final(self).offset == c.1
            }),
            final(self).rows == old(self).rows,
            final(self).meta == old(self).meta,
            final(self).pattern == old(self).pattern,
            final(self).expanded == old(self).expanded,
            final(self).preview == old(self).preview,
            final(self).editing == old(self).editing,
            final(self).mode_names == old(self).mode_names,
            final(self).done == old(self).done,
            final(self).user_moved == old(self).user_moved,
            final(self).prev_lines == old(self).prev_lines,
            final(self).tick == old(self).tick,
    {
        let len = self.visible_len();
        if len == 0 {
            self.selected = 0;
            self.offset = 0;
            return;
        }
        if self.selected > len - 1 {
            self.selected = len - 1;
        }
        if self.selected < self.offset {
            self.offset = self.selected;
        } else if self.selected - self.offset >= WINDOW {
            self.offset = self.selected + 1 - WINDOW;
        }
    }
}

proof fn lemma_meta_push(meta: Seq<(String, u64, u128)>, e: (String, u64, u128))
    requires
        meta_get(meta, e.0@) is None,
    ensures
        meta_get(meta.push(e), e.0@) == Some((e.1, e.2)),
        forall|p: Seq<char>|
            #[trigger] meta_get(meta, p) is Some ==> meta_get(meta.push(e), p) == meta_get(meta, p),
    decreases meta.len(),
{
    if meta.len() > 0 {
        assert(meta.push(e).drop_first() =~= meta.drop_first().push(e));
        assert(meta.push(e)[0] == meta[0]);
        lemma_meta_push(meta.drop_first(), e);
        assert forall|p: Seq<char>| #[trigger] meta_get(meta, p) is Some implies meta_get(
            meta.push(e),
            p,
        ) == meta_get(meta, p) by {
            if !same_path(meta[0].0@, p) {
                assert(meta_get(meta.drop_first(), p) is Some);
            }
        }
    } else {
        assert(meta.push(e)[0] == e);
    }
}

/// Inserting at the insertion position keeps rows in order.
pub proof fn lemma_insert_sorted(rows: Seq<Row>, row: Row, pos: int)
    requires
        0 <= pos <= rows.len(),
        forall|i: int| 0 <= i < pos ==> row_lt(#[trigger] rows[i], row),
        pos < rows.len() ==> !row_lt(rows[pos], row),
    ensures
        insert_position(rows, row, pos),
        rows_sorted(rows) ==> rows_sorted(rows.insert(pos, row)),
{
    if rows_sorted(rows) {
        let new = rows.insert(pos, row);
        assert forall|i: int, j: int| 0 <= i < j < new.len() implies !row_lt(
            #[trigger] new[j],
            #[trigger] new[i],
        ) by {
            if j < pos {
                assert(new[i] == rows[i] && new[j] == rows[j]);
            } else if j == pos {
                assert(new[i] == rows[i]);
                lemma_hit_order(rows[i].hit, rows[i].mtime, row.hit, row.mtime, row.hit, row.mtime);
            } else if i > pos {
                assert(new[i] == rows[i - 1] && new[j] == rows[j - 1]);
            } else if i == pos {
                assert(new[j] == rows[j - 1]);
                let a = rows[pos];
                let b = rows[j - 1];
                lemma_hit_order(b.hit, b.mtime, row.hit, row.mtime, a.hit, a.mtime);
                lemma_hit_order(row.hit, row.mtime, a.hit, a.mtime, b.hit, b.mtime);
                lemma_hit_order(a.hit, a.mtime, b.hit, b.mtime, row.hit, row.mtime);
                if j - 1 > pos {
                    assert(!row_lt(rows[j - 1], rows[pos]));
                }
            } else {
                // i < pos < j
                assert(new[i] == rows[i] && new[j] == rows[j - 1]);
            }
        }
    }
}

/// After `clamp`, a non-empty list has the cursor on a visible row and inside
/// the scrolled window.
pub proof fn lemma_clamp_keeps_cursor_in_window(selected: int, offset: int, len: int)
    requires
        0 <= selected,
        0 <= offset,
        0 < len,
    ensures
        ({
            let c = clamped(selected, offset, len);
            0 <= c.1 <= c.0 < c.1 + WINDOW && c.0 < len
        }),
{
}

/// The extension of a path, or nothing.
pub open spec fn ext_text(p: Seq<char>) -> Seq<char> {
    match extension(p) {
        Some(e) => e,
        None => seq![],
    }
}

fn ext_string(path: &str) -> (r: String)
    ensures
        r@ == ext_text(path@),
{
    match extension_of(path) {
        Some(e) => e,
        None => String::new(),
    }
}

/// The file-type emoji for a (lowercased) extension.
pub open spec fn emoji_for(e: Seq<char>) -> Option<Seq<char>> {
    if e == "rs"@ {
        Some("🦀"@)
    } else if e == "ts"@ || e == "tsx"@ || e == "js"@ || e == "jsx"@ || e == "mjs"@ {
        Some("📜"@)
    } else if e == "json"@ || e == "toml"@ || e == "yaml"@ || e == "yml"@ || e == "lock"@ {
        Some("🔧"@)
    } else if e == "md"@ || e == "txt"@ {
        Some("📄"@)
    } else if e == "sh"@ || e == "bash"@ || e == "ps1"@ || e == "nsi"@ {
        Some("🐚"@)
    } else if e == "png"@ || e == "jpg"@ || e == "jpeg"@ || e == "gif"@ || e == "svg"@ {
        Some("🎨"@)
    } else if e == "zip"@ || e == "gz"@ || e == "tar"@ || e == "apk"@ {
        Some("📦"@)
    } else {
        None
    }
}

/// File-type emoji by lowercased extension, or `None` for extensions without
/// a good one. Every glyph here is two columns wide.
pub fn emoji(path: &str) -> (r: Option<&'static str>)
    ensures
        r matches Some(g) ==> emoji_for(lowercase_of(ext_text(path@))) == Some(g@),
        r is None ==> emoji_for(lowercase_of(ext_text(path@))) is None,
{
    let e = ext_string(path);
    let low = to_lowercase(e.as_str());
    let l = low.as_str();
    if same_text(l, "rs") {
        Some("🦀")
    } else if same_text(l, "ts") || same_text(l, "tsx") || same_text(l, "js") || same_text(l, "jsx")
        || same_text(l, "mjs") {
        Some("📜")
    } else if same_text(l, "json") || same_text(l, "toml") || same_text(l, "yaml") || same_text(
        l,
        "yml",
    ) || same_text(l, "lock") {
        Some("🔧")
    } else if same_text(l, "md") || same_text(l, "txt") {
        Some("📄")
    } else if same_text(l, "sh") || same_text(l, "bash") || same_text(l, "ps1") || same_text(
        l,
        "nsi",
    ) {
        Some("🐚")
    } else if same_text(l, "png") || same_text(l, "jpg") || same_text(l, "jpeg") || same_text(
        l,
        "gif",
    ) || same_text(l, "svg") {
        Some("🎨")
    } else if same_text(l, "zip") || same_text(l, "gz") || same_text(l, "tar") || same_text(
        l,
        "apk",
    ) {
        Some("📦")
    } else {
        None
    }
}

/// `s` padded with spaces to three characters.
pub open spec fn pad3(s: Seq<char>) -> Seq<char> {
    if s.len() >= 3 {
        s
    } else {
        s + Seq::new((3 - s.len()) as nat, |i: int| ' ')
    }
}

/// The three-column extension tag: the first three characters of the
/// extension, lowercased, padded to three columns.
pub open spec fn tag_text(p: Seq<char>) -> Seq<char> {
    let e = ext_text(p);
    pad3(lowercase_of(if e.len() <= 3 { e } else { e.take(3) }))
}

/// Three-column extension tag, e.g. `rs `, `yml`, `png`.
pub fn tag(path: &str) -> (r: String)
    ensures
        r@ == tag_text(path@),
{
    let e = ext_string(path);
    let v = chars_of(e.as_str());
    let mut first: Vec<char> = Vec::new();
    let mut i: usize = 0;
    while i < v.len() && i < 3
        invariant
            i <= v.len(),
            i <= 3,
            first@ == v@.take(i as int),
        decreases 3 - i,
    {
        first.push(v[i]);
        assert(v@.take(i + 1) =~= v@.take(i as int).push(v@[i as int]));
        i += 1;
    }
    assert(v@.len() <= 3 ==> v@.take(i as int) =~= v@);
    let short = string_of(&first);
    let mut out = to_lowercase(short.as_str());
    let n = chars_of(out.as_str()).len();
    let ghost base = out@;
    let mut k: usize = n;
    while k < 3
        invariant
            n <= k,
            n == base.len(),
            k <= 3 ==> out@ == base + Seq::new((k - n) as nat, |i: int| ' '),
            k > 3 ==> n >= 3 && out@ == base,
        decreases 3 - k,
    {
        push_char(&mut out, ' ');
        assert(base + Seq::new((k + 1 - n) as nat, |i: int| ' ') =~= (base + Seq::new(
            (k - n) as nat,
            |i: int| ' ',
        )).push(' '));
        k += 1;
    }
    proof {
        if n < 3 {
            assert(out@ =~= pad3(base));
        } else {
            assert(out@ =~= base);
        }
    }
    out
}

/// Three-column file badge: the emoji plus a pad space, or the ASCII
/// extension tag when emoji are off or the extension has none.
pub open spec fn badge_text(emoji_ok: bool, p: Seq<char>) -> Seq<char> {
    match emoji_for(lowercase_of(ext_text(p))) {
        Some(g) if emoji_ok => g.push(' '),
        _ => tag_text(p),
    }
}

pub fn badge_with(emoji_ok: bool, path: &str) -> (r: String)
    ensures
        r@ == badge_text(emoji_ok, path@),
{
    if emoji_ok {
        if let Some(e) = emoji(path) {
            let mut out = String::from_str(e);
            push_char(&mut out, ' ');
            return out;
        }
    }
    tag(path)
}

/// A character of the ASCII range.
pub open spec fn ascii_char(c: char) -> bool {
    c <= '\u{7f}'
}

pub open spec fn all_ascii(s: Seq<char>) -> bool {
    forall|i: int| 0 <= i < s.len() ==> ascii_char(#[trigger] s[i])
}

/// `c` with `A`-`Z` mapped to `a`-`z`.
pub open spec fn ascii_lower_char(c: char) -> char {
    if 'A' <= c && c <= 'Z' {
        ((c as u32) + 32) as char
    } else {
        c
    }
}

pub open spec fn ascii_lower(s: Seq<char>) -> Seq<char> {
    Seq::new(s.len(), |i: int| ascii_lower_char(s[i]))
}

/// `char::to_ascii_lowercase` from std: `A`-`Z` become `a`-`z`, every other
/// character is returned unchanged.
#[verifier::external_body]
fn to_ascii_lower(c: char) -> (r: char)
    ensures
        r == ascii_lower_char(c),
{
    c.to_ascii_lowercase()
}

fn lower_ascii_chars(v: &Vec<char>) -> (r: Vec<char>)
    ensures
        r@ == ascii_lower(v@),
{
    let mut out: Vec<char> = Vec::new();
    let mut i: usize = 0;
    while i < v.len()
        invariant
            i <= v.len(),
            out@ == ascii_lower(v@.take(i as int)),
        decreases v.len() - i,
    {
        out.push(to_ascii_lower(v[i]));
        assert(ascii_lower(v@.take(i + 1)) =~= ascii_lower(v@.take(i as int)).push(
            ascii_lower_char(v@[i as int]),
        ));
        i += 1;
    }
    assert(v@.take(i as int) =~= v@);
    out
}

fn check_ascii(v: &Vec<char>) -> (r: bool)
    ensures
        r == all_ascii(v@),
{
    let mut i: usize = 0;
    while i < v.len()
        invariant
            i <= v.len(),
            forall|k: int| 0 <= k < i ==> ascii_char(#[trigger] v@[k]),
        decreases v.len() - i,
    {
        if v[i] > '\u{7f}' {
            assert(!ascii_char(v@[i as int]));
            return false;
        }
        i += 1;
    }
    true
}

/// The first place `needle` occurs in `hay`.
pub open spec fn first_at(hay: Seq<char>, needle: Seq<char>) -> int {
    choose|i: int| occurs_at(hay, needle, i) && forall|j: int| 0 <= j < i ==> !occurs_at(hay, needle, j)
}

/// The sequence that starts a highlighted term.
pub open spec fn hot_seq() -> Seq<char> {
    seq!['\u{1b}', '[', '1', ';', '3', '3', 'm']
}

/// The sequence that resets every attribute.
pub open spec fn reset_text() -> Seq<char> {
    seq!['\u{1b}', '[', '0', 'm']
}

/// `text` with the first case-insensitive occurrence of `pattern` painted,
/// `resume` re-applied after it. Only for ASCII text and patterns.
pub open spec fn highlighted(text: Seq<char>, pattern: Seq<char>, resume: Seq<char>) -> Seq<char> {
    if pattern.len() == 0 || !all_ascii(text) || !all_ascii(pattern) || !contains_seq(
        ascii_lower(text),
        ascii_lower(pattern),
    ) {
        text
    } else {
        let i = first_at(ascii_lower(text), ascii_lower(pattern));
        let end = i + pattern.len();
        text.take(i) + hot_seq() + text.subrange(i, end) + reset_text() + resume + text.skip(end)
    }
}

fn push_chars_of(out: &mut String, v: &Vec<char>, from: usize, to: usize)
    requires
        from <= to <= v.len(),
    ensures
        final(out)@ == old(out)@ + v@.subrange(from as int, to as int),
{
    let ghost start = out@;
    let mut k: usize = from;
    while k < to
        invariant
            from <= k <= to <= v.len(),
            out@ == start + v@.subrange(from as int, k as int),
        decreases to - k,
    {
        push_char(out, v[k]);
        assert(v@.subrange(from as int, k + 1) =~= v@.subrange(from as int, k as int).push(
            v@[k as int],
        ));
        k += 1;
    }
}

fn push_hot(out: &mut String)
    ensures
        final(out)@ == old(out)@ + hot_seq(),
{
    push_char(out, '\u{1b}');
    push_char(out, '[');
    push_char(out, '1');
    push_char(out, ';');
    push_char(out, '3');
    push_char(out, '3');
    push_char(out, 'm');
    assert(final(out)@ =~= old(out)@ + hot_seq());
}

fn push_reset(out: &mut String)
    ensures
        final(out)@ == old(out)@ + reset_text(),
{
    push_char(out, '\u{1b}');
    push_char(out, '[');
    push_char(out, '0');
    push_char(out, 'm');
    assert(final(out)@ =~= old(out)@ + reset_text());
}

/// Paint the matched term inside a line so the eye lands on it. Literal and
/// case-insensitive, and ASCII-only so no character is ever split.
pub fn highlight(text: &str, pattern: &str, resume: &str) -> (r: String)
    ensures
        r@ == highlighted(text@, pattern@, resume@),
{
    let tv = chars_of(text);
    let pv = chars_of(pattern);
    if pv.len() == 0 || !check_ascii(&tv) || !check_ascii(&pv) {
        return string_of(&tv);
    }
    let hay = lower_ascii_chars(&tv);
    let needle = lower_ascii_chars(&pv);
    match find_seq(&hay, &needle) {
        None => string_of(&tv),
        Some(i) => {
            proof {
                let c = first_at(hay@, needle@);
                assert(occurs_at(hay@, needle@, i as int));
                assert(contains_seq(hay@, needle@));
                assert(occurs_at(hay@, needle@, c) && forall|j: int|
                    0 <= j < c ==> !occurs_at(hay@, needle@, j));
                if c < i {
                    assert(!occurs_at(hay@, needle@, c));
                }
                if i < c {
                    assert(!occurs_at(hay@, needle@, i as int));
                }
                assert(c == i);
                assert(needle@.len() == pv@.len());
                assert(hay@.len() == tv@.len());
            }
            let hl = hay.len();
            assert(i + pv.len() <= hl);
            let end = i + pv.len();
            let mut out = String::new();
            push_chars_of(&mut out, &tv, 0, i);
            push_hot(&mut out);
            push_chars_of(&mut out, &tv, i, end);
            push_reset(&mut out);
            push_str(&mut out, resume);
            push_chars_of(&mut out, &tv, end, tv.len());
            proof {
                assert(tv@.subrange(0, i as int) =~= tv@.take(i as int));
                assert(tv@.subrange(end as int, tv@.len() as int) =~= tv@.skip(end as int));
                assert(out@ =~= highlighted(text@, pattern@, resume@));
            }
            out
        },
    }
}

/// `SystemTime::elapsed` from std: how long ago `t` was, or `None` when it is
/// in the future. Depends on the clock, so nothing is stated of it.
#[verifier::external_body]
fn elapsed_of(t: &SystemTime) -> Option<Duration> {
    t.elapsed().ok()
}

/// `Duration::as_secs` from std: the whole seconds of `d`.
#[verifier::external_body]
fn whole_secs(d: &Duration) -> u64 {
    d.as_secs()
}

/// Whether `y` is a leap year of the Gregorian calendar.
pub open spec fn leap(y: int) -> bool {
    (y % 4 == 0 && y % 100 != 0) || y % 400 == 0
}

/// Days in year `y`.
pub open spec fn year_days(y: int) -> nat {
    if leap(y) {
        366
    } else {
        365
    }
}

/// Days in month `m` of year `y`.
pub open spec fn month_days(y: int, m: int) -> nat {
    if m == 2 {
        if leap(y) {
            29
        } else {
            28
        }
    } else if m == 4 || m == 6 || m == 9 || m == 11 {
        30
    } else {
        31
    }
}

/// Month and day of the date `days` days after the first of month `m` of
/// year `y`, counting on through the months of that year.
pub open spec fn month_of(y: int, m: int, days: nat) -> (int, int)
    decreases 12 - m,
{
    if m >= 12 || days < month_days(y, m) {
        (m, days + 1int)
    } else {
        month_of(y, m + 1, (days - month_days(y, m)) as nat)
    }
}

/// Year, month and day of the date `days` days after January 1st of year `y`.
pub open spec fn date_in(y: int, days: nat) -> (int, int, int)
    decreases days,
{
    if days < year_days(y) {
        let md = month_of(y, 1, days);
        (y, md.0, md.1)
    } else {
        date_in(y + 1, (days - year_days(y)) as nat)
    }
}

/// A month or day number as two digits.
pub open spec fn two_digits(n: int) -> Seq<char> {
    if n < 10 {
        seq!['0'] + decimal(n as nat)
    } else {
        decimal(n as nat)
    }
}

/// The UTC calendar date of `secs` seconds after the Unix epoch, as
/// `YYYY-MM-DD`.
pub open spec fn date_text(secs: u64) -> Seq<char> {
    let d = date_in(1970, (secs / 86400) as nat);
    decimal(d.0 as nat) + seq!['-'] + two_digits(d.1) + seq!['-'] + two_digits(d.2)
}

/// Compact relative time for an age in seconds (`None` for a time in the
/// future) of a time `secs` seconds after the epoch: `now`, `4m`, `3h`, `2d`,
/// else the time's date.
pub open spec fn ago_text(elapsed: Option<u64>, secs: u64) -> Seq<char> {
    match elapsed {
        None => "now"@,
        Some(s) => if s < 60 {
            "now"@
        } else if s < 3600 {
            decimal((s / 60) as nat).push('m')
        } else if s < 86400 {
            decimal((s / 3600) as nat).push('h')
        } else if s < 2592000 {
            decimal((s / 86400) as nat).push('d')
        } else {
            date_text(secs)
        },
    }
}

fn push_two_digits(out: &mut String, n: u64)
    ensures
        final(out)@ == old(out)@ + two_digits(n as int),
{
    if n < 10 {
        push_char(out, '0');
    }
    push_decimal(out, n);
}

fn year_len(y: u64) -> (n: u64)
    ensures
        n == year_days(y as int),
{
    if (y % 4 == 0 && y % 100 != 0) || y % 400 == 0 {
        366
    } else {
        365
    }
}

fn month_len(y: u64, m: u64) -> (n: u64)
    ensures
        n == month_days(y as int, m as int),
{
    if m == 2 {
        if (y % 4 == 0 && y % 100 != 0) || y % 400 == 0 {
            29
        } else {
            28
        }
    } else if m == 4 || m == 6 || m == 9 || m == 11 {
        30
    } else {
        31
    }
}

/// The date of `secs` seconds after the epoch (see `date_text`).
pub fn date_label(secs: u64) -> (r: String)
    ensures
        r@ == date_text(secs),
{
    let all: u64 = secs / 86400;
    let mut days: u64 = all;
    let mut y: u64 = 1970;
    while days >= year_len(y)
        invariant
            days <= all,
            1970 <= y <= 1970 + (all - days),
            all <= u64::MAX / 86400,
            date_in(1970, all as nat) == date_in(y as int, days as nat),
        decreases days,
    {
        days = days - year_len(y);
        y = y + 1;
    }
    let ghost yd = days;
    let mut m: u64 = 1;
    while m < 12 && days >= month_len(y, m)
        invariant
            1 <= m <= 12,
            days <= yd,
            month_of(y as int, 1, yd as nat) == month_of(y as int, m as int, days as nat),
        decreases 12 - m,
    {
        days = days - month_len(y, m);
        m = m + 1;
    }
    let mut out = String::new();
    push_decimal(&mut out, y);
    push_char(&mut out, '-');
    push_two_digits(&mut out, m);
    push_char(&mut out, '-');
    push_two_digits(&mut out, days + 1);
    out
}

/// The compact age label for `elapsed` seconds of a time `secs` seconds
/// after the epoch.
pub fn ago_label(elapsed: Option<u64>, secs: u64) -> (r: String)
    ensures
        r@ == ago_text(elapsed, secs),
{
    match elapsed {
        None => String::from_str("now"),
        Some(s) => if s < 60 {
            String::from_str("now")
        } else if s < 3600 {
            let mut out = decimal_string(s / 60);
            push_char(&mut out, 'm');
            out
        } else if s < 86400 {
            let mut out = decimal_string(s / 3600);
            push_char(&mut out, 'h');
            out
        } else if s < 2592000 {
            let mut out = decimal_string(s / 86400);
            push_char(&mut out, 'd');
            out
        } else {
            date_label(secs)
        },
    }
}

/// `SystemTime::duration_since(UNIX_EPOCH)` from std: how long after the
/// epoch `t` is, or `None` when it is before it. Nothing is stated of it.
#[verifier::external_body]
fn since_epoch(t: &SystemTime) -> Option<Duration> {
    t.duration_since(SystemTime::UNIX_EPOCH).ok()
}

/// Compact relative time: `now`, `4m`, `3h`, `2d`, else a date. A time in
/// the future reads `now`.
pub fn ago(t: SystemTime) -> (r: String)
    ensures
        exists|e: Option<u64>, secs: u64| r@ == ago_text(e, secs),
{
    let e = match elapsed_of(&t) {
        None => None,
        Some(d) => Some(whole_secs(&d)),
    };
    let secs = match since_epoch(&t) {
        None => 0,
        Some(d) => whole_secs(&d),
    };
    ago_label(e, secs)
}


/// What a key leaves for the picker's loop.
pub enum PickerStep {
    /// Draw again and wait for the next key.
    Continue,
    /// The query changed: `restart_query`, and run the walk it returns.
    Restart,
    /// Open visible row `i` in the editor, then draw the block afresh.
    Edit(usize),
    /// The picker is done.
    Finish(Outcome),
}

/// The hits of `rows`.
pub open spec fn row_hits(rows: Seq<Row>) -> Seq<Hit> {
    rows.map_values(|r: Row| r.hit)
}

/// Where a hop between files takes the cursor at `sel` among the first `vis`
/// rows: forward to the first row of the next file, back to the first row of
/// the previous one; it stays where there is no such file, or when it is not
/// on a visible row.
pub open spec fn hop_target(rows: Seq<Row>, sel: usize, vis: int, forward: bool) -> usize {
    let hits = row_hits(rows);
    let s = sel as int;
    if s >= vis {
        sel
    } else if forward {
        let n = next_other(hits, s + 1, vis, hit_path(hits[s]));
        if n >= 0 {
            n as usize
        } else {
            sel
        }
    } else {
        let p = prev_other(hits, s, hit_path(hits[s]));
        if p >= 0 {
            group_start(hits, p) as usize
        } else {
            sel
        }
    }
}

/// What a key does to the picker, from `a` to `b`. While the query is being
/// edited, keys type into it; otherwise they move (the arrows hop between
/// files, `j`/`k` and Control with an arrow move one row), select, open,
/// fold, toggle the preview or quit. `ctrl` says Control alone was held.
pub open spec fn picker_key_done(a: State, b: State, key: Key, ctrl: bool, root: Seq<char>, step: PickerStep) -> bool {
    let vis = visible_count(a.rows@, a.expanded);
    if a.editing {
        if key == Key::Esc || key == Key::Enter {
            b == State { editing: false, ..a } && step is Continue
        } else if key == Key::Backspace {
            &&& b.pattern@ == (if a.pattern@.len() > 0 {
                a.pattern@.drop_last()
            } else {
                a.pattern@
            })
            &&& b == State { pattern: b.pattern, ..a }
            &&& step is Restart
        } else if key is Char {
            b.pattern@ == a.pattern@.push(key->Char_0) && b == State { pattern: b.pattern, ..a }
                && step is Restart
        } else if key == Key::Up {
            b == State { selected: if a.selected > 0 { (a.selected - 1) as usize } else { 0 }, ..a }
                && step is Continue
        } else if key == Key::Down {
            b == State { selected: if a.selected < usize::MAX { (a.selected + 1) as usize } else { a.selected }, ..a }
                && step is Continue
        } else {
            b == a && step is Continue
        }
    } else if key == Key::Esc || key == Key::Char('q') || (ctrl && (key == Key::Char('c') || key
        == Key::Char('d'))) {
        b == a && step == PickerStep::Finish(Outcome::Cancelled)
    } else if key == Key::Char('j') || (ctrl && key == Key::Down) {
        b == State {
            user_moved: true,
            selected: if a.selected < usize::MAX { (a.selected + 1) as usize } else { a.selected },
            ..a
        } && step is Continue
    } else if key == Key::Char('k') || (ctrl && key == Key::Up) {
        b == State {
            user_moved: true,
            selected: if a.selected > 0 { (a.selected - 1) as usize } else { 0 },
            ..a
        } && step is Continue
    } else if key == Key::Down || key == Key::Up {
        b == State {
            user_moved: true,
            selected: hop_target(a.rows@, a.selected, vis as int, key == Key::Down),
            ..a
        } && step is Continue
    } else if key == Key::Enter {
        &&& b == a
        &&& a.selected < vis ==> (step matches PickerStep::Finish(Outcome::Selected(t)) && t@
            == selection_text(a.rows@[a.selected as int].hit, root))
        &&& a.selected >= vis ==> step == PickerStep::Finish(Outcome::Cancelled)
    } else if key == Key::Char('E') || key == Key::Char('e') {
        b == a && step == (if a.selected < vis {
            PickerStep::Edit(a.selected)
        } else {
            PickerStep::Continue
        })
    } else if ctrl && key == Key::Char('p') {
        b == State { preview: !a.preview, ..a } && step is Continue
    } else if key == Key::Char('/') {
        b == State { editing: true, ..a } && step is Continue
    } else if key == Key::Tab {
        b == State { expanded: !a.expanded, ..a } && step is Continue
    } else {
        b == a && step is Continue
    }
}

impl State {
    /// Hop to the first row of the next (`forward`) or previous file.
    fn hop(&mut self, forward: bool)
        ensures
            *final(self) == (State {
                user_moved: true,
                selected: hop_target(
                    old(self).rows@,
                    old(self).selected,
                    visible_count(old(self).rows@, old(self).expanded) as int,
                    forward,
                ),
                ..*old(self)
            }),
    {
        self.user_moved = true;
        let visible = self.visible_len();
        proof {
            lemma_file_rows_bound(self.rows@);
        }
        if self.selected >= visible {
            return;
        }
        let ghost hits = row_hits(self.rows@);
        let sel = self.selected;
        let ghost cur = hit_path(hits[sel as int]);
        assert(hits[sel as int] == self.rows@[sel as int].hit);
        if forward {
            let mut i: usize = sel + 1;
            while i < visible && same_path_of(self.rows[i].hit.path(), self.rows[sel].hit.path())
                invariant
                    sel < visible <= self.rows@.len(),
                    hits == row_hits(self.rows@),
                    sel + 1 <= i,
                    cur == hit_path(hits[sel as int]),
                    next_other(hits, sel + 1, visible as int, cur) == next_other(
                        hits,
                        i as int,
                        visible as int,
                        cur,
                    ),
                decreases visible - i,
            {
                assert(hits[i as int] == self.rows@[i as int].hit);
                i += 1;
            }
            if i < visible {
                assert(hits[i as int] == self.rows@[i as int].hit);
                self.selected = i;
            }
        } else {
            let mut i: usize = sel;
            while i > 0 && same_path_of(self.rows[i - 1].hit.path(), self.rows[sel].hit.path())
                invariant
                    sel < visible <= self.rows@.len(),
                    i <= sel,
                    hits == row_hits(self.rows@),
                    cur == hit_path(hits[sel as int]),
                    prev_other(hits, sel as int, cur) == prev_other(hits, i as int, cur),
                decreases i,
            {
                assert(hits[i - 1] == self.rows@[i - 1].hit);
                i -= 1;
            }
            if i > 0 {
                assert(hits[i - 1] == self.rows@[i - 1].hit);
                let mut k: usize = i - 1;
                while k > 0 && same_path_of(self.rows[k - 1].hit.path(), self.rows[k].hit.path())
                    invariant
                        k < self.rows@.len(),
                        hits == row_hits(self.rows@),
                        group_start(hits, (i - 1) as int) == group_start(hits, k as int),
                    decreases k,
                {
                    assert(hits[k as int] == self.rows@[k as int].hit);
                    assert(hits[k - 1] == self.rows@[k - 1].hit);
                    k -= 1;
                }
                self.selected = k;
            }
        }
    }

    /// Handle one key (see `picker_key_done`).
    pub fn on_key(&mut self, key: Key, ctrl: bool, root: &str) -> (step: PickerStep)
        ensures
            picker_key_done(*old(self), *final(self), key, ctrl, root@, step),
    {
        if self.editing {
            if key == Key::Esc || key == Key::Enter {
                self.editing = false;
                PickerStep::Continue
            } else if key == Key::Backspace {
                pop_char(&mut self.pattern);
                PickerStep::Restart
            } else if let Key::Char(c) = key {
                push_char(&mut self.pattern, c);
                PickerStep::Restart
            } else if key == Key::Up {
                self.selected = if self.selected > 0 {
                    self.selected - 1
                } else {
                    0
                };
                PickerStep::Continue
            } else if key == Key::Down {
                self.selected = if self.selected < usize::MAX {
                    self.selected + 1
                } else {
                    self.selected
                };
                PickerStep::Continue
            } else {
                PickerStep::Continue
            }
        } else if key == Key::Esc || key == Key::Char('q') || (ctrl && (key == Key::Char('c') || key
            == Key::Char('d'))) {
            PickerStep::Finish(Outcome::Cancelled)
        } else if key == Key::Char('j') || (ctrl && key == Key::Down) {
            self.user_moved = true;
            self.selected = if self.selected < usize::MAX {
                self.selected + 1
            } else {
                self.selected
            };
            PickerStep::Continue
        } else if key == Key::Char('k') || (ctrl && key == Key::Up) {
            self.user_moved = true;
            self.selected = if self.selected > 0 {
                self.selected - 1
            } else {
                0
            };
            PickerStep::Continue
        } else if key == Key::Down || key == Key::Up {
            self.hop(key == Key::Down);
            PickerStep::Continue
        } else if key == Key::Enter {
            if self.selected < self.visible_len() {
                PickerStep::Finish(Outcome::Selected(self.rows[self.selected].selection(root)))
            } else {
                PickerStep::Finish(Outcome::Cancelled)
            }
        } else if key == Key::Char('E') || key == Key::Char('e') {
            if self.selected < self.visible_len() {
                PickerStep::Edit(self.selected)
            } else {
                PickerStep::Continue
            }
        } else if ctrl && key == Key::Char('p') {
            self.preview = !self.preview;
            PickerStep::Continue
        } else if key == Key::Char('/') {
            self.editing = true;
            PickerStep::Continue
        } else if key == Key::Tab {
            self.expanded = !self.expanded;
            PickerStep::Continue
        } else {
            PickerStep::Continue
        }
    }

    /// Start over for the current pattern: the results go, and unless the
    /// pattern is empty the walk to run is `base` with it; when the kind was
    /// inferred, it is inferred again from the pattern.
    pub fn restart_query(&mut self, base: &Query, auto_kind: bool) -> (q: Option<Query>)
        ensures
            final(self).rows@.len() == 0,
            final(self).meta@.len() == 0,
            final(self).selected == 0,
            final(self).offset == 0,
            !final(self).user_moved,
            !final(self).done,
            final(self).pattern == old(self).pattern,
            final(self).expanded == old(self).expanded,
            final(self).preview == old(self).preview,
            final(self).editing == old(self).editing,
            final(self).prev_lines == old(self).prev_lines,
            final(self).tick == old(self).tick,
            old(self).pattern@.len() == 0 ==> q is None && final(self).mode_names
                == old(self).mode_names,
            old(self).pattern@.len() > 0 ==> (q matches Some(query) && query.pattern
                == old(self).pattern && query.root == base.root && query.no_ignore == base.no_ignore
                && query.hidden == base.hidden && query.limit == base.limit && query.context
                == base.context && query.ext == base.ext && query.kind == (if auto_kind {
                crate::search::planned_kind(crate::search::regex_compiles(old(self).pattern@))
            } else {
                base.kind
            }) && final(self).mode_names == (if auto_kind {
                query.kind == Kind::Files
            } else {
                old(self).mode_names
            })),
    {
        self.reset();
        if self.pattern.as_str().is_empty() {
            return None;
        }
        let kind = if auto_kind {
            if crate::search::is_valid_regex(self.pattern.as_str()) {
                Kind::Content
            } else {
                Kind::Files
            }
        } else {
            base.kind
        };
        if auto_kind {
            self.mode_names = kind == Kind::Files;
        }
        Some(
            Query {
                pattern: self.pattern.clone(),
                root: base.root.clone(),
                kind,
                no_ignore: base.no_ignore,
                hidden: base.hidden,
                limit: base.limit,
                context: base.context,
                ext: copy_opt(&base.ext),
            },
        )
    }
}

/// The name an editor goes by: the file stem of its path.
pub open spec fn editor_base(editor: Seq<char>) -> Seq<char> {
    match file_name(editor) {
        Some(n) => if last_dot(n) > 0 {
            n.take(last_dot(n))
        } else {
            n
        },
        None => editor,
    }
}

/// How `editor` is told to open `path` at `line`: `+N path` for the vi
/// family and nano, `path:N` for Helix and Sublime, `-g path:N` for VS Code
/// and VSCodium, and the path alone otherwise.
pub open spec fn editor_args_text(editor: Seq<char>, path: Seq<char>, line: Option<u64>) -> Seq<Seq<char>> {
    let b = editor_base(editor);
    match line {
        Some(n) => if b == "vim"@ || b == "nvim"@ || b == "vi"@ || b == "nano"@ {
            seq![seq!['+'] + decimal(n as nat), path]
        } else if b == "code"@ || b == "codium"@ {
            seq!["-g"@, path + seq![':'] + decimal(n as nat)]
        } else if b == "hx"@ || b == "helix"@ || b == "subl"@ {
            seq![path + seq![':'] + decimal(n as nat)]
        } else {
            seq![path]
        },
        None => seq![path],
    }
}

pub fn editor_args(editor: &str, path: &str, line: Option<u64>) -> (r: Vec<String>)
    ensures
        r@.map_values(|a: String| a@) == editor_args_text(editor@, path@, line),
{
    let base: String = match file_name_of(editor) {
        Some(n) => {
            let v = chars_of(n.as_str());
            let mut k: usize = v.len();
            assert(v@.take(v.len() as int) =~= v@);
            while k > 0 && v[k - 1] != '.'
                invariant
                    k <= v.len(),
                    last_dot(v@) == last_dot(v@.take(k as int)),
                decreases k,
            {
                assert(v@.take(k as int).drop_last() =~= v@.take(k - 1));
                k -= 1;
            }
            proof {
                if k > 0 {
                    assert(v@.take(k as int).last() == v@[k - 1]);
                    assert(last_dot(v@) == k - 1);
                } else {
                    assert(last_dot(v@) == -1);
                }
            }
            if k > 1 {
                let mut stem: Vec<char> = Vec::new();
                let mut i: usize = 0;
                while i < k - 1
                    invariant
                        i <= k - 1,
                        k <= v.len(),
                        stem@ == v@.take(i as int),
                    decreases k - 1 - i,
                {
                    stem.push(v[i]);
                    assert(v@.take(i + 1) =~= v@.take(i as int).push(v@[i as int]));
                    i += 1;
                }
                string_of(&stem)
            } else {
                n
            }
        },
        None => String::from_str(editor),
    };
    assert(base@ == editor_base(editor@));
    let b = base.as_str();
    let mut out: Vec<String> = Vec::new();
    match line {
        Some(n) => {
            if same_text(b, "vim") || same_text(b, "nvim") || same_text(b, "vi") || same_text(
                b,
                "nano",
            ) {
                let mut first = String::new();
                push_char(&mut first, '+');
                push_decimal(&mut first, n);
                assert(first@ =~= seq!['+'] + decimal(n as nat));
                out.push(first);
                out.push(String::from_str(path));
                assert(out@.map_values(|a: String| a@) =~= seq![seq!['+'] + decimal(n as nat), path@]);
            } else if same_text(b, "code") || same_text(b, "codium") {
                out.push(String::from_str("-g"));
                let mut at = String::from_str(path);
                push_char(&mut at, ':');
                push_decimal(&mut at, n);
                assert(at@ =~= path@ + seq![':'] + decimal(n as nat));
                out.push(at);
                assert(out@.map_values(|a: String| a@) =~= seq!["-g"@, path@ + seq![':'] + decimal(n as nat)]);
            } else if same_text(b, "hx") || same_text(b, "helix") || same_text(b, "subl") {
                let mut at = String::from_str(path);
                push_char(&mut at, ':');
                push_decimal(&mut at, n);
                assert(at@ =~= path@ + seq![':'] + decimal(n as nat));
                out.push(at);
                assert(out@.map_values(|a: String| a@) =~= seq![path@ + seq![':'] + decimal(n as nat)]);
            } else {
                out.push(String::from_str(path));
                assert(out@.map_values(|a: String| a@) =~= seq![path@]);
            }
        },
        None => {
            out.push(String::from_str(path));
            assert(out@.map_values(|a: String| a@) =~= seq![path@]);
        },
    }
    assert(out@.map_values(|a: String| a@) =~= editor_args_text(editor@, path@, line));
    out
}

} // verus!
