//! `cl find`: which walk a command line asks for, and how its results are
//! printed when no picker is shown, line by line or grouped per file. The
//! walk and the printing themselves happen outside.

use vstd::prelude::*;

use crate::inline::{truncate, truncated};
use crate::paths::{relative, relative_to};
use crate::search::{hit_path, is_valid_regex, lowercase_of, regex_compiles, to_lowercase, Hit, Kind, Query};
use crate::order::{same_path, same_path_of};
use crate::text::{chars_of, decimal, push_char, push_decimal, push_str, string_of};

verus! {

/// Flags shared by every search entry point.
pub struct SearchOpts {
    /// Skip dotfiles and dot-directories (they are searched by default).
    pub no_hidden: bool,
    /// Ignore .gitignore/.ignore rules.
    pub no_ignore: bool,
    /// Stop after this many results.
    pub limit: Option<usize>,
    /// Only files with this extension, e.g. `rs`.
    pub ext: Option<String>,
    /// Separate results with NUL instead of newline.
    pub print0: bool,
    /// Lines of context around each content match.
    pub context: usize,
    /// Print results instead of opening the interactive picker.
    pub no_input: bool,
}

/// The kind of walk the flags and pattern call for: names with `-f`,
/// contents with `-c` or `-l` or when the pattern compiles as a regex, names
/// otherwise.
pub open spec fn find_kind(files_only: bool, content_only: bool, names_only: bool, compiles: bool) -> Kind {
    if files_only {
        Kind::Files
    } else if content_only || names_only || compiles {
        Kind::Content
    } else {
        Kind::Files
    }
}

/// What `cl find` walks over: names with `-f`; contents with `-c` or with
/// `-l` (which lists the files whose contents match); with none of these,
/// contents when the pattern compiles as a regex and names when it does not.
pub proof fn lemma_find_kind_by_flags(files_only: bool, content_only: bool, names_only: bool, compiles: bool)
    ensures
        files_only ==> find_kind(files_only, content_only, names_only, compiles) == Kind::Files,
        !files_only && content_only ==> find_kind(files_only, content_only, names_only, compiles)
            == Kind::Content,
        !files_only && names_only ==> find_kind(files_only, content_only, names_only, compiles)
            == Kind::Content,
        !files_only && !content_only && !names_only ==> (find_kind(
            files_only,
            content_only,
            names_only,
            compiles,
        ) == Kind::Content) == compiles,
        find_kind(files_only, content_only, names_only, compiles) != Kind::Both,
{
}

/// `e` without leading dots.
pub open spec fn undotted(e: Seq<char>) -> Seq<char>
    decreases e.len(),
{
    if e.len() > 0 && e[0] == '.' {
        undotted(e.drop_first())
    } else {
        e
    }
}

/// The extension filter as given on the command line: leading dots dropped,
/// lower case.
pub fn ext_filter(e: &str) -> (r: String)
    ensures
        r@ == lowercase_of(undotted(e@)),
{
    let v = chars_of(e);
    let mut i: usize = 0;
    assert(v@.skip(0) =~= v@);
    while i < v.len() && v[i] == '.'
        invariant
            i <= v.len(),
            undotted(v@) == undotted(v@.skip(i as int)),
        decreases v.len() - i,
    {
        assert(v@.skip(i as int).drop_first() =~= v@.skip(i + 1));
        i += 1;
    }
    let mut rest: Vec<char> = Vec::new();
    let mut k: usize = i;
    while k < v.len()
        invariant
            i <= k <= v.len(),
            rest@ == v@.subrange(i as int, k as int),
        decreases v.len() - k,
    {
        rest.push(v[k]);
        assert(v@.subrange(i as int, k + 1) =~= v@.subrange(i as int, k as int).push(v@[k as int]));
        k += 1;
    }
    assert(rest@ =~= v@.skip(i as int));
    to_lowercase(string_of(&rest).as_str())
}

/// What `cl find` runs, and how it shows the results.
pub struct FindPlan {
    pub query: Query,
    /// The kind was inferred rather than asked for, so the picker may infer
    /// it again as the pattern is edited.
    pub auto_kind: bool,
    /// Content hits are shown grouped per file, with context.
    pub rendered: bool,
    /// The picker opens: input is allowed and both stdin and stderr are
    /// terminals.
    pub interactive: bool,
}

/// The search root: the path given, else the working directory.
pub fn root_of(path: Option<String>) -> (r: String)
    ensures
        r@ == match path {
            Some(p) => p@,
            None => "."@,
        },
{
    match path {
        Some(p) => p,
        None => String::from_str("."),
    }
}

/// The walk and the output `cl find pattern` asks for, given its flags and
/// whether stdout (`color`), stdin and stderr are terminals.
#[verifier::rlimit(20)]
pub fn plan_find(
    pattern: &str,
    root: &str,
    files_only: bool,
    content_only: bool,
    names_only: bool,
    opts: &SearchOpts,
    color: bool,
    stdin_tty: bool,
    stderr_tty: bool,
) -> (p: FindPlan)
    ensures
        p.query.pattern@ == pattern@,
        p.query.root@ == root@,
        p.query.kind == find_kind(files_only, content_only, names_only, regex_compiles(pattern@)),
        p.query.hidden == !opts.no_hidden,
        p.query.no_ignore == opts.no_ignore,
        p.query.limit == opts.limit,
        match opts.ext {
            Some(e) => p.query.ext matches Some(x) && x@ == lowercase_of(undotted(e@)),
            None => p.query.ext is None,
        },
        p.rendered == (color && !names_only && p.query.kind != Kind::Files),
        p.query.context == (if p.rendered {
            opts.context
        } else {
            0
        }),
        p.auto_kind == (!files_only && !content_only && !names_only),
        p.interactive == (!opts.no_input && stdin_tty && stderr_tty),
{
    let kind = if files_only {
        Kind::Files
    } else if content_only || names_only || is_valid_regex(pattern) {
        Kind::Content
    } else {
        Kind::Files
    };
    let mut query = Query::new(pattern, root, kind);
    query.hidden = !opts.no_hidden;
    query.no_ignore = opts.no_ignore;
    query.limit = opts.limit;
    query.ext = match &opts.ext {
        Some(e) => Some(ext_filter(e.as_str())),
        None => None,
    };
    let rendered = color && !names_only && kind != Kind::Files;
    query.context = if rendered {
        opts.context
    } else {
        0
    };
    FindPlan {
        query,
        auto_kind: !files_only && !content_only && !names_only,
        rendered,
        interactive: !opts.no_input && stdin_tty && stderr_tty,
    }
}

pub const ACCENT: &'static str = "\u{1b}[36m";

pub const DIM: &'static str = "\u{1b}[2m";

pub const BOLD: &'static str = "\u{1b}[1m";

pub const RESET: &'static str = "\u{1b}[0m";

/// Whether `s` holds path `t` (a path with the same components).
pub open spec fn holds_path(s: Seq<String>, t: Seq<char>) -> bool {
    exists|i: int| 0 <= i < s.len() && same_path((#[trigger] s[i])@, t)
}

/// The line printed for `hit` under `root`: the path (coloured when `color`)
/// and, for a content hit, the line number and text; ended by NUL or newline.
pub open spec fn find_line(hit: Hit, root: Seq<char>, names_only: bool, print0: bool, color: bool) -> Seq<char> {
    let shown = relative(hit_path(hit), root);
    let sep = if print0 {
        '\0'
    } else {
        '\n'
    };
    match hit {
        Hit::Line { line, text, .. } => if names_only {
            shown.push(sep)
        } else if color {
            ACCENT@ + shown + RESET@ + DIM@ + seq![':'] + decimal(line as nat) + seq![':'] + RESET@
                + text@ + seq![sep]
        } else {
            shown + seq![':'] + decimal(line as nat) + seq![':'] + text@ + seq![sep]
        },
        Hit::File { .. } => shown.push(sep),
    }
}

/// Prints hits one per line as they stream in; with `-l`, one line per file.
pub struct FindPrinter {
    pub root: String,
    pub names_only: bool,
    pub print0: bool,
    pub color: bool,
    /// Files already listed, with `-l`.
    pub seen: Vec<String>,
    /// Lines produced so far.
    pub count: usize,
}

impl FindPrinter {
    pub fn new(root: String, names_only: bool, print0: bool, color: bool) -> (p: FindPrinter)
        ensures
            p.root == root,
            p.names_only == names_only,
            p.print0 == print0,
            p.color == color,
            p.seen@.len() == 0,
            p.count == 0,
    {
        FindPrinter { root, names_only, print0, color, seen: Vec::new(), count: 0 }
    }

    /// The text to print for `hit`, or nothing when `-l` already listed its
    /// file.
    pub fn line_for(&mut self, hit: &Hit) -> (r: Option<String>)
        requires
            old(self).count < usize::MAX,
        ensures
            old(self).names_only && holds_path(old(self).seen@, hit_path(*hit)) ==> r is None
                && final(self).seen == old(self).seen && final(self).count == old(self).count,
            !(old(self).names_only && holds_path(old(self).seen@, hit_path(*hit))) ==> (r matches Some(l)
                && l@ == find_line(
                *hit,
                old(self).root@,
                old(self).names_only,
                old(self).print0,
                old(self).color,
            ) && final(self).count == old(self).count + 1),
            old(self).names_only && !holds_path(old(self).seen@, hit_path(*hit))
                ==> final(self).seen@.len() == old(self).seen@.len() + 1
                && final(self).seen@.last()@ == hit_path(*hit) && final(self).seen@.drop_last()
                == old(self).seen@,
            !old(self).names_only ==> final(self).seen == old(self).seen,
            final(self).root == old(self).root,
            final(self).names_only == old(self).names_only,
            final(self).print0 == old(self).print0,
            final(self).color == old(self).color,
    {
        if self.names_only {
            let mut i: usize = 0;
            while i < self.seen.len()
                invariant
                    *self == *old(self),
                    self.names_only,
                    i <= self.seen.len(),
                    forall|k: int| 0 <= k < i ==> !same_path((#[trigger] self.seen@[k])@, hit_path(*hit)),
                decreases self.seen.len() - i,
            {
                if same_path_of(self.seen[i].as_str(), hit.path()) {
                    assert(same_path(old(self).seen@[i as int]@, hit_path(*hit)));
                    assert(holds_path(old(self).seen@, hit_path(*hit)));
                    return None;
                }
                i += 1;
            }
            self.seen.push(String::from_str(hit.path()));
            assert(self.seen@.drop_last() =~= old(self).seen@);
        }
        let shown = relative_to(hit.path(), self.root.as_str());
        let sep = if self.print0 {
            '\0'
        } else {
            '\n'
        };
        let mut out = String::new();
        match hit {
            Hit::Line { line, text, .. } => {
                if self.names_only {
                    push_str(&mut out, shown.as_str());
                    push_char(&mut out, sep);
                } else if self.color {
                    push_str(&mut out, ACCENT);
                    push_str(&mut out, shown.as_str());
                    push_str(&mut out, RESET);
                    push_str(&mut out, DIM);
                    push_char(&mut out, ':');
                    push_decimal(&mut out, *line);
                    push_char(&mut out, ':');
                    push_str(&mut out, RESET);
                    push_str(&mut out, text.as_str());
                    push_char(&mut out, sep);
                } else {
                    push_str(&mut out, shown.as_str());
                    push_char(&mut out, ':');
                    push_decimal(&mut out, *line);
                    push_char(&mut out, ':');
                    push_str(&mut out, text.as_str());
                    push_char(&mut out, sep);
                }
            },
            Hit::File { .. } => {
                push_str(&mut out, shown.as_str());
                push_char(&mut out, sep);
            },
        }
        assert(out@ =~= find_line(*hit, self.root@, self.names_only, self.print0, self.color));
        self.count = self.count + 1;
        Some(out)
    }
}


/// The first index of path `t` (a path with the same components) in `s`, or -1.
pub open spec fn index_of_path(s: Seq<String>, t: Seq<char>) -> int
    decreases s.len(),
{
    if s.len() == 0 {
        -1
    } else if index_of_path(s.drop_last(), t) >= 0 {
        index_of_path(s.drop_last(), t)
    } else if same_path(s.last()@, t) {
        s.len() - 1
    } else {
        -1
    }
}

proof fn lemma_index_of_path(s: Seq<String>, t: Seq<char>)
    ensures
        -1 <= index_of_path(s, t) < s.len(),
        index_of_path(s, t) >= 0 ==> same_path(s[index_of_path(s, t)]@, t),
        forall|k: int| 0 <= k < s.len() && (k < index_of_path(s, t) || index_of_path(s, t) < 0)
            ==> !same_path((#[trigger] s[k])@, t),
    decreases s.len(),
{
    if s.len() > 0 {
        lemma_index_of_path(s.drop_last(), t);
        assert forall|k: int| 0 <= k < s.len() && (k < index_of_path(s, t) || index_of_path(s, t) < 0)
            implies !same_path((#[trigger] s[k])@, t) by {
            if k < s.len() - 1 {
                assert(s.drop_last()[k] == s[k]);
            }
        }
    }
}

/// A row of a file's block: line number, text, and whether it is context.
pub open spec fn row_key_lt(a: (u64, String, bool), b: (u64, String, bool)) -> bool {
    a.0 < b.0 || (a.0 == b.0 && !a.2 && b.2)
}

/// The first index from `i` whose row `x` sorts before, else the end.
pub open spec fn row_slot(s: Seq<(u64, String, bool)>, x: (u64, String, bool), i: int) -> int
    decreases s.len() - i,
{
    if i >= s.len() {
        s.len() as int
    } else if row_key_lt(x, s[i]) {
        i
    } else {
        row_slot(s, x, i + 1)
    }
}

/// `rows` ordered by line number, matches before context on the same line,
/// rows that compare equal in the order they arrived.
pub open spec fn sorted_rows(rows: Seq<(u64, String, bool)>) -> Seq<(u64, String, bool)>
    decreases rows.len(),
{
    if rows.len() == 0 {
        seq![]
    } else {
        let s = sorted_rows(rows.drop_last());
        s.insert(row_slot(s, rows.last(), 0), rows.last())
    }
}

/// `rows` with each run of rows on the same line cut to its first.
pub open spec fn deduped(rows: Seq<(u64, String, bool)>) -> Seq<(u64, String, bool)>
    decreases rows.len(),
{
    if rows.len() == 0 {
        seq![]
    } else {
        let d = deduped(rows.drop_last());
        if d.len() > 0 && d.last().0 == rows.last().0 {
            d
        } else {
            d.push(rows.last())
        }
    }
}

/// The number of match rows (not context) in `rows`.
pub open spec fn match_rows(rows: Seq<(u64, String, bool)>) -> nat
    decreases rows.len(),
{
    if rows.len() == 0 {
        0
    } else {
        match_rows(rows.drop_last()) + if rows.last().2 {
            0nat
        } else {
            1nat
        }
    }
}

/// `n` right-aligned in five columns.
pub open spec fn gutter(n: u64) -> Seq<char> {
    let d = decimal(n as nat);
    crate::inline::spaces(if d.len() < 5 {
        (5 - d.len()) as nat
    } else {
        0
    }) + d
}

/// How one row reads: context dimmed, a match marked with `›`.
pub open spec fn row_line(r: (u64, String, bool)) -> Seq<char> {
    if r.2 {
        DIM@ + "  "@ + gutter(r.0) + " │ "@ + r.1@ + RESET@
    } else {
        ACCENT@ + "›"@ + RESET@ + " "@ + DIM@ + gutter(r.0) + " │"@ + RESET@ + " "@ + r.1@
    }
}

pub open spec fn gap_line() -> Seq<char> {
    "  "@ + DIM@ + "    ⋮"@ + RESET@
}

/// The rows of a block, each cut to `width`, with `⋮` wherever the line
/// numbers jump; `last` is the line shown before them (0 for none).
pub open spec fn body_lines(rows: Seq<(u64, String, bool)>, width: nat, last: u64) -> Seq<Seq<char>>
    decreases rows.len(),
{
    if rows.len() == 0 {
        seq![]
    } else {
        let r = rows[0];
        (if last != 0 && r.0 > last + 1 {
            seq![gap_line()]
        } else {
            seq![]
        }) + seq![truncated(row_line(r), width)] + body_lines(rows.drop_first(), width, r.0)
    }
}

/// `"es"` unless there is exactly one.
pub open spec fn plural_es(n: nat) -> Seq<char> {
    if n == 1 {
        seq![]
    } else {
        "es"@
    }
}

/// The lines of one file's block: a blank line unless it is the first
/// block, the file and its match count, the rule, then its rows sorted and
/// cut to one per line number.
pub open spec fn block_text(
    shown: Seq<char>,
    rows: Seq<(u64, String, bool)>,
    rule: Seq<char>,
    width: nat,
    first: bool,
) -> Seq<Seq<char>> {
    let d = deduped(sorted_rows(rows));
    let hits = match_rows(d);
    (if first {
        seq![]
    } else {
        seq![seq![]]
    }) + seq![
        "  "@ + ACCENT@ + BOLD@ + shown + RESET@ + DIM@ + "   "@ + decimal(hits) + " match"@ + plural_es(hits)
            + RESET@,
        "  "@ + DIM@ + rule + RESET@,
    ] + body_lines(d, width, 0)
}

/// Content hits gathered per file for the grouped view, files in the order
/// first seen.
pub struct DiffReport {
    pub order: Vec<String>,
    pub groups: Vec<Vec<(u64, String, bool)>>,
    /// Match rows seen (context rows not counted).
    pub matches: usize,
}

impl DiffReport {
    pub fn new() -> (r: DiffReport)
        ensures
            r.order@.len() == 0,
            r.groups@.len() == 0,
            r.matches == 0,
    {
        DiffReport { order: Vec::new(), groups: Vec::new(), matches: 0 }
    }

    /// Take in one hit: a content line joins its file's group (a new group
    /// at the end for a file not seen before); a name hit is ignored.
    pub fn add(&mut self, hit: Hit)
        requires
            old(self).order@.len() == old(self).groups@.len(),
            old(self).matches < usize::MAX,
        ensures
            final(self).order@.len() == final(self).groups@.len(),
            match hit {
                Hit::File { .. } => *final(self) == *old(self),
                Hit::Line { path, line, text, context } => {
                    let k = index_of_path(old(self).order@, path@);
                    &&& final(self).matches == old(self).matches + if context {
                        0int
                    } else {
                        1
                    }
                    &&& k >= 0 ==> {
                        &&& final(self).order == old(self).order
                        &&& final(self).groups@.len() == old(self).groups@.len()
                        &&& forall|j: int| 0 <= j < old(self).groups@.len() && j != k ==> (
                        #[trigger] final(self).groups@[j]) == old(self).groups@[j]
                        &&& final(self).groups@[k]@ == old(self).groups@[k]@.push((line, text, context))
                    }
                    &&& k < 0 ==> final(self).order@ == old(self).order@.push(path)
                        && final(self).groups@.len() == old(self).groups@.len() + 1
                        && final(self).groups@.drop_last() == old(self).groups@
                        && final(self).groups@.last()@ == seq![(line, text, context)]
                },
            },
    {
        match hit {
            Hit::File { .. } => {},
            Hit::Line { path, line, text, context } => {
                if !context {
                    self.matches = self.matches + 1;
                }
                proof {
                    lemma_index_of_path(self.order@, path@);
                }
                let mut i: usize = 0;
                while i < self.order.len() && !same_path_of(
                    self.order[i].as_str(),
                    path.as_str(),
                )
                    invariant
                        i <= self.order.len(),
                        forall|k: int| 0 <= k < i ==> !same_path((#[trigger] self.order@[k])@, path@),
                    decreases self.order.len() - i,
                {
                    i += 1;
                }
                proof {
                    lemma_index_of_path(self.order@, path@);
                }
                if i < self.order.len() {
                    assert(index_of_path(self.order@, path@) == i);
                    let mut group: Vec<(u64, String, bool)> = Vec::new();
                    std::mem::swap(&mut group, &mut self.groups[i]);
                    group.push((line, text, context));
                    self.groups.set(i, group);
                } else {
                    assert(index_of_path(self.order@, path@) < 0);
                    self.order.push(path);
                    let mut group: Vec<(u64, String, bool)> = Vec::new();
                    group.push((line, text, context));
                    self.groups.push(group);
                }
            },
        }
    }
}


/// Rows sorted by line number, matches before context on the same line;
/// rows that compare equal keep their order.
pub fn sort_rows(rows: Vec<(u64, String, bool)>) -> (r: Vec<(u64, String, bool)>)
    ensures
        r@ == sorted_rows(rows@),
{
    let ghost all = rows@;
    let mut rest = rows;
    let mut out: Vec<(u64, String, bool)> = Vec::new();
    let n = rest.len();
    let mut i: usize = 0;
    assert(all.take(0) =~= Seq::<(u64, String, bool)>::empty());
    assert(all.skip(0) =~= all);
    while i < n
        invariant
            n == all.len(),
            i <= n,
            rest@ == all.skip(i as int),
            out@ == sorted_rows(all.take(i as int)),
        decreases n - i,
    {
        assert(rest@.len() > 0);
        let x = rest.remove(0);
        assert(x == all[i as int]);
        assert(rest@ =~= all.skip(i + 1));
        let mut k: usize = 0;
        assert(row_slot(out@, x, 0) == row_slot(out@, x, k as int));
        while k < out.len() && !(x.0 < out[k].0 || (x.0 == out[k].0 && !x.2 && out[k].2))
            invariant
                k <= out.len(),
                row_slot(out@, x, 0) == row_slot(out@, x, k as int),
            decreases out.len() - k,
        {
            k += 1;
        }
        assert(row_slot(out@, x, 0) == k);
        assert(all.take(i + 1).drop_last() =~= all.take(i as int));
        assert(all.take(i + 1).last() == x);
        out.insert(k, x);
        i += 1;
    }
    assert(all.take(n as int) =~= all);
    out
}

/// Rows with each run on the same line cut to its first.
pub fn dedup_rows(rows: Vec<(u64, String, bool)>) -> (r: Vec<(u64, String, bool)>)
    ensures
        r@ == deduped(rows@),
{
    let ghost all = rows@;
    let mut rest = rows;
    let mut out: Vec<(u64, String, bool)> = Vec::new();
    let n = rest.len();
    let mut i: usize = 0;
    assert(all.take(0) =~= Seq::<(u64, String, bool)>::empty());
    assert(all.skip(0) =~= all);
    while i < n
        invariant
            n == all.len(),
            i <= n,
            rest@ == all.skip(i as int),
            out@ == deduped(all.take(i as int)),
        decreases n - i,
    {
        assert(rest@.len() > 0);
        let x = rest.remove(0);
        assert(x == all[i as int]);
        assert(rest@ =~= all.skip(i + 1));
        assert(all.take(i + 1).drop_last() =~= all.take(i as int));
        assert(all.take(i + 1).last() == x);
        if out.len() == 0 || out[out.len() - 1].0 != x.0 {
            out.push(x);
        }
        i += 1;
    }
    assert(all.take(n as int) =~= all);
    out
}

proof fn lemma_row_slot(s: Seq<(u64, String, bool)>, x: (u64, String, bool), i: int)
    requires
        0 <= i <= s.len(),
    ensures
        i <= row_slot(s, x, i) <= s.len(),
        forall|m: int| i <= m < row_slot(s, x, i) ==> !row_key_lt(x, #[trigger] s[m]),
        row_slot(s, x, i) < s.len() ==> row_key_lt(x, s[row_slot(s, x, i)]),
    decreases s.len() - i,
{
    if i < s.len() && !row_key_lt(x, s[i]) {
        lemma_row_slot(s, x, i + 1);
    }
}

proof fn lemma_sorted_rows(rows: Seq<(u64, String, bool)>)
    ensures
        sorted_rows(rows).to_multiset() == rows.to_multiset(),
        forall|i: int, j: int|
            0 <= i < j < sorted_rows(rows).len() ==> !row_key_lt(
                #[trigger] sorted_rows(rows)[j],
                #[trigger] sorted_rows(rows)[i],
            ),
    decreases rows.len(),
{
    if rows.len() > 0 {
        let rest = rows.drop_last();
        let x = rows.last();
        lemma_sorted_rows(rest);
        let s = sorted_rows(rest);
        lemma_row_slot(s, x, 0);
        let k = row_slot(s, x, 0);
        let t = s.insert(k, x);
        assert(t == sorted_rows(rows));
        vstd::seq_lib::to_multiset_insert(s, k, x);
        assert(rest.push(x) =~= rows);
        vstd::seq_lib::to_multiset_build(rest, x);
        assert forall|i: int, j: int| 0 <= i < j < t.len() implies !row_key_lt(
            #[trigger] t[j],
            #[trigger] t[i],
        ) by {
            if j < k {
                assert(t[i] == s[i] && t[j] == s[j]);
            } else if j == k {
                assert(t[i] == s[i] && t[j] == x);
            } else if i < k {
                assert(t[i] == s[i] && t[j] == s[j - 1]);
            } else if i == k {
                assert(t[i] == x && t[j] == s[j - 1]);
                if j - 1 > k {
                    assert(!row_key_lt(s[j - 1], s[k]));
                }
            } else {
                assert(t[i] == s[i - 1] && t[j] == s[j - 1]);
            }
        }
        assert(t.to_multiset() == rows.to_multiset());
    } else {
        assert(rows =~= sorted_rows(rows));
    }
}

/// Line numbers never fall, and on one line matches come before context.
pub open spec fn rows_ordered(s: Seq<(u64, String, bool)>) -> bool {
    forall|i: int, j: int|
        0 <= i < j < s.len() ==> (#[trigger] s[i]).0 <= (#[trigger] s[j]).0 && (s[i].0 == s[j].0
            && s[i].2 ==> s[j].2)
}

/// Some row of `d` stands for `r`'s line, and is a match when `r` is.
pub open spec fn shows_line(d: Seq<(u64, String, bool)>, r: (u64, String, bool)) -> bool {
    exists|i: int| 0 <= i < d.len() && (#[trigger] d[i]).0 == r.0 && (!r.2 ==> !d[i].2)
}

#[verifier::spinoff_prover]
proof fn lemma_deduped(s: Seq<(u64, String, bool)>)
    requires
        rows_ordered(s),
    ensures
        forall|i: int, j: int|
            0 <= i < j < deduped(s).len() ==> (#[trigger] deduped(s)[i]).0 < (
            #[trigger] deduped(s)[j]).0,
        forall|i: int| 0 <= i < deduped(s).len() ==> s.contains(#[trigger] deduped(s)[i]),
        forall|m: int| 0 <= m < s.len() ==> shows_line(deduped(s), #[trigger] s[m]),
    decreases s.len(),
{
    if s.len() > 0 {
        let s1 = s.drop_last();
        let x = s.last();
        let n = s.len() - 1;
        assert(x == s[n]);
        assert(rows_ordered(s1)) by {
            assert forall|i: int, j: int| 0 <= i < j < s1.len() implies (#[trigger] s1[i]).0 <= (
            #[trigger] s1[j]).0 && (s1[i].0 == s1[j].0 && s1[i].2 ==> s1[j].2) by {
                assert(s1[i] == s[i] && s1[j] == s[j]);
            }
        }
        lemma_deduped(s1);
        let d1 = deduped(s1);
        let d = deduped(s);
        if d1.len() > 0 {
            let l = d1[d1.len() - 1];
            assert(d1.last() == l);
            assert(s1.contains(l));
            let p = choose|p: int| 0 <= p < s1.len() && s1[p] == l;
            assert(s[p] == l);
            assert(l.0 <= x.0 && (l.0 == x.0 && l.2 ==> x.2));
        }
        if d1.len() > 0 && d1.last().0 == x.0 {
            assert(d == d1);
            assert(shows_line(d, s[n])) by {
                assert(d[d.len() - 1] == d1.last());
            }
        } else {
            assert(d == d1.push(x));
            assert(shows_line(d, s[n])) by {
                assert(d[d.len() - 1] == x);
            }
            assert forall|i: int, j: int| 0 <= i < j < d.len() implies (#[trigger] d[i]).0 < (
            #[trigger] d[j]).0 by {
                if j == d.len() - 1 {
                    assert(d[i] == d1[i]);
                    if i < d1.len() - 1 {
                        assert(d1[i].0 < d1[d1.len() - 1].0);
                    }
                } else {
                    assert(d[i] == d1[i] && d[j] == d1[j]);
                }
            }
        }
        assert forall|i: int| 0 <= i < d.len() implies s.contains(#[trigger] d[i]) by {
            if i < d1.len() {
                assert(d[i] == d1[i]);
                assert(s1.contains(d1[i]));
                let p = choose|p: int| 0 <= p < s1.len() && s1[p] == d1[i];
                assert(s[p] == d1[i]);
            } else {
                assert(d[i] == s[n]);
            }
        }
        assert forall|m: int| 0 <= m < s.len() implies shows_line(d, #[trigger] s[m]) by {
            if m < n {
                assert(s1[m] == s[m]);
                assert(shows_line(d1, s1[m]));
                let i = choose|i: int|
                    0 <= i < d1.len() && (#[trigger] d1[i]).0 == s[m].0 && (!s[m].2 ==> !d1[i].2);
                assert(d[i] == d1[i]);
            }
        }
    }
}

/// A file's block shows each line once, in ascending order, and only rows
/// that were given; every line that was given is shown, and as a match when
/// any of its rows was a match.
pub proof fn lemma_block_rows(rows: Seq<(u64, String, bool)>)
    ensures
        forall|i: int, j: int|
            0 <= i < j < deduped(sorted_rows(rows)).len() ==> (#[trigger] deduped(
                sorted_rows(rows),
            )[i]).0 < (#[trigger] deduped(sorted_rows(rows))[j]).0,
        forall|i: int|
            0 <= i < deduped(sorted_rows(rows)).len() ==> rows.contains(
                #[trigger] deduped(sorted_rows(rows))[i],
            ),
        forall|m: int| 0 <= m < rows.len() ==> shows_line(deduped(sorted_rows(rows)), #[trigger] rows[m]),
{
    let s = sorted_rows(rows);
    let d = deduped(s);
    lemma_sorted_rows(rows);
    assert(rows_ordered(s)) by {
        assert forall|i: int, j: int| 0 <= i < j < s.len() implies (#[trigger] s[i]).0 <= (
        #[trigger] s[j]).0 && (s[i].0 == s[j].0 && s[i].2 ==> s[j].2) by {
            assert(!row_key_lt(s[j], s[i]));
        }
    }
    lemma_deduped(s);
    assert forall|i: int| 0 <= i < d.len() implies rows.contains(#[trigger] d[i]) by {
        assert(s.contains(d[i]));
        vstd::seq_lib::to_multiset_contains(s, d[i]);
        vstd::seq_lib::to_multiset_contains(rows, d[i]);
    }
    assert forall|m: int| 0 <= m < rows.len() implies shows_line(d, #[trigger] rows[m]) by {
        let r = rows[m];
        assert(rows.contains(r));
        vstd::seq_lib::to_multiset_contains(rows, r);
        vstd::seq_lib::to_multiset_contains(s, r);
        let a = choose|a: int| 0 <= a < s.len() && s[a] == r;
        assert(shows_line(d, s[a]));
    }
}

fn push_gutter(out: &mut String, n: u64)
    ensures
        final(out)@ == old(out)@ + gutter(n),
{
    let d = crate::text::decimal_string(n);
    let len = chars_of(d.as_str()).len();
    let mut k: usize = len;
    let ghost base = out@;
    let pad: usize = if len < 5 {
        5 - len
    } else {
        0
    };
    let mut j: usize = 0;
    while j < pad
        invariant
            j <= pad,
            out@ == base + crate::inline::spaces(j as nat),
        decreases pad - j,
    {
        push_char(out, ' ');
        assert(crate::inline::spaces((j + 1) as nat) =~= crate::inline::spaces(j as nat).push(' '));
        j += 1;
    }
    push_str(out, d.as_str());
}

/// The text of one row.
fn row_text_of(r: &(u64, String, bool)) -> (t: String)
    ensures
        t@ == row_line(*r),
{
    let mut out = String::new();
    if r.2 {
        push_str(&mut out, DIM);
        push_str(&mut out, "  ");
        push_gutter(&mut out, r.0);
        push_str(&mut out, " │ ");
        push_str(&mut out, r.1.as_str());
        push_str(&mut out, RESET);
    } else {
        push_str(&mut out, ACCENT);
        push_str(&mut out, "›");
        push_str(&mut out, RESET);
        push_str(&mut out, " ");
        push_str(&mut out, DIM);
        push_gutter(&mut out, r.0);
        push_str(&mut out, " │");
        push_str(&mut out, RESET);
        push_str(&mut out, " ");
        push_str(&mut out, r.1.as_str());
    }
    assert(out@ =~= row_line(*r));
    out
}

/// The lines of one file's block in the grouped view (see `block_text`).
pub fn block_lines(
    shown: &str,
    rows: Vec<(u64, String, bool)>,
    rule: &str,
    width: usize,
    first: bool,
) -> (r: Vec<String>)
    ensures
        r@.map_values(|l: String| l@) == block_text(shown@, rows@, rule@, width as nat, first),
{
    let d = dedup_rows(sort_rows(rows));
    let mut hits: usize = 0;
    let mut i: usize = 0;
    while i < d.len()
        invariant
            i <= d.len(),
            hits == match_rows(d@.take(i as int)),
            hits <= i,
        decreases d.len() - i,
    {
        assert(d@.take(i + 1).drop_last() =~= d@.take(i as int));
        if !d[i].2 {
            hits += 1;
        }
        i += 1;
    }
    assert(d@.take(d.len() as int) =~= d@);
    let mut lines: Vec<String> = Vec::new();
    if !first {
        lines.push(String::new());
    }
    let mut head = String::new();
    push_str(&mut head, "  ");
    push_str(&mut head, ACCENT);
    push_str(&mut head, BOLD);
    push_str(&mut head, shown);
    push_str(&mut head, RESET);
    push_str(&mut head, DIM);
    push_str(&mut head, "   ");
    push_decimal(&mut head, hits as u64);
    push_str(&mut head, " match");
    if hits != 1 {
        push_str(&mut head, "es");
    }
    push_str(&mut head, RESET);
    lines.push(head);
    let mut rule_line = String::new();
    push_str(&mut rule_line, "  ");
    push_str(&mut rule_line, DIM);
    push_str(&mut rule_line, rule);
    push_str(&mut rule_line, RESET);
    lines.push(rule_line);
    let ghost top = lines@.map_values(|l: String| l@);
    let ghost heads = (if first {
        seq![]
    } else {
        seq![seq![]]
    }) + seq![
        "  "@ + ACCENT@ + BOLD@ + shown@ + RESET@ + DIM@ + "   "@ + decimal(hits as nat) + " match"@
            + plural_es(hits as nat) + RESET@,
        "  "@ + DIM@ + rule@ + RESET@,
    ];
    assert(top =~= heads);
    let mut last: u64 = 0;
    let mut k: usize = 0;
    assert(d@.skip(0) =~= d@);
    while k < d.len()
        invariant
            k <= d.len(),
            lines@.map_values(|l: String| l@) + body_lines(d@.skip(k as int), width as nat, last)
                == heads + body_lines(d@, width as nat, 0),
            k == 0 ==> last == 0,
            k > 0 ==> last == d@[k - 1].0,
        decreases d.len() - k,
    {
        let ghost before = lines@.map_values(|l: String| l@);
        let ghost tail = d@.skip(k as int);
        let line = d[k].0;
        assert(tail[0] == d@[k as int]);
        assert(tail.drop_first() =~= d@.skip(k + 1));
        if last != 0 && last < line && line - last > 1 {
            let mut gap = String::new();
            push_str(&mut gap, "  ");
            push_str(&mut gap, DIM);
            push_str(&mut gap, "    ⋮");
            push_str(&mut gap, RESET);
            assert(gap@ =~= gap_line());
            lines.push(gap);
        }
        let row = row_text_of(&d[k]);
        let cut = truncate(row.as_str(), width);
        lines.push(cut);
        proof {
            let now = lines@.map_values(|l: String| l@);
            let g = if last != 0 && line > last + 1 {
                seq![gap_line()]
            } else {
                seq![]
            };
            assert(now =~= before + g + seq![truncated(row_line(d@[k as int]), width as nat)]);
            assert(body_lines(tail, width as nat, last) == g + seq![
                truncated(row_line(d@[k as int]), width as nat),
            ] + body_lines(d@.skip(k + 1), width as nat, line));
            assert(now + body_lines(d@.skip(k + 1), width as nat, line) =~= before + body_lines(
                tail,
                width as nat,
                last,
            ));
        }
        last = line;
        k += 1;
    }
    assert(d@.skip(d.len() as int) =~= Seq::<(u64, String, bool)>::empty());
    assert(lines@.map_values(|l: String| l@) =~= heads + body_lines(d@, width as nat, 0));
    lines
}

/// The closing summary of the grouped view.
pub open spec fn summary_text(matches: nat, files: nat) -> Seq<Seq<char>> {
    seq![
        seq![],
        "  "@ + DIM@ + decimal(matches) + " match"@ + plural_es(matches) + " in "@ + decimal(files)
            + " file"@ + (if files == 1 {
            seq![]
        } else {
            "s"@
        }) + RESET@,
    ]
}

pub fn summary_lines(matches: usize, files: usize) -> (r: Vec<String>)
    ensures
        r@.map_values(|l: String| l@) == summary_text(matches as nat, files as nat),
{
    let mut line = String::new();
    push_str(&mut line, "  ");
    push_str(&mut line, DIM);
    push_decimal(&mut line, matches as u64);
    push_str(&mut line, " match");
    if matches != 1 {
        push_str(&mut line, "es");
    }
    push_str(&mut line, " in ");
    push_decimal(&mut line, files as u64);
    push_str(&mut line, " file");
    if files != 1 {
        push_str(&mut line, "s");
    }
    push_str(&mut line, RESET);
    let mut r: Vec<String> = Vec::new();
    r.push(String::new());
    r.push(line);
    assert(r@.map_values(|l: String| l@) =~= summary_text(matches as nat, files as nat));
    r
}

/// The rule under each file heading: as wide as the terminal allows, up to
/// 72 columns.
pub fn rule_for(width: usize) -> (r: String)
    ensures
        r@.len() == (if width >= 2 {
            if width - 2 < 72 {
                width - 2
            } else {
                72
            }
        } else {
            0
        }),
        forall|i: int| 0 <= i < r@.len() ==> r@[i] == '─',
{
    let n: usize = if width < 2 {
        0
    } else if width - 2 < 72 {
        width - 2
    } else {
        72
    };
    let mut out = String::new();
    let mut i: usize = 0;
    while i < n
        invariant
            i <= n,
            out@.len() == i,
            forall|k: int| 0 <= k < i ==> out@[k] == '─',
        decreases n - i,
    {
        push_char(&mut out, '─');
        i += 1;
    }
    out
}

} // verus!
