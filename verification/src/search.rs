//! The search model shared by both front ends: what a query asks for, what a
//! hit is, how a pattern is planned and how names are matched. The walk itself
//! runs elsewhere and streams `Hit`s back.

use vstd::prelude::*;

use crate::glob::{glob, glob_matches_chars, scan};
use crate::text::{chars_of, string_of};

verus! {

/// Default cap on results for an interactive search (the inline picker and the
/// TUI overlay).
pub const DEFAULT_LIMIT: usize = 500;

#[derive(Clone, Copy, PartialEq, Eq, Structural, Debug)]
pub enum Kind {
    /// Match against file names only.
    Files,
    /// Match against file contents only.
    Content,
    /// Both, in a single walk.
    Both,
}

impl Kind {
    pub fn wants_names(self) -> (r: bool)
        ensures
            r == (self is Files || self is Both),
    {
        match self {
            Kind::Files | Kind::Both => true,
            Kind::Content => false,
        }
    }

    pub fn wants_content(self) -> (r: bool)
        ensures
            r == (self is Content || self is Both),
    {
        match self {
            Kind::Content | Kind::Both => true,
            Kind::Files => false,
        }
    }
}

#[derive(Clone, Debug)]
pub struct Query {
    pub pattern: String,
    /// Directory the walk starts from.
    pub root: String,
    pub kind: Kind,
    /// Search files that ignore rules would normally skip.
    pub no_ignore: bool,
    /// Include dotfiles and dot-directories (on by default; `.git/` is always
    /// skipped by the walk).
    pub hidden: bool,
    /// Stop after this many hits. `None` means unlimited.
    pub limit: Option<usize>,
    /// Lines of context to emit either side of each content match.
    pub context: usize,
    /// Only consider files with this extension (no leading dot).
    pub ext: Option<String>,
}

impl Query {
    /// A query with the defaults: hidden files searched, ignore rules
    /// honoured, no limit, no context, no extension filter.
    pub fn new(pattern: &str, root: &str, kind: Kind) -> (q: Query)
        ensures
            q.pattern@ == pattern@,
            q.root@ == root@,
            q.kind == kind,
            !q.no_ignore,
            q.hidden,
            q.limit is None,
            q.context == 0,
            q.ext is None,
    {
        Query {
            pattern: String::from_str(pattern),
            root: String::from_str(root),
            kind,
            no_ignore: false,
            hidden: true,
            limit: None,
            ext: None,
            context: 0,
        }
    }
}

#[derive(Clone, Debug, PartialEq, Eq)]
pub enum Hit {
    /// A file whose name matched.
    File { path: String },
    /// A line whose contents matched, or a neighbouring context line.
    Line {
        path: String,
        line: u64,
        text: String,
        /// True for surrounding context rather than an actual match.
        context: bool,
    },
}

/// The path a hit belongs to.
pub open spec fn hit_path(h: Hit) -> Seq<char> {
    match h {
        Hit::File { path } => path@,
        Hit::Line { path, .. } => path@,
    }
}

/// The line a hit sorts by; name hits sort as line 0.
pub open spec fn hit_line(h: Hit) -> u64 {
    match h {
        Hit::File { .. } => 0,
        Hit::Line { line, .. } => line,
    }
}

impl Hit {
    pub fn path(&self) -> (r: &str)
        ensures
            r@ == hit_path(*self),
    {
        match self {
            Hit::File { path } => path.as_str(),
            Hit::Line { path, .. } => path.as_str(),
        }
    }

    pub fn is_file(&self) -> (r: bool)
        ensures
            r == (*self is File),
    {
        match self {
            Hit::File { .. } => true,
            Hit::Line { .. } => false,
        }
    }

    pub fn line(&self) -> (r: u64)
        ensures
            r == hit_line(*self),
    {
        match self {
            Hit::File { .. } => 0,
            Hit::Line { line, .. } => *line,
        }
    }
}

/// Whether `c` has the Unicode `Uppercase` property, as `char::is_uppercase`
/// reports it.
pub uninterp spec fn uppercase_char(c: char) -> bool;

/// `char::is_uppercase` from std: whether `c` has the Unicode `Uppercase`
/// property. The contract only names that answer.
#[verifier::external_body]
fn is_uppercase(c: char) -> (r: bool)
    ensures
        r == uppercase_char(c),
{
    c.is_uppercase()
}

/// `rg`'s smart-case rule: a pattern with no uppercase character matches
/// case-insensitively.
pub open spec fn smart_case_insensitive(p: Seq<char>) -> bool {
    forall|i: int| 0 <= i < p.len() ==> !uppercase_char(#[trigger] p[i])
}

/// `rg`'s smart-case rule: an all-lowercase pattern matches case-insensitively,
/// any uppercase makes it case-sensitive.
pub fn is_smart_case_insensitive(pattern: &str) -> (r: bool)
    ensures
        r == smart_case_insensitive(pattern@),
{
    let v = chars_of(pattern);
    let mut i: usize = 0;
    while i < v.len()
        invariant
            i <= v.len(),
            v@ == pattern@,
            forall|k: int| 0 <= k < i ==> !uppercase_char(#[trigger] v@[k]),
        decreases v.len() - i,
    {
        if is_uppercase(v[i]) {
            return false;
        }
        i += 1;
    }
    true
}

/// What `str::to_lowercase` makes of a string.
pub uninterp spec fn lowercase_of(s: Seq<char>) -> Seq<char>;

/// `str::to_lowercase` from std: the Unicode lowercase mapping of `s`. The
/// contract only names the result; the mapping itself is std's.
#[verifier::external_body]
pub(crate) fn to_lowercase(s: &str) -> (r: String)
    ensures
        r@ == lowercase_of(s@),
{
    s.to_lowercase()
}

/// `needle` occurs in `hay` starting at `i`.
pub open spec fn occurs_at(hay: Seq<char>, needle: Seq<char>, i: int) -> bool {
    0 <= i && i + needle.len() <= hay.len() && hay.subrange(i, i + needle.len()) == needle
}

/// `needle` occurs somewhere in `hay` (the empty needle occurs everywhere).
pub open spec fn contains_seq(hay: Seq<char>, needle: Seq<char>) -> bool {
    exists|i: int| #[trigger] occurs_at(hay, needle, i)
}

/// The first position at which `needle` occurs in `hay`.
pub fn find_seq(hay: &Vec<char>, needle: &Vec<char>) -> (r: Option<usize>)
    ensures
        r matches Some(i) ==> occurs_at(hay@, needle@, i as int) && forall|j: int|
            0 <= j < i ==> !occurs_at(hay@, needle@, j),
        r is None ==> !contains_seq(hay@, needle@),
{
    if needle.len() > hay.len() {
        assert forall|j: int| !occurs_at(hay@, needle@, j) by {}
        return None;
    }
    let last = hay.len() - needle.len();
    let mut i: usize = 0;
    let mut done = false;
    while !done
        invariant
            last == hay.len() - needle.len(),
            i <= last,
            !done ==> forall|j: int| 0 <= j < i ==> !occurs_at(hay@, needle@, j),
            done ==> forall|j: int| 0 <= j <= last ==> !occurs_at(hay@, needle@, j),
        decreases last - i + if done { 0int } else { 1 },
    {
        let mut k: usize = 0;
        let mut same = true;
        while k < needle.len() && same
            invariant
                i + needle.len() <= hay.len(),
                k <= needle.len(),
                same ==> forall|t: int| 0 <= t < k ==> hay@[i + t] == needle@[t],
                !same ==> !occurs_at(hay@, needle@, i as int),
            decreases needle.len() - k,
        {
            if hay[i + k] != needle[k] {
                same = false;
                assert(hay@.subrange(i as int, i + needle.len())[k as int] != needle@[k as int]);
            }
            k += 1;
        }
        if same {
            assert(hay@.subrange(i as int, i + needle.len()) =~= needle@);
            return Some(i);
        }
        if i == last {
            done = true;
        } else {
            i += 1;
        }
    }
    assert forall|j: int| !occurs_at(hay@, needle@, j) by {}
    None
}

/// Whether a name pattern is a glob: it holds `*` or `?`.
pub open spec fn is_glob(p: Seq<char>) -> bool {
    p.contains('*') || p.contains('?')
}

/// The name test: a glob pattern must match the whole name, anything else is
/// a plain substring. With `ignore_case` both sides are lowercased first.
pub open spec fn name_matches(pattern: Seq<char>, ignore_case: bool, name: Seq<char>) -> bool {
    let p = if ignore_case { lowercase_of(pattern) } else { pattern };
    let n = if ignore_case { lowercase_of(name) } else { name };
    if is_glob(p) {
        glob(p, n)
    } else {
        contains_seq(n, p)
    }
}

/// The name test by the pattern's shape: a pattern that holds `*` or `?`
/// (after folding case when asked) must match the whole name as a glob; any
/// other pattern only has to occur in the name.
pub proof fn lemma_name_test_by_pattern(pattern: Seq<char>, ignore_case: bool, name: Seq<char>)
    ensures
        ({
            let p = if ignore_case { lowercase_of(pattern) } else { pattern };
            let n = if ignore_case { lowercase_of(name) } else { name };
            &&& (p.contains('*') || p.contains('?')) ==> name_matches(pattern, ignore_case, name)
                == glob(p, n)
            &&& (!p.contains('*') && !p.contains('?')) ==> name_matches(pattern, ignore_case, name)
                == contains_seq(n, p)
        }),
{
}

fn has_char(v: &Vec<char>, c: char) -> (r: bool)
    ensures
        r == v@.contains(c),
{
    let mut i: usize = 0;
    while i < v.len()
        invariant
            i <= v.len(),
            forall|k: int| 0 <= k < i ==> v@[k] != c,
        decreases v.len() - i,
    {
        if v[i] == c {
            assert(v@[i as int] == c);
            return true;
        }
        i += 1;
    }
    false
}

/// Minimal glob: `*` spans any run of characters, `?` spans exactly one.
pub fn glob_matches(pattern: &str, name: &str) -> (r: bool)
    ensures
        r == scan(pattern@, name@, 0, 0, None, 0),
        r == glob(pattern@, name@),
{
    let p = chars_of(pattern);
    let n = chars_of(name);
    glob_matches_chars(&p, &n)
}

/// Treat a pattern containing glob metacharacters as a glob, otherwise as a
/// plain substring, so `cl find '*.zip'` and `cl find zip` both do what you
/// expect.
pub fn file_name_matches(pattern: &str, ignore_case: bool, name: &str) -> (r: bool)
    ensures
        r == name_matches(pattern@, ignore_case, name@),
{
    let (p, n) = if ignore_case {
        (to_lowercase(pattern), to_lowercase(name))
    } else {
        (String::from_str(pattern), String::from_str(name))
    };
    let pv = chars_of(p.as_str());
    let nv = chars_of(n.as_str());
    if has_char(&pv, '*') || has_char(&pv, '?') {
        glob_matches_chars(&pv, &nv)
    } else {
        find_seq(&nv, &pv).is_some()
    }
}

/// Whether `pattern` compiles as a content regex under the default matcher
/// configuration of `grep-regex`.
pub uninterp spec fn regex_compiles(pattern: Seq<char>) -> bool;

/// `grep_regex::RegexMatcher::new`: builds a matcher with the default
/// configuration. The contract names whether that succeeded; the regex syntax
/// itself is the crate's.
#[verifier::external_body]
fn matcher_builds(pattern: &str) -> (ok: bool)
    ensures
        ok == regex_compiles(pattern@),
{
    grep_regex::RegexMatcher::new(pattern).is_ok()
}

/// Whether a pattern can compile as a content regex: `cl find TODO` means
/// contents, but `*.zip` fails to compile and obviously means names.
pub fn is_valid_regex(pattern: &str) -> (r: bool)
    ensures
        r == regex_compiles(pattern@),
{
    matcher_builds(pattern)
}

/// The kind an interactive search infers from its pattern.
pub open spec fn planned_kind(compiles: bool) -> Kind {
    if compiles {
        Kind::Content
    } else {
        Kind::Files
    }
}

/// The query an interactive search runs once it knows whether the pattern
/// compiles as a regex: contents when it does, names when it does not, capped
/// at `DEFAULT_LIMIT`.
pub fn plan_with(pattern: &str, root: &str, compiles: bool) -> (q: Query)
    ensures
        q.pattern@ == pattern@,
        q.root@ == root@,
        q.kind == planned_kind(compiles),
        !q.no_ignore,
        q.hidden,
        q.limit == Some(DEFAULT_LIMIT),
        q.context == 0,
        q.ext is None,
{
    let kind = if compiles {
        Kind::Content
    } else {
        Kind::Files
    };
    let mut query = Query::new(pattern, root, kind);
    query.limit = Some(DEFAULT_LIMIT);
    query
}

/// Build the query an interactive search should run for `pattern`: contents
/// by default, names when the pattern cannot compile as a regex, capped at
/// `DEFAULT_LIMIT`. Both front ends go through this.
pub fn plan(pattern: &str, root: &str) -> (q: Query)
    ensures
        q.pattern@ == pattern@,
        q.root@ == root@,
        q.kind == planned_kind(regex_compiles(pattern@)),
        !q.no_ignore,
        q.hidden,
        q.limit == Some(DEFAULT_LIMIT),
        q.context == 0,
        q.ext is None,
{
    let compiles = is_valid_regex(pattern);
    plan_with(pattern, root, compiles)
}


/// What a walk does about content matching, once it has tried to build the
/// matcher for its pattern.
#[derive(Clone, Copy, PartialEq, Eq, Structural, Debug)]
pub enum MatcherStep {
    /// The walk matches names only; no matcher was wanted.
    NotWanted,
    /// Match contents with the matcher that was built.
    Use,
    /// The pattern is no regex, but the walk also matches names: it goes on
    /// with names only.
    NamesOnly,
    /// The pattern is no regex and contents were asked for: report it.
    Refuse,
}

/// The step for a walk of `kind` whose matcher did (`built`) or did not
/// build. A glob such as `*.zip` is no regex, which a walk over both names
/// and contents takes in its stride.
pub fn matcher_step(kind: Kind, built: bool) -> (r: MatcherStep)
    ensures
        r == (if kind == Kind::Files {
            MatcherStep::NotWanted
        } else if built {
            MatcherStep::Use
        } else if kind == Kind::Both {
            MatcherStep::NamesOnly
        } else {
            MatcherStep::Refuse
        }),
{
    if !kind.wants_content() {
        MatcherStep::NotWanted
    } else if built {
        MatcherStep::Use
    } else if kind == Kind::Both {
        MatcherStep::NamesOnly
    } else {
        MatcherStep::Refuse
    }
}

/// The directory never searched below the root, even with hidden files on:
/// in a typical repository it is most of the hidden entries and none of it
/// is anything anyone means to find.
pub const SKIP_ALWAYS: &'static str = ".git";

/// Whether the walk goes into an entry at `depth` named `name`: the root
/// always, anything else unless it is `.git`.
pub fn keep_entry(depth: usize, name: &str) -> (r: bool)
    ensures
        r == (depth == 0 || name@ != SKIP_ALWAYS@),
{
    depth == 0 || !crate::paths::same_text(name, SKIP_ALWAYS)
}

/// Whether a file passes the extension filter `want` (already lower case):
/// with no filter every file does, otherwise its extension in lower case
/// must be the one wanted.
pub fn ext_allows(want: Option<&str>, path: &str) -> (r: bool)
    ensures
        r == match want {
            None => true,
            Some(w) => match crate::paths::extension(path@) {
                Some(e) => lowercase_of(e) == w@,
                None => false,
            },
        },
{
    match want {
        None => true,
        Some(w) => match crate::paths::extension_of(path) {
            Some(e) => crate::paths::same_text(to_lowercase(e.as_str()).as_str(), w),
            None => false,
        },
    }
}

/// The name a walked path is matched on: its final component, or nothing.
pub open spec fn walked_name(path: Seq<char>) -> Seq<char> {
    match crate::paths::file_name(path) {
        Some(n) => n,
        None => seq![],
    }
}

/// Whether the walk reports `path` as a name hit for `pattern`.
pub fn name_hit(kind: Kind, pattern: &str, ignore_case: bool, path: &str) -> (r: bool)
    ensures
        r == ((kind == Kind::Files || kind == Kind::Both) && name_matches(
            pattern@,
            ignore_case,
            walked_name(path@),
        )),
{
    if !kind.wants_names() {
        return false;
    }
    let name = match crate::paths::file_name_of(path) {
        Some(n) => n,
        None => String::new(),
    };
    file_name_matches(pattern, ignore_case, name.as_str())
}

/// The text `bytes` decode to, with every invalid UTF-8 sequence replaced by
/// U+FFFD.
pub uninterp spec fn lossy_utf8(bytes: Seq<u8>) -> Seq<char>;

/// `String::from_utf8_lossy` from std. The contract names its result.
#[verifier::external_body]
fn lossy_text(bytes: &[u8]) -> (r: String)
    ensures
        r@ == lossy_utf8(bytes@),
{
    String::from_utf8_lossy(bytes).into_owned()
}

/// `s` without its trailing line breaks (`\n` and `\r`).
pub open spec fn without_breaks(s: Seq<char>) -> Seq<char>
    decreases s.len(),
{
    if s.len() > 0 && (s.last() == '\n' || s.last() == '\r') {
        without_breaks(s.drop_last())
    } else {
        s
    }
}

/// The text of a matched line: decoded leniently, and without the line
/// break, carriage return included (a bare `\r` would send the cursor back
/// to column 0 and overwrite the row).
pub fn line_text(bytes: &[u8]) -> (r: String)
    ensures
        r@ == without_breaks(lossy_utf8(bytes@)),
{
    let v = chars_of(lossy_text(bytes).as_str());
    let mut end: usize = v.len();
    assert(v@.take(v.len() as int) =~= v@);
    while end > 0 && (v[end - 1] == '\n' || v[end - 1] == '\r')
        invariant
            end <= v.len(),
            without_breaks(v@) == without_breaks(v@.take(end as int)),
        decreases end,
    {
        assert(v@.take(end as int).drop_last() =~= v@.take(end - 1));
        end -= 1;
    }
    if end > 0 {
        assert(v@.take(end as int).last() == v@[end - 1]);
    }
    let mut out: Vec<char> = Vec::new();
    let mut i: usize = 0;
    while i < end
        invariant
            i <= end <= v.len(),
            out@ == v@.take(i as int),
        decreases end - i,
    {
        out.push(v[i]);
        assert(v@.take(i + 1) =~= v@.take(i as int).push(v@[i as int]));
        i += 1;
    }
    string_of(&out)
}

/// The hit for a line the searcher reported in `path`: its number (0 when
/// unknown), its text, and whether it is context.
pub fn line_hit(path: &str, line: Option<u64>, bytes: &[u8], is_context: bool) -> (h: Hit)
    ensures
        h matches Hit::Line { path: p, line: n, text, context } && p@ == path@ && n == (match line {
            Some(k) => k,
            None => 0,
        }) && text@ == without_breaks(lossy_utf8(bytes@)) && context == is_context,
{
    Hit::Line {
        path: String::from_str(path),
        line: match line {
            Some(k) => k,
            None => 0,
        },
        text: line_text(bytes),
        context: is_context,
    }
}

} // verus!
