//! Paths are held as text with `/` between components. These are the few
//! questions the library asks of one: its final component, that component's
//! extension, and what is left once a root directory is taken off the front.

use vstd::prelude::*;

use crate::text::{chars_of, decimal, push_char, push_decimal, push_str, string_of};

verus! {

/// `p` without trailing separators.
pub open spec fn trim_slashes(p: Seq<char>) -> Seq<char>
    decreases p.len(),
{
    if p.len() > 0 && p.last() == '/' {
        trim_slashes(p.drop_last())
    } else {
        p
    }
}

/// What follows the last separator of `p` (all of `p` when it has none).
pub open spec fn after_last_slash(p: Seq<char>) -> Seq<char>
    decreases p.len(),
{
    if p.len() == 0 {
        p
    } else if p.last() == '/' {
        seq![]
    } else {
        after_last_slash(p.drop_last()).push(p.last())
    }
}

/// The final component of a path, unless it is empty, `.` or `..`.
pub open spec fn file_name(p: Seq<char>) -> Option<Seq<char>> {
    let n = after_last_slash(trim_slashes(p));
    if n.len() == 0 || n == seq!['.'] || n == seq!['.', '.'] {
        None
    } else {
        Some(n)
    }
}

/// Index of the last `.` in `n`, or -1.
pub open spec fn last_dot(n: Seq<char>) -> int
    decreases n.len(),
{
    if n.len() == 0 {
        -1
    } else if n.last() == '.' {
        n.len() - 1
    } else {
        last_dot(n.drop_last())
    }
}

/// The extension of a path: what follows the last `.` of its file name, when
/// that `.` is not the name's first character.
pub open spec fn extension(p: Seq<char>) -> Option<Seq<char>> {
    match file_name(p) {
        None => None,
        Some(n) => if last_dot(n) > 0 {
            Some(n.skip(last_dot(n) + 1))
        } else {
            None
        },
    }
}

proof fn lemma_last_dot(n: Seq<char>)
    ensures
        -1 <= last_dot(n) < n.len(),
        last_dot(n) >= 0 ==> n[last_dot(n)] == '.',
        forall|k: int| last_dot(n) < k < n.len() ==> n[k] != '.',
    decreases n.len(),
{
    if n.len() > 0 && n.last() != '.' {
        lemma_last_dot(n.drop_last());
        assert forall|k: int| last_dot(n) < k < n.len() implies n[k] != '.' by {
            if k < n.len() - 1 {
                assert(n.drop_last()[k] == n[k]);
            }
        }
    }
}

pub proof fn lemma_trim_slashes(p: Seq<char>)
    ensures
        trim_slashes(p) == p.take(trim_slashes(p).len() as int),
        trim_slashes(p).len() <= p.len(),
        trim_slashes(p).len() > 0 ==> trim_slashes(p).last() != '/',
        forall|k: int| trim_slashes(p).len() <= k < p.len() ==> p[k] == '/',
    decreases p.len(),
{
    if p.len() > 0 && p.last() == '/' {
        lemma_trim_slashes(p.drop_last());
        let t = trim_slashes(p.drop_last());
        assert(p.drop_last().take(t.len() as int) =~= p.take(t.len() as int));
        assert forall|k: int| trim_slashes(p).len() <= k < p.len() implies p[k] == '/' by {
            if k < p.len() - 1 {
                assert(p.drop_last()[k] == p[k]);
            }
        }
    } else {
        assert(p.take(p.len() as int) =~= p);
    }
}

proof fn lemma_after_last_slash(p: Seq<char>)
    ensures
        after_last_slash(p) == p.skip(p.len() - after_last_slash(p).len()),
        after_last_slash(p).len() <= p.len(),
        forall|k: int| p.len() - after_last_slash(p).len() <= k < p.len() ==> p[k] != '/',
        after_last_slash(p).len() < p.len() ==> p[p.len() - after_last_slash(p).len() - 1] == '/',
    decreases p.len(),
{
    if p.len() > 0 && p.last() != '/' {
        lemma_after_last_slash(p.drop_last());
        let a = after_last_slash(p.drop_last());
        assert forall|k: int| p.len() - after_last_slash(p).len() <= k < p.len() implies p[k]
            != '/' by {
            if k < p.len() - 1 {
                assert(p.drop_last()[k] == p[k]);
            }
        }
        if a.len() < p.len() - 1 {
            assert(p.drop_last()[p.len() - 1 - a.len() - 1] == p[p.len() - a.len() - 2]);
        }
        assert(p.drop_last().skip(p.len() - 1 - a.len()).push(p.last()) =~= p.skip(
            p.len() - 1 - a.len(),
        ));
    } else if p.len() > 0 {
        assert(p.skip(p.len() as int) =~= Seq::<char>::empty());
    } else {
        assert(p.skip(0) =~= p);
    }
}

/// The final component of `p`, when it has one.
pub fn file_name_of(p: &str) -> (r: Option<String>)
    ensures
        r matches Some(s) ==> file_name(p@) == Some(s@),
        r is None ==> file_name(p@) is None,
{
    let v = chars_of(p);
    let mut end: usize = v.len();
    assert(v@.take(v.len() as int) =~= v@);
    while end > 0 && v[end - 1] == '/'
        invariant
            end <= v.len(),
            trim_slashes(v@) == trim_slashes(v@.take(end as int)),
        decreases end,
    {
        assert(v@.take(end as int).drop_last() =~= v@.take(end - 1));
        end -= 1;
    }
    assert(v@.take(end as int) =~= trim_slashes(v@)) by {
        assert(v@.take(v.len() as int) =~= v@);
        if end > 0 {
            assert(v@.take(end as int).last() == v@[end - 1]);
        }
    }
    let mut start: usize = end;
    while start > 0 && v[start - 1] != '/'
        invariant
            start <= end <= v.len(),
            forall|k: int| start <= k < end ==> v@[k] != '/',
        decreases start,
    {
        start -= 1;
    }
    let ghost t = v@.take(end as int);
    let mut n: Vec<char> = Vec::new();
    let mut k: usize = start;
    while k < end
        invariant
            start <= k <= end <= v.len(),
            n@ == v@.subrange(start as int, k as int),
        decreases end - k,
    {
        n.push(v[k]);
        assert(v@.subrange(start as int, k + 1) =~= v@.subrange(start as int, k as int).push(
            v@[k as int],
        ));
        k += 1;
    }
    proof {
        lemma_after_last_slash(t);
        let a = after_last_slash(t);
        let s0 = t.len() - a.len();
        // Both `start` and `s0` are where the run of non-separators ending at
        // `end` begins.
        if s0 < start {
            assert(t[start - 1] == v@[start - 1]);
        }
        if start < s0 {
            assert(t[s0 - 1] == v@[s0 - 1]);
        }
        assert(n@ =~= a);
    }
    if n.len() == 0 || (n.len() == 1 && n[0] == '.') || (n.len() == 2 && n[0] == '.' && n[1]
        == '.') {
        proof {
            if n.len() == 1 {
                assert(n@ =~= seq!['.']);
            }
            if n.len() == 2 {
                assert(n@ =~= seq!['.', '.']);
            }
        }
        None
    } else {
        assert(n@ != seq!['.']);
        assert(n@ != seq!['.', '.']);
        Some(string_of(&n))
    }
}

/// The extension of `p`, when it has one.
pub fn extension_of(p: &str) -> (r: Option<String>)
    ensures
        r matches Some(s) ==> extension(p@) == Some(s@),
        r is None ==> extension(p@) is None,
{
    match file_name_of(p) {
        None => None,
        Some(name) => {
            let v = chars_of(name.as_str());
            let mut k: usize = v.len();
            assert(v@.take(v.len() as int) =~= v@);
            while k > 0 && v[k - 1] != '.'
                invariant
                    k <= v.len(),
                    last_dot(v@) == last_dot(v@.take(k as int)),
                decreases k,
            {
                assert(v@.take(k as int).drop_last() =~= v@.take(k - 1));
                k -= 1;
            }
            proof {
                assert(v@.take(v.len() as int) =~= v@);
                if k > 0 {
                    assert(v@.take(k as int).last() == v@[k - 1]);
                    assert(last_dot(v@) == k - 1);
                } else {
                    assert(last_dot(v@.take(0)) == -1);
                }
            }
            if k <= 1 {
                None
            } else {
                let mut e: Vec<char> = Vec::new();
                let mut i: usize = k;
                while i < v.len()
                    invariant
                        k <= i <= v.len(),
                        e@ == v@.subrange(k as int, i as int),
                    decreases v.len() - i,
                {
                    e.push(v[i]);
                    assert(v@.subrange(k as int, i + 1) =~= v@.subrange(k as int, i as int).push(
                        v@[i as int],
                    ));
                    i += 1;
                }
                assert(e@ =~= v@.skip(k as int));
                Some(string_of(&e))
            }
        },
    }
}

/// Index of the last separator in `t`, or -1.
pub open spec fn last_slash(t: Seq<char>) -> int
    decreases t.len(),
{
    if t.len() == 0 {
        -1
    } else if t.last() == '/' {
        t.len() - 1
    } else {
        last_slash(t.drop_last())
    }
}

proof fn lemma_last_slash(t: Seq<char>)
    ensures
        -1 <= last_slash(t) < t.len(),
        last_slash(t) >= 0 ==> t[last_slash(t)] == '/',
        forall|k: int| last_slash(t) < k < t.len() ==> t[k] != '/',
    decreases t.len(),
{
    if t.len() > 0 && t.last() != '/' {
        lemma_last_slash(t.drop_last());
        assert forall|k: int| last_slash(t) < k < t.len() implies t[k] != '/' by {
            if k < t.len() - 1 {
                assert(t.drop_last()[k] == t[k]);
            }
        }
    }
}

/// The directory holding `p`: `p` without its final component. A path of
/// one relative component has the empty path as parent; the root and the
/// empty path have none. Paths here are as a working directory holds them,
/// without `.` or `..` components.
pub open spec fn parent_dir(p: Seq<char>) -> Option<Seq<char>> {
    let t = trim_slashes(p);
    if t.len() == 0 {
        None
    } else if last_slash(t) < 0 {
        Some(seq![])
    } else {
        let head = trim_slashes(t.take(last_slash(t)));
        if head.len() == 0 {
            Some(seq!['/'])
        } else {
            Some(head)
        }
    }
}

/// `name` inside `dir`: an absolute `name` stands alone, otherwise a
/// separator goes between them unless `dir` is empty or already ends in one.
pub open spec fn joined(dir: Seq<char>, name: Seq<char>) -> Seq<char> {
    if name.len() > 0 && name[0] == '/' {
        name
    } else if dir.len() == 0 || dir.last() == '/' {
        dir + name
    } else {
        dir.push('/') + name
    }
}

/// How many leading characters of `v` are left once trailing separators go.
fn trimmed_end(v: &Vec<char>, from: usize) -> (end: usize)
    requires
        from <= v.len(),
    ensures
        end <= from,
        v@.take(end as int) == trim_slashes(v@.take(from as int)),
{
    let mut end: usize = from;
    while end > 0 && v[end - 1] == '/'
        invariant
            end <= from <= v.len(),
            trim_slashes(v@.take(from as int)) == trim_slashes(v@.take(end as int)),
        decreases end,
    {
        assert(v@.take(end as int).drop_last() =~= v@.take(end - 1));
        end -= 1;
    }
    if end > 0 {
        assert(v@.take(end as int).last() == v@[end - 1]);
    }
    end
}

/// `p` without trailing separators.
pub fn trim_trailing_slashes(p: &str) -> (r: String)
    ensures
        r@ == trim_slashes(p@),
{
    let v = chars_of(p);
    let end = trimmed_end(&v, v.len());
    assert(v@.take(v.len() as int) =~= v@);
    let mut out: Vec<char> = Vec::new();
    let mut i: usize = 0;
    while i < end
        invariant
            i <= end <= v.len(),
            out@ == v@.take(i as int),
        decreases end - i,
    {
        out.push(v[i]);
        assert(v@.take(i + 1) =~= v@.take(i as int).push(v@[i as int]));
        i += 1;
    }
    string_of(&out)
}

/// The directory holding `p`, when there is one.
pub fn parent_of(p: &str) -> (r: Option<String>)
    ensures
        r matches Some(s) ==> parent_dir(p@) == Some(s@),
        r is None ==> parent_dir(p@) is None,
{
    let v = chars_of(p);
    assert(v@.take(v.len() as int) =~= v@);
    let end = trimmed_end(&v, v.len());
    let ghost t = v@.take(end as int);
    if end == 0 {
        return None;
    }
    let mut k: usize = end;
    while k > 0 && v[k - 1] != '/'
        invariant
            k <= end <= v.len(),
            forall|i: int| k <= i < end ==> v@[i] != '/',
        decreases k,
    {
        k -= 1;
    }
    proof {
        lemma_last_slash(t);
        let ls = last_slash(t);
        if ls >= k as int {
            assert(t[ls] == v@[ls]);
        }
        if k > 0 && ls < k - 1 {
            assert(t[k - 1] == v@[k - 1]);
        }
        assert(ls == k - 1);
    }
    if k == 0 {
        return Some(String::new());
    }
    let head_end = trimmed_end(&v, k - 1);
    assert(t.take(k - 1) =~= v@.take(k - 1));
    if head_end == 0 {
        let mut root = String::new();
        push_char(&mut root, '/');
        assert(root@ =~= seq!['/']);
        return Some(root);
    }
    let mut out: Vec<char> = Vec::new();
    let mut i: usize = 0;
    while i < head_end
        invariant
            i <= head_end <= v.len(),
            out@ == v@.take(i as int),
        decreases head_end - i,
    {
        out.push(v[i]);
        assert(v@.take(i + 1) =~= v@.take(i as int).push(v@[i as int]));
        i += 1;
    }
    Some(string_of(&out))
}

/// `name` inside `dir`.
pub fn join_path(dir: &str, name: &str) -> (r: String)
    ensures
        r@ == joined(dir@, name@),
{
    let n = chars_of(name);
    if n.len() > 0 && n[0] == '/' {
        return String::from_str(name);
    }
    let d = chars_of(dir);
    let mut out = String::from_str(dir);
    if d.len() > 0 && d[d.len() - 1] != '/' {
        push_char(&mut out, '/');
    }
    push_str(&mut out, name);
    out
}

/// `root` without trailing separators.
pub open spec fn root_base(root: Seq<char>) -> Seq<char> {
    trim_slashes(root)
}

/// What is left of `path` below `root`: the path after the root's components
/// and the separators that follow them. A path not below `root` is returned
/// whole, and an empty root takes nothing off.
pub open spec fn relative(path: Seq<char>, root: Seq<char>) -> Seq<char> {
    let r = root_base(root);
    if r.len() == 0 {
        path
    } else if path == r {
        seq![]
    } else if path.len() > r.len() && path.take(r.len() as int) == r && path[r.len() as int]
        == '/' {
        path.skip(r.len() as int).skip(lead_slashes(path.skip(r.len() as int)) as int)
    } else {
        path
    }
}

/// Number of separators at the start of `s`.
pub open spec fn lead_slashes(s: Seq<char>) -> nat
    decreases s.len(),
{
    if s.len() > 0 && s[0] == '/' {
        1 + lead_slashes(s.drop_first())
    } else {
        0
    }
}

proof fn lemma_lead_slashes(s: Seq<char>, i: int)
    requires
        0 <= i <= s.len(),
        forall|k: int| 0 <= k < i ==> #[trigger] s[k] == '/',
        i == s.len() || s[i] != '/',
    ensures
        lead_slashes(s) == i,
    decreases i,
{
    if i > 0 {
        assert forall|k: int| 0 <= k < i - 1 implies #[trigger] s.drop_first()[k] == '/' by {
            assert(s.drop_first()[k] == s[k + 1]);
        }
        if i - 1 < s.len() - 1 {
            assert(s.drop_first()[i - 1] == s[i]);
        }
        lemma_lead_slashes(s.drop_first(), i - 1);
    }
}

/// `path` shown relative to `root`.
pub fn relative_to(path: &str, root: &str) -> (r: String)
    ensures
        r@ == relative(path@, root@),
{
    let p = chars_of(path);
    let rv = chars_of(root);
    let mut end: usize = rv.len();
    assert(rv@.take(rv.len() as int) =~= rv@);
    while end > 0 && rv[end - 1] == '/'
        invariant
            end <= rv.len(),
            trim_slashes(rv@) == trim_slashes(rv@.take(end as int)),
        decreases end,
    {
        assert(rv@.take(end as int).drop_last() =~= rv@.take(end - 1));
        end -= 1;
    }
    assert(rv@.take(end as int) =~= trim_slashes(rv@)) by {
        assert(rv@.take(rv.len() as int) =~= rv@);
        if end > 0 {
            assert(rv@.take(end as int).last() == rv@[end - 1]);
        }
    }
    let ghost base = rv@.take(end as int);
    if end == 0 {
        return string_of(&p);
    }
    if p.len() < end {
        assert(p@ != base);
        return string_of(&p);
    }
    let mut i: usize = 0;
    while i < end && p[i] == rv[i]
        invariant
            i <= end <= rv.len(),
            end <= p.len(),
            base == rv@.take(end as int),
            p@.take(i as int) == base.take(i as int),
        decreases end - i,
    {
        assert(p@.take(i + 1) =~= p@.take(i as int).push(p@[i as int]));
        assert(base.take(i + 1) =~= base.take(i as int).push(base[i as int]));
        i += 1;
    }
    if i < end {
        assert(p@.take(end as int)[i as int] != base[i as int]);
        assert(p@ != base);
        return string_of(&p);
    }
    assert(p@.take(end as int) =~= base);
    if p.len() == end {
        assert(p@ =~= base);
        return String::new();
    }
    if p[end] != '/' {
        assert(p@ != base);
        return string_of(&p);
    }
    let mut j: usize = end;
    while j < p.len() && p[j] == '/'
        invariant
            end <= j <= p.len(),
            forall|k: int| end <= k < j ==> p@[k] == '/',
        decreases p.len() - j,
    {
        j += 1;
    }
    proof {
        let tail = p@.skip(end as int);
        assert forall|k: int| 0 <= k < j - end implies #[trigger] tail[k] == '/' by {
            assert(tail[k] == p@[k + end]);
        }
        if j < p.len() {
            assert(tail[j - end] == p@[j as int]);
        }
        lemma_lead_slashes(tail, j - end);
        assert(p@ != base);
    }
    let mut out: Vec<char> = Vec::new();
    let mut k: usize = j;
    while k < p.len()
        invariant
            j <= k <= p.len(),
            out@ == p@.subrange(j as int, k as int),
        decreases p.len() - k,
    {
        out.push(p[k]);
        assert(p@.subrange(j as int, k + 1) =~= p@.subrange(j as int, k as int).push(p@[k as int]));
        k += 1;
    }
    assert(out@ =~= p@.skip(end as int).skip(j - end));
    string_of(&out)
}

/// Whether two texts are the same.
pub fn same_text(a: &str, b: &str) -> (r: bool)
    ensures
        r == (a@ == b@),
{
    let av = chars_of(a);
    let bv = chars_of(b);
    if av.len() != bv.len() {
        return false;
    }
    let mut i: usize = 0;
    while i < av.len()
        invariant
            av@ == a@,
            bv@ == b@,
            av.len() == bv.len(),
            i <= av.len(),
            forall|k: int| 0 <= k < i ==> av@[k] == bv@[k],
        decreases av.len() - i,
    {
        if av[i] != bv[i] {
            return false;
        }
        i += 1;
    }
    assert(av@ =~= bv@);
    true
}

/// The name a download takes when `stem` with extension `ext` is already
/// taken: `stem (i).ext`, or `stem (i)` without an extension.
pub open spec fn numbered_text(stem: Seq<char>, ext: Option<Seq<char>>, i: nat) -> Seq<char> {
    stem + " ("@ + decimal(i) + ")"@ + match ext {
        Some(e) => "."@ + e,
        None => seq![],
    }
}

pub fn numbered_name(stem: &str, ext: Option<&str>, i: u64) -> (r: String)
    ensures
        r@ == numbered_text(
            stem@,
            match ext {
                Some(e) => Some(e@),
                None => None,
            },
            i as nat,
        ),
{
    let mut out = String::from_str(stem);
    push_str(&mut out, " (");
    push_decimal(&mut out, i);
    push_str(&mut out, ")");
    match ext {
        Some(e) => {
            push_str(&mut out, ".");
            push_str(&mut out, e);
        },
        None => {},
    }
    out
}

/// The file name of `p` without its extension, when it has a file name.
pub open spec fn stem(p: Seq<char>) -> Option<Seq<char>> {
    match file_name(p) {
        None => None,
        Some(n) => if last_dot(n) > 0 {
            Some(n.take(last_dot(n)))
        } else {
            Some(n)
        },
    }
}

/// The stem of `p`, when it has a file name.
pub fn stem_of(p: &str) -> (r: Option<String>)
    ensures
        r matches Some(s) ==> stem(p@) == Some(s@),
        r is None ==> stem(p@) is None,
{
    match file_name_of(p) {
        None => None,
        Some(name) => {
            let v = chars_of(name.as_str());
            let mut k: usize = v.len();
            assert(v@.take(v.len() as int) =~= v@);
            while k > 0 && v[k - 1] != '.'
                invariant
                    k <= v.len(),
                    last_dot(v@) == last_dot(v@.take(k as int)),
                decreases k,
            {
                assert(v@.take(k as int).drop_last() =~= v@.take(k - 1));
                k -= 1;
            }
            proof {
                if k > 0 {
                    assert(v@.take(k as int).last() == v@[k - 1]);
                    assert(last_dot(v@) == k - 1);
                } else {
                    assert(last_dot(v@.take(0)) == -1);
                }
            }
            if k <= 1 {
                Some(name)
            } else {
                let mut out: Vec<char> = Vec::new();
                let mut i: usize = 0;
                while i < k - 1
                    invariant
                        i <= k - 1 < v.len(),
                        out@ == v@.take(i as int),
                    decreases k - 1 - i,
                {
                    out.push(v[i]);
                    assert(v@.take(i + 1) =~= v@.take(i as int).push(v@[i as int]));
                    i += 1;
                }
                Some(string_of(&out))
            }
        },
    }
}

/// The `i`th name tried beside `path` when something is already there:
/// `stem (i).ext` in the same directory, with `download` for a path without
/// a file name.
pub open spec fn download_candidate(path: Seq<char>, i: nat) -> Seq<char> {
    let dir = match parent_dir(path) {
        Some(d) => d,
        None => seq![],
    };
    let base = match stem(path) {
        Some(s) => s,
        None => "download"@,
    };
    joined(dir, numbered_text(base, extension(path), i))
}

/// The `i`th name tried beside `path`.
pub fn download_name(path: &str, i: u64) -> (r: String)
    ensures
        r@ == download_candidate(path@, i as nat),
{
    let dir = match parent_of(path) {
        Some(d) => d,
        None => String::new(),
    };
    let base = match stem_of(path) {
        Some(s) => s,
        None => String::from_str("download"),
    };
    let ext = extension_of(path);
    let ext_ref: Option<&str> = match &ext {
        Some(e) => Some(e.as_str()),
        None => None,
    };
    let name = numbered_name(base.as_str(), ext_ref, i);
    join_path(dir.as_str(), name.as_str())
}

/// `std::path::Path::exists` from std: whether anything is at `path` at
/// the moment of the call. What is on disk is not stated.
#[verifier::external_body]
fn path_exists(path: &str) -> bool {
    std::path::Path::new(path).exists()
}

/// The name tried at step `i` of the search for a free download name:
/// `path` itself first, then `download_candidate(path, i)`.
pub open spec fn tried_name(path: Seq<char>, i: nat) -> Seq<char> {
    if i == 0 {
        path
    } else {
        download_candidate(path, i)
    }
}

/// The name tried at step `i`.
pub fn tried_name_at(path: &str, i: u64) -> (r: String)
    ensures
        r@ == tried_name(path@, i as nat),
{
    if i == 0 {
        String::from_str(path)
    } else {
        download_name(path, i)
    }
}

/// One step of the search for a free download name, given whether the name
/// tried at step `i` is `taken`: that name when it is free, else nothing and
/// the search goes on.
pub fn download_step(path: &str, i: u64, taken: bool) -> (r: Option<String>)
    ensures
        taken ==> r is None,
        !taken ==> (r matches Some(n) && n@ == tried_name(path@, i as nat)),
{
    if taken {
        None
    } else {
        Some(tried_name_at(path, i))
    }
}

/// Where a download to `path` is saved: the first of `path`, `stem (1).ext`,
/// `stem (2).ext`, ... that is free when it is looked at.
pub fn unique_download_path(path: &str) -> (r: String)
    ensures
        exists|i: nat| r@ == #[trigger] tried_name(path@, i),
{
    let mut i: u64 = 0;
    loop
        decreases u64::MAX - i,
    {
        let tried = tried_name_at(path, i);
        match download_step(path, i, path_exists(tried.as_str())) {
            Some(name) => {
                return name;
            },
            None => {
                if i == u64::MAX {
                    return tried;
                }
            },
        }
        i += 1;
    }
}

} // verus!
