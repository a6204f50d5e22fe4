//! Release checks: reading version tags, deciding whether a release is newer,
//! throttling the daily check, and picking the release asset for this build.

use vstd::prelude::*;

use crate::paths::same_text;
use crate::text::{chars_of, parse_u64, parsed_u64, push_str, string_of, trim_chars, trimmed};

verus! {

/// Seconds between two automatic update checks: one day.
pub const CHECK_INTERVAL_SECS: u64 = 86400;

/// `s` without its leading `v`s.
pub open spec fn strip_vs(s: Seq<char>) -> Seq<char>
    decreases s.len(),
{
    if s.len() > 0 && s[0] == 'v' {
        strip_vs(s.drop_first())
    } else {
        s
    }
}

/// `s` up to its first `-` or `+`: the version without any pre-release or
/// build suffix.
pub open spec fn before_suffix(s: Seq<char>) -> Seq<char>
    decreases s.len(),
{
    if s.len() == 0 {
        s
    } else if s[0] == '-' || s[0] == '+' {
        seq![]
    } else {
        seq![s[0]] + before_suffix(s.drop_first())
    }
}

/// `s` up to its first `.`.
pub open spec fn first_field(s: Seq<char>) -> Seq<char>
    decreases s.len(),
{
    if s.len() == 0 {
        s
    } else if s[0] == '.' {
        seq![]
    } else {
        seq![s[0]] + first_field(s.drop_first())
    }
}

/// What follows the first `.` of `s`, if it has one.
pub open spec fn after_dot(s: Seq<char>) -> Option<Seq<char>>
    decreases s.len(),
{
    if s.len() == 0 {
        None
    } else if s[0] == '.' {
        Some(s.drop_first())
    } else {
        after_dot(s.drop_first())
    }
}

/// The `k`-th field of `s` split at `.`, as `str::split('.')` yields them.
pub open spec fn field(s: Seq<char>, k: nat) -> Option<Seq<char>>
    decreases s.len(), k,
{
    if k == 0 {
        Some(first_field(s))
    } else {
        match after_dot(s) {
            Some(r) => {
                proof {
                    lemma_after_dot_shorter(s);
                }
                field(r, (k - 1) as nat)
            },
            None => None,
        }
    }
}

pub proof fn lemma_after_dot_shorter(s: Seq<char>)
    ensures
        after_dot(s) matches Some(r) ==> r.len() < s.len(),
    decreases s.len(),
{
    if s.len() > 0 && s[0] != '.' {
        lemma_after_dot_shorter(s.drop_first());
    }
}

/// A version field's number: what parses, else 0.
pub open spec fn part(s: Seq<char>, k: nat) -> u64 {
    match field(s, k) {
        Some(f) => match parsed_u64(f) {
            Some(v) => v,
            None => 0,
        },
        None => 0,
    }
}

/// The `major.minor.patch` of a tag, ignoring surrounding whitespace, a `v`
/// prefix and any `-pre`/`+build` suffix; anything unparseable counts as 0.
pub open spec fn version_of(v: Seq<char>) -> (u64, u64, u64) {
    let core = before_suffix(strip_vs(trimmed(v)));
    (part(core, 0), part(core, 1), part(core, 2))
}

/// Lexicographic order on `(major, minor, patch)`.
pub open spec fn version_gt(a: (u64, u64, u64), b: (u64, u64, u64)) -> bool {
    a.0 > b.0 || (a.0 == b.0 && (a.1 > b.1 || (a.1 == b.1 && a.2 > b.2)))
}

fn skip_vs(s: &Vec<char>) -> (r: Vec<char>)
    ensures
        r@ == strip_vs(s@),
{
    let mut i: usize = 0;
    assert(s@.skip(0) =~= s@);
    while i < s.len() && s[i] == 'v'
        invariant
            i <= s.len(),
            strip_vs(s@) == strip_vs(s@.skip(i as int)),
        decreases s.len() - i,
    {
        assert(s@.skip(i as int)[0] == 'v');
        assert(s@.skip(i as int).drop_first() =~= s@.skip(i + 1));
        i += 1;
    }
    let mut r: Vec<char> = Vec::new();
    let mut k: usize = i;
    while k < s.len()
        invariant
            i <= k <= s.len(),
            r@ == s@.subrange(i as int, k as int),
        decreases s.len() - k,
    {
        r.push(s[k]);
        assert(s@.subrange(i as int, k + 1) =~= s@.subrange(i as int, k as int).push(s@[k as int]));
        k += 1;
    }
    proof {
        if i < s.len() {
            assert(s@.skip(i as int)[0] == s@[i as int]);
        }
        assert(r@ =~= s@.skip(i as int));
    }
    r
}

fn cut_suffix(s: &Vec<char>) -> (r: Vec<char>)
    ensures
        r@ == before_suffix(s@),
{
    let mut r: Vec<char> = Vec::new();
    let mut i: usize = 0;
    assert(s@.skip(0) =~= s@);
    while i < s.len() && s[i] != '-' && s[i] != '+'
        invariant
            i <= s.len(),
            r@ == s@.take(i as int),
            before_suffix(s@) == r@ + before_suffix(s@.skip(i as int)),
        decreases s.len() - i,
    {
        proof {
            assert(s@.skip(i as int)[0] == s@[i as int]);
            assert(s@.skip(i as int).drop_first() =~= s@.skip(i + 1));
            assert(r@.push(s@[i as int]) + before_suffix(s@.skip(i + 1)) =~= r@ + (seq![
                s@[i as int],
            ] + before_suffix(s@.skip(i + 1))));
        }
        r.push(s[i]);
        assert(s@.take(i + 1) =~= s@.take(i as int).push(s@[i as int]));
        i += 1;
    }
    proof {
        if i < s.len() {
            assert(s@.skip(i as int)[0] == s@[i as int]);
        }
        assert(r@ + before_suffix(s@.skip(i as int)) =~= r@);
    }
    r
}

/// The field of `s` that starts at `from`, and where the next one starts.
fn split_field(s: &Vec<char>, from: usize) -> (r: (Vec<char>, Option<usize>))
    requires
        from <= s.len(),
    ensures
        r.0@ == first_field(s@.skip(from as int)),
        r.1 matches Some(j) ==> j <= s.len() && after_dot(s@.skip(from as int)) == Some(
            s@.skip(j as int),
        ),
        r.1 is None ==> after_dot(s@.skip(from as int)) is None,
{
    let mut f: Vec<char> = Vec::new();
    let mut i: usize = from;
    while i < s.len() && s[i] != '.'
        invariant
            from <= i <= s.len(),
            f@ == s@.subrange(from as int, i as int),
            first_field(s@.skip(from as int)) == f@ + first_field(s@.skip(i as int)),
            after_dot(s@.skip(from as int)) == after_dot(s@.skip(i as int)),
        decreases s.len() - i,
    {
        proof {
            assert(s@.skip(i as int)[0] == s@[i as int]);
            assert(s@.skip(i as int).drop_first() =~= s@.skip(i + 1));
            assert(f@.push(s@[i as int]) + first_field(s@.skip(i + 1)) =~= f@ + (seq![
                s@[i as int],
            ] + first_field(s@.skip(i + 1))));
        }
        f.push(s[i]);
        assert(s@.subrange(from as int, i + 1) =~= s@.subrange(from as int, i as int).push(
            s@[i as int],
        ));
        i += 1;
    }
    proof {
        if i < s.len() {
            assert(s@.skip(i as int)[0] == s@[i as int]);
            assert(s@.skip(i as int).drop_first() =~= s@.skip(i + 1));
        }
        assert(f@ + first_field(s@.skip(i as int)) =~= f@);
    }
    if i < s.len() {
        (f, Some(i + 1))
    } else {
        (f, None)
    }
}

fn part_value(field: &Vec<char>) -> (r: u64)
    ensures
        r == (match parsed_u64(field@) {
            Some(v) => v,
            None => 0,
        }),
{
    match parse_u64(field) {
        Some(v) => v,
        None => 0,
    }
}

/// Compare `major.minor.patch`, ignoring any `-pre`/`+build` suffix. Anything
/// unparseable counts as 0, so a malformed tag never triggers an update.
pub fn version_parts(v: &str) -> (r: (u64, u64, u64))
    ensures
        r == version_of(v@),
{
    let chars = chars_of(v);
    let t = trim_chars(&chars);
    let s = skip_vs(&t);
    let core = cut_suffix(&s);
    let ghost c = core@;
    assert(core@.skip(0) =~= core@);
    let (f0, n0) = split_field(&core, 0);
    let a = part_value(&f0);
    let mut b: u64 = 0;
    let mut d: u64 = 0;
    match n0 {
        Some(j) => {
            let (f1, n1) = split_field(&core, j);
            b = part_value(&f1);
            proof {
                assert(field(c, 1) == field(c.skip(j as int), 0));
            }
            match n1 {
                Some(j2) => {
                    let (f2, _n2) = split_field(&core, j2);
                    d = part_value(&f2);
                    proof {
                        assert(field(c.skip(j as int), 1) == field(c.skip(j2 as int), 0));
                        assert(field(c, 2) == field(c.skip(j as int), 1));
                    }
                },
                None => {
                    proof {
                        assert(field(c.skip(j as int), 1) is None);
                        assert(field(c, 2) == field(c.skip(j as int), 1));
                    }
                },
            }
        },
        None => {
            assert(field(c, 1) is None);
            assert(field(c, 2) is None);
        },
    }
    (a, b, d)
}

/// Whether `remote` names a newer release than `local`.
pub fn is_newer(remote: &str, local: &str) -> (r: bool)
    ensures
        r == version_gt(version_of(remote@), version_of(local@)),
{
    let a = version_parts(remote);
    let b = version_parts(local);
    a.0 > b.0 || (a.0 == b.0 && (a.1 > b.1 || (a.1 == b.1 && a.2 > b.2)))
}

/// The daily update check is due: never checked, an unreadable stamp, or at
/// least a day since the stamp.
pub open spec fn due(stamp: Option<Seq<char>>, now: u64) -> bool {
    match stamp {
        None => true,
        Some(text) => match parsed_u64(trimmed(text)) {
            None => true,
            Some(last) => (if now >= last { now - last } else { 0 }) >= CHECK_INTERVAL_SECS,
        },
    }
}

/// Whether an automatic check is due, given the stamp file's contents (`None`
/// when it could not be read) and the current time in seconds.
pub fn check_due_at(stamp: Option<&str>, now: u64) -> (r: bool)
    ensures
        r == due(
            match stamp {
                Some(s) => Some(s@),
                None => None,
            },
            now,
        ),
{
    match stamp {
        None => true,
        Some(text) => {
            let chars = chars_of(text);
            let t = trim_chars(&chars);
            match parse_u64(&t) {
                None => true,
                Some(last) => now.saturating_sub(last) >= CHECK_INTERVAL_SECS,
            }
        },
    }
}

/// Whether some asset is named `want`.
pub open spec fn has_asset(assets: Seq<(String, String)>, want: Seq<char>) -> bool {
    exists|i: int| 0 <= i < assets.len() && (#[trigger] assets[i]).0@ == want
}

/// What a release offers this build: its tag without the leading `v`s and
/// the link of the first asset named `want`, or, when no asset has that
/// name, the error that says so.
pub fn release_choice(tag: &str, assets: &Vec<(String, String)>, want: &str) -> (r: Result<(String, String), String>)
    ensures
        r is Ok <==> has_asset(assets@, want@),
        match r {
            Ok((version, url)) => version@ == strip_vs(tag@) && exists|i: int|
                0 <= i < assets@.len() && (#[trigger] assets@[i]).0@ == want@ && url == assets@[i].1
                    && forall|j: int| 0 <= j < i ==> (#[trigger] assets@[j]).0@ != want@,
            Err(m) => m@ == "release "@ + tag@ + " has no `"@ + want@ + "` asset"@,
        },
{
    let mut i: usize = 0;
    while i < assets.len()
        invariant
            i <= assets.len(),
            forall|j: int| 0 <= j < i ==> (#[trigger] assets@[j]).0@ != want@,
        decreases assets.len() - i,
    {
        if same_text(assets[i].0.as_str(), want) {
            let version = string_of(&skip_vs(&chars_of(tag)));
            return Ok((version, assets[i].1.clone()));
        }
        i += 1;
    }
    let mut m = String::from_str("release ");
    push_str(&mut m, tag);
    push_str(&mut m, " has no `");
    push_str(&mut m, want);
    push_str(&mut m, "` asset");
    Err(m)
}

/// Version order is a strict order: no tag is newer than itself, newer is
/// transitive, and of two tags at most one is newer than the other.
pub proof fn lemma_newer_is_strict(a: Seq<char>, b: Seq<char>, c: Seq<char>)
    ensures
        !version_gt(version_of(a), version_of(a)),
        version_gt(version_of(a), version_of(b)) && version_gt(version_of(b), version_of(c))
            ==> version_gt(version_of(a), version_of(c)),
        !(version_gt(version_of(a), version_of(b)) && version_gt(version_of(b), version_of(a))),
{
}

/// A tag in which nothing parses counts as `0.0.0`, so it is never newer than
/// any local version.
pub proof fn lemma_unparseable_never_newer(remote: Seq<char>, local: Seq<char>)
    requires
        version_of(remote) == (0u64, 0u64, 0u64),
    ensures
        !version_gt(version_of(remote), version_of(local)),
{
}

} // verus!
