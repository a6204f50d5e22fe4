//! Minimal glob matching for file names: `*` spans any run of characters, `?`
//! spans exactly one.

use vstd::prelude::*;

verus! {

/// Whether pattern character `p` accepts name character `c` on its own.
pub open spec fn char_accepts(p: char, c: char) -> bool {
    p == '?' || p == c
}

/// The glob language: `*` matches any run of characters (including none), `?`
/// exactly one character, any other character itself.
pub open spec fn glob(p: Seq<char>, n: Seq<char>) -> bool
    decreases p.len() + n.len(),
{
    if p.len() == 0 {
        n.len() == 0
    } else if p[0] == '*' {
        glob(p.drop_first(), n) || (n.len() > 0 && glob(p, n.drop_first()))
    } else {
        n.len() > 0 && char_accepts(p[0], n[0]) && glob(p.drop_first(), n.drop_first())
    }
}

/// Suffix matching: the pattern from `i` against the name from `k`.
pub open spec fn m(p: Seq<char>, n: Seq<char>, i: int, k: int) -> bool {
    glob(p.skip(i), n.skip(k))
}

/// Some suffix of the name starting at `r` or later matches the pattern after
/// position `s`.
pub open spec fn reach(p: Seq<char>, n: Seq<char>, s: int, r: int) -> bool {
    exists|k: int| r <= k <= n.len() && #[trigger] m(p, n, s + 1, k)
}

proof fn lemma_unfold(p: Seq<char>, n: Seq<char>, i: int, k: int)
    requires
        0 <= i < p.len(),
        0 <= k <= n.len(),
    ensures
        p[i] == '*' ==> (m(p, n, i, k) == (m(p, n, i + 1, k) || (k < n.len() && m(p, n, i, k + 1)))),
        p[i] != '*' ==> (m(p, n, i, k) == (k < n.len() && char_accepts(p[i], n[k]) && m(
            p,
            n,
            i + 1,
            k + 1,
        ))),
{
    assert(p.skip(i).drop_first() =~= p.skip(i + 1));
    if k < n.len() {
        assert(n.skip(k).drop_first() =~= n.skip(k + 1));
    }
}

proof fn lemma_end(p: Seq<char>, n: Seq<char>, k: int)
    requires
        0 <= k <= n.len(),
    ensures
        m(p, n, p.len() as int, k) == (k == n.len()),
{
}

/// A star at `i` matches from `k` exactly when the rest of the pattern matches
/// from some later point.
proof fn lemma_star(p: Seq<char>, n: Seq<char>, i: int, k: int)
    requires
        0 <= i < p.len(),
        p[i] == '*',
        0 <= k <= n.len(),
    ensures
        m(p, n, i, k) == (exists|k2: int| k <= k2 <= n.len() && #[trigger] m(p, n, i + 1, k2)),
    decreases n.len() - k,
{
    lemma_unfold(p, n, i, k);
    if k < n.len() {
        lemma_star(p, n, i, k + 1);
        if m(p, n, i, k) {
            if !m(p, n, i + 1, k) {
                let w = choose|k2: int| k + 1 <= k2 <= n.len() && #[trigger] m(p, n, i + 1, k2);
                assert(k <= w <= n.len() && m(p, n, i + 1, w));
            }
        }
        if exists|k2: int| k <= k2 <= n.len() && #[trigger] m(p, n, i + 1, k2) {
            let w = choose|k2: int| k <= k2 <= n.len() && #[trigger] m(p, n, i + 1, k2);
            if w > k {
                assert(k + 1 <= w <= n.len() && m(p, n, i + 1, w));
            }
        }
    } else {
        if exists|k2: int| k <= k2 <= n.len() && #[trigger] m(p, n, i + 1, k2) {
            let w = choose|k2: int| k <= k2 <= n.len() && #[trigger] m(p, n, i + 1, k2);
            assert(w == k);
        }
    }
}

/// Pattern characters `i .. i + len` hold no star and accept name characters
/// `k .. k + len` one for one.
pub open spec fn plain_run(p: Seq<char>, n: Seq<char>, i: int, k: int, len: int) -> bool {
    &&& 0 <= i && i + len <= p.len()
    &&& 0 <= k && k + len <= n.len()
    &&& forall|t: int| i <= t < i + len ==> #[trigger] p[t] != '*' && char_accepts(p[t], n[t - i + k])
}

/// Through a star-free run the match can only proceed character by character.
proof fn lemma_plain(p: Seq<char>, n: Seq<char>, i: int, k: int, len: int)
    requires
        0 <= len,
        0 <= i && i + len <= p.len(),
        0 <= k <= n.len(),
        forall|t: int| i <= t < i + len ==> #[trigger] p[t] != '*',
    ensures
        m(p, n, i, k) == (plain_run(p, n, i, k, len) && m(p, n, i + len, k + len)),
    decreases len,
{
    if len > 0 {
        lemma_unfold(p, n, i, k);
        if k < n.len() {
            lemma_plain(p, n, i + 1, k + 1, len - 1);
            if plain_run(p, n, i + 1, k + 1, len - 1) && char_accepts(p[i], n[k]) {
                assert forall|t: int| i <= t < i + len implies #[trigger] p[t] != '*'
                    && char_accepts(p[t], n[t - i + k]) by {
                    if t > i {
                        assert(t - (i + 1) + (k + 1) == t - i + k);
                    }
                }
            }
            if plain_run(p, n, i, k, len) {
                assert(p[i] != '*' && char_accepts(p[i], n[i - i + k]));
                assert forall|t: int| i + 1 <= t < (i + 1) + (len - 1) implies #[trigger] p[t]
                    != '*' && char_accepts(p[t], n[t - (i + 1) + (k + 1)]) by {
                    assert(t - (i + 1) + (k + 1) == t - i + k);
                }
            }
        } else {
            assert(!plain_run(p, n, i, k, len));
        }
    }
}

/// Nothing but stars matches the empty remainder.
proof fn lemma_stars(p: Seq<char>, n: Seq<char>, i: int)
    requires
        0 <= i <= p.len(),
    ensures
        m(p, n, i, n.len() as int) == (forall|t: int| i <= t < p.len() ==> p[t] == '*'),
    decreases p.len() - i,
{
    if i < p.len() {
        lemma_unfold(p, n, i, n.len() as int);
        lemma_stars(p, n, i + 1);
        if !(forall|t: int| i <= t < p.len() ==> p[t] == '*') {
            let t = choose|t: int| i <= t < p.len() && p[t] != '*';
            if t > i {
                assert(!(forall|t2: int| i + 1 <= t2 < p.len() ==> p[t2] == '*'));
            }
        }
    } else {
        lemma_end(p, n, n.len() as int);
    }
}

/// The matcher's scan, step by step: characters are compared left to right;
/// a `*` is recorded and first tried against nothing; a `?` or an equal
/// character advances both sides; on a mismatch the most recent `*` swallows
/// one more name character and the scan resumes after it. When the name is used up
/// only stars may remain in the pattern.
pub open spec fn scan(
    p: Seq<char>,
    n: Seq<char>,
    pi: int,
    ni: int,
    star: Option<int>,
    resume: int,
) -> bool
    decreases n.len() - resume, (n.len() - ni) + (p.len() - pi),
    when 0 <= pi <= p.len() && 0 <= resume <= ni <= n.len() && (star matches Some(s) ==> 0 <= s
        < pi)
{
    if ni < n.len() {
        if pi < p.len() && p[pi] == '*' {
            scan(p, n, pi + 1, ni, Some(pi), ni)
        } else if pi < p.len() && char_accepts(p[pi], n[ni]) {
            scan(p, n, pi + 1, ni + 1, star, resume)
        } else if let Some(s) = star {
            scan(p, n, s + 1, resume + 1, star, resume + 1)
        } else {
            false
        }
    } else {
        forall|t: int| pi <= t < p.len() ==> p[t] == '*'
    }
}

/// Minimal glob: `*` spans any run of characters, `?` spans exactly one.
/// Iterative backtracking, so it cannot blow the stack on a hostile pattern.
pub fn glob_matches_chars(p: &Vec<char>, n: &Vec<char>) -> (r: bool)
    ensures
        r == scan(p@, n@, 0, 0, None, 0),
        r == glob(p@, n@),
{
    let ghost pp = p@;
    let ghost nn = n@;
    let mut pi: usize = 0;
    let mut ni: usize = 0;
    let mut star: Option<usize> = None;
    let mut resume: usize = 0;
    assert(pp.skip(0) =~= pp);
    assert(nn.skip(0) =~= nn);
    while ni < n.len()
        invariant
            pp == p@,
            nn == n@,
            pi <= p.len(),
            ni <= n.len(),
            resume <= ni,
            star matches Some(s) ==> s < pi,
            scan(pp, nn, pi as int, ni as int, match star {
                Some(s) => Some(s as int),
                None => None,
            }, resume as int) == scan(pp, nn, 0, 0, None, 0),
            star is None ==> glob(pp, nn) == m(pp, nn, pi as int, ni as int),
            star is Some ==> ({
                let s = star->0 as int;
                &&& pp[s] == '*'
                &&& glob(pp, nn) == reach(pp, nn, s, resume as int)
                &&& pi - (s + 1) == ni - resume
                &&& plain_run(pp, nn, s + 1, resume as int, pi - (s + 1))
            }),
        decreases n.len() - resume, (n.len() - ni) + (p.len() - pi),
    {
        if pi < p.len() && p[pi] == '*' {
            proof {
                lemma_star(pp, nn, pi as int, ni as int);
                if let Some(s) = star {
                    let len = pi - (s + 1);
                    let r = resume as int;
                    assert forall|t: int| s + 1 <= t < (s + 1) + len implies #[trigger] pp[t]
                        != '*' by {
                        assert(plain_run(pp, nn, s + 1, r, len));
                    }
                    // Old reach implies the new one.
                    if reach(pp, nn, s as int, r) {
                        let k = choose|k: int|
                            r <= k <= nn.len() && #[trigger] m(pp, nn, s + 1, k);
                        lemma_plain(pp, nn, s + 1, k, len);
                        lemma_star(pp, nn, pi as int, k + len);
                        let k2 = choose|k2: int|
                            k + len <= k2 <= nn.len() && #[trigger] m(pp, nn, pi + 1, k2);
                        assert(ni <= k2 <= nn.len() && m(pp, nn, pi + 1, k2));
                    }
                    // And the new reach implies the old one, through `resume`.
                    if reach(pp, nn, pi as int, ni as int) {
                        let k2 = choose|k2: int|
                            ni <= k2 <= nn.len() && #[trigger] m(pp, nn, pi + 1, k2);
                        lemma_star(pp, nn, pi as int, ni as int);
                        lemma_plain(pp, nn, s + 1, r, len);
                        assert(m(pp, nn, s + 1, r));
                    }
                }
            }
            star = Some(pi);
            resume = ni;
            pi += 1;
            proof {
                assert(plain_run(pp, nn, pi as int, resume as int, 0));
            }
        } else if pi < p.len() && (p[pi] == '?' || p[pi] == n[ni]) {
            proof {
                lemma_unfold(pp, nn, pi as int, ni as int);
                if let Some(s) = star {
                    let len = pi - (s + 1);
                    assert(plain_run(pp, nn, s + 1, resume as int, len));
                    assert forall|t: int|
                        s + 1 <= t < (s + 1) + (len + 1) implies #[trigger] pp[t] != '*'
                        && char_accepts(pp[t], nn[t - (s + 1) + resume]) by {
                        if t == pi {
                            assert(t - (s + 1) + resume == ni);
                        }
                    }
                }
            }
            pi += 1;
            ni += 1;
        } else if let Some(s) = star {
            proof {
                let len = pi - (s + 1);
                let r = resume as int;
                assert forall|t: int| s + 1 <= t < (s + 1) + len implies #[trigger] pp[t]
                    != '*' by {
                    assert(plain_run(pp, nn, s + 1, r, len));
                }
                lemma_plain(pp, nn, s + 1, r, len);
                if pi < p.len() {
                    lemma_unfold(pp, nn, pi as int, ni as int);
                } else {
                    lemma_end(pp, nn, ni as int);
                }
                assert(!m(pp, nn, s + 1, r));
                if reach(pp, nn, s as int, r) {
                    let k = choose|k: int| r <= k <= nn.len() && #[trigger] m(pp, nn, s + 1, k);
                    assert(k != r);
                    assert(r + 1 <= k <= nn.len() && m(pp, nn, s + 1, k));
                }
            }
            pi = s + 1;
            resume += 1;
            ni = resume;
            proof {
                assert(plain_run(pp, nn, pi as int, resume as int, 0));
            }
        } else {
            proof {
                if pi < p.len() {
                    lemma_unfold(pp, nn, pi as int, ni as int);
                } else {
                    lemma_end(pp, nn, ni as int);
                }
            }
            return false;
        }
    }
    // The name is used up: reduce every case to "only stars are left".
    proof {
        if let Some(s) = star {
            let len = pi - (s + 1);
            let r = resume as int;
            assert forall|t: int| s + 1 <= t < (s + 1) + len implies #[trigger] pp[t] != '*' by {
                assert(plain_run(pp, nn, s + 1, r, len));
            }
            if reach(pp, nn, s as int, r) {
                let k = choose|k: int| r <= k <= nn.len() && #[trigger] m(pp, nn, s + 1, k);
                lemma_plain(pp, nn, s + 1, k, len);
                assert(k == r);
            }
            lemma_plain(pp, nn, s + 1, r, len);
            assert(glob(pp, nn) == m(pp, nn, pi as int, ni as int));
        }
    }
    let ghost pi0 = pi;
    while pi < p.len() && p[pi] == '*'
        invariant
            pp == p@,
            pi0 <= pi <= p.len(),
            forall|t: int| pi0 <= t < pi ==> pp[t] == '*',
        decreases p.len() - pi,
    {
        pi += 1;
    }
    proof {
        lemma_stars(pp, nn, pi0 as int);
        if pi < p.len() {
            assert(!(forall|t: int| pi0 <= t < pp.len() ==> pp[t] == '*'));
        }
    }
    pi == p.len()
}

} // verus!
