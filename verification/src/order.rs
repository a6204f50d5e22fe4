//! The order every result list is kept in: name hits before content hits,
//! newest file first, then path and line so hits inside one file read top to
//! bottom.
//!
//! Modification times are nanoseconds since the Unix epoch. Paths are ordered
//! by their components, as `Path` orders them: a leading `/` (the root) first,
//! then a leading `.`, then `..`, then names by code point, and a list that is
//! a prefix of another first. Empty components and `.` past the start do not
//! count, so `a/b/`, `a//b` and `a/./b` are the same path as `a/b`.

use vstd::prelude::*;

use core::cmp::Ordering;

use crate::search::{hit_line, hit_path, Hit};
use crate::text::chars_of;

verus! {

/// Tag of the root component.
pub const ROOT_TAG: char = '\u{0}';

/// Tag of a leading `.` component.
pub const HERE_TAG: char = '\u{1}';

/// Tag of a `..` component.
pub const UP_TAG: char = '\u{2}';

/// Tag of a named component.
pub const NAME_TAG: char = '\u{3}';

/// Character order for keys: `/` (which ends every component) first, then by
/// code point.
pub open spec fn char_lt(x: char, y: char) -> bool {
    x != y && (x == '/' || (y != '/' && x < y))
}

/// Key order: lexicographic by `char_lt`, a proper prefix first.
pub open spec fn key_lt(a: Seq<char>, b: Seq<char>) -> bool
    decreases a.len(),
{
    if a.len() == 0 {
        b.len() > 0
    } else if b.len() == 0 {
        false
    } else if a[0] != b[0] {
        char_lt(a[0], b[0])
    } else {
        key_lt(a.drop_first(), b.drop_first())
    }
}

/// The key of one piece between slashes: nothing for an empty piece or `.`,
/// the `..` tag for `..`, else the name tag and the name; a `/` ends each.
pub open spec fn piece_key(w: Seq<char>) -> Seq<char> {
    if w.len() == 0 || w == seq!['.'] {
        seq![]
    } else if w == seq!['.', '.'] {
        seq![UP_TAG, '/']
    } else {
        seq![NAME_TAG] + w + seq!['/']
    }
}

/// The keys of the pieces of `p` split at each `/`, in order, where `w` is
/// already read of the first piece.
pub open spec fn pieces_key(p: Seq<char>, w: Seq<char>) -> Seq<char>
    decreases p.len(),
{
    if p.len() == 0 {
        piece_key(w)
    } else if p[0] == '/' {
        piece_key(w) + pieces_key(p.drop_first(), seq![])
    } else {
        pieces_key(p.drop_first(), w.push(p[0]))
    }
}

/// The key of what starts a path: the root for a leading `/`, the current
/// directory for a leading `.` that is a whole piece.
pub open spec fn head_key(p: Seq<char>) -> Seq<char> {
    if p.len() > 0 && p[0] == '/' {
        seq![ROOT_TAG, '/']
    } else if p.len() > 0 && p[0] == '.' && (p.len() == 1 || p[1] == '/') {
        seq![HERE_TAG, '/']
    } else {
        seq![]
    }
}

/// A path's components written as one key: each component is a tag, its name
/// for a named one, and a `/`. Comparing keys by `key_lt` compares the
/// component lists, since no name holds a `/`.
pub closed spec fn path_key(p: Seq<char>) -> Seq<char> {
    head_key(p) + pieces_key(p, seq![])
}

/// Path order: by components.
pub open spec fn path_lt(a: Seq<char>, b: Seq<char>) -> bool {
    key_lt(path_key(a), path_key(b))
}

/// Two paths with the same components.
pub open spec fn same_path(a: Seq<char>, b: Seq<char>) -> bool {
    path_key(a) == path_key(b)
}

/// Whether hit `a` (file modified at `at`) sorts strictly before hit `b`
/// (modified at `bt`).
pub open spec fn hit_lt(a: Hit, at: u128, b: Hit, bt: u128) -> bool {
    ||| (a is File && b is Line)
    ||| ((a is File) == (b is File) && at > bt)
    ||| ((a is File) == (b is File) && at == bt && path_lt(hit_path(a), hit_path(b)))
    ||| ((a is File) == (b is File) && at == bt && same_path(hit_path(a), hit_path(b))
        && hit_line(a) < hit_line(b))
}

/// Two hits that no order separates.
pub open spec fn hit_tied(a: Hit, at: u128, b: Hit, bt: u128) -> bool {
    (a is File) == (b is File) && at == bt && same_path(hit_path(a), hit_path(b)) && hit_line(a)
        == hit_line(b)
}

fn char_before(x: char, y: char) -> (r: bool)
    ensures
        r == char_lt(x, y),
{
    x != y && (x == '/' || (y != '/' && x < y))
}

/// Which side of another path a path falls on.
#[derive(Clone, Copy, PartialEq, Eq, Structural, Debug)]
pub enum Side {
    Before,
    Same,
    After,
}

/// Where key `av` falls against key `bv`.
fn key_side(av: &Vec<char>, bv: &Vec<char>) -> (r: Side)
    ensures
        (r == Side::Before) == key_lt(av@, bv@),
        (r == Side::After) == key_lt(bv@, av@),
        (r == Side::Same) == (av@ == bv@),
{
    let ghost a = av@;
    let ghost b = bv@;
    let mut i: usize = 0;
    assert(a.skip(0) =~= a);
    assert(b.skip(0) =~= b);
    while i < av.len() && i < bv.len() && av[i] == bv[i]
        invariant
            a == av@,
            b == bv@,
            i <= av.len(),
            i <= bv.len(),
            av@.take(i as int) == bv@.take(i as int),
            key_lt(a, b) == key_lt(a.skip(i as int), b.skip(i as int)),
            key_lt(b, a) == key_lt(b.skip(i as int), a.skip(i as int)),
        decreases av.len() - i,
    {
        proof {
            assert(a.skip(i as int).drop_first() =~= a.skip(i + 1));
            assert(b.skip(i as int).drop_first() =~= b.skip(i + 1));
            assert(av@.take(i + 1) =~= av@.take(i as int).push(av@[i as int]));
            assert(bv@.take(i + 1) =~= bv@.take(i as int).push(bv@[i as int]));
        }
        i += 1;
    }
    if i == av.len() && i == bv.len() {
        assert(a =~= av@.take(i as int));
        assert(b =~= bv@.take(i as int));
        Side::Same
    } else if i == av.len() {
        assert(a.skip(i as int).len() == 0);
        assert(a.len() != b.len());
        Side::Before
    } else if i == bv.len() {
        assert(b.skip(i as int).len() == 0);
        assert(a.len() != b.len());
        Side::After
    } else {
        assert(a.skip(i as int)[0] == av@[i as int]);
        assert(b.skip(i as int)[0] == bv@[i as int]);
        assert(a[i as int] != b[i as int]);
        let ghost x = av@[i as int];
        let ghost y = bv@[i as int];
        if char_before(av[i], bv[i]) {
            assert(key_lt(a.skip(i as int), b.skip(i as int)));
            assert(!key_lt(b.skip(i as int), a.skip(i as int)));
            Side::Before
        } else {
            assert(char_lt(y, x));
            assert(!key_lt(a.skip(i as int), b.skip(i as int)));
            assert(key_lt(b.skip(i as int), a.skip(i as int)));
            Side::After
        }
    }
}

/// Appends the key of piece `w`.
fn push_piece(out: &mut Vec<char>, w: &Vec<char>)
    ensures
        final(out)@ == old(out)@ + piece_key(w@),
{
    if w.len() == 0 {
        assert(old(out)@ + piece_key(w@) =~= old(out)@);
        return;
    }
    if w.len() == 1 && w[0] == '.' {
        assert(w@ =~= seq!['.']);
        assert(old(out)@ + piece_key(w@) =~= old(out)@);
        return;
    }
    if w.len() == 2 && w[0] == '.' && w[1] == '.' {
        assert(w@ =~= seq!['.', '.']);
        out.push(UP_TAG);
        out.push('/');
        assert(out@ =~= old(out)@ + piece_key(w@));
        return;
    }
    assert(w@ != seq!['.']) by {
        if w.len() == 1 {
            assert(w@[0] != '.');
        }
    }
    assert(w@ != seq!['.', '.']) by {
        if w.len() == 2 {
            assert(w@[0] != '.' || w@[1] != '.');
        }
    }
    out.push(NAME_TAG);
    let ghost start = out@;
    let mut i: usize = 0;
    while i < w.len()
        invariant
            i <= w.len(),
            out@ == start + w@.take(i as int),
        decreases w.len() - i,
    {
        assert(w@.take(i + 1) =~= w@.take(i as int).push(w@[i as int]));
        out.push(w[i]);
        i += 1;
    }
    assert(w@.take(i as int) =~= w@);
    out.push('/');
    assert(out@ =~= old(out)@ + piece_key(w@));
}

/// The key of path `s`.
fn path_key_of(s: &str) -> (r: Vec<char>)
    ensures
        r@ == path_key(s@),
{
    let v = chars_of(s);
    let mut out: Vec<char> = Vec::new();
    if v.len() > 0 && v[0] == '/' {
        out.push(ROOT_TAG);
        out.push('/');
    } else if v.len() > 0 && v[0] == '.' && (v.len() == 1 || v[1] == '/') {
        out.push(HERE_TAG);
        out.push('/');
    }
    assert(out@ =~= head_key(s@));
    let mut w: Vec<char> = Vec::new();
    let mut i: usize = 0;
    assert(v@.skip(0) =~= v@);
    assert(w@ =~= Seq::<char>::empty());
    while i < v.len()
        invariant
            v@ == s@,
            i <= v.len(),
            out@ + pieces_key(v@.skip(i as int), w@) == path_key(s@),
        decreases v.len() - i,
    {
        let ghost rest = v@.skip(i as int);
        assert(rest.drop_first() =~= v@.skip(i + 1));
        assert(rest[0] == v@[i as int]);
        if v[i] == '/' {
            let ghost o = out@;
            let ghost ww = w@;
            push_piece(&mut out, &w);
            w = Vec::new();
            assert(w@ =~= Seq::<char>::empty());
            assert(o + pieces_key(rest, ww) == o + (piece_key(ww) + pieces_key(v@.skip(i + 1), w@)));
            assert(o + (piece_key(ww) + pieces_key(v@.skip(i + 1), w@)) =~= out@ + pieces_key(
                v@.skip(i + 1),
                w@,
            ));
        } else {
            w.push(v[i]);
        }
        i += 1;
    }
    assert(v@.skip(i as int).len() == 0);
    push_piece(&mut out, &w);
    out
}

/// Where `a` falls against `b` in path order.
pub fn path_side(a: &str, b: &str) -> (r: Side)
    ensures
        (r == Side::Before) == path_lt(a@, b@),
        (r == Side::After) == path_lt(b@, a@),
        (r == Side::Same) == same_path(a@, b@),
{
    let av = path_key_of(a);
    let bv = path_key_of(b);
    key_side(&av, &bv)
}

/// Whether two paths have the same components.
pub fn same_path_of(a: &str, b: &str) -> (r: bool)
    ensures
        r == same_path(a@, b@),
{
    match path_side(a, b) {
        Side::Same => true,
        _ => false,
    }
}

/// Path order on two paths.
pub fn compare_paths(a: &str, b: &str) -> (r: Ordering)
    ensures
        (r == Ordering::Less) == path_lt(a@, b@),
        (r == Ordering::Greater) == path_lt(b@, a@),
        (r == Ordering::Equal) == same_path(a@, b@),
{
    match path_side(a, b) {
        Side::Before => Ordering::Less,
        Side::Same => Ordering::Equal,
        Side::After => Ordering::Greater,
    }
}

/// The order every result list is kept in: name hits before content hits,
/// newest file first, then path and line.
pub fn compare_hits(x: (&Hit, u128), y: (&Hit, u128)) -> (r: Ordering)
    ensures
        (r == Ordering::Less) == hit_lt(*x.0, x.1, *y.0, y.1),
        (r == Ordering::Greater) == hit_lt(*y.0, y.1, *x.0, x.1),
        (r == Ordering::Equal) == hit_tied(*x.0, x.1, *y.0, y.1),
{
    let a = x.0;
    let b = y.0;
    let af = a.is_file();
    let bf = b.is_file();
    if af && !bf {
        return Ordering::Less;
    }
    if bf && !af {
        return Ordering::Greater;
    }
    if x.1 > y.1 {
        return Ordering::Less;
    }
    if x.1 < y.1 {
        return Ordering::Greater;
    }
    let by_path = compare_paths(a.path(), b.path());
    match by_path {
        Ordering::Less => Ordering::Less,
        Ordering::Greater => Ordering::Greater,
        Ordering::Equal => {
            let al = a.line();
            let bl = b.line();
            if al < bl {
                Ordering::Less
            } else if al > bl {
                Ordering::Greater
            } else {
                Ordering::Equal
            }
        },
    }
}

proof fn lemma_key_two(a: Seq<char>, b: Seq<char>)
    ensures
        !key_lt(a, a),
        a != b ==> key_lt(a, b) || key_lt(b, a),
        !(key_lt(a, b) && key_lt(b, a)),
    decreases a.len(),
{
    if a.len() > 0 {
        lemma_key_two(a.drop_first(), a.drop_first());
    }
    if a.len() > 0 && b.len() > 0 {
        lemma_key_two(a.drop_first(), b.drop_first());
        if a != b && a[0] == b[0] {
            assert(a.drop_first() != b.drop_first()) by {
                if a.drop_first() == b.drop_first() {
                    assert(a =~= seq![a[0]] + a.drop_first());
                    assert(b =~= seq![b[0]] + b.drop_first());
                }
            }
        }
    }
    if a.len() == 0 && b.len() == 0 {
        assert(a =~= b);
    }
}

proof fn lemma_key_trans(a: Seq<char>, b: Seq<char>, c: Seq<char>)
    ensures
        key_lt(a, b) && key_lt(b, c) ==> key_lt(a, c),
    decreases a.len(),
{
    if a.len() > 0 && b.len() > 0 && c.len() > 0 {
        lemma_key_trans(a.drop_first(), b.drop_first(), c.drop_first());
    }
}

/// Whether hit `a` (modified at `at`) sorts strictly before hit `b`.
pub fn hit_before(a: &Hit, at: u128, b: &Hit, bt: u128) -> (r: bool)
    ensures
        r == hit_lt(*a, at, *b, bt),
{
    match compare_hits((a, at), (b, bt)) {
        Ordering::Less => true,
        _ => false,
    }
}

/// Path order is a strict total order on components: irreflexive,
/// transitive, and any two paths with different components are ordered one
/// way or the other.
pub proof fn lemma_path_order(a: Seq<char>, b: Seq<char>, c: Seq<char>)
    ensures
        !path_lt(a, a),
        path_lt(a, b) && path_lt(b, c) ==> path_lt(a, c),
        !same_path(a, b) ==> path_lt(a, b) || path_lt(b, a),
        !(path_lt(a, b) && path_lt(b, a)),
{
    lemma_key_two(path_key(a), path_key(b));
    lemma_key_trans(path_key(a), path_key(b), path_key(c));
}

/// Hit order is a strict total order up to ties: never both ways, never a hit
/// before itself, transitive, and any two hits are ordered unless tied.
pub proof fn lemma_hit_order(a: Hit, at: u128, b: Hit, bt: u128, c: Hit, ct: u128)
    ensures
        !hit_lt(a, at, a, at),
        !(hit_lt(a, at, b, bt) && hit_lt(b, bt, a, at)),
        hit_lt(a, at, b, bt) && hit_lt(b, bt, c, ct) ==> hit_lt(a, at, c, ct),
        hit_lt(a, at, b, bt) || hit_lt(b, bt, a, at) || hit_tied(a, at, b, bt),
        hit_tied(a, at, b, bt) ==> !hit_lt(a, at, b, bt) && !hit_lt(b, bt, a, at),
        hit_tied(a, at, b, bt) && hit_lt(b, bt, c, ct) ==> hit_lt(a, at, c, ct),
        hit_lt(a, at, b, bt) && hit_tied(b, bt, c, ct) ==> hit_lt(a, at, c, ct),
{
    lemma_path_order(hit_path(a), hit_path(b), hit_path(c));
    lemma_path_order(hit_path(b), hit_path(a), hit_path(c));
    lemma_path_order(hit_path(a), hit_path(c), hit_path(b));
    lemma_path_order(hit_path(b), hit_path(c), hit_path(a));
}

} // verus!
