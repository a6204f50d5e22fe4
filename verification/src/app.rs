//! State of the full-screen interface: which list is shown, the cursor, the
//! status line, the login form, the live search overlay, and what each
//! command does to them. Every command that needs the disk or the network is
//! split in two: a method that decides what to ask for, and one that takes
//! the answer and updates the state.

use vstd::prelude::*;
use vstd::view::View as _;

use crate::api::{RegenerateUrlsResult, RemoteFile, StorageInfo, UploadResult};
use crate::config::{copy_opt, Config};
use crate::order::{hit_before, hit_lt, lemma_hit_order, same_path, same_path_of};
use crate::paths::{joined, join_path, parent_dir, parent_of, same_text};
use crate::picker::CONTENT_CAP;
use crate::search::{contains_seq, find_seq, hit_path, lowercase_of, plan, to_lowercase, Hit, Kind, Query};
use crate::text::{chars_of, decimal, digit_char, push_char, push_decimal, push_str, string_of, trim_chars, trimmed};

verus! {

/// Which list the interface is showing.
#[derive(Clone, Copy, PartialEq, Eq, Structural, Debug)]
pub enum View {
    /// Remote files from the Chloride API.
    Files,
    /// Local file manager.
    FileManager,
}

#[derive(Clone, Copy, PartialEq, Eq, Structural, Debug)]
pub enum InputKind {
    Touch,
    Mkdir,
}

impl InputKind {
    pub fn title(self) -> (r: &'static str)
        ensures
            r@ == (match self {
                InputKind::Touch => " New file (touch) "@,
                InputKind::Mkdir => " New directory (mkdir) "@,
            }),
    {
        match self {
            InputKind::Touch => " New file (touch) ",
            InputKind::Mkdir => " New directory (mkdir) ",
        }
    }
}

#[derive(Clone, Copy, PartialEq, Eq, Structural, Debug)]
pub enum AuthKind {
    Login,
    Register,
}

impl AuthKind {
    pub fn title(self) -> (r: &'static str)
        ensures
            r@ == (match self {
                AuthKind::Login => " Login "@,
                AuthKind::Register => " Register "@,
            }),
    {
        match self {
            AuthKind::Login => " Login ",
            AuthKind::Register => " Register ",
        }
    }
}

pub struct AuthForm {
    pub kind: AuthKind,
    pub email: String,
    pub password: String,
    pub confirm: String,
    pub active: usize,
    pub error: Option<String>,
}

/// The number of fields a form of `kind` has.
pub open spec fn fields_of(kind: AuthKind) -> usize {
    match kind {
        AuthKind::Login => 2,
        AuthKind::Register => 3,
    }
}

impl AuthForm {
    pub fn new(kind: AuthKind) -> (f: AuthForm)
        ensures
            f.kind == kind,
            f.email@.len() == 0,
            f.password@.len() == 0,
            f.confirm@.len() == 0,
            f.active == 0,
            f.error is None,
    {
        AuthForm {
            kind,
            email: String::new(),
            password: String::new(),
            confirm: String::new(),
            active: 0,
            error: None,
        }
    }

    /// Email and password to log in; a confirmation as well to register.
    pub fn field_count(&self) -> (r: usize)
        ensures
            r == fields_of(self.kind),
    {
        match self.kind {
            AuthKind::Login => 2,
            AuthKind::Register => 3,
        }
    }

    /// The text of the field being edited: email, password, or (for any
    /// later field) the confirmation.
    pub fn active_buffer(&mut self) -> (r: &mut String)
        ensures
            old(self).active == 0 ==> *r == old(self).email && final(self).email == *final(r)
                && final(self).password == old(self).password && final(self).confirm == old(
                self,
            ).confirm,
            old(self).active == 1 ==> *r == old(self).password && final(self).password
                == *final(r) && final(self).email == old(self).email && final(self).confirm
                == old(self).confirm,
            old(self).active > 1 ==> *r == old(self).confirm && final(self).confirm == *final(r)
                && final(self).email == old(self).email && final(self).password == old(
                self,
            ).password,
            final(self).kind == old(self).kind,
            final(self).active == old(self).active,
            final(self).error == old(self).error,
    {
        if self.active == 0 {
            &mut self.email
        } else if self.active == 1 {
            &mut self.password
        } else {
            &mut self.confirm
        }
    }
}

/// A single row in the local directory listing.
pub struct Entry {
    pub name: String,
    pub is_dir: bool,
    pub size: u64,
    /// True for the synthetic ".." entry.
    pub parent: bool,
}

#[derive(Clone, Copy, PartialEq, Eq, Structural, Debug)]
pub enum StatusKind {
    Info,
    Success,
    Error,
}

pub struct Status {
    pub message: String,
    pub kind: StatusKind,
}

/// The label of unit `u`: B, KB, MB, GB, TB.
fn unit_label(u: usize) -> (r: &'static str)
    requires
        u <= 4,
    ensures
        r@ == unit_name(u as nat),
{
    proof {
        reveal_strlit("B");
        reveal_strlit("KB");
        reveal_strlit("MB");
        reveal_strlit("GB");
        reveal_strlit("TB");
    }
    if u == 0 {
        "B"
    } else if u == 1 {
        "KB"
    } else if u == 2 {
        "MB"
    } else if u == 3 {
        "GB"
    } else {
        "TB"
    }
}

/// `1024` to the power `k`.
pub open spec fn pow1024(k: nat) -> nat
    decreases k,
{
    if k == 0 {
        1
    } else {
        1024 * pow1024((k - 1) as nat)
    }
}

/// `2` to the power `k`.
pub open spec fn pow2(k: nat) -> nat
    decreases k,
{
    if k == 0 {
        1
    } else {
        2 * pow2((k - 1) as nat)
    }
}

/// How many low bits of `b` fall outside the 53 significant bits an `f64`
/// holds.
pub open spec fn lost_bits(b: nat) -> nat
    decreases b,
{
    if b < 9007199254740992 {
        0
    } else {
        1 + lost_bits(b / 2)
    }
}

/// `b` rounded to the nearest multiple of `unit`, ties to the even multiple.
pub open spec fn round_even(b: nat, unit: nat) -> nat
    recommends
        unit > 0,
{
    let q = b / unit;
    let r = b % unit;
    if 2 * r > unit || (2 * r == unit && q % 2 == 1) {
        (q + 1) * unit
    } else {
        q * unit
    }
}

/// The value `b as f64` holds: `b` rounded to 53 significant bits.
pub open spec fn as_f64(b: nat) -> nat {
    round_even(b, pow2(lost_bits(b)))
}

/// The unit a size is shown in: the largest of B, KB, MB, GB, TB that it
/// reaches, counting from B.
pub open spec fn unit_for(v: nat, from: nat) -> nat
    decreases 4 - from,
{
    if from < 4 && v >= pow1024(from + 1) {
        unit_for(v, from + 1)
    } else {
        from
    }
}

/// `v / 1024^unit` in tenths, rounded half to even, as `{:.1}` rounds.
pub open spec fn tenths(v: nat, unit: nat) -> nat {
    round_even(v * 10, pow1024(unit)) / pow1024(unit)
}

pub open spec fn unit_name(u: nat) -> Seq<char> {
    if u == 0 {
        seq!['B']
    } else if u == 1 {
        seq!['K', 'B']
    } else if u == 2 {
        seq!['M', 'B']
    } else if u == 3 {
        seq!['G', 'B']
    } else {
        seq!['T', 'B']
    }
}

/// How a byte count reads: whole bytes below 1 KB, otherwise one decimal in
/// the largest unit reached (up to TB), rounded as floating point does.
pub open spec fn human_size_text(bytes: nat) -> Seq<char> {
    let v = as_f64(bytes);
    let u = unit_for(v, 0);
    if bytes == 0 || u == 0 {
        decimal(bytes) + seq![' '] + unit_name(0)
    } else {
        let t = tenths(v, u);
        decimal(t / 10) + seq!['.', digit_char(t % 10), ' '] + unit_name(u)
    }
}

proof fn lemma_pow_values()
    ensures
        pow1024(0) == 1,
        pow1024(1) == 1024,
        pow1024(2) == 1048576,
        pow1024(3) == 1073741824,
        pow1024(4) == 1099511627776,
        pow1024(5) == 1125899906842624,
        pow2(53) == 9007199254740992,
{
    reveal_with_fuel(pow1024, 6);
    reveal_with_fuel(pow2, 54);
}

proof fn lemma_pow2_pos(k: nat)
    ensures
        pow2(k) > 0,
    decreases k,
{
    if k > 0 {
        lemma_pow2_pos((k - 1) as nat);
    }
}

/// Rounds `b` to 53 significant bits; also returns the rounding unit.
fn f64_value(bytes: u64) -> (r: u128)
    ensures
        r == as_f64(bytes as nat),
        r <= 18446744073709555712,
{
    proof {
        lemma_pow_values();
    }
    let mut m: u64 = bytes;
    let mut unit: u64 = 1;
    let mut shift: u64 = 0;
    let ghost b = bytes as nat;
    assert(lost_bits(b) == shift + lost_bits(b / unit as nat));
    while m >= 9007199254740992
        invariant
            m == b / unit as nat,
            unit == pow2(shift as nat),
            lost_bits(b) == shift + lost_bits(m as nat),
            shift < unit,
            unit < 4096,
            unit >= 1,
            b <= u64::MAX,
        decreases m,
    {
        proof {
            assert(lost_bits(m as nat) == 1 + lost_bits((m / 2) as nat));
            assert((b / unit as nat) / 2 == b / (unit as nat * 2)) by (nonlinear_arith)
                requires
                    unit >= 1,
            ;
            assert(unit < 2048) by (nonlinear_arith)
                requires
                    m == b / unit as nat,
                    m >= 9007199254740992,
                    b <= u64::MAX,
                    unit >= 1,
            ;
        }
        m = m / 2;
        unit = unit * 2;
        shift = shift + 1;
        proof {
            reveal_with_fuel(pow2, 2);
            assert(pow2(shift as nat) == 2 * pow2((shift - 1) as nat));
        }
    }
    assert(lost_bits(m as nat) == 0);
    let q: u128 = (bytes / unit) as u128;
    let rem: u128 = (bytes % unit) as u128;
    let u: u128 = unit as u128;
    assert(q * u + rem == b) by (nonlinear_arith)
        requires
            q == b / unit as nat,
            rem == b % unit as nat,
            u == unit,
            unit >= 1,
    ;
    if 2 * rem > u || (2 * rem == u && q % 2 == 1) {
        assert((q + 1) * u <= 18446744073709555712) by (nonlinear_arith)
            requires
                q * u + rem == b,
                rem >= 0,
                b <= u64::MAX,
                u < 4096,
        ;
        (q + 1) * u
    } else {
        assert(q * u <= b) by (nonlinear_arith)
            requires
                q * u + rem == b,
                rem >= 0,
        ;
        q * u
    }
}

/// Human-readable byte size.
pub fn human_size(bytes: u64) -> (r: String)
    ensures
        r@ == human_size_text(bytes as nat),
{
    proof {
        lemma_pow_values();
    }
    let v = f64_value(bytes);
    let mut unit: usize = 0;
    let mut scale: u128 = 1;
    while unit < 4 && v >= scale * 1024
        invariant
            unit <= 4,
            scale == pow1024(unit as nat),
            unit_for(v as nat, 0) == unit_for(v as nat, unit as nat),
            v <= 18446744073709555712,
            pow1024(4) == 1099511627776,
            pow1024(5) == 1125899906842624,
        decreases 4 - unit,
    {
        proof {
            assert(scale <= 1099511627776) by {
                if unit == 0 {
                } else if unit == 1 {
                } else if unit == 2 {
                } else if unit == 3 {
                } else {
                }
                reveal_with_fuel(pow1024, 5);
            }
            assert(pow1024((unit + 1) as nat) == 1024 * pow1024(unit as nat));
        }
        scale = scale * 1024;
        unit = unit + 1;
    }
    let mut out = String::new();
    if bytes == 0 || unit == 0 {
        push_decimal(&mut out, bytes);
        push_char(&mut out, ' ');
        push_str(&mut out, unit_label(0));
        assert(out@ =~= human_size_text(bytes as nat));
        return out;
    }
    assert(scale <= 1099511627776) by {
        reveal_with_fuel(pow1024, 5);
    }
    let x: u128 = v * 10;
    let q: u128 = x / scale;
    let rem: u128 = x % scale;
    let t: u128 = if 2 * rem > scale || (2 * rem == scale && q % 2 == 1) {
        q + 1
    } else {
        q
    };
    assert(t == tenths(v as nat, unit as nat)) by {
        let s: int = pow1024(unit as nat) as int;
        assert(s > 0);
        assert(x == q * s + rem) by (nonlinear_arith)
            requires
                q == x as int / s,
                rem == x as int % s,
                s > 0,
        ;
        if 2 * rem > scale || (2 * rem == scale && q % 2 == 1) {
            assert(((q + 1) * s) / s == q + 1) by (nonlinear_arith)
                requires
                    s > 0,
            ;
        } else {
            assert((q * s) / s == q) by (nonlinear_arith)
                requires
                    s > 0,
            ;
        }
    }
    assert(t <= 180143985094819882) by (nonlinear_arith)
        requires
            x == v * 10,
            v <= 18446744073709555712,
            q == x / scale,
            scale >= 1024,
            t <= q + 1,
    ;
    push_decimal(&mut out, (t / 10) as u64);
    push_char(&mut out, '.');
    push_char(&mut out, crate::text::digit_of((t % 10) as u64));
    push_char(&mut out, ' ');
    push_str(&mut out, unit_label(unit));
    assert(out@ =~= human_size_text(bytes as nat));
    out
}


/// The modification time recorded for `path` (a path with the same
/// components), the first one recorded for it.
pub open spec fn time_get(meta: Seq<(String, u128)>, path: Seq<char>) -> Option<u128>
    decreases meta.len(),
{
    if meta.len() == 0 {
        None
    } else if same_path(meta[0].0@, path) {
        Some(meta[0].1)
    } else {
        time_get(meta.drop_first(), path)
    }
}

/// The time a hit sorts by: the one recorded for its path, else the epoch.
pub open spec fn time_of(meta: Seq<(String, u128)>, h: Hit) -> u128 {
    match time_get(meta, hit_path(h)) {
        Some(t) => t,
        None => 0,
    }
}

/// The time an incoming hit is filed under: the recorded one for its path,
/// else the `mtime` it came with.
pub open spec fn stamp(meta: Seq<(String, u128)>, h: Hit, mtime: u128) -> u128 {
    match time_get(meta, hit_path(h)) {
        Some(t) => t,
        None => mtime,
    }
}

/// The hits are in result order by their recorded times, and every hit's
/// path has a recorded time.
pub open spec fn hits_ordered(hits: Seq<Hit>, meta: Seq<(String, u128)>) -> bool {
    &&& forall|i: int| 0 <= i < hits.len() ==> (#[trigger] time_get(meta, hit_path(hits[i]))) is Some
    &&& forall|i: int, j: int|
        0 <= i < j < hits.len() ==> !hit_lt(
            #[trigger] hits[j],
            time_of(meta, hits[j]),
            #[trigger] hits[i],
            time_of(meta, hits[i]),
        )
}

/// Where an incoming hit (filed under `t`) goes: after every hit that sorts
/// strictly before it, and before the first that does not.
pub open spec fn slot(hits: Seq<Hit>, meta: Seq<(String, u128)>, hit: Hit, t: u128, pos: int) -> bool {
    &&& 0 <= pos <= hits.len()
    &&& forall|i: int| 0 <= i < pos ==> hit_lt(#[trigger] hits[i], time_of(meta, hits[i]), hit, t)
    &&& pos < hits.len() ==> !hit_lt(hits[pos], time_of(meta, hits[pos]), hit, t)
}

/// Number of name hits.
pub open spec fn file_hits(hits: Seq<Hit>) -> nat
    decreases hits.len(),
{
    if hits.len() == 0 {
        0
    } else {
        (if hits.last() is File {
            1nat
        } else {
            0nat
        }) + file_hits(hits.drop_last())
    }
}

proof fn lemma_file_hits_bound(hits: Seq<Hit>)
    ensures
        file_hits(hits) <= hits.len(),
    decreases hits.len(),
{
    if hits.len() > 0 {
        lemma_file_hits_bound(hits.drop_last());
    }
}

/// How many hits can be selected: every name hit, and content hits up to
/// `CONTENT_CAP` unless expanded.
pub open spec fn selectable(hits: Seq<Hit>, expanded: bool) -> nat {
    let files = file_hits(hits);
    let content = (hits.len() - files) as nat;
    files + if expanded || content <= CONTENT_CAP {
        content
    } else {
        CONTENT_CAP as nat
    }
}

/// The first index in `i..end` whose hit is in a file other than `cur`, or -1.
pub open spec fn next_other(hits: Seq<Hit>, i: int, end: int, cur: Seq<char>) -> int
    decreases end - i,
{
    if i >= end {
        -1
    } else if !same_path(hit_path(hits[i]), cur) {
        i
    } else {
        next_other(hits, i + 1, end, cur)
    }
}

/// The last index below `i` whose hit is in a file other than `cur`, or -1.
pub open spec fn prev_other(hits: Seq<Hit>, i: int, cur: Seq<char>) -> int
    decreases i,
{
    if i <= 0 {
        -1
    } else if !same_path(hit_path(hits[i - 1]), cur) {
        i - 1
    } else {
        prev_other(hits, i - 1, cur)
    }
}

/// The first index of the run of hits in the same file that ends at `i`.
pub open spec fn group_start(hits: Seq<Hit>, i: int) -> int
    decreases i,
{
    if i > 0 && same_path(hit_path(hits[i - 1]), hit_path(hits[i])) {
        group_start(hits, i - 1)
    } else {
        i
    }
}

/// The hits of a batch, without their times.
pub open spec fn batch_hits(batch: Seq<(Hit, u128)>) -> Seq<Hit> {
    batch.map_values(|p: (Hit, u128)| p.0)
}

/// A live search driven from the interface. The walk itself runs outside;
/// its hits arrive through `App::drain_search`.
pub struct SearchState {
    pub query: String,
    pub hits: Vec<Hit>,
    pub selected: usize,
    /// True once the walk has finished, so the header can stop spinning.
    pub done: bool,
    /// Whether this walk is matching names rather than contents.
    pub mode_names: bool,
    /// Show content hits past `CONTENT_CAP`.
    pub expanded: bool,
    /// Until the user moves, the cursor stays pinned to the top row; after
    /// that it follows the item it was on as results stream in around it.
    pub user_moved: bool,
    /// One modification time per path, shared by every content hit in the
    /// same file, so the order stays stable without a stat per hit.
    pub meta: Vec<(String, u128)>,
}

proof fn lemma_time_push(meta: Seq<(String, u128)>, e: (String, u128))
    requires
        time_get(meta, e.0@) is None,
    ensures
        time_get(meta.push(e), e.0@) == Some(e.1),
        forall|p: Seq<char>|
            #[trigger] time_get(meta, p) is Some ==> time_get(meta.push(e), p) == time_get(meta, p),
    decreases meta.len(),
{
    if meta.len() > 0 {
        assert(meta.push(e).drop_first() =~= meta.drop_first().push(e));
        assert(meta.push(e)[0] == meta[0]);
        lemma_time_push(meta.drop_first(), e);
        assert forall|p: Seq<char>| #[trigger] time_get(meta, p) is Some implies time_get(
            meta.push(e),
            p,
        ) == time_get(meta, p) by {
            if !same_path(meta[0].0@, p) {
                assert(time_get(meta.drop_first(), p) is Some);
            }
        }
    } else {
        assert(meta.push(e)[0] == e);
    }
}

/// Inserting at the slot keeps hits in order.
proof fn lemma_slot_keeps_order(
    hits: Seq<Hit>,
    meta: Seq<(String, u128)>,
    hit: Hit,
    pos: int,
)
    requires
        slot(hits, meta, hit, time_of(meta, hit), pos),
        hits_ordered(hits, meta),
        time_get(meta, hit_path(hit)) is Some,
    ensures
        hits_ordered(hits.insert(pos, hit), meta),
{
    let new = hits.insert(pos, hit);
    let t = time_of(meta, hit);
    assert forall|i: int| 0 <= i < new.len() implies (#[trigger] time_get(
        meta,
        hit_path(new[i]),
    )) is Some by {
        if i < pos {
            assert(new[i] == hits[i]);
        } else if i > pos {
            assert(new[i] == hits[i - 1]);
        }
    }
    assert forall|i: int, j: int| 0 <= i < j < new.len() implies !hit_lt(
        #[trigger] new[j],
        time_of(meta, new[j]),
        #[trigger] new[i],
        time_of(meta, new[i]),
    ) by {
        if j < pos {
            assert(new[i] == hits[i] && new[j] == hits[j]);
        } else if j == pos {
            assert(new[i] == hits[i]);
            lemma_hit_order(hits[i], time_of(meta, hits[i]), hit, t, hit, t);
        } else if i > pos {
            assert(new[i] == hits[i - 1] && new[j] == hits[j - 1]);
        } else if i == pos {
            assert(new[j] == hits[j - 1]);
            let a = hits[pos];
            let b = hits[j - 1];
            let at = time_of(meta, a);
            let bt = time_of(meta, b);
            lemma_hit_order(b, bt, hit, t, a, at);
            lemma_hit_order(hit, t, a, at, b, bt);
            lemma_hit_order(a, at, b, bt, hit, t);
            if j - 1 > pos {
                assert(!hit_lt(hits[j - 1], time_of(meta, hits[j - 1]), hits[pos], time_of(meta, hits[pos])));
            }
        } else {
            assert(new[i] == hits[i] && new[j] == hits[j - 1]);
        }
    }
}

impl SearchState {
    pub fn new() -> (s: SearchState)
        ensures
            s.query@.len() == 0,
            s.hits@.len() == 0,
            s.selected == 0,
            !s.done,
            !s.mode_names,
            !s.expanded,
            !s.user_moved,
            s.meta@.len() == 0,
    {
        SearchState {
            query: String::new(),
            hits: Vec::new(),
            selected: 0,
            done: false,
            mode_names: false,
            expanded: false,
            user_moved: false,
            meta: Vec::new(),
        }
    }

    /// The time recorded for `path`, if any.
    pub fn cached_mtime(&self, path: &str) -> (r: Option<u128>)
        ensures
            r == time_get(self.meta@, path@),
    {
        let mut i: usize = 0;
        assert(self.meta@.skip(0) =~= self.meta@);
        while i < self.meta.len()
            invariant
                i <= self.meta.len(),
                time_get(self.meta@, path@) == time_get(self.meta@.skip(i as int), path@),
            decreases self.meta.len() - i,
        {
            proof {
                assert(self.meta@.skip(i as int)[0] == self.meta@[i as int]);
                assert(self.meta@.skip(i as int).drop_first() =~= self.meta@.skip(i + 1));
            }
            if same_path_of(self.meta[i].0.as_str(), path) {
                return Some(self.meta[i].1);
            }
            i += 1;
        }
        None
    }

    /// The time `h` sorts by.
    pub fn recorded_time(&self, h: &Hit) -> (r: u128)
        ensures
            r == time_of(self.meta@, *h),
    {
        match self.cached_mtime(h.path()) {
            Some(m) => m,
            None => 0,
        }
    }

    /// Insert keeping the list in result order: name hits first, newest file
    /// first, then path and line. `mtime` is the file's modification time,
    /// used when none is recorded for its path yet. Once the user has moved,
    /// the cursor follows the hit it was on.
    pub fn insert(&mut self, hit: Hit, mtime: u128)
        requires
            old(self).selected < usize::MAX,
        ensures
            time_get(final(self).meta@, hit_path(hit)) == Some(stamp(old(self).meta@, hit, mtime)),
            forall|p: Seq<char>|
                #[trigger] time_get(old(self).meta@, p) is Some ==> time_get(final(self).meta@, p)
                    == time_get(old(self).meta@, p),
            exists|pos: int|
                #[trigger] slot(
                    old(self).hits@,
                    final(self).meta@,
                    hit,
                    stamp(old(self).meta@, hit, mtime),
                    pos,
                ) && final(self).hits@ == old(self).hits@.insert(pos, hit) && final(self).selected
                    == (if old(self).user_moved && pos <= old(self).selected
                    && final(self).hits@.len() > 1 {
                    old(self).selected + 1
                } else {
                    old(self).selected as int
                }),
            hits_ordered(old(self).hits@, old(self).meta@) ==> hits_ordered(
                final(self).hits@,
                final(self).meta@,
            ),
            final(self).query == old(self).query,
            final(self).done == old(self).done,
            final(self).mode_names == old(self).mode_names,
            final(self).expanded == old(self).expanded,
            final(self).user_moved == old(self).user_moved,
    {
        let ghost h = hit;
        let ghost old_meta = self.meta@;
        let ghost old_hits = self.hits@;
        let ghost old_sel = self.selected;
        let t = match self.cached_mtime(hit.path()) {
            Some(m) => m,
            None => {
                let p = String::from_str(hit.path());
                proof {
                    lemma_time_push(self.meta@, (p, mtime));
                }
                self.meta.push((p, mtime));
                mtime
            },
        };
        assert(time_get(self.meta@, hit_path(h)) == Some(t));
        assert(t == stamp(old_meta, h, mtime));
        let mut pos: usize = 0;
        while pos < self.hits.len() && hit_before(
            &self.hits[pos],
            self.recorded_time(&self.hits[pos]),
            &hit,
            t,
        )
            invariant
                pos <= self.hits.len(),
                self.hits@ == old_hits,
                h == hit,
                forall|i: int| 0 <= i < pos ==> hit_lt(#[trigger] self.hits@[i], time_of(self.meta@, self.hits@[i]), h, t),
            decreases self.hits.len() - pos,
        {
            pos += 1;
        }
        proof {
            assert(slot(old_hits, self.meta@, h, t, pos as int));
            if hits_ordered(old_hits, old_meta) {
                assert forall|i: int| 0 <= i < old_hits.len() implies time_of(self.meta@, old_hits[i])
                    == time_of(old_meta, old_hits[i]) by {
                    assert(time_get(old_meta, hit_path(old_hits[i])) is Some);
                }
                assert forall|i: int| 0 <= i < old_hits.len() implies (#[trigger] time_get(
                    self.meta@,
                    hit_path(old_hits[i]),
                )) is Some by {
                    assert(time_get(old_meta, hit_path(old_hits[i])) is Some);
                }
                assert forall|i: int, j: int| 0 <= i < j < old_hits.len() implies !hit_lt(
                    #[trigger] old_hits[j],
                    time_of(self.meta@, old_hits[j]),
                    #[trigger] old_hits[i],
                    time_of(self.meta@, old_hits[i]),
                ) by {
                    assert(time_get(old_meta, hit_path(old_hits[i])) is Some);
                    assert(time_get(old_meta, hit_path(old_hits[j])) is Some);
                }
                assert(hits_ordered(old_hits, self.meta@));
                lemma_slot_keeps_order(old_hits, self.meta@, h, pos as int);
            }
        }
        self.hits.insert(pos, hit);
        if self.user_moved && pos <= self.selected && self.hits.len() > 1 {
            self.selected = self.selected + 1;
        }
        proof {
            assert(slot(old_hits, self.meta@, h, t, pos as int) && self.hits@ == old_hits.insert(
                pos as int,
                h,
            ) && self.selected == (if self.user_moved && pos <= old_sel && self.hits@.len() > 1 {
                old_sel + 1
            } else {
                old_sel as int
            }));
        }
    }

    /// Number of name hits.
    pub fn file_count(&self) -> (r: usize)
        ensures
            r == file_hits(self.hits@),
    {
        let mut n: usize = 0;
        let mut i: usize = 0;
        while i < self.hits.len()
            invariant
                i <= self.hits.len(),
                n == file_hits(self.hits@.take(i as int)),
                n <= i,
            decreases self.hits.len() - i,
        {
            assert(self.hits@.take(i + 1).drop_last() =~= self.hits@.take(i as int));
            if self.hits[i].is_file() {
                n += 1;
            }
            i += 1;
        }
        assert(self.hits@.take(i as int) =~= self.hits@);
        n
    }

    /// Number of content hits.
    pub fn content_count(&self) -> (r: usize)
        ensures
            r == self.hits@.len() - file_hits(self.hits@),
    {
        proof {
            lemma_file_hits_bound(self.hits@);
        }
        self.hits.len() - self.file_count()
    }

    /// How many rows are actually selectable, honouring the content cap.
    pub fn visible_len(&self) -> (r: usize)
        ensures
            r == selectable(self.hits@, self.expanded),
            r <= self.hits@.len(),
    {
        let files = self.file_count();
        let content = self.content_count();
        let shown = if self.expanded || content <= CONTENT_CAP {
            content
        } else {
            CONTENT_CAP
        };
        let total = self.hits.len();
        assert(files + content == total);
        assert(files + shown <= total);
        files + shown
    }

    /// The rows to draw, honouring the content cap.
    pub fn visible(&self) -> (r: &[Hit])
        ensures
            r@ == self.hits@.take(selectable(self.hits@, self.expanded) as int),
    {
        let n = self.visible_len();
        let (shown, _) = self.hits.as_slice().split_at(n);
        shown
    }

    /// The selected hit, if any.
    pub fn current(&self) -> (r: Option<&Hit>)
        ensures
            self.selected < selectable(self.hits@, self.expanded) ==> r == Some(
                &self.hits@[self.selected as int],
            ),
            self.selected >= selectable(self.hits@, self.expanded) ==> r is None,
    {
        if self.selected < self.visible_len() {
            Some(&self.hits[self.selected])
        } else {
            None
        }
    }

    pub fn move_down(&mut self)
        ensures
            cursor_down(*old(self), *final(self)),

    {
        self.user_moved = true;
        let n = self.visible_len();
        let top = if n == 0 {
            0
        } else {
            n - 1
        };
        self.selected = if self.selected < top {
            self.selected + 1
        } else {
            top
        };
    }

    pub fn move_up(&mut self)
        ensures
            cursor_up(*old(self), *final(self)),

    {
        self.user_moved = true;
        self.selected = if self.selected > 0 {
            self.selected - 1
        } else {
            0
        };
    }

    /// Move to the first hit of the next (`forward`) or previous distinct
    /// file, skipping every remaining match in the current one.
    pub fn move_file(&mut self, forward: bool)
        ensures
            final(self).user_moved,
            ({
                let hits = old(self).hits@;
                let sel = old(self).selected as int;
                let cur = hit_path(hits[sel]);
                let vis = selectable(hits, old(self).expanded) as int;
                if sel >= hits.len() {
                    final(self).selected == sel
                } else if forward {
                    let n = next_other(hits, sel + 1, vis, cur);
                    final(self).selected == (if n >= 0 {
                        n
                    } else {
                        sel
                    })
                } else {
                    let p = prev_other(hits, sel, cur);
                    final(self).selected == (if p >= 0 {
                        group_start(hits, p)
                    } else {
                        sel
                    })
                }
            }),
            final(self).hits == old(self).hits,
            final(self).meta == old(self).meta,
            final(self).query == old(self).query,
            final(self).done == old(self).done,
            final(self).mode_names == old(self).mode_names,
            final(self).expanded == old(self).expanded,
    {
        self.user_moved = true;
        let visible = self.visible_len();
        if self.selected >= self.hits.len() {
            return;
        }
        let ghost hits = self.hits@;
        let sel = self.selected;
        let ghost cur = hit_path(hits[sel as int]);
        if forward {
            let mut i: usize = sel + 1;
            assert(next_other(hits, sel + 1, visible as int, cur) == next_other(hits, i as int, visible as int, cur));
            while i < visible && same_path_of(self.hits[i].path(), self.hits[sel].path())
                invariant
                    sel < hits.len(),
                    visible <= hits.len(),
                    self.hits@ == hits,
                    sel + 1 <= i,
                    cur == hit_path(hits[sel as int]),
                    next_other(hits, sel + 1, visible as int, cur) == next_other(hits, i as int, visible as int, cur),
                decreases visible - i,
            {
                i += 1;
            }
            if i < visible {
                self.selected = i;
            }
        } else {
            let mut i: usize = sel;
            while i > 0 && same_path_of(self.hits[i - 1].path(), self.hits[sel].path())
                invariant
                    sel < hits.len(),
                    i <= sel,
                    self.hits@ == hits,
                    cur == hit_path(hits[sel as int]),
                    prev_other(hits, sel as int, cur) == prev_other(hits, i as int, cur),
                decreases i,
            {
                i -= 1;
            }
            if i > 0 {
                let mut k: usize = i - 1;
                while k > 0 && same_path_of(self.hits[k - 1].path(), self.hits[k].path())
                    invariant
                        k < hits.len(),
                        self.hits@ == hits,
                        group_start(hits, (i - 1) as int) == group_start(hits, k as int),
                    decreases k,
                {
                    k -= 1;
                }
                self.selected = k;
            }
        }
    }
}


/// What the interface is currently doing.
pub enum Mode {
    Browse,
    /// Live search over the current directory; its state is `App::search`.
    Search,
    Input { kind: InputKind, buffer: String },
    Confirm { name: String, is_dir: bool },
    ConfirmRemoteDelete { id: i64, name: String },
    Message { title: String, text: String },
    Auth(AuthForm),
    Quota(Option<Result<StorageInfo, String>>),
}

/// Text order: lexicographic by code point, a proper prefix first (how
/// `String`s compare).
pub open spec fn text_lt(a: Seq<char>, b: Seq<char>) -> bool
    decreases a.len(),
{
    if a.len() == 0 {
        b.len() > 0
    } else if b.len() == 0 {
        false
    } else if a[0] != b[0] {
        a[0] < b[0]
    } else {
        text_lt(a.drop_first(), b.drop_first())
    }
}

/// Whether `a` is listed before `b`: directories first, then by name,
/// ignoring case.
pub open spec fn entry_before(a: Entry, b: Entry) -> bool {
    ||| (a.is_dir && !b.is_dir)
    ||| (a.is_dir == b.is_dir && text_lt(lowercase_of(a.name@), lowercase_of(b.name@)))
}

/// The first index from `i` whose entry `x` is listed before, else the end.
pub open spec fn first_after(s: Seq<Entry>, x: Entry, i: int) -> int
    decreases s.len() - i,
{
    if i >= s.len() {
        s.len() as int
    } else if entry_before(x, s[i]) {
        i
    } else {
        first_after(s, x, i + 1)
    }
}

/// The listing of `items`: each one placed after every entry it is not
/// listed before, so entries that compare equal keep the order they were
/// read in.
pub open spec fn sorted_listing(items: Seq<Entry>) -> Seq<Entry>
    decreases items.len(),
{
    if items.len() == 0 {
        seq![]
    } else {
        let s = sorted_listing(items.drop_last());
        s.insert(first_after(s, items.last(), 0), items.last())
    }
}

/// The local listing of `cwd` read as `items`: a `..` row when `cwd` has a
/// parent, then the sorted entries.
pub open spec fn listed(cwd: Seq<char>, items: Seq<Entry>, entries: Seq<Entry>) -> bool {
    let k: int = if parent_dir(cwd) is Some {
        1
    } else {
        0
    };
    &&& entries.len() == k + sorted_listing(items).len()
    &&& entries.skip(k) == sorted_listing(items)
    &&& k == 1 ==> parent_row(entries[0])
}

/// The synthetic `..` row.
pub open spec fn parent_row(e: Entry) -> bool {
    e.name@ == seq!['.', '.'] && e.is_dir && e.size == 0 && e.parent
}

/// The cursor once the list has `len` rows.
pub open spec fn clamp_to(selected: usize, len: nat) -> usize {
    if selected as nat >= len {
        if len == 0 {
            0
        } else {
            (len - 1) as usize
        }
    } else {
        selected
    }
}

/// The length of the list the view shows.
pub open spec fn shown_len(view: View, entries: nat, files: nat) -> nat {
    match view {
        View::FileManager => entries,
        View::Files => files,
    }
}

/// The status after the remote list failed with `e`.
pub open spec fn remote_failure(e: Seq<char>) -> Seq<char> {
    if contains_seq(e, "Not logged in"@) || contains_seq(e, "Session expired"@) {
        e + " Press L to log in."@
    } else {
        "Failed to load files: "@ + e
    }
}

/// The files left once `id` is deleted.
pub open spec fn without_id(s: Seq<RemoteFile>, id: i64) -> Seq<RemoteFile>
    decreases s.len(),
{
    if s.len() == 0 {
        seq![]
    } else if s.last().id == id {
        without_id(s.drop_last(), id)
    } else {
        without_id(s.drop_last(), id).push(s.last())
    }
}

/// The first index of an entry named `name`, or -1.
pub open spec fn index_named(s: Seq<Entry>, name: Seq<char>, i: int) -> int
    decreases s.len() - i,
{
    if i >= s.len() {
        -1
    } else if s[i].name@ == name {
        i
    } else {
        index_named(s, name, i + 1)
    }
}

/// What reading the shown list gave.
pub enum Listing {
    /// The working directory's entries in the order read, or the error's text.
    Local(Result<Vec<Entry>, String>),
    /// The server's files, or the error's text.
    Remote(Result<Vec<RemoteFile>, String>),
}

pub struct App {
    pub running: bool,
    pub view: View,
    pub cwd: String,
    pub entries: Vec<Entry>,
    pub remote_files: Vec<RemoteFile>,
    pub selected: usize,
    pub mode: Mode,
    pub status: Status,
    pub config: Config,
    pub search: Option<SearchState>,
}

/// Every field of `b` but the flagged ones is as in `a`.
pub open spec fn keeps(
    a: App,
    b: App,
    selected: bool,
    status: bool,
    cwd: bool,
    view: bool,
    mode: bool,
) -> bool {
    &&& selected || b.selected == a.selected
    &&& status || b.status == a.status
    &&& cwd || b.cwd == a.cwd
    &&& view || b.view == a.view
    &&& mode || b.mode == a.mode
    &&& b.running == a.running
    &&& b.entries == a.entries
    &&& b.remote_files == a.remote_files
    &&& b.config == a.config
    &&& b.search == a.search
}

/// What `switch_view(view)` does, returning `changed`.
pub open spec fn switched(a: App, b: App, view: View, changed: bool) -> bool {
    &&& keeps(a, b, true, false, false, true, false)
    &&& changed == (a.view != view)
    &&& b.view == view
    &&& b.selected == if changed {
        0
    } else {
        a.selected
    }
}

/// What `SearchState::move_down` does.
pub open spec fn cursor_down(a: SearchState, b: SearchState) -> bool {
    let n = selectable(a.hits@, a.expanded);
    &&& b.user_moved
    &&& b.selected == if a.selected + 1 < n {
        a.selected + 1
    } else if n == 0 {
        0
    } else {
        n - 1
    }
    &&& b.hits == a.hits
    &&& b.meta == a.meta
    &&& b.query == a.query
    &&& b.done == a.done
    &&& b.mode_names == a.mode_names
    &&& b.expanded == a.expanded
}

/// What `SearchState::move_up` does.
pub open spec fn cursor_up(a: SearchState, b: SearchState) -> bool {
    &&& b.user_moved
    &&& b.selected == if a.selected > 0 {
        a.selected - 1
    } else {
        0
    }
    &&& b.hits == a.hits
    &&& b.meta == a.meta
    &&& b.query == a.query
    &&& b.done == a.done
    &&& b.mode_names == a.mode_names
    &&& b.expanded == a.expanded
}

/// The length of the list `a` shows.
pub open spec fn rows_of(a: App) -> nat {
    shown_len(a.view, a.entries@.len(), a.remote_files@.len())
}

/// The cursor is on a row of the shown list, or at the top when the list is
/// empty.
pub open spec fn on_a_row(a: App) -> bool {
    a.selected < rows_of(a) || (rows_of(a) == 0 && a.selected == 0)
}

/// What `move_down` does: one row down, stopping at the last.
pub open spec fn moved_down(a: App, b: App) -> bool {
    &&& keeps(a, b, true, false, false, false, false)
    &&& b.selected == if rows_of(a) == 0 {
        a.selected as int
    } else if a.selected + 1 < rows_of(a) {
        a.selected + 1
    } else {
        rows_of(a) - 1
    }
}

/// What `move_up` does: one row up, stopping at the first.
pub open spec fn moved_up(a: App, b: App) -> bool {
    &&& keeps(a, b, true, false, false, false, false)
    &&& b.selected == if a.selected > 0 {
        a.selected - 1
    } else {
        0
    }
}

/// What `select_first` does.
pub open spec fn went_first(a: App, b: App) -> bool {
    keeps(a, b, true, false, false, false, false) && b.selected == 0
}

/// What `select_last` does.
pub open spec fn went_last(a: App, b: App) -> bool {
    &&& keeps(a, b, true, false, false, false, false)
    &&& b.selected == if rows_of(a) == 0 {
        0
    } else {
        rows_of(a) - 1
    }
}

/// What `go_up` does, returning `moved`.
pub open spec fn went_up(a: App, b: App, moved: bool) -> bool {
    &&& keeps(a, b, true, false, true, false, false)
    &&& moved == (a.view == View::FileManager && parent_dir(a.cwd@) is Some)
    &&& moved ==> b.cwd@ == parent_dir(a.cwd@).unwrap() && b.selected == 0
    &&& !moved ==> b.cwd == a.cwd && b.selected == a.selected
}

/// What `enter` does, returning `moved`.
pub open spec fn entered(a: App, b: App, moved: bool) -> bool {
    &&& keeps(a, b, true, true, true, false, false)
    &&& a.view == View::FileManager ==> if a.selected < a.entries@.len() {
        let e = a.entries@[a.selected as int];
        if e.parent {
            went_up(a, b, moved)
        } else if e.is_dir {
            &&& moved
            &&& b.cwd@ == joined(a.cwd@, e.name@)
            &&& b.selected == 0
            &&& b.status == a.status
        } else {
            &&& !moved
            &&& b.cwd == a.cwd
            &&& b.selected == a.selected
            &&& b.status.message@ == "'"@ + e.name@ + "' is a file"@
            &&& b.status.kind == StatusKind::Info
        }
    } else {
        !moved && b.cwd == a.cwd && b.status == a.status && b.selected == a.selected
    }
    &&& a.view == View::Files ==> {
        &&& !moved
        &&& b.cwd == a.cwd
        &&& b.selected == a.selected
        &&& if a.selected < a.remote_files@.len() {
            let f = a.remote_files@[a.selected as int];
            &&& b.status.message@ == f.name@ + " · "@ + human_size_text((f.size as u64) as nat)
                + " · "@ + f.created_at@
            &&& b.status.kind == StatusKind::Info
        } else {
            b.status == a.status
        }
    }
}

/// The status line after a refusal with `message`.
pub open spec fn refused(b: App, message: Seq<char>) -> bool {
    b.status.message@ == message && b.status.kind == StatusKind::Error
}

/// What `regenerate_selected_file_url` does, returning `target`.
pub open spec fn asked_regenerate(a: App, b: App, target: Option<(i64, String)>) -> bool {
    &&& keeps(a, b, false, true, false, false, false)
    &&& a.view != View::Files ==> target is None && b.status == a.status
    &&& a.view == View::Files && a.selected < a.remote_files@.len() ==> {
        let f = a.remote_files@[a.selected as int];
        target == Some((f.id, f.name)) && b.status == a.status
    }
    &&& a.view == View::Files && a.selected >= a.remote_files@.len() ==> target is None && refused(
        b,
        "No file selected"@,
    )
}

/// What `copy_selected_short_download_url` does, returning `url`.
pub open spec fn asked_copy(a: App, b: App, url: Option<String>) -> bool {
    let link = if a.view == View::Files && a.selected < a.remote_files@.len() {
        a.remote_files@[a.selected as int].short_download_url
    } else {
        None
    };
    &&& keeps(a, b, false, true, false, false, false)
    &&& url == link
    &&& link is Some ==> b.status == a.status
    &&& link is None ==> refused(b, "No short download URL. Press R to regenerate."@)
}

/// What `download_selected_file` does, returning `target`.
pub open spec fn asked_download(a: App, b: App, target: Option<(String, String)>) -> bool {
    &&& keeps(a, b, false, true, false, false, false)
    &&& a.selected >= a.remote_files@.len() ==> target is None && refused(b, "No file selected"@)
    &&& a.selected < a.remote_files@.len() ==> {
        let f = a.remote_files@[a.selected as int];
        match f.short_download_url {
            Some(u) => target == Some((u, f.name)) && b.status == a.status,
            None => target is None && refused(b, "No short download URL. Press R to regenerate."@),
        }
    }
}

/// What `confirm_delete_selected_remote_file` does.
pub open spec fn asked_delete_remote(a: App, b: App) -> bool {
    &&& keeps(a, b, false, true, false, false, true)
    &&& a.view != View::Files ==> b.mode == a.mode && b.status == a.status
    &&& a.view == View::Files && a.selected < a.remote_files@.len() ==> {
        let f = a.remote_files@[a.selected as int];
        b.mode == Mode::ConfirmRemoteDelete { id: f.id, name: f.name } && b.status == a.status
    }
    &&& a.view == View::Files && a.selected >= a.remote_files@.len() ==> b.mode == a.mode
        && refused(b, "No file selected"@)
}

/// `a` comes before `b` in text order.
fn text_less(a: &Vec<char>, b: &Vec<char>) -> (r: bool)
    ensures
        r == text_lt(a@, b@),
{
    let mut i: usize = 0;
    assert(a@.skip(0) =~= a@);
    assert(b@.skip(0) =~= b@);
    while i < a.len() && i < b.len() && a[i] == b[i]
        invariant
            i <= a.len(),
            i <= b.len(),
            text_lt(a@, b@) == text_lt(a@.skip(i as int), b@.skip(i as int)),
        decreases a.len() - i,
    {
        proof {
            assert(a@.skip(i as int).drop_first() =~= a@.skip(i + 1));
            assert(b@.skip(i as int).drop_first() =~= b@.skip(i + 1));
            assert(a@.skip(i as int)[0] == a@[i as int]);
            assert(b@.skip(i as int)[0] == b@[i as int]);
        }
        i += 1;
    }
    proof {
        if i < a.len() && i < b.len() {
            assert(a@.skip(i as int)[0] == a@[i as int]);
            assert(b@.skip(i as int)[0] == b@[i as int]);
        }
    }
    if i >= a.len() {
        i < b.len()
    } else if i >= b.len() {
        false
    } else {
        a[i] < b[i]
    }
}

/// Sorts a directory listing: directories first, then by name ignoring case,
/// entries that compare equal in the order read.
pub fn sort_entries(items: Vec<Entry>) -> (r: Vec<Entry>)
    ensures
        r@ == sorted_listing(items@),
{
    let ghost all = items@;
    let mut rest = items;
    let mut out: Vec<Entry> = Vec::new();
    let mut keys: Vec<Vec<char>> = Vec::new();
    let mut i: usize = 0;
    let n = rest.len();
    assert(all.take(0) =~= Seq::<Entry>::empty());
    assert(all.skip(0) =~= all);
    while i < n
        invariant
            n == all.len(),
            i <= n,
            rest@ == all.skip(i as int),
            out@ == sorted_listing(all.take(i as int)),
            keys@.len() == out@.len(),
            forall|j: int| 0 <= j < keys@.len() ==> (#[trigger] keys@[j])@ == lowercase_of(out@[j].name@),
        decreases n - i,
    {
        assert(rest@.len() > 0);
        let x = rest.remove(0);
        assert(x == all[i as int]);
        assert(rest@ =~= all.skip(i + 1));
        let key = chars_of(to_lowercase(x.name.as_str()).as_str());
        let mut k: usize = 0;
        assert(first_after(out@, x, 0) == first_after(out@, x, k as int));
        while k < out.len() && !((x.is_dir && !out[k].is_dir) || (x.is_dir == out[k].is_dir
            && text_less(&key, &keys[k])))
            invariant
                k <= out.len(),
                keys@.len() == out@.len(),
                forall|j: int| 0 <= j < keys@.len() ==> (#[trigger] keys@[j])@ == lowercase_of(out@[j].name@),
                key@ == lowercase_of(x.name@),
                first_after(out@, x, 0) == first_after(out@, x, k as int),
            decreases out.len() - k,
        {
            assert(keys@[k as int]@ == lowercase_of(out@[k as int].name@));
            k += 1;
        }
        proof {
            if k < out.len() {
                assert(keys@[k as int]@ == lowercase_of(out@[k as int].name@));
            }
            assert(first_after(out@, x, 0) == k);
            assert(all.take(i + 1).drop_last() =~= all.take(i as int));
            assert(all.take(i + 1).last() == x);
        }
        let ghost before = out@;
        let ghost before_keys = keys@;
        out.insert(k, x);
        keys.insert(k, key);
        proof {
            assert forall|j: int| 0 <= j < keys@.len() implies (#[trigger] keys@[j])@ == lowercase_of(
                out@[j].name@,
            ) by {
                if j < k {
                    assert(keys@[j] == before_keys[j] && out@[j] == before[j]);
                } else if j > k {
                    assert(keys@[j] == before_keys[j - 1] && out@[j] == before[j - 1]);
                }
            }
        }
        i += 1;
    }
    assert(all.take(n as int) =~= all);
    out
}

proof fn lemma_text_lt_order(a: Seq<char>, b: Seq<char>, c: Seq<char>)
    ensures
        !(text_lt(a, b) && text_lt(b, a)),
        text_lt(a, b) && text_lt(b, c) ==> text_lt(a, c),
    decreases a.len(),
{
    if a.len() > 0 && b.len() > 0 && c.len() > 0 && a[0] == b[0] {
        lemma_text_lt_order(a.drop_first(), b.drop_first(), c.drop_first());
    } else if a.len() > 0 && b.len() > 0 && a[0] == b[0] {
        lemma_text_lt_order(a.drop_first(), b.drop_first(), c);
    }
}

proof fn lemma_entry_before_order(a: Entry, b: Entry, c: Entry)
    ensures
        !(entry_before(a, b) && entry_before(b, a)),
        entry_before(a, b) && entry_before(b, c) ==> entry_before(a, c),
{
    lemma_text_lt_order(lowercase_of(a.name@), lowercase_of(b.name@), lowercase_of(c.name@));
}

proof fn lemma_first_after(s: Seq<Entry>, x: Entry, i: int)
    requires
        0 <= i <= s.len(),
    ensures
        i <= first_after(s, x, i) <= s.len(),
        forall|m: int| i <= m < first_after(s, x, i) ==> !entry_before(x, #[trigger] s[m]),
        first_after(s, x, i) < s.len() ==> entry_before(x, s[first_after(s, x, i)]),
    decreases s.len() - i,
{
    if i < s.len() && !entry_before(x, s[i]) {
        lemma_first_after(s, x, i + 1);
    }
}

/// A listing holds exactly the entries that were read, and no entry in it
/// comes after one that it is listed before: directories come first, and
/// names ascend, ignoring case.
pub proof fn lemma_sorted_listing(items: Seq<Entry>)
    ensures
        sorted_listing(items).to_multiset() == items.to_multiset(),
        forall|i: int, j: int|
            0 <= i < j < sorted_listing(items).len() ==> !entry_before(
                #[trigger] sorted_listing(items)[j],
                #[trigger] sorted_listing(items)[i],
            ),
    decreases items.len(),
{
    if items.len() > 0 {
        let rest = items.drop_last();
        let x = items.last();
        lemma_sorted_listing(rest);
        let s = sorted_listing(rest);
        lemma_first_after(s, x, 0);
        let k = first_after(s, x, 0);
        let t = s.insert(k, x);
        assert(t == sorted_listing(items));
        vstd::seq_lib::to_multiset_insert(s, k, x);
        assert(rest.push(x) =~= items);
        vstd::seq_lib::to_multiset_build(rest, x);
        assert forall|i: int, j: int| 0 <= i < j < t.len() implies !entry_before(
            #[trigger] t[j],
            #[trigger] t[i],
        ) by {
            if j < k {
                assert(t[i] == s[i] && t[j] == s[j]);
            } else if j == k {
                assert(t[i] == s[i] && t[j] == x);
            } else if i < k {
                assert(t[i] == s[i] && t[j] == s[j - 1]);
            } else if i == k {
                assert(t[i] == x && t[j] == s[j - 1]);
                lemma_entry_before_order(s[j - 1], x, s[k]);
                if j - 1 > k {
                    assert(!entry_before(s[j - 1], s[k]));
                }
            } else {
                assert(t[i] == s[i - 1] && t[j] == s[j - 1]);
            }
        }
        assert(t.to_multiset() == items.to_multiset());
    } else {
        assert(items =~= sorted_listing(items));
    }
}

/// Text order is the order of the first difference: where `a` and `b` agree
/// on their first `k` characters, `a` comes first when its next character is
/// the smaller one, or when it ends there and `b` goes on.
pub proof fn lemma_text_order_by_first_difference(a: Seq<char>, b: Seq<char>, k: int)
    requires
        0 <= k <= a.len(),
        k <= b.len(),
        a.take(k) == b.take(k),
        (k < a.len() && k < b.len() && a[k] < b[k]) || (k == a.len() && k < b.len()),
    ensures
        text_lt(a, b),
        !text_lt(b, a),
    decreases k,
{
    if k > 0 {
        assert(a.take(k)[0] == a[0]);
        assert(b.take(k)[0] == b[0]);
        assert(a.drop_first().take(k - 1) =~= a.take(k).drop_first());
        assert(b.drop_first().take(k - 1) =~= b.take(k).drop_first());
        lemma_text_order_by_first_difference(a.drop_first(), b.drop_first(), k - 1);
    }
}

/// In a listing, a directory comes before every file, and of two entries of
/// one kind, the one whose lowercased name is the smaller at the first
/// position where the names differ (or is a proper prefix of the other)
/// comes first.
pub proof fn lemma_listing_order(items: Seq<Entry>, i: int, j: int, k: int)
    requires
        0 <= i < sorted_listing(items).len(),
        0 <= j < sorted_listing(items).len(),
        sorted_listing(items)[i].is_dir && !sorted_listing(items)[j].is_dir || (sorted_listing(
            items,
        )[i].is_dir == sorted_listing(items)[j].is_dir && ({
            let a = lowercase_of(sorted_listing(items)[i].name@);
            let b = lowercase_of(sorted_listing(items)[j].name@);
            &&& 0 <= k <= a.len()
            &&& k <= b.len()
            &&& a.take(k) == b.take(k)
            &&& (k < a.len() && k < b.len() && a[k] < b[k]) || (k == a.len() && k < b.len())
        })),
    ensures
        i < j,
{
    let r = sorted_listing(items);
    lemma_sorted_listing(items);
    if !(r[i].is_dir && !r[j].is_dir) {
        lemma_text_order_by_first_difference(lowercase_of(r[i].name@), lowercase_of(r[j].name@), k);
    }
    assert(entry_before(r[i], r[j]));
    if j < i {
        assert(!entry_before(r[i], r[j]));
    }
}

/// The message and kind given to the status line.
fn status_of(message: String, kind: StatusKind) -> (st: Status)
    ensures
        st.message == message,
        st.kind == kind,
{
    Status { message, kind }
}

/// `a` followed by `b`.
fn cat(a: &str, b: &str) -> (r: String)
    ensures
        r@ == a@ + b@,
{
    let mut out = String::from_str(a);
    push_str(&mut out, b);
    out
}

/// Whether `hay` mentions `needle`.
fn mentions(hay: &str, needle: &str) -> (r: bool)
    ensures
        r == contains_seq(hay@, needle@),
{
    let h = chars_of(hay);
    let n = chars_of(needle);
    find_seq(&h, &n).is_some()
}

impl App {
    /// A fresh interface in `cwd`, showing the remote files; the first
    /// listing is read and handed to `refresh`.
    pub fn new(cwd: String, config: Config) -> (app: App)
        ensures
            app.running,
            app.view == View::Files,
            app.cwd == cwd,
            app.entries@.len() == 0,
            app.remote_files@.len() == 0,
            app.selected == 0,
            app.mode is Browse,
            app.status.message@ == "Welcome to Chloride"@,
            app.status.kind == StatusKind::Info,
            app.config == config,
            app.search is None,
    {
        App {
            running: true,
            view: View::Files,
            cwd,
            entries: Vec::new(),
            remote_files: Vec::new(),
            selected: 0,
            mode: Mode::Browse,
            status: status_of(String::from_str("Welcome to Chloride"), StatusKind::Info),
            config,
            search: None,
        }
    }

    /// Length of the list the current view shows.
    pub fn active_len(&self) -> (r: usize)
        ensures
            r == shown_len(self.view, self.entries@.len(), self.remote_files@.len()),
    {
        match self.view {
            View::FileManager => self.entries.len(),
            View::Files => self.remote_files.len(),
        }
    }

    /// Install a freshly read listing, report it on the status line, and keep
    /// the cursor on a row.
    pub fn refresh(&mut self, listing: Listing)
        ensures
            match listing {
                Listing::Local(Ok(items)) => {
                    &&& listed(old(self).cwd@, items@, final(self).entries@)
                    &&& final(self).status == old(self).status
                    &&& final(self).remote_files == old(self).remote_files
                },
                Listing::Local(Err(e)) => {
                    &&& listed(old(self).cwd@, seq![], final(self).entries@)
                    &&& final(self).status.message@ == "Cannot read directory: "@ + e@
                    &&& final(self).status.kind == StatusKind::Error
                    &&& final(self).remote_files == old(self).remote_files
                },
                Listing::Remote(Ok(files)) => {
                    &&& final(self).remote_files == files
                    &&& final(self).status.message@ == decimal(files@.len()) + " file(s)"@
                    &&& final(self).status.kind == StatusKind::Info
                    &&& final(self).entries == old(self).entries
                },
                Listing::Remote(Err(e)) => {
                    &&& final(self).remote_files@.len() == 0
                    &&& final(self).status.message@ == remote_failure(e@)
                    &&& final(self).status.kind == StatusKind::Error
                    &&& final(self).entries == old(self).entries
                },
            },
            final(self).selected == clamp_to(
                old(self).selected,
                shown_len(
                    old(self).view,
                    final(self).entries@.len(),
                    final(self).remote_files@.len(),
                ),
            ),
            on_a_row(*final(self)),
            final(self).view == old(self).view,
            final(self).cwd == old(self).cwd,
            final(self).running == old(self).running,
            final(self).config == old(self).config,
            final(self).search == old(self).search,
    {
        match listing {
            Listing::Local(read) => {
                let mut entries: Vec<Entry> = Vec::new();
                let has_parent = parent_of(self.cwd.as_str()).is_some();
                if has_parent {
                    entries.push(Entry { name: String::from_str(".."), is_dir: true, size: 0, parent: true });
                    proof {
                        reveal_strlit("..");
                        assert(entries@[0].name@ =~= seq!['.', '.']);
                    }
                }
                let ghost k: int = if has_parent { 1 } else { 0 };
                assert(entries@.len() == k);
                match read {
                    Ok(items) => {
                        let sorted = sort_entries(items);
                        let ghost head = entries@;
                        let mut sorted = sorted;
                        entries.append(&mut sorted);
                        assert(entries@.skip(k) =~= sorted_listing(items@));
                        if has_parent {
                            assert(entries@[0] == head[0]);
                        }
                    },
                    Err(e) => {
                        assert(entries@.skip(k) =~= sorted_listing(Seq::<Entry>::empty()));
                        self.status = status_of(cat("Cannot read directory: ", e.as_str()), StatusKind::Error);
                    },
                }
                self.entries = entries;
            },
            Listing::Remote(read) => match read {
                Ok(files) => {
                    let mut message = String::new();
                    push_decimal(&mut message, files.len() as u64);
                    push_str(&mut message, " file(s)");
                    self.remote_files = files;
                    self.status = status_of(message, StatusKind::Info);
                },
                Err(e) => {
                    self.remote_files = Vec::new();
                    let message = if mentions(e.as_str(), "Not logged in") || mentions(
                        e.as_str(),
                        "Session expired",
                    ) {
                        cat(e.as_str(), " Press L to log in.")
                    } else {
                        cat("Failed to load files: ", e.as_str())
                    };
                    self.status = status_of(message, StatusKind::Error);
                },
            },
        }
        let len = self.active_len();
        if self.selected >= len {
            self.selected = if len == 0 {
                0
            } else {
                len - 1
            };
        }
    }

    pub fn selected_entry(&self) -> (r: Option<&Entry>)
        ensures
            self.selected < self.entries@.len() ==> r == Some(&self.entries@[self.selected as int]),
            self.selected >= self.entries@.len() ==> r is None,
    {
        if self.selected < self.entries.len() {
            Some(&self.entries[self.selected])
        } else {
            None
        }
    }

    pub fn selected_file(&self) -> (r: Option<&RemoteFile>)
        ensures
            self.selected < self.remote_files@.len() ==> r == Some(
                &self.remote_files@[self.selected as int],
            ),
            self.selected >= self.remote_files@.len() ==> r is None,
    {
        if self.selected < self.remote_files.len() {
            Some(&self.remote_files[self.selected])
        } else {
            None
        }
    }

    /// Show `view`, from its first row. True when that is a change, and the
    /// listing must then be read and handed to `refresh`.
    pub fn switch_view(&mut self, view: View) -> (changed: bool)
        ensures
            switched(*old(self), *final(self), view, changed),

    {
        if self.view != view {
            self.view = view;
            self.selected = 0;
            true
        } else {
            false
        }
    }

    pub fn move_down(&mut self)
        ensures
            moved_down(*old(self), *final(self)),

    {
        let len = self.active_len();
        if len > 0 {
            self.selected = if self.selected < len - 1 {
                self.selected + 1
            } else {
                len - 1
            };
        }
    }

    pub fn move_up(&mut self)
        ensures
            moved_up(*old(self), *final(self)),

    {
        self.selected = if self.selected > 0 {
            self.selected - 1
        } else {
            0
        };
    }

    pub fn select_first(&mut self)
        ensures
            went_first(*old(self), *final(self)),

    {
        self.selected = 0;
    }

    pub fn select_last(&mut self)
        ensures
            went_last(*old(self), *final(self)),

    {
        let len = self.active_len();
        self.selected = if len == 0 {
            0
        } else {
            len - 1
        };
    }

    /// Open the selected row: enter a directory (or `..`), or describe a
    /// file on the status line. True when the working directory changed and
    /// its listing must be read and handed to `refresh`.
    pub fn enter(&mut self) -> (moved: bool)
        ensures
            entered(*old(self), *final(self), moved),

    {
        match self.view {
            View::FileManager => {
                if self.selected >= self.entries.len() {
                    return false;
                }
                let i = self.selected;
                if self.entries[i].parent {
                    self.go_up()
                } else if self.entries[i].is_dir {
                    let path = join_path(self.cwd.as_str(), self.entries[i].name.as_str());
                    self.cwd = path;
                    self.selected = 0;
                    true
                } else {
                    let mut message = cat("'", self.entries[i].name.as_str());
                    push_str(&mut message, "' is a file");
                    self.status = status_of(message, StatusKind::Info);
                    false
                }
            },
            View::Files => {
                if self.selected < self.remote_files.len() {
                    let i = self.selected;
                    let mut message = cat(self.remote_files[i].name.as_str(), " · ");
                    let size = human_size(self.remote_files[i].size as u64);
                    push_str(&mut message, size.as_str());
                    push_str(&mut message, " · ");
                    push_str(&mut message, self.remote_files[i].created_at.as_str());
                    self.status = status_of(message, StatusKind::Info);
                }
                false
            },
        }
    }

    /// In the file manager, move to the parent directory. True when the
    /// working directory changed and its listing must be read.
    pub fn go_up(&mut self) -> (moved: bool)
        ensures
            went_up(*old(self), *final(self), moved),

    {
        if self.view != View::FileManager {
            return false;
        }
        match parent_of(self.cwd.as_str()) {
            Some(parent) => {
                self.cwd = parent;
                self.selected = 0;
                true
            },
            None => false,
        }
    }

    /// The file whose links to regenerate, as `(id, name)`: the selected
    /// remote file. Outside the remote view nothing happens; with no file
    /// selected the status line says so.
    pub fn regenerate_selected_file_url(&mut self) -> (target: Option<(i64, String)>)
        ensures
            asked_regenerate(*old(self), *final(self), target),

    {
        if self.view != View::Files {
            return None;
        }
        if self.selected >= self.remote_files.len() {
            self.set_error(String::from_str("No file selected"));
            return None;
        }
        let f = &self.remote_files[self.selected];
        Some((f.id, f.name.clone()))
    }

    /// Record what regenerating the links of file `name` returned: the new
    /// links go on the selected file and the status line reports it, or the
    /// status line carries the error.
    pub fn apply_regenerated(&mut self, name: &str, outcome: Result<RegenerateUrlsResult, String>)
        ensures
            match outcome {
                Ok(urls) => {
                    &&& final(self).remote_files@.len() == old(self).remote_files@.len()
                    &&& forall|i: int| 0 <= i < old(self).remote_files@.len() && i != old(self).selected
                        ==> final(self).remote_files@[i] == old(self).remote_files@[i]
                    &&& old(self).selected < old(self).remote_files@.len() ==> {
                        let before = old(self).remote_files@[old(self).selected as int];
                        final(self).remote_files@[old(self).selected as int] == RemoteFile {
                            short_download_url: urls.short_download_url,
                            short_view_url: urls.short_view_url,
                            original_view_url: urls.view_url,
                            original_download_url: urls.download_url,
                            ..before
                        }
                    }
                    &&& final(self).status.message@ == "Regenerated short download URL for '"@ + name@ + "'"@
                    &&& final(self).status.kind == StatusKind::Success
                },
                Err(e) => {
                    &&& final(self).remote_files == old(self).remote_files
                    &&& final(self).status.message@ == "Failed to regenerate URL: "@ + e@
                    &&& final(self).status.kind == StatusKind::Error
                },
            },
            final(self).selected == old(self).selected,
            final(self).view == old(self).view,
            final(self).mode == old(self).mode,
    {
        match outcome {
            Ok(urls) => {
                if self.selected < self.remote_files.len() {
                    let i = self.selected;
                    let before = self.remote_files[i].copy();
                    let updated = RemoteFile {
                        short_download_url: urls.short_download_url,
                        short_view_url: urls.short_view_url,
                        original_view_url: urls.view_url,
                        original_download_url: urls.download_url,
                        ..before
                    };
                    self.remote_files.set(i, updated);
                }
                let mut message = cat("Regenerated short download URL for '", name);
                push_str(&mut message, "'");
                self.set_success(message);
            },
            Err(e) => {
                self.set_error(cat("Failed to regenerate URL: ", e.as_str()));
            },
        }
    }

    /// The selected file's short download link, to copy. Outside the remote
    /// view, or without such a link, the status line says to regenerate one.
    pub fn copy_selected_short_download_url(&mut self) -> (url: Option<String>)
        ensures
            asked_copy(*old(self), *final(self), url),

    {
        let link = if self.view == View::Files && self.selected < self.remote_files.len() {
            copy_opt(&self.remote_files[self.selected].short_download_url)
        } else {
            None
        };
        if link.is_none() {
            self.set_error(String::from_str("No short download URL. Press R to regenerate."));
        }
        link
    }

    /// Record whether `url` reached the clipboard; when it did not, show it
    /// in a message box instead.
    pub fn apply_copy(&mut self, url: String, copied: bool)
        ensures
            copied ==> final(self).status.message@ == "Copied short download URL"@
                && final(self).status.kind == StatusKind::Success && final(self).mode == old(self).mode,
            !copied ==> (final(self).mode matches Mode::Message { title, text } && title@
                == " Short Download URL "@ && text == url),
            !copied ==> final(self).status == old(self).status,
            final(self).remote_files == old(self).remote_files,
            final(self).selected == old(self).selected,
            final(self).view == old(self).view,
    {
        if copied {
            self.set_success(String::from_str("Copied short download URL"));
        } else {
            self.mode = Mode::Message { title: String::from_str(" Short Download URL "), text: url };
        }
    }

    /// The selected file's short download link and name, to download into
    /// the working directory. Without a file or a link the status line says so.
    pub fn download_selected_file(&mut self) -> (target: Option<(String, String)>)
        ensures
            asked_download(*old(self), *final(self), target),

    {
        if self.selected >= self.remote_files.len() {
            self.set_error(String::from_str("No file selected"));
            return None;
        }
        let i = self.selected;
        match copy_opt(&self.remote_files[i].short_download_url) {
            Some(u) => Some((u, self.remote_files[i].name.clone())),
            None => {
                self.set_error(String::from_str("No short download URL. Press R to regenerate."));
                None
            },
        }
    }

    /// Record how a download went: where the file was saved, or the error.
    pub fn apply_download(&mut self, outcome: Result<String, String>)
        ensures
            match outcome {
                Ok(path) => final(self).status.message@ == "Downloaded to "@ + path@
                    && final(self).status.kind == StatusKind::Success,
                Err(e) => final(self).status.message@ == "Failed to download: "@ + e@
                    && final(self).status.kind == StatusKind::Error,
            },
            final(self).remote_files == old(self).remote_files,
            final(self).selected == old(self).selected,
            final(self).view == old(self).view,
            final(self).mode == old(self).mode,
    {
        match outcome {
            Ok(path) => self.set_success(cat("Downloaded to ", path.as_str())),
            Err(e) => self.set_error(cat("Failed to download: ", e.as_str())),
        }
    }

    /// Ask to confirm deleting the selected remote file.
    pub fn confirm_delete_selected_remote_file(&mut self)
        ensures
            asked_delete_remote(*old(self), *final(self)),

    {
        if self.view != View::Files {
            return;
        }
        if self.selected >= self.remote_files.len() {
            self.set_error(String::from_str("No file selected"));
            return;
        }
        let i = self.selected;
        self.mode = Mode::ConfirmRemoteDelete {
            id: self.remote_files[i].id,
            name: self.remote_files[i].name.clone(),
        };
    }

    /// Record how deleting remote file `id` (named `name`) went: on success
    /// it leaves the list and the cursor stays on a row.
    pub fn delete_remote_file(&mut self, id: i64, name: &str, outcome: Result<(), String>)
        ensures
            match outcome {
                Ok(()) => {
                    &&& final(self).remote_files@ == without_id(old(self).remote_files@, id)
                    &&& final(self).selected == clamp_to(old(self).selected, final(self).remote_files@.len())
                    &&& final(self).status.message@ == "Deleted remote file '"@ + name@ + "'"@
                    &&& final(self).status.kind == StatusKind::Success
                },
                Err(e) => {
                    &&& final(self).remote_files == old(self).remote_files
                    &&& final(self).selected == old(self).selected
                    &&& final(self).status.message@ == "Failed to delete remote file: "@ + e@
                    &&& final(self).status.kind == StatusKind::Error
                },
            },
            final(self).view == old(self).view,
            final(self).mode == old(self).mode,
            final(self).entries == old(self).entries,
    {
        match outcome {
            Ok(()) => {
                let mut kept: Vec<RemoteFile> = Vec::new();
                let mut i: usize = 0;
                while i < self.remote_files.len()
                    invariant
                        i <= self.remote_files.len(),
                        kept@ == without_id(self.remote_files@.take(i as int), id),
                    decreases self.remote_files.len() - i,
                {
                    assert(self.remote_files@.take(i + 1).drop_last() =~= self.remote_files@.take(i as int));
                    if self.remote_files[i].id != id {
                        kept.push(self.remote_files[i].copy());
                    }
                    i += 1;
                }
                assert(self.remote_files@.take(i as int) =~= self.remote_files@);
                self.remote_files = kept;
                if self.selected >= self.remote_files.len() {
                    self.selected = if self.remote_files.len() == 0 {
                        0
                    } else {
                        self.remote_files.len() - 1
                    };
                }
                let mut message = cat("Deleted remote file '", name);
                push_str(&mut message, "'");
                self.set_success(message);
            },
            Err(e) => self.set_error(cat("Failed to delete remote file: ", e.as_str())),
        }
    }

    /// Put the cursor on the entry named `name`, if there is one.
    pub fn select_by_name(&mut self, name: &str)
        ensures
            ({
                let k = index_named(old(self).entries@, name@, 0);
                final(self).selected == (if k >= 0 {
                    k as usize
                } else {
                    old(self).selected
                })
            }),
            final(self).entries == old(self).entries,
            final(self).view == old(self).view,
            final(self).status == old(self).status,
    {
        let mut i: usize = 0;
        while i < self.entries.len()
            invariant
                i <= self.entries.len(),
                self.entries == old(self).entries,
                self.view == old(self).view,
                self.status == old(self).status,
                self.selected == old(self).selected,
                index_named(self.entries@, name@, 0) == index_named(self.entries@, name@, i as int),
            decreases self.entries.len() - i,
        {
            if same_text(self.entries[i].name.as_str(), name) {
                self.selected = i;
                return;
            }
            i += 1;
        }
    }

    /// Start over for the current query: the previous results go, and unless
    /// the query is empty the walk to run is returned (contents by default,
    /// names for a pattern that is not a regex, capped).
    pub fn restart_search(&mut self) -> (q: Option<Query>)
        ensures
            old(self).search is None ==> q is None && final(self).search is None,
            old(self).search matches Some(st) ==> final(self).search matches Some(ns) && {
                &&& ns.query == st.query
                &&& ns.hits@.len() == 0
                &&& ns.meta@.len() == 0
                &&& ns.selected == 0
                &&& !ns.user_moved
                &&& !ns.expanded
                &&& !ns.done
                &&& st.query@.len() == 0 ==> q is None && ns.mode_names == st.mode_names
                &&& st.query@.len() > 0 ==> (q matches Some(query) && query.pattern@ == st.query@
                    && query.root@ == old(self).cwd@ && query.kind == crate::search::planned_kind(
                    crate::search::regex_compiles(st.query@),
                ) && query.limit == Some(crate::search::DEFAULT_LIMIT) && query.hidden
                    && !query.no_ignore && query.context == 0 && query.ext is None
                    && ns.mode_names == (query.kind == Kind::Files))
            },
            final(self).view == old(self).view,
            final(self).cwd == old(self).cwd,
            final(self).status == old(self).status,
    {
        match self.search.take() {
            None => None,
            Some(state) => {
                let mut state = state;
                state.hits = Vec::new();
                state.meta = Vec::new();
                state.selected = 0;
                state.user_moved = false;
                state.expanded = false;
                state.done = false;
                let result = if state.query.as_str().is_empty() {
                    None
                } else {
                    let query = plan(state.query.as_str(), self.cwd.as_str());
                    state.mode_names = query.kind == Kind::Files;
                    Some(query)
                };
                self.search = Some(state);
                result
            },
        }
    }

    /// Take in a batch of hits from the walk, each with its file's
    /// modification time, in the order they arrived; `closed` says the walk
    /// has ended.
    pub fn drain_search(&mut self, batch: Vec<(Hit, u128)>, closed: bool)
        requires
            old(self).search matches Some(st) ==> st.selected as int + batch@.len() < usize::MAX,
        ensures
            old(self).search is None ==> final(self).search is None,
            old(self).search matches Some(st) ==> final(self).search matches Some(ns) && {
                &&& ns.hits@.len() == st.hits@.len() + batch@.len()
                &&& ns.hits@.to_multiset() == st.hits@.to_multiset().add(
                    batch_hits(batch@).to_multiset(),
                )
                &&& ns.done == (st.done || closed)
                &&& hits_ordered(st.hits@, st.meta@) ==> hits_ordered(ns.hits@, ns.meta@)
                &&& ns.query == st.query
                &&& ns.mode_names == st.mode_names
                &&& ns.expanded == st.expanded
                &&& ns.user_moved == st.user_moved
                &&& !st.user_moved ==> ns.selected == st.selected
            },
            final(self).view == old(self).view,
            final(self).cwd == old(self).cwd,
            final(self).status == old(self).status,
    {
        match self.search.take() {
            None => {},
            Some(state) => {
                let mut state = state;
                let ghost st = state;
                let mut rest = batch;
                let ghost all = rest@;
                let n = rest.len();
                let mut i: usize = 0;
                proof {
                    assert(batch_hits(all.take(0)) =~= Seq::<Hit>::empty());
                    assert(st.hits@.to_multiset().add(batch_hits(all.take(0)).to_multiset())
                        =~= st.hits@.to_multiset()) by {
                        broadcast use vstd::multiset::group_multiset_axioms;
                        broadcast use vstd::seq_lib::group_to_multiset_ensures;
                    }
                }
                while i < n
                    invariant
                        n == all.len(),
                        i <= n,
                        rest@ == all.skip(i as int),
                        state.hits@.len() == st.hits@.len() + i,
                        state.hits@.to_multiset() == st.hits@.to_multiset().add(
                            batch_hits(all.take(i as int)).to_multiset(),
                        ),
                        state.selected as int <= st.selected as int + i,
                        st.selected as int + n < usize::MAX,
                        hits_ordered(st.hits@, st.meta@) ==> hits_ordered(state.hits@, state.meta@),
                        state.query == st.query,
                        state.done == st.done,
                        state.mode_names == st.mode_names,
                        state.expanded == st.expanded,
                        state.user_moved == st.user_moved,
                        !st.user_moved ==> state.selected == st.selected,
                    decreases n - i,
                {
                    assert(all.skip(i as int).len() > 0);
                    let (hit, mtime) = rest.remove(0);
                    assert(rest@ =~= all.skip(i + 1));
                    let ghost h = hit;
                    let ghost before = state.hits@;
                    let ghost meta_before = state.meta@;
                    state.insert(hit, mtime);
                    proof {
                        let pos = choose|pos: int|
                            #[trigger] slot(before, state.meta@, h, stamp(meta_before, h, mtime), pos)
                                && state.hits@ == before.insert(pos, h);
                        vstd::seq_lib::to_multiset_insert(before, pos, h);
                        let done = batch_hits(all.take(i as int));
                        assert(batch_hits(all.take(i + 1)) =~= done.push(h)) by {
                            assert(all.take(i + 1) =~= all.take(i as int).push(all[i as int]));
                            assert(all[i as int].0 == h);
                        }
                        vstd::seq_lib::to_multiset_build(done, h);
                        assert(state.hits@.to_multiset() =~= st.hits@.to_multiset().add(
                            batch_hits(all.take(i + 1)).to_multiset(),
                        )) by {
                            broadcast use vstd::multiset::group_multiset_axioms;
                        }
                    }
                    i += 1;
                }
                assert(all.take(n as int) =~= all);
                if closed {
                    state.done = true;
                }
                self.search = Some(state);
            },
        }
    }

    pub fn set_info(&mut self, message: String)
        ensures
            final(self).status.message == message,
            final(self).status.kind == StatusKind::Info,
            final(self).view == old(self).view,
            final(self).cwd == old(self).cwd,
            final(self).entries == old(self).entries,
            final(self).remote_files == old(self).remote_files,
            final(self).selected == old(self).selected,
            final(self).mode == old(self).mode,
            final(self).config == old(self).config,
            final(self).search == old(self).search,
            final(self).running == old(self).running,
    {
        self.status = status_of(message, StatusKind::Info);
    }

    pub fn set_success(&mut self, message: String)
        ensures
            final(self).status.message == message,
            final(self).status.kind == StatusKind::Success,
            final(self).view == old(self).view,
            final(self).cwd == old(self).cwd,
            final(self).entries == old(self).entries,
            final(self).remote_files == old(self).remote_files,
            final(self).selected == old(self).selected,
            final(self).mode == old(self).mode,
            final(self).config == old(self).config,
            final(self).search == old(self).search,
            final(self).running == old(self).running,
    {
        self.status = status_of(message, StatusKind::Success);
    }

    pub fn set_error(&mut self, message: String)
        ensures
            final(self).status.message == message,
            final(self).status.kind == StatusKind::Error,
            final(self).view == old(self).view,
            final(self).cwd == old(self).cwd,
            final(self).entries == old(self).entries,
            final(self).remote_files == old(self).remote_files,
            final(self).selected == old(self).selected,
            final(self).mode == old(self).mode,
            final(self).config == old(self).config,
            final(self).search == old(self).search,
            final(self).running == old(self).running,
    {
        self.status = status_of(message, StatusKind::Error);
    }
}


/// How creating a file or directory went.
pub enum Made {
    /// Something of that name was already there.
    Exists,
    Created,
    /// The error's text.
    Failed(String),
}

/// The name to create from what was typed: trimmed, and nothing when blank.
pub fn typed_name(buffer: &str) -> (r: Option<String>)
    ensures
        r matches Some(n) ==> n@ == trimmed(buffer@) && n@.len() > 0,
        r is None ==> trimmed(buffer@).len() == 0,
{
    let v = trim_chars(&chars_of(buffer));
    if v.len() == 0 {
        None
    } else {
        Some(string_of(&v))
    }
}

/// Whether `s` ends with `t`.
pub open spec fn ends_with(s: Seq<char>, t: Seq<char>) -> bool {
    s.len() >= t.len() && s.skip(s.len() - t.len()) == t
}

fn ends_in(s: &Vec<char>, t: &str) -> (r: bool)
    ensures
        r == ends_with(s@, t@),
{
    let tv = chars_of(t);
    if tv.len() > s.len() {
        return false;
    }
    let off = s.len() - tv.len();
    let mut i: usize = 0;
    while i < tv.len()
        invariant
            off + tv.len() == s.len(),
            i <= tv.len(),
            tv@ == t@,
            forall|k: int| 0 <= k < i ==> s@[off + k] == tv@[k],
        decreases tv.len() - i,
    {
        if s[off + i] != tv[i] {
            assert(s@.skip(off as int)[i as int] == s@[off + i]);
            return false;
        }
        i += 1;
    }
    assert(s@.skip(off as int) =~= tv@);
    true
}

/// The content type sent for a file named (in lower case) `lower`;
/// Android packages are known only when `apk` says so.
pub open spec fn mime_text(lower: Seq<char>, apk: bool) -> Seq<char> {
    if ends_with(lower, ".png"@) {
        "image/png"@
    } else if ends_with(lower, ".jpg"@) || ends_with(lower, ".jpeg"@) {
        "image/jpeg"@
    } else if ends_with(lower, ".gif"@) {
        "image/gif"@
    } else if ends_with(lower, ".pdf"@) {
        "application/pdf"@
    } else if ends_with(lower, ".txt"@) || ends_with(lower, ".md"@) {
        "text/plain"@
    } else if ends_with(lower, ".zip"@) {
        "application/zip"@
    } else if apk && ends_with(lower, ".apk"@) {
        "application/vnd.android.package-archive"@
    } else if ends_with(lower, ".mp4"@) {
        "video/mp4"@
    } else if ends_with(lower, ".mp3"@) {
        "audio/mpeg"@
    } else {
        "application/octet-stream"@
    }
}

/// The content type for `name`, by its extension in any case.
pub fn mime_type(name: &str, apk: bool) -> (r: String)
    ensures
        r@ == mime_text(lowercase_of(name@), apk),
{
    let lower = chars_of(to_lowercase(name).as_str());
    let t = if ends_in(&lower, ".png") {
        "image/png"
    } else if ends_in(&lower, ".jpg") || ends_in(&lower, ".jpeg") {
        "image/jpeg"
    } else if ends_in(&lower, ".gif") {
        "image/gif"
    } else if ends_in(&lower, ".pdf") {
        "application/pdf"
    } else if ends_in(&lower, ".txt") || ends_in(&lower, ".md") {
        "text/plain"
    } else if ends_in(&lower, ".zip") {
        "application/zip"
    } else if apk && ends_in(&lower, ".apk") {
        "application/vnd.android.package-archive"
    } else if ends_in(&lower, ".mp4") {
        "video/mp4"
    } else if ends_in(&lower, ".mp3") {
        "audio/mpeg"
    } else {
        "application/octet-stream"
    };
    String::from_str(t)
}

/// The content type the interface uploads `name` with.
pub fn mime_for(name: &str) -> (r: String)
    ensures
        r@ == mime_text(lowercase_of(name@), true),
{
    mime_type(name, true)
}

/// The link expiry of an upload started from the file manager: seven days.
pub const DEFAULT_UPLOAD_EXPIRES_IN: i64 = 604800;

/// What `upload_selected_local_file` does, returning `target`: in the file
/// manager with a file selected, the upload to make is its path under the
/// working directory, its name and its content type; with nothing or a
/// directory selected the status line says so; elsewhere nothing happens.
pub open spec fn asked_upload(a: App, b: App, target: Option<(String, String, String)>) -> bool {
    &&& keeps(a, b, false, true, false, false, false)
    &&& a.view != View::FileManager ==> target is None && b.status == a.status
    &&& a.view == View::FileManager && a.selected >= a.entries@.len() ==> target is None && refused(
        b,
        "No file selected"@,
    )
    &&& a.view == View::FileManager && a.selected < a.entries@.len() ==> {
        let e = a.entries@[a.selected as int];
        if e.parent || e.is_dir {
            target is None && refused(b, "Select a file to upload"@)
        } else {
            &&& target matches Some((path, name, mime)) && path@ == joined(a.cwd@, e.name@) && name
                == e.name && mime@ == mime_text(lowercase_of(e.name@), true)
            &&& b.status == a.status
        }
    }
}

impl App {
    /// Show what fetching the storage quota gave: the overlay opens with the
    /// figures, or with the error's text.
    pub fn apply_quota(&mut self, outcome: Result<StorageInfo, String>)
        ensures
            final(self).mode == Mode::Quota(Some(outcome)),
            keeps(*old(self), *final(self), false, false, false, false, true),
    {
        self.mode = Mode::Quota(Some(outcome));
    }

    /// The upload to make for the selected local file (see `asked_upload`);
    /// it goes out with `DEFAULT_UPLOAD_EXPIRES_IN`, then `apply_upload`.
    pub fn upload_selected_local_file(&mut self) -> (target: Option<(String, String, String)>)
        ensures
            asked_upload(*old(self), *final(self), target),
    {
        if self.view != View::FileManager {
            return None;
        }
        if self.selected >= self.entries.len() {
            self.set_error(String::from_str("No file selected"));
            return None;
        }
        let i = self.selected;
        if self.entries[i].parent || self.entries[i].is_dir {
            self.set_error(String::from_str("Select a file to upload"));
            return None;
        }
        let name = self.entries[i].name.clone();
        let path = join_path(self.cwd.as_str(), name.as_str());
        let mime = mime_for(name.as_str());
        Some((path, name, mime))
    }

    /// Record how uploading `name` went: the short download link is shown
    /// in a message and the status line reports it, or the status line
    /// carries the error.
    pub fn apply_upload(&mut self, name: &str, outcome: Result<UploadResult, String>)
        ensures
            match outcome {
                Ok(u) => {
                    &&& final(self).mode matches Mode::Message { title, text } && title@
                        == " Uploaded "@ && text == u.short_download_url
                    &&& final(self).status.message@ == "Uploaded '"@ + name@ + "'"@
                    &&& final(self).status.kind == StatusKind::Success
                },
                Err(e) => {
                    &&& final(self).mode == old(self).mode
                    &&& final(self).status.message@ == "Failed to upload '"@ + name@ + "': "@ + e@
                    &&& final(self).status.kind == StatusKind::Error
                },
            },
            final(self).view == old(self).view,
            final(self).cwd == old(self).cwd,
            final(self).entries == old(self).entries,
            final(self).remote_files == old(self).remote_files,
            final(self).selected == old(self).selected,
            final(self).config == old(self).config,
    {
        match outcome {
            Ok(u) => {
                self.mode = Mode::Message { title: String::from_str(" Uploaded "), text: u.short_download_url };
                let mut m = cat("Uploaded '", name);
                push_str(&mut m, "'");
                self.set_success(m);
            },
            Err(e) => {
                let mut m = cat("Failed to upload '", name);
                push_str(&mut m, "': ");
                push_str(&mut m, e.as_str());
                self.set_error(m);
            },
        }
    }

    /// Record how creating the typed `name` went (a file for `Touch`, a
    /// directory for `Mkdir`). True when it was created: the listing must
    /// then be read again and the cursor put on `name`.
    pub fn apply_created(&mut self, kind: InputKind, name: &str, outcome: Made) -> (created: bool)
        ensures
            created == (outcome is Created),
            match outcome {
                Made::Exists => final(self).status.message@ == "'"@ + name@ + "' already exists"@
                    && final(self).status.kind == StatusKind::Info,
                Made::Created => final(self).status.message@ == (match kind {
                    InputKind::Touch => "Created file '"@,
                    InputKind::Mkdir => "Created directory '"@,
                }) + name@ + "'"@ && final(self).status.kind == StatusKind::Success,
                Made::Failed(e) => final(self).status.message@ == (match kind {
                    InputKind::Touch => "Failed to create file: "@,
                    InputKind::Mkdir => "Failed to create directory: "@,
                }) + e@ && final(self).status.kind == StatusKind::Error,
            },
            keeps(*old(self), *final(self), false, true, false, false, false),
    {
        match outcome {
            Made::Exists => {
                let mut m = cat("'", name);
                push_str(&mut m, "' already exists");
                self.set_info(m);
                false
            },
            Made::Created => {
                let head = match kind {
                    InputKind::Touch => "Created file '",
                    InputKind::Mkdir => "Created directory '",
                };
                let mut m = cat(head, name);
                push_str(&mut m, "'");
                self.set_success(m);
                true
            },
            Made::Failed(e) => {
                let head = match kind {
                    InputKind::Touch => "Failed to create file: ",
                    InputKind::Mkdir => "Failed to create directory: ",
                };
                self.set_error(cat(head, e.as_str()));
                false
            },
        }
    }

    /// Record how deleting the local entry `name` went. True when it was
    /// deleted and the listing must be read again.
    pub fn apply_deleted(&mut self, name: &str, outcome: Result<(), String>) -> (deleted: bool)
        ensures
            deleted == (outcome is Ok),
            match outcome {
                Ok(()) => final(self).status.message@ == "Deleted '"@ + name@ + "'"@
                    && final(self).status.kind == StatusKind::Success,
                Err(e) => final(self).status.message@ == "Failed to delete '"@ + name@ + "': "@ + e@
                    && final(self).status.kind == StatusKind::Error,
            },
            keeps(*old(self), *final(self), false, true, false, false, false),
    {
        match outcome {
            Ok(()) => {
                let mut m = cat("Deleted '", name);
                push_str(&mut m, "'");
                self.set_success(m);
                true
            },
            Err(e) => {
                let mut m = cat("Failed to delete '", name);
                push_str(&mut m, "': ");
                push_str(&mut m, e.as_str());
                self.set_error(m);
                false
            },
        }
    }
}


/// After a remote delete of `id` no file with that id is left, and the
/// others keep their order.
pub proof fn lemma_deleted_id_is_gone(files: Seq<RemoteFile>, id: i64)
    ensures
        forall|i: int| 0 <= i < without_id(files, id).len() ==> (#[trigger] without_id(files, id)[i]).id != id,
        without_id(files, id).len() <= files.len(),
        (forall|i: int| 0 <= i < files.len() ==> (#[trigger] files[i]).id != id) ==> without_id(files, id) == files,
    decreases files.len(),
{
    if files.len() > 0 {
        lemma_deleted_id_is_gone(files.drop_last(), id);
        if forall|i: int| 0 <= i < files.len() ==> (#[trigger] files[i]).id != id {
            assert forall|i: int| 0 <= i < files.drop_last().len() implies (#[trigger] files.drop_last()[i]).id != id by {
                assert(files.drop_last()[i] == files[i]);
            }
            assert(files.last().id != id);
            assert(files.drop_last().push(files.last()) =~= files);
        }
    }
}

/// A forward file hop lands on the first hit of a file: the row before it
/// is in another file.
pub proof fn lemma_forward_hop_starts_a_file(hits: Seq<Hit>, sel: int, vis: int)
    requires
        0 <= sel < hits.len(),
        vis <= hits.len(),
        next_other(hits, sel + 1, vis, hit_path(hits[sel])) >= 0,
    ensures
        ({
            let n = next_other(hits, sel + 1, vis, hit_path(hits[sel]));
            &&& sel < n < vis
            &&& !same_path(hit_path(hits[n]), hit_path(hits[sel]))
            &&& !same_path(hit_path(hits[n - 1]), hit_path(hits[n]))
        }),
{
    lemma_next_other(hits, sel + 1, vis, hit_path(hits[sel]), sel);
}

proof fn lemma_next_other(hits: Seq<Hit>, i: int, end: int, cur: Seq<char>, sel: int)
    requires
        0 <= sel < i,
        sel < hits.len(),
        end <= hits.len(),
        cur == hit_path(hits[sel]),
        forall|k: int| sel <= k < i ==> same_path(hit_path(#[trigger] hits[k]), cur),
        next_other(hits, i, end, cur) >= 0,
    ensures
        i <= next_other(hits, i, end, cur) < end,
        !same_path(hit_path(hits[next_other(hits, i, end, cur)]), cur),
        same_path(hit_path(hits[next_other(hits, i, end, cur) - 1]), cur),
    decreases end - i,
{
    if i < end && same_path(hit_path(hits[i]), cur) {
        lemma_next_other(hits, i + 1, end, cur, sel);
    } else {
        assert(same_path(hit_path(hits[i - 1]), cur));
    }
}

/// A backward file hop lands on the first hit of a file: the row before it,
/// if any, is in another file, and every row from it up to the previous
/// file's last hit is in that file.
pub proof fn lemma_backward_hop_starts_a_file(hits: Seq<Hit>, j: int)
    requires
        0 <= j < hits.len(),
    ensures
        0 <= group_start(hits, j) <= j,
        group_start(hits, j) > 0 ==> !same_path(hit_path(hits[group_start(hits, j) - 1]), hit_path(hits[j])),
        forall|k: int| group_start(hits, j) <= k <= j ==> same_path(hit_path(#[trigger] hits[k]), hit_path(hits[j])),
    decreases j,
{
    if j > 0 && same_path(hit_path(hits[j - 1]), hit_path(hits[j])) {
        lemma_backward_hop_starts_a_file(hits, j - 1);
    }
}

} // verus!
