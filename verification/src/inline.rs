//! Width-aware text for the in-place terminal blocks: escape sequences occupy
//! no columns, so every width here is counted on the visible characters.

use vstd::prelude::*;

use crate::text::{chars_of, push_char, push_str, string_of};

verus! {

/// The escape character that starts a terminal control sequence.
pub const ESC: char = '\u{1b}';

/// The bell character, which may end an operating-system command.
pub const BEL: char = '\u{7}';

/// A final byte of a control sequence (`@` through `~`).
pub open spec fn is_final(c: char) -> bool {
    '@' <= c && c <= '~'
}

/// An intermediate byte of an escape sequence (space through `/`).
pub open spec fn is_intermediate(c: char) -> bool {
    ' ' <= c && c <= '/'
}

/// Length of a control sequence's body after `ESC [`: up to and including
/// its final byte, or everything left when none comes.
pub open spec fn csi_len(s: Seq<char>) -> nat
    decreases s.len(),
{
    if s.len() == 0 {
        0
    } else if is_final(s[0]) {
        1
    } else {
        1 + csi_len(s.drop_first())
    }
}

/// The control sequence's final byte is in `s`.
pub open spec fn csi_done(s: Seq<char>) -> bool
    decreases s.len(),
{
    if s.len() == 0 {
        false
    } else if is_final(s[0]) {
        true
    } else {
        csi_done(s.drop_first())
    }
}

/// Length of an operating-system command's body after `ESC ]` (a hyperlink,
/// a window title): up to and including the bell or the string terminator
/// `ESC \`, or everything left when neither comes.
pub open spec fn osc_len(s: Seq<char>) -> nat
    decreases s.len(),
{
    if s.len() == 0 {
        0
    } else if s[0] == BEL {
        1
    } else if s[0] == ESC && s.len() > 1 && s[1] == '\\' {
        2
    } else {
        1 + osc_len(s.drop_first())
    }
}

/// The command's terminator is in `s`.
pub open spec fn osc_done(s: Seq<char>) -> bool
    decreases s.len(),
{
    if s.len() == 0 {
        false
    } else if s[0] == BEL {
        true
    } else if s[0] == ESC && s.len() > 1 && s[1] == '\\' {
        true
    } else {
        osc_done(s.drop_first())
    }
}

/// Length of any other escape after `ESC`: its intermediate bytes and the
/// byte that ends them, or everything left when nothing ends them.
pub open spec fn nf_len(s: Seq<char>) -> nat
    decreases s.len(),
{
    if s.len() == 0 {
        0
    } else if is_intermediate(s[0]) {
        1 + nf_len(s.drop_first())
    } else {
        1
    }
}

/// The escape's final byte is in `s`.
pub open spec fn nf_done(s: Seq<char>) -> bool
    decreases s.len(),
{
    if s.len() == 0 {
        false
    } else if is_intermediate(s[0]) {
        nf_done(s.drop_first())
    } else {
        true
    }
}

/// How many characters after an escape character belong to its sequence: a
/// control sequence (`[`) runs to its final byte, an operating-system command
/// (`]`) to the bell or `ESC \`, any other escape to the byte after its
/// intermediates; a sequence that is never ended takes everything left.
pub open spec fn escape_len(s: Seq<char>) -> nat {
    if s.len() == 0 {
        0
    } else if s[0] == '[' {
        1 + csi_len(s.drop_first())
    } else if s[0] == ']' {
        1 + osc_len(s.drop_first())
    } else {
        nf_len(s)
    }
}

/// The sequence is ended inside `s`.
pub open spec fn escape_closed(s: Seq<char>) -> bool {
    if s.len() == 0 {
        false
    } else if s[0] == '[' {
        csi_done(s.drop_first())
    } else if s[0] == ']' {
        osc_done(s.drop_first())
    } else {
        nf_done(s)
    }
}

proof fn lemma_csi(s: Seq<char>)
    ensures
        csi_len(s) <= s.len(),
        csi_len(s) < s.len() ==> csi_done(s),
        csi_done(s) ==> csi_len(s) > 0,
    decreases s.len(),
{
    if s.len() > 0 {
        lemma_csi(s.drop_first());
    }
}

proof fn lemma_osc(s: Seq<char>)
    ensures
        osc_len(s) <= s.len(),
        osc_len(s) < s.len() ==> osc_done(s),
        osc_done(s) ==> osc_len(s) > 0,
    decreases s.len(),
{
    if s.len() > 0 {
        lemma_osc(s.drop_first());
    }
}

proof fn lemma_nf(s: Seq<char>)
    ensures
        nf_len(s) <= s.len(),
        nf_len(s) < s.len() ==> nf_done(s),
        s.len() > 0 ==> nf_len(s) > 0,
    decreases s.len(),
{
    if s.len() > 0 {
        lemma_nf(s.drop_first());
    }
}

pub proof fn lemma_escape_len(s: Seq<char>)
    ensures
        escape_len(s) <= s.len(),
        escape_len(s) < s.len() ==> escape_closed(s),
        s.len() > 0 ==> escape_len(s) > 0,
{
    if s.len() > 0 {
        lemma_csi(s.drop_first());
        lemma_osc(s.drop_first());
        lemma_nf(s);
    }
}

proof fn lemma_csi_prefix(s: Seq<char>, t: Seq<char>)
    requires
        csi_done(s),
        t.len() >= csi_len(s),
        t.take(csi_len(s) as int) == s.take(csi_len(s) as int),
    ensures
        csi_len(t) == csi_len(s),
        csi_done(t),
    decreases s.len(),
{
    let e = csi_len(s);
    lemma_csi(s);
    assert(t[0] == t.take(e as int)[0]);
    assert(s[0] == s.take(e as int)[0]);
    if !is_final(s[0]) {
        assert(t.drop_first().take(e - 1) =~= t.take(e as int).drop_first());
        assert(s.drop_first().take(e - 1) =~= s.take(e as int).drop_first());
        lemma_csi_prefix(s.drop_first(), t.drop_first());
    }
}

proof fn lemma_osc_prefix(s: Seq<char>, t: Seq<char>)
    requires
        osc_done(s),
        t.len() >= osc_len(s),
        t.take(osc_len(s) as int) == s.take(osc_len(s) as int),
    ensures
        osc_len(t) == osc_len(s),
        osc_done(t),
    decreases s.len(),
{
    let e = osc_len(s);
    lemma_osc(s);
    assert(t[0] == t.take(e as int)[0]);
    assert(s[0] == s.take(e as int)[0]);
    if e >= 2 {
        assert(t[1] == t.take(e as int)[1]);
        assert(s[1] == s.take(e as int)[1]);
    }
    if s[0] != BEL && !(s[0] == ESC && s.len() > 1 && s[1] == '\\') {
        lemma_osc(s.drop_first());
        assert(t.drop_first().take(e - 1) =~= t.take(e as int).drop_first());
        assert(s.drop_first().take(e - 1) =~= s.take(e as int).drop_first());
        lemma_osc_prefix(s.drop_first(), t.drop_first());
    }
}

proof fn lemma_nf_prefix(s: Seq<char>, t: Seq<char>)
    requires
        nf_done(s),
        t.len() >= nf_len(s),
        t.take(nf_len(s) as int) == s.take(nf_len(s) as int),
    ensures
        nf_len(t) == nf_len(s),
        nf_done(t),
    decreases s.len(),
{
    let e = nf_len(s);
    lemma_nf(s);
    assert(t[0] == t.take(e as int)[0]);
    assert(s[0] == s.take(e as int)[0]);
    if is_intermediate(s[0]) {
        assert(t.drop_first().take(e - 1) =~= t.take(e as int).drop_first());
        assert(s.drop_first().take(e - 1) =~= s.take(e as int).drop_first());
        lemma_nf_prefix(s.drop_first(), t.drop_first());
    }
}

/// An ended escape sequence ends where it ends, whatever follows it.
pub proof fn lemma_escape_len_prefix(s: Seq<char>, t: Seq<char>)
    requires
        escape_closed(s),
        t.len() >= escape_len(s),
        t.take(escape_len(s) as int) == s.take(escape_len(s) as int),
    ensures
        escape_len(t) == escape_len(s),
        escape_closed(t),
{
    let e = escape_len(s);
    lemma_escape_len(s);
    assert(t[0] == t.take(e as int)[0]);
    assert(s[0] == s.take(e as int)[0]);
    if s[0] == '[' || s[0] == ']' {
        assert(t.drop_first().take(e - 1) =~= t.take(e as int).drop_first());
        assert(s.drop_first().take(e - 1) =~= s.take(e as int).drop_first());
        if s[0] == '[' {
            lemma_csi_prefix(s.drop_first(), t.drop_first());
        } else {
            lemma_osc_prefix(s.drop_first(), t.drop_first());
        }
    } else {
        lemma_nf_prefix(s, t);
    }
}

/// The characters that occupy columns: `s` with every escape sequence removed.
pub open spec fn visible(s: Seq<char>) -> Seq<char>
    decreases s.len(),
{
    if s.len() == 0 {
        seq![]
    } else if s[0] == ESC {
        proof {
            lemma_escape_len(s.drop_first());
        }
        visible(s.skip(1 + escape_len(s.drop_first()) as int))
    } else {
        seq![s[0]].add(visible(s.drop_first()))
    }
}

/// Columns taken by one character.
pub open spec fn char_columns(c: char) -> int {
    if is_wide(c) {
        2
    } else {
        1
    }
}

/// Where the cut of an over-long line falls, given `room` columns: characters
/// are copied while they leave a column for the ellipsis, escape sequences
/// are copied whole (they take no room), and the first character that would
/// not leave that column becomes `…` (nothing at all when not even the
/// ellipsis fits).
pub open spec fn cut(s: Seq<char>, room: int) -> Seq<char>
    decreases s.len(),
{
    if s.len() == 0 {
        seq![]
    } else if s[0] == ESC {
        proof {
            lemma_escape_len(s.drop_first());
        }
        let n = 1 + escape_len(s.drop_first());
        s.take(n as int).add(cut(s.skip(n as int), room))
    } else if char_columns(s[0]) + 1 > room {
        if room >= 1 {
            seq!['…']
        } else {
            seq![]
        }
    } else {
        seq![s[0]].add(cut(s.drop_first(), room - char_columns(s[0])))
    }
}

/// Whether the cut copied any escape sequence.
pub open spec fn cut_styled(s: Seq<char>, room: int) -> bool
    decreases s.len(),
{
    if s.len() == 0 {
        false
    } else if s[0] == ESC {
        true
    } else if char_columns(s[0]) + 1 > room {
        false
    } else {
        cut_styled(s.drop_first(), room - char_columns(s[0]))
    }
}

/// The sequence that resets every attribute.
pub open spec fn reset_seq() -> Seq<char> {
    seq![ESC, '[', '0', 'm']
}

/// `s` cut to `max` columns: unchanged when it fits, otherwise cut with a
/// trailing `…`, and closed with a reset when the kept part is styled.
pub open spec fn truncated(s: Seq<char>, max: nat) -> Seq<char> {
    if columns(visible(s)) <= max {
        s
    } else if cut_styled(s, max as int) {
        cut(s, max as int) + reset_seq()
    } else {
        cut(s, max as int)
    }
}

/// `n` spaces.
pub open spec fn spaces(n: nat) -> Seq<char> {
    Seq::new(n, |i: int| ' ')
}

/// Whether `c` takes two terminal columns: Hangul Jamo, CJK ideographs and
/// symbols, Hangul syllables, fullwidth forms, and the pictographic emoji
/// blocks.
pub open spec fn is_wide(c: char) -> bool {
    ||| ('\u{1100}' <= c && c <= '\u{115f}')
    ||| c == '\u{2329}'
    ||| c == '\u{232a}'
    ||| ('\u{2e80}' <= c && c <= '\u{a4cf}' && c != '\u{303f}')
    ||| ('\u{ac00}' <= c && c <= '\u{d7a3}')
    ||| ('\u{f900}' <= c && c <= '\u{faff}')
    ||| ('\u{fe10}' <= c && c <= '\u{fe19}')
    ||| ('\u{fe30}' <= c && c <= '\u{fe6f}')
    ||| ('\u{ff00}' <= c && c <= '\u{ff60}')
    ||| ('\u{ffe0}' <= c && c <= '\u{ffe6}')
    ||| ('\u{1f300}' <= c && c <= '\u{1f64f}')
    ||| ('\u{1f900}' <= c && c <= '\u{1f9ff}')
    ||| ('\u{20000}' <= c && c <= '\u{2fffd}')
    ||| ('\u{30000}' <= c && c <= '\u{3fffd}')
}

/// Terminal columns taken by the characters of `s`.
pub open spec fn columns(s: Seq<char>) -> nat
    decreases s.len(),
{
    if s.len() == 0 {
        0
    } else {
        columns(s.drop_last()) + if is_wide(s.last()) {
            2nat
        } else {
            1nat
        }
    }
}

/// Whether `c` takes two terminal columns.
pub fn wide(c: char) -> (r: bool)
    ensures
        r == is_wide(c),
{
    ('\u{1100}' <= c && c <= '\u{115f}') || c == '\u{2329}' || c == '\u{232a}' || ('\u{2e80}'
        <= c && c <= '\u{a4cf}' && c != '\u{303f}') || ('\u{ac00}' <= c && c <= '\u{d7a3}') || (
    '\u{f900}' <= c && c <= '\u{faff}') || ('\u{fe10}' <= c && c <= '\u{fe19}') || ('\u{fe30}'
        <= c && c <= '\u{fe6f}') || ('\u{ff00}' <= c && c <= '\u{ff60}') || ('\u{ffe0}' <= c && c
        <= '\u{ffe6}') || ('\u{1f300}' <= c && c <= '\u{1f64f}') || ('\u{1f900}' <= c && c
        <= '\u{1f9ff}') || ('\u{20000}' <= c && c <= '\u{2fffd}') || ('\u{30000}' <= c && c
        <= '\u{3fffd}')
}

/// `s` cut to `width` columns, then padded with spaces to `width` columns.
pub open spec fn fitted(s: Seq<char>, width: nat) -> Seq<char> {
    let cut = truncated(s, width);
    let shown = columns(visible(cut));
    cut + spaces(if width >= shown { (width - shown) as nat } else { 0 })
}

/// Index just past the control sequence body that starts at `start`.
fn csi_end(v: &Vec<char>, start: usize) -> (m: usize)
    requires
        start <= v.len(),
    ensures
        m == start + csi_len(v@.skip(start as int)),
        m <= v.len(),
{
    let mut m: usize = start;
    while m < v.len() && !(v[m] >= '@' && v[m] <= '~')
        invariant
            start <= m <= v.len(),
            csi_len(v@.skip(start as int)) == (m - start) + csi_len(v@.skip(m as int)),
        decreases v.len() - m,
    {
        assert(v@.skip(m as int)[0] == v@[m as int]);
        assert(v@.skip(m as int).drop_first() =~= v@.skip(m + 1));
        m += 1;
    }
    if m < v.len() {
        assert(v@.skip(m as int)[0] == v@[m as int]);
        m + 1
    } else {
        assert(v@.skip(m as int).len() == 0);
        m
    }
}

/// Index just past the operating-system command body that starts at `start`.
fn osc_end(v: &Vec<char>, start: usize) -> (m: usize)
    requires
        start <= v.len(),
    ensures
        m == start + osc_len(v@.skip(start as int)),
        m <= v.len(),
{
    let mut m: usize = start;
    while m < v.len()
        invariant
            start <= m <= v.len(),
            osc_len(v@.skip(start as int)) == (m - start) + osc_len(v@.skip(m as int)),
        decreases v.len() - m,
    {
        let ghost t = v@.skip(m as int);
        assert(t[0] == v@[m as int]);
        if m + 1 < v.len() {
            assert(t[1] == v@[m + 1]);
        }
        if v[m] == BEL {
            return m + 1;
        }
        if v[m] == ESC && m + 1 < v.len() && v[m + 1] == '\\' {
            return m + 2;
        }
        assert(t.drop_first() =~= v@.skip(m + 1));
        m += 1;
    }
    assert(v@.skip(m as int).len() == 0);
    m
}

/// Index just past any other escape whose bytes start at `start`.
fn nf_end(v: &Vec<char>, start: usize) -> (m: usize)
    requires
        start <= v.len(),
    ensures
        m == start + nf_len(v@.skip(start as int)),
        m <= v.len(),
{
    let mut m: usize = start;
    while m < v.len() && v[m] >= ' ' && v[m] <= '/'
        invariant
            start <= m <= v.len(),
            nf_len(v@.skip(start as int)) == (m - start) + nf_len(v@.skip(m as int)),
        decreases v.len() - m,
    {
        assert(v@.skip(m as int)[0] == v@[m as int]);
        assert(v@.skip(m as int).drop_first() =~= v@.skip(m + 1));
        m += 1;
    }
    if m < v.len() {
        assert(v@.skip(m as int)[0] == v@[m as int]);
        m + 1
    } else {
        assert(v@.skip(m as int).len() == 0);
        m
    }
}

/// Index just past the escape sequence whose escape character is `v[i]`.
fn escape_end(v: &Vec<char>, i: usize) -> (j: usize)
    requires
        i < v.len(),
        v@[i as int] == ESC,
    ensures
        j == i + 1 + escape_len(v@.skip(i + 1)),
        j <= v.len(),
{
    let k = i + 1;
    let ghost rest = v@.skip(k as int);
    if k >= v.len() {
        assert(rest.len() == 0);
        return k;
    }
    assert(rest[0] == v@[k as int]);
    assert(rest.drop_first() =~= v@.skip(k + 1));
    if v[k] == '[' {
        csi_end(v, k + 1)
    } else if v[k] == ']' {
        osc_end(v, k + 1)
    } else {
        nf_end(v, k)
    }
}

fn visible_chars(v: &Vec<char>) -> (out: Vec<char>)
    ensures
        out@ == visible(v@),
{
    let mut out: Vec<char> = Vec::new();
    let mut i: usize = 0;
    assert(v@.skip(0) =~= v@);
    assert(out@ + visible(v@) =~= visible(v@));
    while i < v.len()
        invariant
            i <= v.len(),
            out@ + visible(v@.skip(i as int)) == visible(v@),
        decreases v.len() - i,
    {
        let c = v[i];
        if c == ESC {
            let j = escape_end(v, i);
            proof {
                assert(v@.skip(i as int)[0] == ESC);
                assert(v@.skip(i as int).drop_first() =~= v@.skip(i + 1));
                assert(v@.skip(i as int).skip(1 + escape_len(v@.skip(i + 1)) as int) =~= v@.skip(
                    j as int,
                ));
            }
            i = j;
        } else {
            proof {
                assert(v@.skip(i as int)[0] == c);
                assert(v@.skip(i as int).drop_first() =~= v@.skip(i + 1));
                assert(out@.push(c) + visible(v@.skip(i + 1)) =~= out@ + (seq![c] + visible(
                    v@.skip(i + 1),
                )));
            }
            out.push(c);
            i += 1;
        }
    }
    assert(v@.skip(i as int) =~= Seq::<char>::empty());
    assert(out@ + visible(v@.skip(i as int)) =~= out@);
    out
}

/// Columns below which a reported terminal width is not believed.
pub const MIN_USABLE: usize = 20;

/// The width used when the terminal's is unknown or implausible.
pub const FALLBACK: usize = 80;

/// `crossterm::terminal::size`: the terminal's width in columns, when it can
/// be read. Nothing is claimed of the value: it is whatever the terminal
/// reports at the moment of the call.
#[verifier::external_body]
fn terminal_columns() -> (r: Option<u16>) {
    match crossterm::terminal::size() {
        Ok((w, _)) => Some(w),
        Err(_) => None,
    }
}

/// The width to draw at, given what the terminal reported: the reported
/// width when there is one of at least `MIN_USABLE` columns, else
/// `FALLBACK`. Some pseudo-terminals report 0 rather than failing, and a 0
/// would cut every row down to a lone ellipsis.
pub fn usable_width(reported: Option<u16>) -> (w: usize)
    ensures
        w == match reported {
            Some(c) => if c as usize >= MIN_USABLE {
                c as usize
            } else {
                FALLBACK
            },
            None => FALLBACK,
        },
        w >= MIN_USABLE,
{
    match reported {
        Some(c) => if c as usize >= MIN_USABLE {
            c as usize
        } else {
            FALLBACK
        },
        None => FALLBACK,
    }
}

/// Terminal width in columns, or 80 when it cannot be determined or is
/// implausibly narrow; never under `MIN_USABLE`.
pub fn term_width() -> (w: usize)
    ensures
        w >= MIN_USABLE,
{
    usable_width(terminal_columns())
}

/// One drawn row: back to the first column, clear the row, then the line cut
/// to `width`.
pub open spec fn row_text(line: Seq<char>, width: nat) -> Seq<char> {
    seq!['\r', ESC, '[', 'K'] + truncated(line, width)
}

/// The rows of `lines`, separated by line breaks.
pub open spec fn rows_text(lines: Seq<String>, width: nat) -> Seq<char>
    decreases lines.len(),
{
    if lines.len() == 0 {
        seq![]
    } else if lines.len() == 1 {
        row_text(lines[0]@, width)
    } else {
        rows_text(lines.drop_last(), width) + seq!['\r', '\n'] + row_text(lines.last()@, width)
    }
}

/// What redrawing `lines` over a block of `prev_lines` rows writes: a move
/// back up to the block's first row (the cursor sits on its last), then
/// every row.
pub open spec fn frame_text(lines: Seq<String>, prev_lines: nat, width: nat) -> Seq<char> {
    (if prev_lines > 1 {
        seq![ESC, '['] + crate::text::decimal((prev_lines - 1) as nat) + seq!['A']
    } else {
        seq![]
    }) + rows_text(lines, width)
}

/// The text that redraws `lines` in place over a block of `prev_lines` rows,
/// each row cut to `width` columns. It never clears to the end of the
/// screen, so whatever lies below the block survives.
pub fn redraw_text(lines: &Vec<String>, prev_lines: usize, width: usize) -> (r: String)
    ensures
        r@ == frame_text(lines@, prev_lines as nat, width as nat),
{
    let mut out = String::new();
    if prev_lines > 1 {
        push_char(&mut out, ESC);
        push_char(&mut out, '[');
        crate::text::push_decimal(&mut out, (prev_lines - 1) as u64);
        push_char(&mut out, 'A');
    }
    let ghost head = out@;
    assert(head =~= if prev_lines > 1 {
        seq![ESC, '['] + crate::text::decimal((prev_lines - 1) as nat) + seq!['A']
    } else {
        seq![]
    });
    let mut i: usize = 0;
    assert(lines@.take(0) =~= Seq::<String>::empty());
    while i < lines.len()
        invariant
            i <= lines.len(),
            out@ == head + rows_text(lines@.take(i as int), width as nat),
        decreases lines.len() - i,
    {
        let ghost before = out@;
        if i > 0 {
            push_char(&mut out, '\r');
            push_char(&mut out, '\n');
        }
        push_char(&mut out, '\r');
        push_char(&mut out, ESC);
        push_char(&mut out, '[');
        push_char(&mut out, 'K');
        let cut = truncate(lines[i].as_str(), width);
        push_str(&mut out, cut.as_str());
        proof {
            let t = lines@.take(i + 1);
            assert(t.drop_last() =~= lines@.take(i as int));
            assert(t.last() == lines@[i as int]);
            if i == 0 {
                assert(out@ =~= head + rows_text(t, width as nat));
            } else {
                assert(out@ =~= head + rows_text(t, width as nat));
            }
        }
        i += 1;
    }
    assert(lines@.take(lines.len() as int) =~= lines@);
    out
}

/// Drop ANSI escape sequences so display width can be counted from the visible
/// characters alone.
pub fn strip_ansi(s: &str) -> (r: String)
    ensures
        r@ == visible(s@),
        !r@.contains(ESC),
        subseq_of(r@, s@),
        !s@.contains(ESC) ==> r@ == s@,
{
    proof {
        lemma_strip_removes_escapes_only(s@);
    }
    let v = chars_of(s);
    let out = visible_chars(&v);
    string_of(&out)
}

proof fn lemma_columns_bound(s: Seq<char>)
    ensures
        s.len() <= columns(s) <= 2 * s.len(),
    decreases s.len(),
{
    if s.len() > 0 {
        lemma_columns_bound(s.drop_last());
    }
}

proof fn lemma_visible_shorter(s: Seq<char>)
    ensures
        visible(s).len() <= s.len(),
    decreases s.len(),
{
    if s.len() > 0 {
        if s[0] == ESC {
            lemma_escape_len(s.drop_first());
            lemma_visible_shorter(s.skip(1 + escape_len(s.drop_first()) as int));
        } else {
            lemma_visible_shorter(s.drop_first());
        }
    }
}

/// `str::chars().count()` from std: how many characters `s` holds. A `str`
/// holds at most `isize::MAX` bytes and every character takes at least one,
/// so the count is at most `isize::MAX`; that bound is all the contract adds
/// to the count itself.
#[verifier::external_body]
fn char_count(s: &str) -> (n: usize)
    ensures
        n == s@.len(),
        n <= isize::MAX,
{
    s.chars().count()
}

/// Visible width of a string in terminal columns, ignoring escape
/// sequences: two columns for a wide character, one for any other.
pub fn visible_width(s: &str) -> (w: usize)
    ensures
        w == columns(visible(s@)),
{
    let count = char_count(s);
    let v = chars_of(s);
    let out = visible_chars(&v);
    proof {
        lemma_visible_shorter(s@);
    }
    let mut w: usize = 0;
    let mut i: usize = 0;
    while i < out.len()
        invariant
            i <= out.len(),
            out.len() <= isize::MAX,
            w == columns(out@.take(i as int)),
        decreases out.len() - i,
    {
        proof {
            assert(out@.take(i + 1).drop_last() =~= out@.take(i as int));
            lemma_columns_bound(out@.take(i as int));
        }
        if wide(out[i]) {
            w = w + 2;
        } else {
            w = w + 1;
        }
        i += 1;
    }
    assert(out@.take(out.len() as int) =~= out@);
    w
}

/// Copies the escape sequence that starts at `v[i]` onto `out`, returning the
/// index just past it.
fn copy_escape(v: &Vec<char>, i: usize, out: &mut Vec<char>) -> (j: usize)
    requires
        i < v.len(),
        v[i as int] == ESC,
    ensures
        j == i + 1 + escape_len(v@.skip(i + 1)),
        j <= v.len(),
        final(out)@ == old(out)@ + v@.subrange(i as int, j as int),
{
    let ghost start = out@;
    let j = escape_end(v, i);
    let mut k: usize = i;
    while k < j
        invariant
            i <= k <= j <= v.len(),
            out@ == start + v@.subrange(i as int, k as int),
        decreases j - k,
    {
        out.push(v[k]);
        assert(v@.subrange(i as int, k + 1) =~= v@.subrange(i as int, k as int).push(v[k as int]));
        k += 1;
    }
    j
}

/// Truncate to `max` visible columns, ignoring escape sequences when counting.
///
/// Escapes are copied through verbatim (they occupy no columns) so a truncated
/// line keeps its colour, and a reset closes any attribute the cut left open.
pub fn truncate(s: &str, max: usize) -> (r: String)
    ensures
        r@ == truncated(s@, max as nat),
{
    let v = chars_of(s);
    if visible_width(s) <= max {
        return string_of(&v);
    }
    let mut out: Vec<char> = Vec::new();
    let mut i: usize = 0;
    let mut shown: usize = 0;
    let mut styled = false;
    let mut done = false;
    assert(v@.skip(0) =~= v@);
    assert(out@ + cut(v@, max as int) =~= cut(v@, max as int));
    while i < v.len() && !done
        invariant
            v@ == s@,
            i <= v.len(),
            shown <= max,
            done ==> out@ == cut(v@, max as int) && styled == cut_styled(v@, max as int),
            !done ==> out@ + cut(v@.skip(i as int), max - shown) == cut(v@, max as int),
            !done ==> (styled || cut_styled(v@.skip(i as int), max - shown)) == cut_styled(
                v@,
                max as int,
            ),
        decreases 2 * (v.len() - i) + if done { 0int } else { 1 },
    {
        let ghost before = out@;
        let ghost tail = v@.skip(i as int);
        let c = v[i];
        assert(tail[0] == c);
        if c == ESC {
            let j = copy_escape(&v, i, &mut out);
            proof {
                assert(tail.drop_first() =~= v@.skip(i + 1));
                let n = 1 + escape_len(tail.drop_first());
                assert(tail.take(n as int) =~= v@.subrange(i as int, j as int));
                assert(tail.skip(n as int) =~= v@.skip(j as int));
                assert(before + cut(tail, max - shown) =~= out@ + cut(v@.skip(j as int), max - shown));
            }
            styled = true;
            i = j;
        } else {
            let w: usize = if wide(c) {
                2
            } else {
                1
            };
            if w + 1 > max - shown {
                if max - shown >= 1 {
                    out.push('…');
                    assert(out@ =~= before + seq!['…']);
                } else {
                    assert(out@ =~= before + Seq::<char>::empty());
                }
                done = true;
            } else {
                out.push(c);
                proof {
                    assert(tail.drop_first() =~= v@.skip(i + 1));
                    assert(before + cut(tail, max - shown) =~= out@ + cut(
                        v@.skip(i + 1),
                        max - (shown + w),
                    ));
                }
                shown += w;
                i += 1;
            }
        }
    }
    proof {
        if !done {
            assert(v@.skip(i as int) =~= Seq::<char>::empty());
            assert(out@ + cut(v@.skip(i as int), max - shown) =~= out@);
        }
    }
    if styled {
        out.push(ESC);
        out.push('[');
        out.push('0');
        out.push('m');
    }
    assert(styled ==> out@ =~= cut(v@, max as int) + reset_seq());
    string_of(&out)
}

/// Truncate to `width` visible columns, then pad with spaces to exactly that
/// width, so coloured columns line up.
pub fn fit(s: &str, width: usize) -> (r: String)
    ensures
        r@ == fitted(s@, width as nat),
{
    let cut = truncate(s, width);
    let shown = visible_width(cut.as_str());
    let pad: usize = if width >= shown { width - shown } else { 0 };
    let mut out = cut;
    let ghost base = out@;
    let mut k: usize = 0;
    while k < pad
        invariant
            k <= pad,
            out@ == base + spaces(k as nat),
        decreases pad - k,
    {
        push_char(&mut out, ' ');
        assert(spaces((k + 1) as nat) =~= spaces(k as nat).push(' '));
        k += 1;
    }
    out
}

/// Pad with empty rows or trim to exactly `n` rows, so the block height never
/// changes between redraws.
pub fn pad_to(lines: Vec<String>, n: usize) -> (r: Vec<String>)
    ensures
        r.len() == n,
        forall|i: int| 0 <= i < n && i < lines.len() ==> r@[i] == lines@[i],
        forall|i: int| lines.len() <= i < n ==> r@[i]@ == Seq::<char>::empty(),
{
    let mut lines = lines;
    let ghost orig = lines@;
    while lines.len() < n
        invariant
            forall|i: int| 0 <= i < orig.len() && i < lines.len() ==> lines@[i] == orig[i],
            lines.len() >= orig.len(),
            forall|i: int| orig.len() <= i < lines.len() ==> lines@[i]@ == Seq::<char>::empty(),
        decreases n - lines.len(),
    {
        lines.push(String::new());
    }
    lines.truncate(n);
    lines
}


/// Every escape sequence in `s` is closed by its letter, so nothing after
/// `s` can be swallowed by one.
pub open spec fn ends_clean(s: Seq<char>) -> bool
    decreases s.len(),
{
    if s.len() == 0 {
        true
    } else if s[0] == ESC {
        proof {
            lemma_escape_len(s.drop_first());
        }
        escape_closed(s.drop_first()) && ends_clean(s.skip(1 + escape_len(s.drop_first()) as int))
    } else {
        ends_clean(s.drop_first())
    }
}

/// A closed escape at the front of `x` is skipped by `visible`, whatever
/// follows it.
proof fn lemma_visible_after_escape(e: Seq<char>, x: Seq<char>)
    requires
        e.len() > 0,
        e[0] == ESC,
        escape_closed(e.drop_first()),
        1 + escape_len(e.drop_first()) == e.len(),
    ensures
        visible(e + x) == visible(x),
{
    let y = e + x;
    let n = e.len() as int;
    assert(y.drop_first().take(n - 1) =~= e.drop_first().take(n - 1));
    lemma_escape_len_prefix(e.drop_first(), y.drop_first());
    assert(y.skip(n) =~= x);
}

/// What `visible` makes of two texts put together, when the first leaves
/// no escape open.
pub proof fn lemma_visible_concat(s: Seq<char>, t: Seq<char>)
    requires
        ends_clean(s),
    ensures
        visible(s + t) == visible(s) + visible(t),
    decreases s.len(),
{
    if s.len() == 0 {
        assert(s + t =~= t);
    } else if s[0] == ESC {
        lemma_escape_len(s.drop_first());
        let n = 1 + escape_len(s.drop_first());
        let rest = s.skip(n as int);
        lemma_visible_concat(rest, t);
        assert(s.take(n as int).drop_first().take(n - 1) =~= s.drop_first().take(n - 1));
        lemma_escape_len_prefix(s.drop_first(), s.take(n as int).drop_first());
        assert(s + t =~= s.take(n as int) + (rest + t));
        lemma_visible_after_escape(s.take(n as int), rest + t);
    } else {
        lemma_visible_concat(s.drop_first(), t);
        assert((s + t).drop_first() =~= s.drop_first() + t);
        assert(visible(s) =~= seq![s[0]] + visible(s.drop_first()));
    }
}

/// What a cut keeps of the visible text `v` given `room` columns: the
/// characters that leave a column for the ellipsis, then `…` (nothing when
/// not even the ellipsis fits).
pub open spec fn vcut(v: Seq<char>, room: int) -> Seq<char>
    decreases v.len(),
{
    if v.len() == 0 {
        seq![]
    } else if char_columns(v[0]) + 1 > room {
        if room >= 1 {
            seq!['…']
        } else {
            seq![]
        }
    } else {
        seq![v[0]] + vcut(v.drop_first(), room - char_columns(v[0]))
    }
}

proof fn lemma_columns_concat(a: Seq<char>, b: Seq<char>)
    ensures
        columns(a + b) == columns(a) + columns(b),
    decreases b.len(),
{
    if b.len() == 0 {
        assert(a + b =~= a);
    } else {
        lemma_columns_concat(a, b.drop_last());
        assert((a + b).drop_last() =~= a + b.drop_last());
    }
}

proof fn lemma_narrow_columns(a: Seq<char>)
    requires
        forall|i: int| 0 <= i < a.len() ==> !is_wide(#[trigger] a[i]),
    ensures
        columns(a) == a.len(),
    decreases a.len(),
{
    if a.len() > 0 {
        assert(a.last() == a[a.len() - 1]);
        lemma_narrow_columns(a.drop_last());
    }
}

proof fn lemma_spaces_visible(n: nat)
    ensures
        visible(spaces(n)) == spaces(n),
        ends_clean(spaces(n)),
    decreases n,
{
    if n > 0 {
        lemma_spaces_visible((n - 1) as nat);
        assert(spaces(n).drop_first() =~= spaces((n - 1) as nat));
        assert(spaces(n)[0] == ' ');
        assert(visible(spaces(n)) =~= seq![' '] + visible(spaces((n - 1) as nat)));
    }
}

proof fn lemma_first_columns(c: char, x: Seq<char>)
    ensures
        columns(seq![c] + x) == char_columns(c) + columns(x),
{
    lemma_columns_concat(seq![c], x);
    let one = seq![c];
    assert(one.drop_last() =~= Seq::<char>::empty());
    assert(one.last() == c);
    assert(columns(one.drop_last()) == 0);
    assert(columns(one) == columns(one.drop_last()) + (if is_wide(one.last()) {
        2nat
    } else {
        1nat
    }));
}

proof fn lemma_visible_cut_tail(s: Seq<char>, room: int, t: Seq<char>)
    requires
        columns(visible(s)) >= room,
        visible(s).len() > 0,
    ensures
        visible(cut(s, room) + t) == vcut(visible(s), room) + visible(t),
    decreases s.len(),
{
    if s[0] == ESC {
        lemma_escape_len(s.drop_first());
        let n = 1 + escape_len(s.drop_first());
        let rest = s.skip(n as int);
        if escape_len(s.drop_first()) == s.drop_first().len() {
            assert(rest.len() == 0);
            assert(visible(rest) =~= Seq::<char>::empty());
        }
        assert(escape_closed(s.drop_first()));
        lemma_visible_cut_tail(rest, room, t);
        assert(s.take(n as int).drop_first().take(n - 1) =~= s.drop_first().take(n - 1));
        lemma_escape_len_prefix(s.drop_first(), s.take(n as int).drop_first());
        assert(cut(s, room) + t =~= s.take(n as int) + (cut(rest, room) + t));
        lemma_visible_after_escape(s.take(n as int), cut(rest, room) + t);
    } else {
        let c = s[0];
        let d = s.drop_first();
        assert(visible(s) =~= seq![c] + visible(d));
        assert(visible(s)[0] == c);
        assert(visible(s).drop_first() =~= visible(d));
        if char_columns(c) + 1 > room {
            if room >= 1 {
                let x = seq!['…'] + t;
                assert(cut(s, room) + t =~= x);
                assert(x.drop_first() =~= t);
                assert(visible(x) =~= seq!['…'] + visible(t));
            } else {
                assert(cut(s, room) + t =~= t);
            }
        } else {
            lemma_first_columns(c, visible(d));
            if visible(d).len() == 0 {
                assert(columns(visible(d)) == 0);
            }
            lemma_visible_cut_tail(d, room - char_columns(c), t);
            let x = cut(s, room) + t;
            assert(x =~= seq![c] + (cut(d, room - char_columns(c)) + t));
            assert(x.drop_first() =~= cut(d, room - char_columns(c)) + t);
            assert(visible(x) =~= seq![c] + visible(x.drop_first()));
        }
    }
}

/// A cut given `room` columns takes at most that many.
proof fn lemma_vcut_fits(v: Seq<char>, room: int)
    requires
        room >= 0,
    ensures
        columns(vcut(v, room)) <= room,
    decreases v.len(),
{
    if v.len() > 0 {
        if char_columns(v[0]) + 1 > room {
            if room >= 1 {
                lemma_first_columns('…', Seq::<char>::empty());
                assert(seq!['…'] + Seq::<char>::empty() =~= seq!['…']);
            }
        } else {
            lemma_vcut_fits(v.drop_first(), room - char_columns(v[0]));
            lemma_first_columns(v[0], vcut(v.drop_first(), room - char_columns(v[0])));
        }
    }
}

proof fn lemma_reset_invisible()
    ensures
        visible(reset_seq()) == Seq::<char>::empty(),
        ends_clean(reset_seq()),
{
    let r = reset_seq();
    let t = r.drop_first();
    assert(r.len() == 4 && r[0] == ESC);
    assert(t =~= seq!['[', '0', 'm']);
    let t1 = t.drop_first();
    let t2 = t1.drop_first();
    assert(t1 =~= seq!['0', 'm']);
    assert(t2 =~= seq!['m']);
    assert(!is_final('0') && is_final('m'));
    assert(t2.drop_first() =~= Seq::<char>::empty());
    assert(csi_len(t2) == 1);
    assert(csi_len(t1) == 1 + csi_len(t2));
    assert(csi_done(t2));
    assert(csi_done(t1));
    assert(escape_len(t) == 3);
    assert(escape_closed(t));
    let rest = r.skip(4);
    assert(rest =~= Seq::<char>::empty());
    assert(visible(rest) == Seq::<char>::empty());
    assert(ends_clean(rest));
    assert(visible(r) == visible(r.skip(1 + escape_len(t) as int)));
}

/// Truncation counts columns, not escape bytes: a line that fits is left
/// alone, an over-long one keeps the visible characters that leave a column
/// for the ellipsis and then `…`, and either way the result takes at most
/// `max` columns.
pub proof fn lemma_truncate_keeps_visible_prefix(s: Seq<char>, max: nat)
    ensures
        columns(visible(s)) <= max ==> truncated(s, max) == s,
        columns(visible(s)) > max ==> visible(truncated(s, max)) == vcut(visible(s), max as int),
        columns(visible(truncated(s, max))) <= max,
{
    if columns(visible(s)) > max {
        if visible(s).len() == 0 {
            assert(columns(visible(s)) == 0);
        }
        lemma_reset_invisible();
        lemma_visible_cut_tail(s, max as int, reset_seq());
        lemma_visible_cut_tail(s, max as int, seq![]);
        assert(cut(s, max as int) + seq![] =~= cut(s, max as int));
        assert(vcut(visible(s), max as int) + Seq::<char>::empty() =~= vcut(visible(s), max as int));
        lemma_vcut_fits(visible(s), max as int);
    }
}

/// `fit` lines columns up: when no escape is left open, the fitted line
/// takes exactly `width` columns.
pub proof fn lemma_fit_fills_the_width(s: Seq<char>, width: nat)
    requires
        ends_clean(s),
    ensures
        columns(visible(fitted(s, width))) == width,
{
    let c = truncated(s, width);
    lemma_truncate_keeps_visible_prefix(s, width);
    let v = visible(c);
    let pad = (width - columns(v)) as nat;
    lemma_spaces_visible(pad);
    if columns(visible(s)) <= width {
        lemma_visible_concat(s, spaces(pad));
    } else {
        if visible(s).len() == 0 {
            assert(columns(visible(s)) == 0);
        }
        lemma_reset_invisible();
        if cut_styled(s, width as int) {
            lemma_visible_cut_tail(s, width as int, reset_seq() + spaces(pad));
            lemma_visible_cut_tail(s, width as int, reset_seq());
            assert(c + spaces(pad) =~= cut(s, width as int) + (reset_seq() + spaces(pad)));
            lemma_visible_concat(reset_seq(), spaces(pad));
        } else {
            lemma_visible_cut_tail(s, width as int, spaces(pad));
            lemma_visible_cut_tail(s, width as int, seq![]);
            assert(cut(s, width as int) + seq![] =~= cut(s, width as int));
        }
    }
    assert(visible(c + spaces(pad)) =~= v + spaces(pad));
    lemma_columns_concat(v, spaces(pad));
    assert forall|i: int| 0 <= i < spaces(pad).len() implies !is_wide(#[trigger] spaces(pad)[i]) by {}
    lemma_narrow_columns(spaces(pad));
}

/// `a` can be had from `b` by leaving characters out.
pub open spec fn subseq_of(a: Seq<char>, b: Seq<char>) -> bool
    decreases b.len(),
{
    a.len() == 0 || (b.len() > 0 && ((a[0] == b[0] && subseq_of(a.drop_first(), b.drop_first()))
        || subseq_of(a, b.drop_first())))
}

proof fn lemma_subseq_skip(a: Seq<char>, b: Seq<char>, k: int)
    requires
        0 <= k <= b.len(),
        subseq_of(a, b.skip(k)),
    ensures
        subseq_of(a, b),
    decreases k,
{
    if k == 0 {
        assert(b.skip(0) =~= b);
    } else {
        assert(b.skip(k - 1).drop_first() =~= b.skip(k));
        assert(subseq_of(a, b.skip(k - 1)));
        lemma_subseq_skip(a, b, k - 1);
    }
}

/// What `strip_ansi` leaves holds no escape character and keeps the other
/// characters in order; a text without an escape comes back unchanged, so
/// stripping twice is stripping once.
pub proof fn lemma_strip_removes_escapes_only(s: Seq<char>)
    ensures
        !visible(s).contains(ESC),
        subseq_of(visible(s), s),
        !s.contains(ESC) ==> visible(s) == s,
        visible(visible(s)) == visible(s),
    decreases s.len(),
{
    if s.len() > 0 {
        if s[0] == ESC {
            lemma_escape_len(s.drop_first());
            let n = 1 + escape_len(s.drop_first());
            lemma_strip_removes_escapes_only(s.skip(n as int));
            lemma_subseq_skip(visible(s), s, n as int);
            assert(s.contains(ESC)) by {
                assert(s[0] == ESC);
            }
        } else {
            lemma_strip_removes_escapes_only(s.drop_first());
            let v = visible(s);
            assert(v =~= seq![s[0]] + visible(s.drop_first()));
            assert(!v.contains(ESC)) by {
                assert forall|i: int| 0 <= i < v.len() implies v[i] != ESC by {
                    if i > 0 {
                        assert(v[i] == visible(s.drop_first())[i - 1]);
                    }
                }
            }
            if !s.contains(ESC) {
                assert(!s.drop_first().contains(ESC)) by {
                    assert forall|i: int| 0 <= i < s.drop_first().len() implies s.drop_first()[i]
                        != ESC by {
                        assert(s.drop_first()[i] == s[i + 1]);
                    }
                }
                assert(v =~= s);
            }
            assert(v.drop_first() =~= visible(s.drop_first()));
            assert(v[0] == s[0]);
            assert(subseq_of(v, s));
            assert(visible(v) =~= seq![s[0]] + visible(visible(s.drop_first())));
        }
    } else {
        assert(visible(s).len() == 0);
    }
}

} // verus!
